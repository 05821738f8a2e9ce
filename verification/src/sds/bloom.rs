//! The Bloom filter by which a channel remembers message ids.

use vstd::prelude::*;
use vstd::utf8::encode_utf8;
use crate::codec::{sha256, sha256_of};
use crate::text::clone_bytes;

verus! {

/// Size of the filter in bytes.
pub const BLOOM_BYTES: usize = 16384;

/// Size of the filter in bits.
pub const BLOOM_BITS: usize = 131072;

/// How many bits an id sets.
pub const BLOOM_HASHES: usize = 8;

/// The bit that the `i`-th hash of an id picks: the low bits of the `i`-th
/// group of four bytes in the id's SHA-256 digest.
pub open spec fn position(id: Seq<char>, i: int) -> int {
    let d = sha256_of(encode_utf8(id));
    (d[4 * i] + 256 * d[4 * i + 1] + 65536 * d[4 * i + 2]) % (BLOOM_BITS as int)
}

/// Whether bit `p` of the filter is set.
pub open spec fn bit(filter: Seq<u8>, p: int) -> bool {
    filter[p / 8] & (1u8 << ((p % 8) as u8)) != 0
}

/// The filter with bit `p` set.
pub open spec fn with_bit(filter: Seq<u8>, p: int) -> Seq<u8> {
    filter.update(p / 8, filter[p / 8] | (1u8 << ((p % 8) as u8)))
}

/// The filter with the first `n` bits of an id set.
pub open spec fn with_hashes(filter: Seq<u8>, id: Seq<char>, n: nat) -> Seq<u8>
    decreases n,
{
    if n == 0 {
        filter
    } else {
        with_bit(with_hashes(filter, id, (n - 1) as nat), position(id, n - 1))
    }
}

/// The filter with an id added.
pub open spec fn with_id(filter: Seq<u8>, id: Seq<char>) -> Seq<u8> {
    with_hashes(filter, id, BLOOM_HASHES as nat)
}

/// Whether the filter answers that it holds an id: all bits of the id are set.
pub open spec fn holds(filter: Seq<u8>, id: Seq<char>) -> bool {
    forall|i: int| 0 <= i < BLOOM_HASHES ==> bit(filter, #[trigger] position(id, i))
}

/// The filter that holds nothing.
pub open spec fn empty_filter() -> Seq<u8> {
    Seq::new(BLOOM_BYTES as nat, |k: int| 0u8)
}

proof fn with_bit_bits(filter: Seq<u8>, p: int, j: int)
    requires
        filter.len() == BLOOM_BYTES,
        0 <= p < BLOOM_BITS,
        0 <= j < BLOOM_BITS,
    ensures
        with_bit(filter, p).len() == BLOOM_BYTES,
        bit(with_bit(filter, p), j) <==> bit(filter, j) || j == p,
{
    let x = filter[p / 8];
    let k = (p % 8) as u8;
    let m = (j % 8) as u8;
    assert((x | (1u8 << k)) & (1u8 << m) != 0 <==> (x & (1u8 << m) != 0 || m == k)) by (bit_vector)
        requires
            k < 8,
            m < 8,
    ;
}

proof fn with_hashes_bits(filter: Seq<u8>, id: Seq<char>, n: nat, j: int)
    requires
        filter.len() == BLOOM_BYTES,
        0 <= j < BLOOM_BITS,
    ensures
        with_hashes(filter, id, n).len() == BLOOM_BYTES,
        bit(with_hashes(filter, id, n), j) <==> bit(filter, j) || exists|i: int|
            0 <= i < n && #[trigger] position(id, i) == j,
    decreases n,
{
    if n > 0 {
        let before = with_hashes(filter, id, (n - 1) as nat);
        with_hashes_bits(filter, id, (n - 1) as nat, j);
        with_bit_bits(before, position(id, n - 1), j);
    }
}

/// Adding an id sets the bits of that id and leaves every other bit as it was.
pub proof fn with_id_bits(filter: Seq<u8>, id: Seq<char>, j: int)
    requires
        filter.len() == BLOOM_BYTES,
        0 <= j < BLOOM_BITS,
    ensures
        with_id(filter, id).len() == BLOOM_BYTES,
        bit(with_id(filter, id), j) <==> bit(filter, j) || exists|i: int|
            0 <= i < BLOOM_HASHES && #[trigger] position(id, i) == j,
{
    with_hashes_bits(filter, id, BLOOM_HASHES as nat, j);
}

/// A filter never forgets: an id that was added is held, and whatever was held
/// before an addition is held after it.
pub proof fn no_false_negatives(filter: Seq<u8>, id: Seq<char>)
    requires
        filter.len() == BLOOM_BYTES,
    ensures
        with_id(filter, id).len() == BLOOM_BYTES,
        holds(with_id(filter, id), id),
        forall|other: Seq<char>| holds(filter, other) ==> #[trigger] holds(with_id(filter, id), other),
{
    with_id_bits(filter, id, 0);
    assert forall|i: int| 0 <= i < BLOOM_HASHES implies bit(
        with_id(filter, id),
        #[trigger] position(id, i),
    ) by {
        with_id_bits(filter, id, position(id, i));
    }
    assert forall|other: Seq<char>| holds(filter, other) implies #[trigger] holds(
        with_id(filter, id),
        other,
    ) by {
        assert forall|i: int| 0 <= i < BLOOM_HASHES implies bit(
            with_id(filter, id),
            #[trigger] position(other, i),
        ) by {
            with_id_bits(filter, id, position(other, i));
        }
    }
}

/// A fresh filter holds no id at all.
pub proof fn empty_filter_holds_nothing(id: Seq<char>)
    ensures
        !holds(empty_filter(), id),
{
    let p = position(id, 0);
    let k = (p % 8) as u8;
    assert(0u8 & (1u8 << k) == 0) by (bit_vector);
    assert(!bit(empty_filter(), p));
}

/// A fixed-size Bloom filter over message ids.
#[derive(Debug)]
pub struct SdsBloomFilter {
    bytes: Vec<u8>,
}

impl View for SdsBloomFilter {
    type V = Seq<u8>;

    closed spec fn view(&self) -> Seq<u8> {
        self.bytes@
    }
}

impl SdsBloomFilter {
    /// The filter has its full size.
    pub open spec fn wf(&self) -> bool {
        self@.len() == BLOOM_BYTES
    }

    /// An empty filter.
    pub fn new() -> (res: SdsBloomFilter)
        ensures
            res.wf(),
            res@ == empty_filter(),
    {
        let bytes: Vec<u8> = vec![0u8; BLOOM_BYTES];
        assert(bytes@ =~= empty_filter());
        SdsBloomFilter { bytes }
    }

    /// Adds an id.
    pub fn set(&mut self, id: &str)
        requires
            old(self).wf(),
        ensures
            final(self).wf(),
            final(self)@ == with_id(old(self)@, id@),
            holds(final(self)@, id@),
    {
        let digest = sha256(id.as_bytes());
        let mut i: usize = 0;
        while i < BLOOM_HASHES
            invariant
                0 <= i <= BLOOM_HASHES,
                digest@ == sha256_of(encode_utf8(id@)),
                digest@.len() == 32,
                self@.len() == BLOOM_BYTES,
                self@ == with_hashes(old(self)@, id@, i as nat),
            decreases BLOOM_HASHES - i,
        {
            let p: usize = digest_position(&digest, i);
            let mask: u8 = 1u8 << ((p % 8) as u8);
            let old_byte: u8 = self.bytes[p / 8];
            self.bytes.set(p / 8, old_byte | mask);
            i = i + 1;
        }
        proof {
            no_false_negatives(old(self)@, id@);
        }
    }

    /// Whether the filter holds an id.
    pub fn check(&self, id: &str) -> (res: bool)
        requires
            self.wf(),
        ensures
            res == holds(self@, id@),
    {
        let digest = sha256(id.as_bytes());
        let mut i: usize = 0;
        while i < BLOOM_HASHES
            invariant
                0 <= i <= BLOOM_HASHES,
                digest@ == sha256_of(encode_utf8(id@)),
                digest@.len() == 32,
                self@.len() == BLOOM_BYTES,
                forall|k: int| 0 <= k < i ==> bit(self@, #[trigger] position(id@, k)),
            decreases BLOOM_HASHES - i,
        {
            let p: usize = digest_position(&digest, i);
            let mask: u8 = 1u8 << ((p % 8) as u8);
            if self.bytes[p / 8] & mask == 0 {
                assert(!bit(self@, position(id@, i as int)));
                return false;
            }
            i = i + 1;
        }
        true
    }

    /// Whether the filter holds an id; what it answers may be a false positive,
    /// never a false negative.
    pub fn probably_contains(&self, id: &str) -> (res: bool)
        requires
            self.wf(),
        ensures
            res == holds(self@, id@),
    {
        self.check(id)
    }

    /// The filter as bytes.
    pub fn to_bytes(&self) -> (res: Vec<u8>)
        ensures
            res@ == self@,
    {
        clone_bytes(self.bytes.as_slice())
    }

    /// Reads a filter from bytes; bytes of any other size are refused.
    pub fn from_bytes(bytes: &[u8]) -> (res: Option<SdsBloomFilter>)
        ensures
            res is Some <==> bytes@.len() == BLOOM_BYTES,
            res matches Some(f) ==> f@ == bytes@ && f.wf(),
    {
        if bytes.len() == BLOOM_BYTES {
            Some(SdsBloomFilter { bytes: clone_bytes(bytes) })
        } else {
            None
        }
    }
}

/// The bit that the `i`-th group of a digest picks.
fn digest_position(digest: &Vec<u8>, i: usize) -> (res: usize)
    requires
        digest@.len() == 32,
        i < BLOOM_HASHES,
    ensures
        res == (digest@[4 * i] + 256 * digest@[4 * i + 1] + 65536 * digest@[4 * i + 2]) % (
        BLOOM_BITS as int),
        res < BLOOM_BITS,
{
    let low: usize = digest[4 * i] as usize;
    let middle: usize = digest[4 * i + 1] as usize;
    let high: usize = digest[4 * i + 2] as usize;
    (low + 256 * middle + 65536 * high) % BLOOM_BITS
}

/// The filter answers for an id by the bits of that id alone: it holds the id exactly
/// where all eight of them are set, so that two filters that agree on these bits agree
/// on the id.
pub proof fn a_filter_answers_by_the_bits_of_the_id(a: Seq<u8>, b: Seq<u8>, id: Seq<char>)
    ensures
        holds(a, id) <==> {
            &&& bit(a, position(id, 0)) && bit(a, position(id, 1))
            &&& bit(a, position(id, 2)) && bit(a, position(id, 3))
            &&& bit(a, position(id, 4)) && bit(a, position(id, 5))
            &&& bit(a, position(id, 6)) && bit(a, position(id, 7))
        },
        (forall|i: int|
            0 <= i < 8 ==> (bit(a, #[trigger] position(id, i)) <==> bit(b, position(id, i))))
            ==> (holds(a, id) <==> holds(b, id)),
        forall|i: int| 0 <= i < 8 ==> 0 <= #[trigger] position(id, i) < 8 * 16384,
{
}

} // verus!
