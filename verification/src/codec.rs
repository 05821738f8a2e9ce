//! Digests and text encodings of bytes.

use base64::Engine;
use k256::sha2::Digest;
use vstd::prelude::*;
use crate::text::opt_bytes;

verus! {

/// What `k256::sha2::Sha256::digest` returns for the given bytes.
pub uninterp spec fn sha256_of(data: Seq<u8>) -> Seq<u8>;

/// `k256::sha2::Sha256::digest`: the SHA-256 digest, thirty-two bytes that
/// depend on the input alone.
#[verifier::external_body]
pub(crate) fn sha256(data: &[u8]) -> (res: Vec<u8>)
    ensures
        res@ == sha256_of(data@),
        res@.len() == 32,
{
    k256::sha2::Sha256::digest(data).to_vec()
}

/// The lower-case hexadecimal digit for a value below sixteen.
pub open spec fn hex_digit(d: int) -> char {
    if d < 10 {
        ('0' as u32 + d) as char
    } else {
        ('a' as u32 + (d - 10)) as char
    }
}

/// Two lower-case hexadecimal digits per byte, the high one first.
pub open spec fn hex_text(data: Seq<u8>) -> Seq<char> {
    Seq::new(
        2 * data.len(),
        |i: int|
            if i % 2 == 0 {
                hex_digit(data[i / 2] as int / 16)
            } else {
                hex_digit(data[i / 2] as int % 16)
            },
    )
}

/// `hex::encode`: each byte as two lower-case hexadecimal digits.
#[verifier::external_body]
pub(crate) fn hex_encode(data: &[u8]) -> (res: String)
    ensures
        res@ == hex_text(data@),
{
    hex::encode(data)
}

/// The value of a hexadecimal digit of either case.
pub open spec fn hex_value(c: char) -> Option<int> {
    if '0' <= c <= '9' {
        Some(c as int - '0' as int)
    } else if 'a' <= c <= 'f' {
        Some(c as int - 'a' as int + 10)
    } else if 'A' <= c <= 'F' {
        Some(c as int - 'A' as int + 10)
    } else {
        None
    }
}

/// Whether a text is an even number of hexadecimal digits.
pub open spec fn is_hex(s: Seq<char>) -> bool {
    &&& s.len() % 2 == 0
    &&& forall|i: int| 0 <= i < s.len() ==> hex_value(#[trigger] s[i]) is Some
}

/// The bytes that an even number of hexadecimal digits stand for.
pub open spec fn hex_bytes(s: Seq<char>) -> Seq<u8> {
    Seq::new(
        s.len() / 2,
        |i: int| (hex_value(s[2 * i])->0 * 16 + hex_value(s[2 * i + 1])->0) as u8,
    )
}

/// The text that `hex::decode` gives as its reason for refusing a text.
pub uninterp spec fn hex_fault(s: Seq<char>) -> Seq<char>;

/// `hex::decode`: accepts an even number of hexadecimal digits of either case
/// and nothing else, and reads two digits per byte. The error is its message.
#[verifier::external_body]
pub(crate) fn hex_decode(s: &str) -> (res: Result<Vec<u8>, String>)
    ensures
        res is Ok <==> is_hex(s@),
        res matches Ok(bytes) ==> bytes@ == hex_bytes(s@),
        res matches Err(fault) ==> fault@ == hex_fault(s@),
{
    hex::decode(s).map_err(|e| e.to_string())
}

/// The character for six bits in the standard Base64 alphabet.
pub open spec fn sextet(n: int) -> char {
    if n < 26 {
        ('A' as u32 + n) as char
    } else if n < 52 {
        ('a' as u32 + (n - 26)) as char
    } else if n < 62 {
        ('0' as u32 + (n - 52)) as char
    } else if n == 62 {
        '+'
    } else {
        '/'
    }
}

/// Standard Base64 with padding: four characters for every three bytes, and for
/// one or two bytes at the end.
pub open spec fn base64_text(data: Seq<u8>) -> Seq<char>
    decreases data.len(),
{
    let a = data[0] as int;
    let b = data[1] as int;
    let c = data[2] as int;
    if data.len() == 0 {
        seq![]
    } else if data.len() == 1 {
        seq![sextet(a / 4), sextet(a % 4 * 16), '=', '=']
    } else if data.len() == 2 {
        seq![sextet(a / 4), sextet(a % 4 * 16 + b / 16), sextet(b % 16 * 4), '=']
    } else {
        seq![
            sextet(a / 4),
            sextet(a % 4 * 16 + b / 16),
            sextet(b % 16 * 4 + c / 64),
            sextet(c % 64),
        ] + base64_text(data.skip(3))
    }
}

/// The bytes whose Base64 text this is, where it is one.
pub open spec fn base64_bytes(s: Seq<char>) -> Option<Seq<u8>> {
    if exists|data: Seq<u8>| base64_text(data) == s {
        Some(choose|data: Seq<u8>| base64_text(data) == s)
    } else {
        None
    }
}

/// `base64::engine::general_purpose::STANDARD.encode`: standard Base64 with
/// padding.
#[verifier::external_body]
pub(crate) fn base64_encode(data: &[u8]) -> (res: String)
    ensures
        res@ == base64_text(data@),
{
    base64::engine::general_purpose::STANDARD.encode(data)
}

/// `base64::engine::general_purpose::STANDARD.decode`: gives the bytes whose
/// Base64 text this is, and nothing for any other text. Missing padding and
/// stray bits in the last character are refused.
#[verifier::external_body]
fn base64_read(s: &str) -> (res: Option<Vec<u8>>)
    ensures
        res is Some ==> base64_text(res->0@) == s@,
        res is None ==> forall|data: Seq<u8>| base64_text(data) != s@,
{
    base64::engine::general_purpose::STANDARD.decode(s).ok()
}

/// Decodes Base64.
pub fn base64_decode(s: &str) -> (res: Option<Vec<u8>>)
    ensures
        opt_bytes(res) == base64_bytes(s@),
{
    let res = base64_read(s);
    proof {
        if res is Some {
            base64_round_trip(res->0@);
        }
    }
    res
}

proof fn sextet_is_injective(m: int, n: int)
    requires
        0 <= m < 64,
        0 <= n < 64,
        sextet(m) == sextet(n),
    ensures
        m == n,
{
}

proof fn sextet_is_no_padding(n: int)
    requires
        0 <= n < 64,
    ensures
        sextet(n) != '=',
{
}

/// Different bytes have different Base64 texts.
proof fn base64_is_injective(x: Seq<u8>, y: Seq<u8>)
    requires
        base64_text(x) == base64_text(y),
    ensures
        x == y,
    decreases x.len(),
{
    let s = base64_text(x);
    let t = base64_text(y);
    if x.len() == 0 {
        assert(t.len() == 0);
        assert(y.len() == 0);
        assert(x =~= y);
    } else {
        assert(s.len() >= 4);
        assert(y.len() > 0);
        assert(s[0] == t[0] && s[1] == t[1] && s[2] == t[2] && s[3] == t[3]);
        let (a, b, c) = (x[0] as int, x[1] as int, x[2] as int);
        let (d, e, f) = (y[0] as int, y[1] as int, y[2] as int);
        sextet_is_injective(a / 4, d / 4);
        if x.len() == 1 {
            if y.len() >= 2 {
                sextet_is_no_padding(if y.len() == 2 {
                    e % 16 * 4
                } else {
                    e % 16 * 4 + f / 64
                });
            }
            sextet_is_injective(a % 4 * 16, d % 4 * 16);
            assert(x =~= y);
        } else if x.len() == 2 {
            sextet_is_no_padding(b % 16 * 4);
            if y.len() >= 3 {
                sextet_is_no_padding(f % 64);
            }
            assert(y.len() == 2);
            sextet_is_injective(a % 4 * 16 + b / 16, d % 4 * 16 + e / 16);
            sextet_is_injective(b % 16 * 4, e % 16 * 4);
            assert(a == d && b == e);
            assert(x =~= y);
        } else {
            sextet_is_no_padding(c % 64);
            assert(y.len() >= 3);
            sextet_is_injective(a % 4 * 16 + b / 16, d % 4 * 16 + e / 16);
            sextet_is_injective(b % 16 * 4 + c / 64, e % 16 * 4 + f / 64);
            sextet_is_injective(c % 64, f % 64);
            assert(a == d && b == e && c == f);
            assert(s.skip(4) =~= base64_text(x.skip(3)));
            assert(t.skip(4) =~= base64_text(y.skip(3)));
            base64_is_injective(x.skip(3), y.skip(3));
            assert(x =~= seq![x[0], x[1], x[2]] + x.skip(3));
            assert(y =~= seq![y[0], y[1], y[2]] + y.skip(3));
        }
    }
}

/// The Base64 text of some bytes is read back as those bytes.
pub proof fn base64_round_trip(data: Seq<u8>)
    ensures
        base64_bytes(base64_text(data)) == Some(data),
{
    let s = base64_text(data);
    let found = choose|d: Seq<u8>| base64_text(d) == s;
    assert(base64_text(data) == s);
    base64_is_injective(found, data);
}

/// The hexadecimal text of some bytes is read back as those bytes.
pub proof fn hex_round_trip(data: Seq<u8>)
    ensures
        is_hex(hex_text(data)),
        hex_bytes(hex_text(data)) == data,
{
    let s = hex_text(data);
    assert forall|i: int| 0 <= i < s.len() implies hex_value(#[trigger] s[i]) is Some by {}
    assert forall|i: int| 0 <= i < data.len() implies hex_bytes(s)[i] == data[i] by {
        assert(s[2 * i] == hex_digit(data[i] as int / 16));
        assert(s[2 * i + 1] == hex_digit(data[i] as int % 16));
    }
    assert(hex_bytes(s) =~= data);
}

} // verus!
