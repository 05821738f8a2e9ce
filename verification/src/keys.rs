//! Signing keys: from bytes, from a key file's text, and fresh ones.

use k256::ecdsa::SigningKey as Secp256k1Key;
use vstd::prelude::*;
use crate::codec::{
    hex_bytes, hex_decode, hex_encode, hex_fault, hex_round_trip, hex_text, is_hex, hex_digit,
};
use crate::error::NodeError;
use crate::text::{
    clone_bytes, decimal, decimal_text, is_space, join2, join3, trim, trimmed, trimmed_end,
    trimmed_start,
};

verus! {

/// Bytes as a number, the highest byte first.
pub open spec fn big_endian(bytes: Seq<u8>) -> nat
    decreases bytes.len(),
{
    if bytes.len() == 0 {
        0
    } else {
        big_endian(bytes.drop_last()) * 256 + bytes.last() as nat
    }
}

/// The order of the group of secp256k1.
pub open spec fn group_order() -> nat {
    0xffff_ffff_ffff_ffff_ffff_ffff_ffff_fffeu128 as nat * (u128::MAX as nat + 1)
        + 0xbaae_dce6_af48_a03b_bfd2_5e8c_d036_4141u128 as nat
}

/// Whether bytes are a secret key: thirty-two of them, above zero and below the
/// order of the group.
pub open spec fn is_secret(bytes: Seq<u8>) -> bool {
    bytes.len() == 32 && 0 < big_endian(bytes) < group_order()
}

/// The compressed public point of a secret key.
pub uninterp spec fn public_point(secret: Seq<u8>) -> Seq<u8>;

/// `k256::ecdsa::SigningKey::from_bytes`, then its verifying key's compressed
/// point: a key for every number above zero and below the order of the group,
/// and for no other; the point is thirty-three bytes that depend on the secret
/// alone. The error is its message.
#[verifier::external_body]
fn derive_public_point(secret: &[u8]) -> (res: Result<Vec<u8>, String>)
    requires
        secret@.len() == 32,
    ensures
        res is Ok <==> is_secret(secret@),
        res is Ok ==> res->Ok_0@ == public_point(secret@),
        res is Ok ==> res->Ok_0@.len() == 33,
        res is Err ==> res->Err_0@ == "signature error"@,
{
    let key = Secp256k1Key::from_bytes(secret.into()).map_err(|e| e.to_string())?;
    Ok(key.verifying_key().to_encoded_point(true).as_bytes().to_vec())
}

/// `k256::ecdsa::SigningKey::random` with the operating system's randomness: some
/// secret key.
#[verifier::external_body]
fn random_secret() -> (res: Vec<u8>)
    ensures
        is_secret(res@),
{
    Secp256k1Key::random(&mut k256::elliptic_curve::rand_core::OsRng).to_bytes().to_vec()
}

/// A signing key with its public key.
pub struct SigningKey {
    secret: Vec<u8>,
    public_hex: String,
}

/// The public key of a secret key: its compressed point in hexadecimal.
pub open spec fn public_key_of(secret: Seq<u8>) -> Seq<char> {
    hex_text(public_point(secret))
}

impl View for SigningKey {
    type V = Seq<u8>;

    closed spec fn view(&self) -> Seq<u8> {
        self.secret@
    }
}

impl SigningKey {
    /// The bytes are a secret key, and the public key is its own.
    pub closed spec fn wf(&self) -> bool {
        &&& is_secret(self.secret@)
        &&& self.public_hex@ == public_key_of(self.secret@)
        &&& self.public_hex@.len() == 66
    }

    /// The key with the given secret bytes.
    pub fn from_bytes(secret: &[u8]) -> (res: Result<SigningKey, String>)
        requires
            secret@.len() == 32,
        ensures
            res is Ok <==> is_secret(secret@),
            res is Ok ==> res->Ok_0.wf() && res->Ok_0@ == secret@,
            res is Err ==> res->Err_0@ == "signature error"@,
    {
        match derive_public_point(secret) {
            Ok(point) => Ok(
                SigningKey {
                    secret: clone_bytes(secret),
                    public_hex: hex_encode(point.as_slice()),
                },
            ),
            Err(e) => Err(e),
        }
    }

    /// A random key.
    pub fn random() -> (res: SigningKey)
        ensures
            res.wf(),
            is_secret(res@),
    {
        let secret = random_secret();
        let derived = derive_public_point(secret.as_slice());
        let point = match derived {
            Ok(p) => p,
            Err(_) => Vec::new(),
        };
        SigningKey { public_hex: hex_encode(point.as_slice()), secret }
    }

    /// The secret bytes.
    pub fn to_bytes(&self) -> (res: Vec<u8>)
        ensures
            res@ == self@,
    {
        clone_bytes(self.secret.as_slice())
    }

    /// The public key: sixty-six hexadecimal digits.
    pub fn public_key_hex(&self) -> (res: &str)
        requires
            self.wf(),
        ensures
            res@ == public_key_of(self@),
            res@.len() == 66,
    {
        self.public_hex.as_str()
    }

    /// The text by which a key file holds this key.
    pub fn keyfile_text(&self) -> (res: String)
        ensures
            res@ == hex_text(self@),
    {
        hex_encode(self.secret.as_slice())
    }
}

/// The message with which a key file's text is refused, or nothing where it is a
/// key: hexadecimal, with or without white space round it, of thirty-two bytes
/// that are a secret key.
pub open spec fn keyfile_fault(path: Seq<char>, text: Seq<char>) -> Option<Seq<char>> {
    let digits = trimmed(text);
    if !is_hex(digits) {
        Some("invalid hex in keyfile "@ + path + ": "@ + hex_fault(digits))
    } else if hex_bytes(digits).len() != 32 {
        Some(
            "keyfile "@ + path + " contains "@ + decimal(hex_bytes(digits).len())
                + " bytes, expected 32"@,
        )
    } else if !is_secret(hex_bytes(digits)) {
        Some("invalid signing key in "@ + path + ": "@ + "signature error"@)
    } else {
        None
    }
}

/// The secret bytes in a key file's text.
pub open spec fn hex_keyfile(text: Seq<char>) -> Seq<u8> {
    hex_bytes(trimmed(text))
}

/// Reads a signing key from a key file's text; `path` names the file in errors.
pub fn parse_keyfile(path: &str, text: &str) -> (res: Result<SigningKey, NodeError>)
    ensures
        match keyfile_fault(path@, text@) {
            None => res is Ok && res->Ok_0.wf() && res->Ok_0@ == hex_keyfile(text@),
            Some(fault) => res is Err && res->Err_0.is_other(fault),
        },
{
    let digits = trim(text);
    let bytes = match hex_decode(digits.as_str()) {
        Ok(b) => b,
        Err(e) => return Err(
            NodeError::Other(
                join3(join2("invalid hex in keyfile ", path).as_str(), ": ", e.as_str()),
            ),
        ),
    };
    if bytes.len() != 32 {
        let count = decimal_text(bytes.len() as u64);
        let start = join3("keyfile ", path, " contains ");
        return Err(
            NodeError::Other(join3(start.as_str(), count.as_str(), " bytes, expected 32")),
        );
    }
    match SigningKey::from_bytes(bytes.as_slice()) {
        Ok(key) => Ok(key),
        Err(e) => Err(
            NodeError::Other(
                join3(join2("invalid signing key in ", path).as_str(), ": ", e.as_str()),
            ),
        ),
    }
}

/// The error of a step in handling a key file: what failed, which file, why.
pub fn keyfile_error(what: &str, path: &str, why: &str) -> (res: NodeError)
    ensures
        res.is_other(what@ + " "@ + path@ + ": "@ + why@),
{
    NodeError::Other(join3(join3(what, " ", path).as_str(), ": ", why))
}

proof fn hex_has_no_space(data: Seq<u8>)
    ensures
        trimmed(hex_text(data)) == hex_text(data),
{
    let s = hex_text(data);
    assert forall|i: int| 0 <= i < s.len() implies !is_space(#[trigger] s[i]) by {
        let d = if i % 2 == 0 {
            data[i / 2] as int / 16
        } else {
            data[i / 2] as int % 16
        };
        assert(s[i] == hex_digit(d));
    }
    if s.len() > 0 {
        assert(!is_space(s[0]));
        assert(!is_space(s[s.len() - 1]));
    }
    assert(trimmed_start(s) == s);
    assert(trimmed_end(s) == s);
}

/// A key that is written to a key file is read back as the same key.
pub proof fn keyfile_round_trip(path: Seq<char>, secret: Seq<u8>)
    requires
        is_secret(secret),
    ensures
        keyfile_fault(path, hex_text(secret)) is None,
        hex_keyfile(hex_text(secret)) == secret,
{
    hex_has_no_space(secret);
    hex_round_trip(secret);
}

/// A key file is accepted exactly where it holds, apart from white space round it,
/// sixty-four hexadecimal digits of a secret key.
pub proof fn a_keyfile_holds_one_key(path: Seq<char>, text: Seq<char>)
    ensures
        keyfile_fault(path, text) is None <==> {
            &&& is_hex(trimmed(text))
            &&& trimmed(text).len() == 64
            &&& is_secret(hex_bytes(trimmed(text)))
        },
{
}

} // verus!
