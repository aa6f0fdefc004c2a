//! Hexadecimal text of byte strings (the `hex` crate), and the two places
//! where the storage layer shows keys as hex: the sqlcipher key pragma and
//! the peer-identity fingerprint.

use vstd::prelude::*;
use vstd::string::*;

verus! {

/// The hex digit of a value below 16, in lower or upper case.
pub open spec fn hex_digit(v: int, upper: bool) -> char {
    if v < 10 {
        (48 + v) as char
    } else if upper {
        (55 + v) as char
    } else {
        (87 + v) as char
    }
}

/// Two hex digits per byte, high nibble first.
pub open spec fn hex_text(s: Seq<u8>, upper: bool) -> Seq<char> {
    Seq::new(
        2 * s.len(),
        |i: int|
            if i % 2 == 0 {
                hex_digit(s[i / 2] as int / 16, upper)
            } else {
                hex_digit(s[i / 2] as int % 16, upper)
            },
    )
}

/// `hex::encode`: the lower-case hex text of `data`.
#[verifier::external_body]
pub(crate) fn hex_encode(data: &[u8]) -> (res: String)
    ensures
        res@ == hex_text(data@, false),
{
    hex::encode(data)
}

/// `hex::encode_upper`: the upper-case hex text of `data`.
#[verifier::external_body]
pub(crate) fn hex_encode_upper(data: &[u8]) -> (res: String)
    ensures
        res@ == hex_text(data@, true),
{
    hex::encode_upper(data)
}

/// The statement that unlocks the encrypted database with a raw key:
/// `PRAGMA key = "x'<lower-case hex of the key>'";`.
pub open spec fn key_pragma(key: Seq<u8>) -> Seq<char> {
    "PRAGMA key = \"x'"@ + hex_text(key, false) + "'\";"@
}

/// Builds the sqlcipher statement that sets the database key.
pub fn database_key_pragma(key: &[u8]) -> (res: String)
    ensures
        res@ == key_pragma(key@),
{
    let mut res = String::from_str("PRAGMA key = \"x'");
    let hex = hex_encode(key);
    res.append(hex.as_str());
    res.append("'\";");
    res
}

/// The fingerprint under which a peer identity key is shown: its
/// upper-case hex text.
pub fn peer_identity_hex(identity: &[u8]) -> (res: String)
    ensures
        res@ == hex_text(identity@, true),
{
    hex_encode_upper(identity)
}

} // verus!
