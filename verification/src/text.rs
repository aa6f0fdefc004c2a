//! Text primitives of the standard library that vstd does not specify.

use core::str::Utf8Error;
use vstd::prelude::*;
use vstd::utf8::{
    decode_utf8, encode_utf8, is_char_boundary, is_leading_byte_width_1, partial_valid_utf8,
    partial_valid_utf8_extend_ascii_block, valid_utf8,
};

verus! {

/// Error of a byte string that is not UTF-8.
#[verifier::external_type_specification]
#[verifier::external_body]
pub struct ExUtf8Error(Utf8Error);

/// `std::str::from_utf8`: succeeds exactly when `v` is valid UTF-8, and
/// then views the same bytes as a string.
#[verifier::external_body]
pub(crate) fn str_from_utf8(v: &[u8]) -> (res: Result<&str, Utf8Error>)
    ensures
        (res is Ok) == valid_utf8(v@),
        res is Ok ==> res->Ok_0@ == decode_utf8(v@),
{
    core::str::from_utf8(v)
}

/// `String::insert`: inserts `ch` at byte index `idx`, which must be a
/// character boundary (the function panics otherwise).
#[verifier::external_body]
pub(crate) fn string_insert(s: &mut String, idx: usize, ch: char)
    requires
        is_char_boundary(encode_utf8(old(s)@), idx as int),
    ensures
        encode_utf8(final(s)@) == encode_utf8(old(s)@).take(idx as int) + encode_utf8(seq![ch])
            + encode_utf8(old(s)@).skip(idx as int),
{
    s.insert(idx, ch)
}

/// `String::len`: the number of bytes of the string.
#[verifier::external_body]
pub(crate) fn string_len(s: &String) -> (res: usize)
    ensures
        res == encode_utf8(s@).len(),
{
    s.len()
}

/// Every byte is ASCII.
pub open spec fn all_ascii(s: Seq<u8>) -> bool {
    forall|i: int| 0 <= i < s.len() ==> #[trigger] s[i] < 128
}

/// ASCII text is valid UTF-8.
pub proof fn lemma_ascii_valid_utf8(s: Seq<u8>)
    requires
        all_ascii(s),
    ensures
        valid_utf8(s),
{
    assert forall|i: int| 0 <= 0 <= i < s.len() <= s.len() implies #[trigger] is_leading_byte_width_1(
        s[i],
    ) by {
        assert(s[i] < 128);
    }
    assert(s.subrange(0, 0) =~= Seq::<u8>::empty());
    assert(partial_valid_utf8(s, 0));
    partial_valid_utf8_extend_ascii_block(s, 0, s.len() as int);
    assert(s.subrange(0, s.len() as int) =~= s);
}

} // verus!
