//! Display form of a safety number.

use crate::text::{string_insert, string_len};
use vstd::prelude::*;
use vstd::utf8::{
    encode_utf8, encode_utf8_valid_utf8, is_char_boundary, is_char_boundary_iff_not_is_continuation_byte,
    is_ascii_chars, is_ascii_chars_encode_utf8, is_continuation_byte, valid_utf8,
};

verus! {

/// ASCII space.
pub const SPACE: u8 = 32;

/// A 60-byte fingerprint cut into twelve groups of five, separated by
/// single spaces: byte `j` of the result is a space when `j mod 6 = 5`,
/// and otherwise byte `j - j / 6` of the fingerprint.
pub open spec fn grouped(b: Seq<u8>) -> Seq<u8> {
    Seq::new(71, |j: int| if j % 6 == 5 { SPACE } else { b[j - j / 6] })
}

/// The bytes after `k` spaces have been inserted: the first `k` groups are
/// in their final form, the rest of the fingerprint follows.
pub open spec fn partly_grouped(b: Seq<u8>, k: int) -> Seq<u8> {
    Seq::new(
        (60 + k) as nat,
        |j: int|
            if j < 6 * k {
                if j % 6 == 5 {
                    SPACE
                } else {
                    b[j - j / 6]
                }
            } else {
                b[j - k]
            },
    )
}

/// The byte offsets at which the groups of a 60-byte fingerprint start
/// are character boundaries (always so for an ASCII fingerprint).
pub open spec fn groups_on_boundaries(b: Seq<u8>) -> bool {
    forall|k: int| 1 <= k <= 11 ==> is_char_boundary(b, #[trigger] (5 * k))
}

/// Pads a 60-digit safety number for display: twelve groups of five
/// digits separated by spaces.  A string of any other byte length is left
/// as it is.
pub fn pad_fingerprint(fp: &mut String)
    requires
        encode_utf8(old(fp)@).len() == 60 ==> groups_on_boundaries(encode_utf8(old(fp)@)),
    ensures
        encode_utf8(old(fp)@).len() == 60 ==> encode_utf8(final(fp)@) == grouped(
            encode_utf8(old(fp)@),
        ),
        encode_utf8(old(fp)@).len() != 60 ==> final(fp)@ == old(fp)@,
{
    let ghost chars0 = fp@;
    let ghost b = encode_utf8(chars0);
    proof {
        encode_utf8_valid_utf8(chars0);
    }
    if string_len(fp) == 60 {
        proof {
            assert(b.len() == 60);
            assert(encode_utf8(fp@) =~= partly_grouped(b, 0));
            let sp = seq![' '];
            assert(is_ascii_chars(sp));
            is_ascii_chars_encode_utf8(sp);
            assert(' ' as u8 == SPACE);
            assert(encode_utf8(sp) =~= seq![SPACE]);
        }
        // twelve groups, eleven spaces.
        let mut i: usize = 1;
        while i < 12
            invariant
                1 <= i <= 12,
                b.len() == 60,
                valid_utf8(b),
                groups_on_boundaries(b),
                encode_utf8(seq![' ']) == seq![SPACE],
                encode_utf8(fp@) == partly_grouped(b, i - 1),
            decreases 12 - i,
        {
            proof {
                let cur = encode_utf8(fp@);
                encode_utf8_valid_utf8(fp@);
                let idx = 6 * i - 1;
                assert(cur[idx] == b[5 * i]);
                assert(is_char_boundary(b, 5 * i));
                is_char_boundary_iff_not_is_continuation_byte(cur, idx);
                assert(!is_continuation_byte(cur[idx])) by {
                    assert(valid_utf8(b));
                    is_char_boundary_iff_not_is_continuation_byte(b, 5 * i);
                }
            }
            string_insert(fp, 6 * i - 1, ' ');
            proof {
                let prev = partly_grouped(b, i - 1);
                assert(encode_utf8(fp@) =~= partly_grouped(b, i as int));
            }
            i = i + 1;
        }
        proof {
            assert(partly_grouped(b, 11) =~= grouped(b));
        }
    }
}

} // verus!
