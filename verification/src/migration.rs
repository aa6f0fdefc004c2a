//! Reading the names of the files that the old file-based store kept, to
//! move sessions and identities into the database.
//!
//! A session file is named `ADDR_ID` and an identity file `remote_ADDR`;
//! the name is split at underscores the way `str::split('_')` does.

use crate::decimal::{
    decimal, is_digit, lemma_decimal_ascii, lemma_decimal_value, lemma_parse_decimal_u32,
    parse_u32, parse_u32_spec,
};
use crate::protocol_store::{path_component, session_file_name_spec, DEFAULT_DEVICE_ID, UNDERSCORE};
use crate::text::{lemma_ascii_valid_utf8, str_from_utf8};
use vstd::prelude::*;
use vstd::utf8::{valid_utf8, valid_utf8_concat};

verus! {

/// The end of the segment that starts at `from`: the first underscore at
/// or after `from`, or the end of `s`.
pub open spec fn segment_end(s: Seq<u8>, from: int) -> int
    decreases s.len() - from,
{
    if from >= s.len() {
        s.len() as int
    } else if s[from] == UNDERSCORE {
        from
    } else {
        segment_end(s, from + 1)
    }
}

/// The bytes of `remote`, the first segment of an identity file name.
pub open spec fn remote_word() -> Seq<u8> {
    seq![114u8, 101u8, 109u8, 111u8, 116u8, 101u8]
}

/// The address and device id that a session file name holds: a name of at
/// least three bytes of UTF-8, whose first segment is the address and
/// whose second segment reads as a `u32`.
pub open spec fn session_file_address(name: Seq<u8>) -> Option<(Seq<u8>, u32)> {
    if name.len() < 3 || !valid_utf8(name) {
        None
    } else {
        let k = segment_end(name, 0);
        if k >= name.len() {
            None
        } else {
            match parse_u32_spec(name.subrange(k + 1, segment_end(name, k + 1))) {
                Some(id) => Some((name.take(k), id)),
                None => None,
            }
        }
    }
}

/// The address that an identity file name holds: its second segment, when
/// the name is UTF-8 and has one.
pub open spec fn identity_file_address(name: Seq<u8>) -> Option<Seq<u8>> {
    if !valid_utf8(name) {
        None
    } else {
        let k = segment_end(name, 0);
        if k >= name.len() {
            None
        } else {
            Some(name.subrange(k + 1, segment_end(name, k + 1)))
        }
    }
}

/// A stretch without underscores ends the segment where the next
/// underscore, or the end, comes.
proof fn lemma_segment_end_at(s: Seq<u8>, from: int, to: int)
    requires
        0 <= from <= to <= s.len(),
        forall|i: int| from <= i < to ==> s[i] != UNDERSCORE,
        to == s.len() || s[to] == UNDERSCORE,
    ensures
        segment_end(s, from) == to,
    decreases to - from,
{
    if from < to {
        lemma_segment_end_at(s, from + 1, to);
    }
}

/// The session file that the file-based store wrote for an address and a
/// device is read back as that address and device, as long as the path
/// component is UTF-8 without underscores and the device id is not
/// negative.
pub proof fn lemma_session_file_name_migrates(addr: Seq<u8>, device_id: i32)
    requires
        path_component(addr).len() > 0,
        valid_utf8(path_component(addr)),
        forall|i: int| 0 <= i < path_component(addr).len() ==> #[trigger] path_component(addr)[i]
            != UNDERSCORE,
        device_id >= 0,
    ensures
        session_file_address(session_file_name_spec(addr, device_id)) == Some(
            (path_component(addr), device_id as u32),
        ),
{
    let comp = path_component(addr);
    let d = decimal(device_id as nat);
    let name = session_file_name_spec(addr, device_id);
    lemma_decimal_value(device_id as nat);
    lemma_decimal_ascii(device_id as nat, 0, 0);
    lemma_ascii_valid_utf8(d);
    lemma_ascii_valid_utf8(seq![UNDERSCORE]);
    valid_utf8_concat(seq![UNDERSCORE], d);
    valid_utf8_concat(comp, seq![UNDERSCORE] + d);
    assert(name =~= comp + (seq![UNDERSCORE] + d));
    let k = comp.len() as int;
    assert forall|i: int| 0 <= i < k implies name[i] != UNDERSCORE by {
        assert(name[i] == comp[i]);
    }
    lemma_segment_end_at(name, 0, k);
    assert forall|i: int| k + 1 <= i < name.len() implies name[i] != UNDERSCORE by {
        assert(name[i] == d[i - k - 1]);
        assert(is_digit(d[i - k - 1]));
    }
    lemma_segment_end_at(name, k + 1, name.len() as int);
    assert(name.subrange(k + 1, name.len() as int) =~= d);
    assert(name.take(k) =~= comp);
    lemma_parse_decimal_u32(device_id as u32, 0);
}

/// The end of the segment of `s` that starts at `from`.
fn find_segment_end(s: &[u8], from: usize) -> (res: usize)
    requires
        from <= s@.len(),
    ensures
        res == segment_end(s@, from as int),
        from <= res <= s@.len(),
{
    let mut i = from;
    while i < s.len()
        invariant
            from <= i <= s@.len(),
            segment_end(s@, from as int) == segment_end(s@, i as int),
        decreases s@.len() - i,
    {
        if s[i] == UNDERSCORE {
            return i;
        }
        i = i + 1;
    }
    i
}

/// The bytes of `s` from `start` to `end`.
fn sub_slice(s: &[u8], start: usize, end: usize) -> (res: &[u8])
    requires
        start <= end <= s@.len(),
    ensures
        res@ == s@.subrange(start as int, end as int),
{
    let (head, _) = s.split_at(end);
    let (_, mid) = head.split_at(start);
    proof {
        assert(mid@ =~= s@.subrange(start as int, end as int));
    }
    mid
}

/// The address and device id of the session file `name`, if the name has
/// that form.
pub fn parse_session_file_name(name: &[u8]) -> (res: Option<(&[u8], u32)>)
    ensures
        match res {
            Some((a, id)) => session_file_address(name@) == Some((a@, id)),
            None => session_file_address(name@) is None,
        },
{
    if name.len() < 3 {
        return None;
    }
    match str_from_utf8(name) {
        Ok(_) => {},
        Err(_) => {
            return None;
        },
    }
    let k = find_segment_end(name, 0);
    if k >= name.len() {
        return None;
    }
    let k2 = find_segment_end(name, k + 1);
    let id_text = sub_slice(name, k + 1, k2);
    match parse_u32(id_text) {
        Some(id) => {
            let addr = sub_slice(name, 0, k);
            proof {
                assert(addr@ =~= name@.take(k as int));
            }
            Some((addr, id))
        },
        None => None,
    }
}

/// The address of the identity file `name`, if the name has a second
/// segment.  The first segment of a UTF-8 name must be `remote` (the
/// function panics otherwise).
pub fn parse_identity_file_name(name: &[u8]) -> (res: Option<&[u8]>)
    requires
        valid_utf8(name@) ==> name@.take(segment_end(name@, 0)) == remote_word(),
    ensures
        match res {
            Some(a) => identity_file_address(name@) == Some(a@),
            None => identity_file_address(name@) is None,
        },
{
    match str_from_utf8(name) {
        Ok(_) => {},
        Err(_) => {
            return None;
        },
    }
    let k = find_segment_end(name, 0);
    if k >= name.len() {
        return None;
    }
    let k2 = find_segment_end(name, k + 1);
    Some(sub_slice(name, k + 1, k2))
}

/// The two formats of a stored identity key.
#[derive(Clone, Copy, Debug, PartialEq, Eq, Structural)]
pub enum IdentityKeyFormat {
    /// The old format: the 32 bytes of the DJB public key.
    DjbPublicKey,
    /// The new format: the 33-byte encoded identity key.
    Encoded,
}

/// The format of a stored identity key by its length; any other length is
/// an error that reports the length.
pub fn identity_key_format(contents: &[u8]) -> (res: Result<IdentityKeyFormat, usize>)
    ensures
        contents@.len() == 32 ==> res == Ok::<IdentityKeyFormat, usize>(
            IdentityKeyFormat::DjbPublicKey,
        ),
        contents@.len() == 33 ==> res == Ok::<IdentityKeyFormat, usize>(IdentityKeyFormat::Encoded),
        contents@.len() != 32 && contents@.len() != 33 ==> res == Err::<IdentityKeyFormat, usize>(
            contents@.len() as usize,
        ),
{
    let n = contents.len();
    if n == 32 {
        Ok(IdentityKeyFormat::DjbPublicKey)
    } else if n == 33 {
        Ok(IdentityKeyFormat::Encoded)
    } else {
        Err(n)
    }
}

/// What to do with a record (session or identity) of a phone-number
/// address when moving it to the UUID address of the same recipient.
#[derive(Clone, Copy, Debug, PartialEq, Eq, Structural)]
pub enum MoveDecision {
    /// There is no record under the phone number.
    Nothing,
    /// Store the record under the UUID and delete the old one.
    Move,
    /// A record exists under the UUID already: refuse to overwrite it.
    Refuse,
}

/// The decision for one record: move it when it exists under the phone
/// number and not yet under the UUID.
pub fn move_decision(old_present: bool, new_present: bool) -> (res: MoveDecision)
    ensures
        !old_present ==> res == MoveDecision::Nothing,
        old_present && new_present ==> res == MoveDecision::Refuse,
        old_present && !new_present ==> res == MoveDecision::Move,
{
    if !old_present {
        MoveDecision::Nothing
    } else if new_present {
        MoveDecision::Refuse
    } else {
        MoveDecision::Move
    }
}

/// The devices whose records are moved: the sub-devices found for the
/// phone number, then the primary device.
pub fn e164_migration_devices(sub_devices: &[i32]) -> (res: Vec<i32>)
    ensures
        res@ == sub_devices@.push(DEFAULT_DEVICE_ID),
{
    let mut res: Vec<i32> = Vec::new();
    let mut i: usize = 0;
    while i < sub_devices.len()
        invariant
            i <= sub_devices@.len(),
            res@ == sub_devices@.take(i as int),
        decreases sub_devices@.len() - i,
    {
        res.push(sub_devices[i]);
        proof {
            assert(sub_devices@.take(i + 1) == sub_devices@.take(i as int).push(sub_devices@[i as int]));
        }
        i = i + 1;
    }
    res.push(DEFAULT_DEVICE_ID);
    proof {
        assert(sub_devices@.take(sub_devices@.len() as int) == sub_devices@);
    }
    res
}

} // verus!
