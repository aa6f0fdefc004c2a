//! The identity part of the protocol store and the naming of the files of
//! the file-based key store: sessions, identities and pre-keys.

use crate::decimal::{
    decimal, decimal_i32, decimal_padded, decimal_signed, decimal_u32, decimal_u32_padded,
    lemma_decimal_ascii, lemma_parse_decimal_i32, lemma_parse_decimal_u32, parse_i32,
    parse_i32_spec, parse_u32,
    parse_u32_spec,
};
use crate::quirk::DJB_TYPE;
use crate::text::{all_ascii, lemma_ascii_valid_utf8, str_from_utf8};
use vstd::prelude::*;
use vstd::string::*;
use vstd::utf8::{decode_utf8_encode_utf8, valid_utf8, valid_utf8_concat};

verus! {

/// Device id of the primary device of an account.
pub const DEFAULT_DEVICE_ID: i32 = 1;

/// ASCII `'+'`.
pub const PLUS: u8 = 43;

/// ASCII `'_'`.
pub const UNDERSCORE: u8 = 95;

/// Errors of reading the stored identity.
#[derive(Debug, Clone, Copy, PartialEq, Eq, Structural)]
pub enum ProtocolStoreError {
    /// The registration-id file is not UTF-8.
    InvalidRegistrationIdText,
    /// The registration-id file does not hold a decimal `u32`.
    InvalidRegistrationId,
}

/// Our identity key pair and registration id.
pub struct ProtocolStore {
    /// The 32-byte public key (without key-type byte) followed by the
    /// 32-byte private key.
    identity_key: Vec<u8>,
    regid: u32,
}

/// The stored identity key of a key pair: the public key without its
/// key-type byte, then the private key.
pub open spec fn identity_key_of_pair(public: Seq<u8>, private: Seq<u8>) -> Seq<u8> {
    public.drop_first() + private
}

/// The key pair of a stored identity key: the DJB type byte and the first
/// 32 bytes, and the rest.
pub open spec fn pair_of_identity_key(key: Seq<u8>) -> (Seq<u8>, Seq<u8>) {
    (seq![DJB_TYPE] + key.take(32), key.skip(32))
}

impl ProtocolStore {
    /// The stored identity key.
    pub closed spec fn identity_key(self) -> Seq<u8> {
        self.identity_key@
    }

    /// The registration id.
    pub closed spec fn regid(self) -> u32 {
        self.regid
    }

    /// A store without identity, for tests.
    pub fn invalid() -> (res: Self)
        ensures
            res.identity_key() == Seq::<u8>::empty(),
            res.regid() == 0,
    {
        Self { identity_key: Vec::new(), regid: 0 }
    }

    /// The store of a freshly generated identity key pair: the 33-byte
    /// public key must carry the DJB type byte and the private key must be
    /// 32 bytes long.
    pub fn from_key_pair(public: &[u8], private: &[u8], regid: u32) -> (res: Self)
        requires
            public@.len() == 33,
            public@[0] == DJB_TYPE,
            private@.len() == 32,
        ensures
            res.identity_key() == identity_key_of_pair(public@, private@),
            res.regid() == regid,
    {
        let mut identity_key: Vec<u8> = Vec::new();
        let mut i: usize = 1;
        while i < 33
            invariant
                1 <= i <= 33,
                public@.len() == 33,
                identity_key@ == public@.subrange(1, i as int),
            decreases 33 - i,
        {
            identity_key.push(public[i]);
            proof {
                assert(identity_key@ =~= public@.subrange(1, i + 1));
            }
            i = i + 1;
        }
        let mut j: usize = 0;
        while j < 32
            invariant
                j <= 32,
                private@.len() == 32,
                identity_key@ == public@.drop_first() + private@.take(j as int),
            decreases 32 - j,
        {
            identity_key.push(private[j]);
            proof {
                assert(identity_key@ =~= public@.drop_first() + private@.take(j + 1));
            }
            j = j + 1;
        }
        proof {
            assert(private@.take(32) =~= private@);
        }
        Self { identity_key, regid }
    }

    /// Opens the store from the contents of the registration-id file and
    /// of the identity-key file.  The registration id must be UTF-8 text
    /// that `str::parse::<u32>` accepts.
    pub fn open(regid_contents: &[u8], identity_key: Vec<u8>) -> (res: Result<Self, ProtocolStoreError>)
        ensures
            !valid_utf8(regid_contents@) ==> res == Err::<Self, ProtocolStoreError>(
                ProtocolStoreError::InvalidRegistrationIdText,
            ),
            valid_utf8(regid_contents@) && parse_u32_spec(regid_contents@) is None ==> res == Err::<
                Self,
                ProtocolStoreError,
            >(ProtocolStoreError::InvalidRegistrationId),
            valid_utf8(regid_contents@) && parse_u32_spec(regid_contents@) is Some ==> res is Ok
                && res->Ok_0.regid() == parse_u32_spec(regid_contents@)->Some_0
                && res->Ok_0.identity_key() == identity_key@,
    {
        match str_from_utf8(regid_contents) {
            Ok(_) => {},
            Err(_) => {
                return Err(ProtocolStoreError::InvalidRegistrationIdText);
            },
        }
        match parse_u32(regid_contents) {
            Some(regid) => Ok(Self { identity_key, regid }),
            None => Err(ProtocolStoreError::InvalidRegistrationId),
        }
    }

    /// What is written to the registration-id file: the decimal id.
    pub fn regid_file_contents(&self) -> (res: Vec<u8>)
        ensures
            res@ == decimal(self.regid() as nat),
    {
        decimal_u32(self.regid)
    }

    /// What is written to the identity-key file: the stored identity key.
    pub fn identity_key_file_contents(&self) -> (res: Vec<u8>)
        ensures
            res@ == self.identity_key(),
    {
        self.identity_key.clone()
    }

    /// The identity key pair `(public, private)`: the public key gets its
    /// DJB type byte back.
    pub fn identity_key_pair(&self) -> (res: (Vec<u8>, Vec<u8>))
        requires
            self.identity_key().len() >= 32,
        ensures
            (res.0@, res.1@) == pair_of_identity_key(self.identity_key()),
    {
        let mut public: Vec<u8> = Vec::new();
        public.push(DJB_TYPE);
        let mut i: usize = 0;
        while i < 32
            invariant
                i <= 32,
                self.identity_key@.len() >= 32,
                public@ == seq![DJB_TYPE] + self.identity_key@.take(i as int),
            decreases 32 - i,
        {
            public.push(self.identity_key[i]);
            proof {
                assert(public@ =~= seq![DJB_TYPE] + self.identity_key@.take(i + 1));
            }
            i = i + 1;
        }
        let mut private: Vec<u8> = Vec::new();
        let n = self.identity_key.len();
        let mut j: usize = 32;
        while j < n
            invariant
                32 <= j <= n,
                n == self.identity_key@.len(),
                private@ == self.identity_key@.subrange(32, j as int),
            decreases n - j,
        {
            private.push(self.identity_key[j]);
            proof {
                assert(private@ =~= self.identity_key@.subrange(32, j + 1));
            }
            j = j + 1;
        }
        (public, private)
    }

    /// Our registration id.
    pub fn local_registration_id(&self) -> (res: u32)
        ensures
            res == self.regid(),
    {
        self.regid
    }
}

/// Splitting the stored identity key of a key pair gives the pair back.
pub proof fn lemma_identity_key_round_trip(public: Seq<u8>, private: Seq<u8>)
    requires
        public.len() == 33,
        public[0] == DJB_TYPE,
        private.len() == 32,
    ensures
        pair_of_identity_key(identity_key_of_pair(public, private)) == (public, private),
{
    let k = identity_key_of_pair(public, private);
    assert(k.take(32) =~= public.drop_first());
    assert(seq![DJB_TYPE] + public.drop_first() =~= public);
    assert(k.skip(32) =~= private);
}

/// Width of the zero-padded number that names a pre-key file.
pub const KEY_FILE_NAME_WIDTH: usize = 9;

/// The part of an address that names its files: the address without a
/// leading `'+'`.
pub open spec fn path_component(addr: Seq<u8>) -> Seq<u8> {
    if addr.len() > 0 && addr[0] == PLUS {
        addr.drop_first()
    } else {
        addr
    }
}

/// The bytes of `remote_`, the prefix of the identity file of a peer.
pub open spec fn remote_prefix() -> Seq<u8> {
    seq![114u8, 101u8, 109u8, 111u8, 116u8, 101u8, 95u8]
}

/// The name of the session file of an address and device: the path
/// component, `'_'` and the decimal device id.
pub open spec fn session_file_name_spec(addr: Seq<u8>, device_id: i32) -> Seq<u8> {
    path_component(addr) + seq![UNDERSCORE] + decimal_signed(device_id as int)
}

/// The name of the identity file of a peer: `remote_` and the path
/// component.
pub open spec fn identity_file_name_spec(addr: Seq<u8>) -> Seq<u8> {
    remote_prefix() + path_component(addr)
}

/// The address as a path component: without a leading `'+'`.  The address
/// must not be empty and the component must be UTF-8 (the function panics
/// otherwise).
pub fn addr_to_path_component(addr: &[u8]) -> (res: &str)
    requires
        addr@.len() > 0,
        valid_utf8(path_component(addr@)),
    ensures
        res.spec_bytes() == path_component(addr@),
{
    let rest: &[u8] = if addr[0] == PLUS {
        let (_, r) = addr.split_at(1);
        proof {
            assert(r@ =~= addr@.drop_first());
        }
        r
    } else {
        addr
    };
    match str_from_utf8(rest) {
        Ok(s) => {
            proof {
                decode_utf8_encode_utf8(rest@);
            }
            s
        },
        Err(_) => {
            proof {
                assert(false);
            }
            ""
        },
    }
}

/// Appends the bytes of `src` to `dst`.
fn extend_bytes(dst: &mut Vec<u8>, src: &[u8])
    ensures
        final(dst)@ == old(dst)@ + src@,
{
    let mut i: usize = 0;
    while i < src.len()
        invariant
            i <= src@.len(),
            dst@ == old(dst)@ + src@.take(i as int),
        decreases src@.len() - i,
    {
        dst.push(src[i]);
        proof {
            assert(src@.take(i + 1) == src@.take(i as int).push(src@[i as int]));
        }
        i = i + 1;
    }
    proof {
        assert(src@.take(src@.len() as int) == src@);
    }
}

/// The name of the session file of the address `addr` (UTF-8 once a
/// leading `'+'` is dropped) and the device `device_id`.
pub fn session_file_name(addr: &[u8], device_id: i32) -> (res: Vec<u8>)
    requires
        addr@.len() > 0,
        valid_utf8(path_component(addr@)),
    ensures
        res@ == session_file_name_spec(addr@, device_id),
        valid_utf8(res@),
{
    let comp = addr_to_path_component(addr);
    let mut res = comp.as_bytes_vec();
    res.push(UNDERSCORE);
    let digits = decimal_i32(device_id);
    extend_bytes(&mut res, digits.as_slice());
    proof {
        let tail = seq![UNDERSCORE] + decimal_signed(device_id as int);
        lemma_decimal_ascii(0, 0, device_id as int);
        assert(all_ascii(tail)) by {
            assert forall|i: int| 0 <= i < tail.len() implies #[trigger] tail[i] < 128 by {
                if i > 0 {
                    assert(tail[i] == decimal_signed(device_id as int)[i - 1]);
                }
            }
        }
        lemma_ascii_valid_utf8(tail);
        valid_utf8_concat(path_component(addr@), tail);
        assert(res@ =~= path_component(addr@) + tail);
    }
    res
}

/// The name of the identity file of the peer `addr` (UTF-8 once a leading
/// `'+'` is dropped).
pub fn identity_file_name(addr: &[u8]) -> (res: Vec<u8>)
    requires
        addr@.len() > 0,
        valid_utf8(path_component(addr@)),
    ensures
        res@ == identity_file_name_spec(addr@),
        valid_utf8(res@),
{
    let comp = addr_to_path_component(addr);
    let mut res: Vec<u8> = Vec::new();
    res.push(114u8);
    res.push(101u8);
    res.push(109u8);
    res.push(111u8);
    res.push(116u8);
    res.push(101u8);
    res.push(95u8);
    let bytes = comp.as_bytes();
    extend_bytes(&mut res, bytes);
    proof {
        assert(all_ascii(remote_prefix()));
        lemma_ascii_valid_utf8(remote_prefix());
        valid_utf8_concat(remote_prefix(), path_component(addr@));
        assert(res@ =~= remote_prefix() + path_component(addr@));
    }
    res
}

/// The name of the file of the pre-key (or signed pre-key) `id`: its
/// decimal number padded with zeros to nine digits.
pub fn key_file_name(id: u32) -> (res: Vec<u8>)
    ensures
        res@ == decimal_padded(id as nat, KEY_FILE_NAME_WIDTH as nat),
        valid_utf8(res@),
{
    let res = decimal_u32_padded(id, KEY_FILE_NAME_WIDTH);
    proof {
        lemma_decimal_ascii(id as nat, KEY_FILE_NAME_WIDTH as nat, 0);
        lemma_ascii_valid_utf8(res@);
    }
    res
}

/// The bytes of the listed file names.
pub open spec fn names_view(names: Seq<Vec<u8>>) -> Seq<Seq<u8>> {
    names.map_values(|v: Vec<u8>| v@)
}

/// The text after `comp` and `'_'` in a session file name, when the name
/// has that form and at least one byte after the underscore.
pub open spec fn session_suffix(name: Seq<u8>, comp: Seq<u8>) -> Option<Seq<u8>> {
    if name.len() < comp.len() + 2 {
        None
    } else if name.take(comp.len() as int) != comp {
        None
    } else if name[comp.len() as int] != UNDERSCORE {
        None
    } else {
        Some(name.skip(comp.len() + 1int))
    }
}

/// The device id that a session file of `comp` names: the suffix must be
/// UTF-8 and read as an `i32`.
pub open spec fn session_device_id(name: Seq<u8>, comp: Seq<u8>) -> Option<i32> {
    match session_suffix(name, comp) {
        Some(t) => if valid_utf8(t) {
            parse_i32_spec(t)
        } else {
            None
        },
        None => None,
    }
}

/// Whether a session file of `comp` is one of its sessions to delete: the
/// suffix must be UTF-8 and read as a `u32`.
pub open spec fn session_file_deletable(name: Seq<u8>, comp: Seq<u8>) -> bool {
    match session_suffix(name, comp) {
        Some(t) => valid_utf8(t) && parse_u32_spec(t) is Some,
        None => false,
    }
}

/// The device ids of the sessions of `comp` other than the primary
/// device, in listing order.
pub open spec fn sub_device_ids(names: Seq<Seq<u8>>, comp: Seq<u8>) -> Seq<i32>
    decreases names.len(),
{
    if names.len() == 0 {
        Seq::empty()
    } else {
        let pre = sub_device_ids(names.drop_last(), comp);
        match session_device_id(names.last(), comp) {
            Some(id) => if id != DEFAULT_DEVICE_ID {
                pre.push(id)
            } else {
                pre
            },
            None => pre,
        }
    }
}

/// The id that a pre-key file name holds: UTF-8 text read as a `u32`.
pub open spec fn key_file_id(name: Seq<u8>) -> Option<u32> {
    if valid_utf8(name) {
        parse_u32_spec(name)
    } else {
        None
    }
}

/// The highest id among the pre-key file names.
pub open spec fn max_key_id(names: Seq<Seq<u8>>) -> Option<u32>
    decreases names.len(),
{
    if names.len() == 0 {
        None
    } else {
        let pre = max_key_id(names.drop_last());
        match key_file_id(names.last()) {
            None => pre,
            Some(id) => match pre {
                None => Some(id),
                Some(m) => Some(
                    if id > m {
                        id
                    } else {
                        m
                    },
                ),
            },
        }
    }
}

/// The next free id: one past the highest, or zero when there is none.
pub open spec fn next_free_key_id(names: Seq<Seq<u8>>) -> int {
    match max_key_id(names) {
        None => 0,
        Some(m) => m + 1,
    }
}

/// Whether `prefix` starts `s`.
fn has_prefix(s: &[u8], prefix: &[u8]) -> (res: bool)
    ensures
        res == (prefix@.len() <= s@.len() && s@.take(prefix@.len() as int) == prefix@),
{
    if prefix.len() > s.len() {
        return false;
    }
    let mut i: usize = 0;
    while i < prefix.len()
        invariant
            prefix@.len() <= s@.len(),
            i <= prefix@.len(),
            forall|j: int| 0 <= j < i ==> s@[j] == prefix@[j],
        decreases prefix@.len() - i,
    {
        if s[i] != prefix[i] {
            proof {
                assert(s@.take(prefix@.len() as int)[i as int] != prefix@[i as int]);
            }
            return false;
        }
        i = i + 1;
    }
    proof {
        assert(s@.take(prefix@.len() as int) =~= prefix@);
    }
    true
}

/// The text after `comp` and `'_'` of a session file name.
fn session_suffix_of<'a>(name: &'a [u8], comp: &[u8]) -> (res: Option<&'a [u8]>)
    ensures
        match res {
            Some(t) => session_suffix(name@, comp@) == Some(t@),
            None => session_suffix(name@, comp@) is None,
        },
{
    if name.len() < comp.len() || name.len() - comp.len() < 2 {
        return None;
    }
    if !has_prefix(name, comp) {
        return None;
    }
    if name[comp.len()] != UNDERSCORE {
        return None;
    }
    let (_, t) = name.split_at(comp.len() + 1);
    proof {
        assert(t@ =~= name@.skip(comp@.len() + 1int));
    }
    Some(t)
}

/// The device id named by the session file `name` of the path component
/// `comp`, if it is one.
pub fn session_file_device_id(name: &[u8], comp: &[u8]) -> (res: Option<i32>)
    ensures
        res == session_device_id(name@, comp@),
{
    match session_suffix_of(name, comp) {
        Some(t) => match str_from_utf8(t) {
            Ok(_) => parse_i32(t),
            Err(_) => None,
        },
        None => None,
    }
}

/// Whether the session file `name` is one of the sessions of the path
/// component `comp` that deleting all its sessions removes.
pub fn session_file_is_deletable(name: &[u8], comp: &[u8]) -> (res: bool)
    ensures
        res == session_file_deletable(name@, comp@),
{
    match session_suffix_of(name, comp) {
        Some(t) => match str_from_utf8(t) {
            Ok(_) => parse_u32(t).is_some(),
            Err(_) => false,
        },
        None => false,
    }
}

/// The device ids of the sessions of `addr` other than the primary device,
/// read from the names of the session files, in listing order.
pub fn sub_device_session_ids(names: &[Vec<u8>], addr: &[u8]) -> (res: Vec<i32>)
    requires
        addr@.len() > 0,
        valid_utf8(path_component(addr@)),
    ensures
        res@ == sub_device_ids(names_view(names@), path_component(addr@)),
{
    let comp = addr_to_path_component(addr).as_bytes();
    let ghost nv = names_view(names@);
    let mut res: Vec<i32> = Vec::new();
    let mut i: usize = 0;
    while i < names.len()
        invariant
            i <= names@.len(),
            nv == names_view(names@),
            comp@ == path_component(addr@),
            res@ == sub_device_ids(nv.take(i as int), comp@),
        decreases names@.len() - i,
    {
        proof {
            assert(nv.take(i + 1).drop_last() =~= nv.take(i as int));
            assert(nv.take(i + 1).last() == names@[i as int]@);
        }
        match session_file_device_id(names[i].as_slice(), comp) {
            Some(id) => {
                if id != DEFAULT_DEVICE_ID {
                    res.push(id);
                }
            },
            None => {},
        }
        i = i + 1;
    }
    proof {
        assert(nv.take(names@.len() as int) =~= nv);
    }
    res
}

/// The positions of the session files of `addr` that deleting all its
/// sessions removes, in increasing order.
pub fn sessions_to_delete(names: &[Vec<u8>], addr: &[u8]) -> (res: Vec<usize>)
    requires
        addr@.len() > 0,
        valid_utf8(path_component(addr@)),
    ensures
        forall|a: int, b: int| 0 <= a < b < res@.len() ==> #[trigger] res@[a] < #[trigger] res@[b],
        forall|k: int| 0 <= k < res@.len() ==> #[trigger] res@[k] < names@.len(),
        forall|i: int|
            0 <= i < names@.len() ==> (res@.contains(i as usize) <==> session_file_deletable(
                #[trigger] names@[i]@,
                path_component(addr@),
            )),
{
    let comp = addr_to_path_component(addr).as_bytes();
    let mut res: Vec<usize> = Vec::new();
    let mut i: usize = 0;
    while i < names.len()
        invariant
            i <= names@.len(),
            comp@ == path_component(addr@),
            forall|a: int, b: int| 0 <= a < b < res@.len() ==> #[trigger] res@[a] < #[trigger] res@[b],
            forall|k: int| 0 <= k < res@.len() ==> #[trigger] res@[k] < i,
            forall|j: int|
                0 <= j < i ==> (res@.contains(j as usize) <==> session_file_deletable(
                    #[trigger] names@[j]@,
                    comp@,
                )),
        decreases names@.len() - i,
    {
        let ghost before = res@;
        if session_file_is_deletable(names[i].as_slice(), comp) {
            res.push(i);
            proof {
                assert forall|j: int| 0 <= j < i + 1 implies (res@.contains(j as usize)
                    <==> session_file_deletable(#[trigger] names@[j]@, comp@)) by {
                    if j < i {
                        if before.contains(j as usize) {
                            let k = choose|k: int| 0 <= k < before.len() && before[k] == j as usize;
                            assert(res@[k] == j as usize);
                        }
                        if res@.contains(j as usize) {
                            let k = choose|k: int| 0 <= k < res@.len() && res@[k] == j as usize;
                            if k < before.len() {
                                assert(before[k] == j as usize);
                            }
                        }
                    } else {
                        assert(res@[before.len() as int] == i);
                    }
                }
            }
        } else {
            proof {
                assert(!res@.contains(i));
            }
        }
        i = i + 1;
    }
    res
}

/// The id named by a pre-key file, if it names one.
pub fn key_file_id_of(name: &[u8]) -> (res: Option<u32>)
    ensures
        res == key_file_id(name@),
{
    match str_from_utf8(name) {
        Ok(_) => parse_u32(name),
        Err(_) => None,
    }
}

/// The highest id among the names of the pre-key files.
pub fn highest_key_id(names: &[Vec<u8>]) -> (res: Option<u32>)
    ensures
        res == max_key_id(names_view(names@)),
{
    let ghost nv = names_view(names@);
    let mut best: Option<u32> = None;
    let mut i: usize = 0;
    while i < names.len()
        invariant
            i <= names@.len(),
            nv == names_view(names@),
            best == max_key_id(nv.take(i as int)),
        decreases names@.len() - i,
    {
        proof {
            assert(nv.take(i + 1).drop_last() =~= nv.take(i as int));
            assert(nv.take(i + 1).last() == names@[i as int]@);
        }
        match key_file_id_of(names[i].as_slice()) {
            Some(id) => {
                best = match best {
                    None => Some(id),
                    Some(m) => Some(
                        if id > m {
                            id
                        } else {
                            m
                        },
                    ),
                };
            },
            None => {},
        }
        i = i + 1;
    }
    proof {
        assert(nv.take(names@.len() as int) =~= nv);
    }
    best
}

/// The next free signed pre-key id and the next free pre-key id, from the
/// names of the signed pre-key files and of the pre-key files: one past
/// the highest id, or zero when there is none.  No file may carry the
/// highest `u32` (the next id would overflow).
pub fn next_pre_key_ids(prekey_names: &[Vec<u8>], signed_prekey_names: &[Vec<u8>]) -> (res: (
    u32,
    u32,
))
    requires
        max_key_id(names_view(prekey_names@)) != Some(u32::MAX),
        max_key_id(names_view(signed_prekey_names@)) != Some(u32::MAX),
    ensures
        res.0 == next_free_key_id(names_view(signed_prekey_names@)),
        res.1 == next_free_key_id(names_view(prekey_names@)),
{
    let next_pre_key_id: u32 = match highest_key_id(prekey_names) {
        None => 0,
        Some(m) => m + 1,
    };
    let next_signed_pre_key_id: u32 = match highest_key_id(signed_prekey_names) {
        None => 0,
        Some(m) => m + 1,
    };
    (next_signed_pre_key_id, next_pre_key_id)
}

/// Whether the identity `key` of a peer is trusted, given the identity
/// stored for it, if any: trust on first use, and afterwards only the
/// stored identity.
pub fn is_trusted_identity(stored: Option<&[u8]>, key: &[u8]) -> (res: bool)
    ensures
        stored is None ==> res,
        stored is Some ==> res == (stored->Some_0@ == key@),
{
    match stored {
        None => true,
        Some(c) => {
            if c.len() != key.len() {
                return false;
            }
            proof {
                assert(c@.take(key@.len() as int) =~= c@);
            }
            has_prefix(c, key)
        },
    }
}

/// The highest id is one of the listed ids and no listed id exceeds it.
pub proof fn lemma_max_key_id(names: Seq<Seq<u8>>)
    ensures
        match max_key_id(names) {
            None => forall|i: int| 0 <= i < names.len() ==> key_file_id(#[trigger] names[i]) is None,
            Some(m) => (exists|i: int| 0 <= i < names.len() && key_file_id(#[trigger] names[i])
                == Some(m)) && forall|i: int|
                0 <= i < names.len() && key_file_id(#[trigger] names[i]) is Some ==> key_file_id(
                    names[i],
                )->Some_0 <= m,
        },
    decreases names.len(),
{
    if names.len() > 0 {
        let d = names.drop_last();
        lemma_max_key_id(d);
        assert forall|i: int| 0 <= i < d.len() implies d[i] == names[i] by {}
        let last = names.len() - 1;
        assert(names[last] == names.last());
        match max_key_id(d) {
            None => {},
            Some(m) => {
                let w = choose|i: int| 0 <= i < d.len() && key_file_id(#[trigger] d[i]) == Some(m);
                assert(names[w] == d[w]);
            },
        }
    }
}

/// The next free id is not taken: every listed pre-key file has a lower
/// id.
pub proof fn lemma_next_key_id_is_free(names: Seq<Seq<u8>>)
    ensures
        forall|i: int|
            0 <= i < names.len() && key_file_id(#[trigger] names[i]) is Some ==> key_file_id(
                names[i],
            )->Some_0 < next_free_key_id(names),
{
    lemma_max_key_id(names);
}

/// The file of a pre-key is read back as its id.
pub proof fn lemma_key_file_name_round_trip(id: u32)
    ensures
        key_file_id(decimal_padded(id as nat, KEY_FILE_NAME_WIDTH as nat)) == Some(id),
{
    lemma_decimal_ascii(id as nat, KEY_FILE_NAME_WIDTH as nat, 0);
    lemma_ascii_valid_utf8(decimal_padded(id as nat, KEY_FILE_NAME_WIDTH as nat));
    lemma_parse_decimal_u32(id, KEY_FILE_NAME_WIDTH as nat);
}

/// The session file of an address and device is read back as that device
/// of the address.
pub proof fn lemma_session_file_name_round_trip(addr: Seq<u8>, device_id: i32)
    ensures
        session_device_id(session_file_name_spec(addr, device_id), path_component(addr)) == Some(
            device_id,
        ),
{
    let comp = path_component(addr);
    let d = decimal_signed(device_id as int);
    let name = session_file_name_spec(addr, device_id);
    lemma_parse_decimal_i32(device_id);
    lemma_decimal_ascii(0, 0, device_id as int);
    lemma_ascii_valid_utf8(d);
    let a: nat = if device_id < 0 {
        (-device_id) as nat
    } else {
        device_id as nat
    };
    crate::decimal::lemma_decimal_value(a);
    assert(d.len() >= 1);
    assert(name.take(comp.len() as int) =~= comp);
    assert(name[comp.len() as int] == UNDERSCORE);
    assert(name.skip(comp.len() + 1int) =~= d);
}

/// The registration id read back from its file is the one written, and
/// the file is UTF-8, so opening the store gives it back.
pub proof fn lemma_regid_file_round_trip(regid: u32)
    ensures
        valid_utf8(decimal(regid as nat)),
        parse_u32_spec(decimal(regid as nat)) == Some(regid),
{
    lemma_decimal_ascii(regid as nat, 0, 0);
    lemma_ascii_valid_utf8(decimal(regid as nat));
    lemma_parse_decimal_u32(regid, 0);
}

} // verus!
