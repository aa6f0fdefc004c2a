//! Quirks of the on-disk key encoding.
//!
//! Older releases stored public keys in session records without their
//! one-byte key-type prefix.  This module adds ("quirks") and removes
//! ("unquirks") that difference, key by key and for whole session records.

use vstd::prelude::*;

verus! {

/// Key-type byte of a Curve25519 (DJB) public key.
pub const DJB_TYPE: u8 = 0x05;

/// Error raised when a key cannot be converted.
#[derive(Debug, Clone, Copy, PartialEq, Eq, Structural)]
pub enum QuirkError {
    /// The key has an unexpected length or key-type byte.
    InvalidKey,
}

/// Direction of a conversion.
#[derive(Debug, Clone, Copy, PartialEq, Eq, Structural)]
pub enum Direction {
    /// Strip the key-type byte (towards the old on-disk format).
    Quirk,
    /// Prepend the key-type byte (towards the protocol format).
    Unquirk,
}

/// The bytes that `quirk_identity` leaves in a key, and whether it succeeds.
pub open spec fn quirk_key(k: Seq<u8>) -> (Seq<u8>, bool) {
    if k.len() == 32 {
        (k, true)
    } else if k.len() == 33 {
        (k.drop_first(), k[0] == DJB_TYPE)
    } else {
        (k, false)
    }
}

/// The bytes that `unquirk_identity` leaves in a key, and whether it succeeds.
pub open spec fn unquirk_key(k: Seq<u8>) -> (Seq<u8>, bool) {
    if k.len() == 33 {
        (k, true)
    } else if k.len() == 32 {
        (seq![DJB_TYPE] + k, true)
    } else {
        (k, false)
    }
}

/// Conversion of one key in the given direction.
pub open spec fn convert_key(dir: Direction, k: Seq<u8>) -> (Seq<u8>, bool) {
    match dir {
        Direction::Quirk => quirk_key(k),
        Direction::Unquirk => unquirk_key(k),
    }
}

/// Removes the key-type byte of a 33-byte DJB key.  A 32-byte key is left
/// as it is; any other length is refused.  A 33-byte key with another
/// key-type byte is refused after its first byte has been removed.
pub fn quirk_identity(id: &mut Vec<u8>) -> (res: Result<(), QuirkError>)
    ensures
        final(id)@ == quirk_key(old(id)@).0,
        res is Ok <==> quirk_key(old(id)@).1,
{
    if id.len() == 32 {
        Ok(())
    } else if id.len() == 33 {
        let removed = id.remove(0);
        proof {
            assert(id@ =~= old(id)@.drop_first());
        }
        if removed != DJB_TYPE {
            Err(QuirkError::InvalidKey)
        } else {
            Ok(())
        }
    } else {
        Err(QuirkError::InvalidKey)
    }
}

/// Prepends the DJB key-type byte to a 32-byte key.  A 33-byte key is left
/// as it is; any other length is refused.
pub fn unquirk_identity(id: &mut Vec<u8>) -> (res: Result<(), QuirkError>)
    ensures
        final(id)@ == unquirk_key(old(id)@).0,
        res is Ok <==> unquirk_key(old(id)@).1,
{
    if id.len() == 33 {
        Ok(())
    } else if id.len() == 32 {
        id.insert(0, DJB_TYPE);
        proof {
            assert(id@ =~= seq![DJB_TYPE] + old(id)@);
        }
        Ok(())
    } else {
        Err(QuirkError::InvalidKey)
    }
}


/// A sending or receiving chain of a session; only its ratchet key is
/// subject to the quirk.
pub struct Chain {
    pub sender_ratchet_key: Option<Vec<u8>>,
}

/// A key exchange that was started but not finished.
pub struct PendingKeyExchange {
    pub local_base_key: Option<Vec<u8>>,
    pub local_ratchet_key: Option<Vec<u8>>,
    pub local_identity_key: Option<Vec<u8>>,
}

/// A pre-key message that was sent but not yet answered.
pub struct PendingPreKey {
    pub base_key: Option<Vec<u8>>,
}

/// The key-carrying part of a stored session.
pub struct SessionStructure {
    pub local_identity_public: Option<Vec<u8>>,
    pub remote_identity_public: Option<Vec<u8>>,
    pub pending_key_exchange: Option<PendingKeyExchange>,
    pub pending_pre_key: Option<PendingPreKey>,
    pub sender_chain: Option<Chain>,
    pub receiver_chains: Vec<Chain>,
}

/// A stored session record: the current session and the archived ones.
pub struct RecordStructure {
    pub current_session: Option<SessionStructure>,
    pub previous_sessions: Vec<SessionStructure>,
}

/// A key slot: absent, or the bytes of a key.
pub type KeySlot = Option<Seq<u8>>;

/// Mathematical model of a pending key exchange.
pub struct KexModel {
    pub local_base_key: KeySlot,
    pub local_ratchet_key: KeySlot,
    pub local_identity_key: KeySlot,
}

/// Mathematical model of a session.
pub struct SessionModel {
    pub local_identity_public: KeySlot,
    pub remote_identity_public: KeySlot,
    pub pending_key_exchange: Option<KexModel>,
    pub pending_pre_key: Option<KeySlot>,
    pub sender_chain: Option<KeySlot>,
    pub receiver_chains: Seq<KeySlot>,
}

/// Mathematical model of a session record.
pub struct RecordModel {
    pub current_session: Option<SessionModel>,
    pub previous_sessions: Seq<SessionModel>,
}

/// The view of an optional key.
pub open spec fn slot_view(k: Option<Vec<u8>>) -> KeySlot {
    match k {
        Some(v) => Some(v@),
        None => None,
    }
}

impl View for Chain {
    type V = KeySlot;

    open spec fn view(&self) -> KeySlot {
        slot_view(self.sender_ratchet_key)
    }
}

impl View for PendingKeyExchange {
    type V = KexModel;

    open spec fn view(&self) -> KexModel {
        KexModel {
            local_base_key: slot_view(self.local_base_key),
            local_ratchet_key: slot_view(self.local_ratchet_key),
            local_identity_key: slot_view(self.local_identity_key),
        }
    }
}

impl View for PendingPreKey {
    type V = KeySlot;

    open spec fn view(&self) -> KeySlot {
        slot_view(self.base_key)
    }
}

impl View for SessionStructure {
    type V = SessionModel;

    open spec fn view(&self) -> SessionModel {
        SessionModel {
            local_identity_public: slot_view(self.local_identity_public),
            remote_identity_public: slot_view(self.remote_identity_public),
            pending_key_exchange: match self.pending_key_exchange {
                Some(k) => Some(k@),
                None => None,
            },
            pending_pre_key: match self.pending_pre_key {
                Some(p) => Some(p@),
                None => None,
            },
            sender_chain: match self.sender_chain {
                Some(c) => Some(c@),
                None => None,
            },
            receiver_chains: self.receiver_chains@.map_values(|c: Chain| c@),
        }
    }
}

impl View for RecordStructure {
    type V = RecordModel;

    open spec fn view(&self) -> RecordModel {
        RecordModel {
            current_session: match self.current_session {
                Some(s) => Some(s@),
                None => None,
            },
            previous_sessions: self.previous_sessions@.map_values(|s: SessionStructure| s@),
        }
    }
}

/// Converts one key slot, unless an earlier key already failed (`ok` false),
/// in which case the slot is left untouched.  Returns the new slot and
/// whether all conversions so far succeeded.
pub open spec fn convert_slot(dir: Direction, k: KeySlot, ok: bool) -> (KeySlot, bool) {
    if !ok {
        (k, false)
    } else {
        match k {
            None => (None, true),
            Some(bytes) => (Some(convert_key(dir, bytes).0), convert_key(dir, bytes).1),
        }
    }
}

/// Converts a sequence of key slots front to back, stopping at the first
/// failure.
pub open spec fn convert_slots(dir: Direction, ks: Seq<KeySlot>, ok: bool) -> (Seq<KeySlot>, bool)
    decreases ks.len(),
{
    if ks.len() == 0 {
        (ks, ok)
    } else {
        let pre = convert_slots(dir, ks.drop_last(), ok);
        let last = convert_slot(dir, ks.last(), pre.1);
        (pre.0.push(last.0), last.1)
    }
}

/// Converts the keys of a pending key exchange, in field order.
pub open spec fn convert_kex(dir: Direction, k: KexModel, ok: bool) -> (KexModel, bool) {
    let a = convert_slot(dir, k.local_base_key, ok);
    let b = convert_slot(dir, k.local_ratchet_key, a.1);
    let c = convert_slot(dir, k.local_identity_key, b.1);
    (KexModel { local_base_key: a.0, local_ratchet_key: b.0, local_identity_key: c.0 }, c.1)
}

/// Converts an optional group of keys, leaving an absent group absent.
pub open spec fn convert_opt_slot(dir: Direction, k: Option<KeySlot>, ok: bool) -> (Option<KeySlot>, bool) {
    match k {
        None => (None, ok),
        Some(s) => (Some(convert_slot(dir, s, ok).0), convert_slot(dir, s, ok).1),
    }
}

/// Converts every quirky key of a session, in the order: local identity,
/// remote identity, pending key exchange (base, ratchet, identity key),
/// pending pre-key base key, sender chain, receiver chains; the conversion
/// stops at the first key that fails.  The alice base key is not quirky.
pub open spec fn convert_session(dir: Direction, s: SessionModel, ok: bool) -> (SessionModel, bool) {
    let lip = convert_slot(dir, s.local_identity_public, ok);
    let rip = convert_slot(dir, s.remote_identity_public, lip.1);
    let kex = match s.pending_key_exchange {
        None => (None, rip.1),
        Some(k) => (Some(convert_kex(dir, k, rip.1).0), convert_kex(dir, k, rip.1).1),
    };
    let ppk = convert_opt_slot(dir, s.pending_pre_key, kex.1);
    let snd = convert_opt_slot(dir, s.sender_chain, ppk.1);
    let rcv = convert_slots(dir, s.receiver_chains, snd.1);
    (
        SessionModel {
            local_identity_public: lip.0,
            remote_identity_public: rip.0,
            pending_key_exchange: kex.0,
            pending_pre_key: ppk.0,
            sender_chain: snd.0,
            receiver_chains: rcv.0,
        },
        rcv.1,
    )
}

/// Converts a sequence of sessions front to back, stopping at the first
/// failure.
pub open spec fn convert_sessions(dir: Direction, ss: Seq<SessionModel>, ok: bool) -> (Seq<SessionModel>, bool)
    decreases ss.len(),
{
    if ss.len() == 0 {
        (ss, ok)
    } else {
        let pre = convert_sessions(dir, ss.drop_last(), ok);
        let last = convert_session(dir, ss.last(), pre.1);
        (pre.0.push(last.0), last.1)
    }
}

/// Converts a record: first its current session, then the previous ones.
pub open spec fn convert_record(dir: Direction, r: RecordModel) -> (RecordModel, bool) {
    let cur = match r.current_session {
        None => (None, true),
        Some(s) => (Some(convert_session(dir, s, true).0), convert_session(dir, s, true).1),
    };
    let prev = convert_sessions(dir, r.previous_sessions, cur.1);
    (RecordModel { current_session: cur.0, previous_sessions: prev.0 }, prev.1)
}

fn convert_identity(dir: Direction, id: &mut Vec<u8>) -> (res: Result<(), QuirkError>)
    ensures
        final(id)@ == convert_key(dir, old(id)@).0,
        res is Ok <==> convert_key(dir, old(id)@).1,
{
    match dir {
        Direction::Quirk => quirk_identity(id),
        Direction::Unquirk => unquirk_identity(id),
    }
}

fn convert_slot_exec(dir: Direction, k: &mut Option<Vec<u8>>) -> (res: Result<(), QuirkError>)
    ensures
        slot_view(*final(k)) == convert_slot(dir, slot_view(*old(k)), true).0,
        res is Ok <==> convert_slot(dir, slot_view(*old(k)), true).1,
{
    match k {
        Some(bytes) => convert_identity(dir, bytes),
        None => Ok(()),
    }
}


/// Conversion keeps the number of slots.
proof fn lemma_convert_slots_len(dir: Direction, ks: Seq<KeySlot>, ok: bool)
    ensures
        convert_slots(dir, ks, ok).0.len() == ks.len(),
    decreases ks.len(),
{
    if ks.len() > 0 {
        lemma_convert_slots_len(dir, ks.drop_last(), ok);
    }
}

/// Converting with a failure already recorded changes nothing.
proof fn lemma_convert_slots_failed(dir: Direction, ks: Seq<KeySlot>)
    ensures
        convert_slots(dir, ks, false) == (ks, false),
    decreases ks.len(),
{
    if ks.len() > 0 {
        lemma_convert_slots_failed(dir, ks.drop_last());
        assert(ks.drop_last().push(ks.last()) =~= ks);
    }
}

/// Converting a concatenation converts the first part, then the second.
proof fn lemma_convert_slots_append(dir: Direction, a: Seq<KeySlot>, b: Seq<KeySlot>, ok: bool)
    ensures
        convert_slots(dir, a + b, ok) == ({
            let p = convert_slots(dir, a, ok);
            let q = convert_slots(dir, b, p.1);
            (p.0 + q.0, q.1)
        }),
    decreases b.len(),
{
    if b.len() == 0 {
        assert(a + b =~= a);
        assert(convert_slots(dir, a, ok).0 + b =~= convert_slots(dir, a, ok).0);
    } else {
        lemma_convert_slots_append(dir, a, b.drop_last(), ok);
        assert((a + b).drop_last() =~= a + b.drop_last());
        assert((a + b).last() == b.last());
        let p = convert_slots(dir, a, ok);
        let q = convert_slots(dir, b.drop_last(), p.1);
        assert(p.0 + q.0.push(convert_slot(dir, b.last(), q.1).0) =~= (p.0 + q.0).push(
            convert_slot(dir, b.last(), q.1).0,
        ));
    }
}

/// The ratchet-key slots of a sequence of chains.
pub open spec fn chain_slots(cs: Seq<Chain>) -> Seq<KeySlot> {
    cs.map_values(|c: Chain| c@)
}

fn convert_chains(dir: Direction, chains: &mut Vec<Chain>) -> (res: Result<(), QuirkError>)
    ensures
        chain_slots(final(chains)@) == convert_slots(dir, chain_slots(old(chains)@), true).0,
        res is Ok <==> convert_slots(dir, chain_slots(old(chains)@), true).1,
{
    let ghost orig = chain_slots(chains@);
    let n = chains.len();
    let mut i: usize = 0;
    while i < n
        invariant
            0 <= i <= n,
            n == chains@.len(),
            orig.len() == n,
            orig == chain_slots(old(chains)@),
            chain_slots(chains@) == convert_slots(dir, orig.take(i as int), true).0 + orig.skip(
                i as int,
            ),
            convert_slots(dir, orig.take(i as int), true).1,
        decreases n - i,
    {
        proof {
            assert(orig.take(i + 1) =~= orig.take(i as int).push(orig[i as int]));
            assert(orig.take(i + 1).drop_last() =~= orig.take(i as int));
        }
        let ghost before = chains@;
        proof {
            lemma_convert_slots_len(dir, orig.take(i as int), true);
            assert(chain_slots(before)[i as int] == orig[i as int]);
        }
        let r = convert_slot_exec(dir, &mut chains[i].sender_ratchet_key);
        proof {
            assert(chains@.len() == before.len());
            assert(forall|j: int| 0 <= j < n && j != i ==> chains@[j] == before[j]);
            assert(chains@[i as int]@ == convert_slot(dir, orig[i as int], true).0);
            let done = convert_slots(dir, orig.take(i + 1), true);
            assert(done.0 =~= convert_slots(dir, orig.take(i as int), true).0.push(
                convert_slot(dir, orig[i as int], true).0));
            let prev = convert_slots(dir, orig.take(i as int), true).0;
            assert forall|j: int| 0 <= j < n implies #[trigger] chain_slots(chains@)[j] == (done.0
                + orig.skip(i + 1))[j] by {
                if j < i {
                    assert(chain_slots(before)[j] == prev[j]);
                } else if j > i {
                    assert(chain_slots(before)[j] == orig.skip(i as int)[j - i]);
                }
            }
            assert(chain_slots(chains@) =~= done.0 + orig.skip(i + 1));
            assert(done.1 == convert_slot(dir, orig[i as int], true).1);
            assert(done.1 == (r is Ok));
            if r is Err {
                lemma_convert_slots_failed(dir, orig.skip(i + 1));
                lemma_convert_slots_append(dir, orig.take(i + 1), orig.skip(i + 1), true);
                assert(orig.take(i + 1) + orig.skip(i + 1) =~= orig);
            }
        }
        if r.is_err() {
            proof {
                assert(orig.take(i + 1) + orig.skip(i + 1) =~= orig);
                assert(chain_slots(chains@) == convert_slots(dir, orig, true).0);
                assert(!convert_slots(dir, orig, true).1);
            }
            return r;
        }
        i = i + 1;
    }
    proof {
        assert(orig.take(n as int) =~= orig);
        assert(orig.skip(n as int) =~= Seq::<KeySlot>::empty());
        assert(chain_slots(chains@) =~= convert_slots(dir, orig, true).0);
    }
    Ok(())
}


fn convert_session_structure(dir: Direction, sess: &mut SessionStructure) -> (res: Result<
    (),
    QuirkError,
>)
    ensures
        final(sess)@ == convert_session(dir, old(sess)@, true).0,
        res is Ok <==> convert_session(dir, old(sess)@, true).1,
{
    proof {
        lemma_convert_slots_failed(dir, old(sess)@.receiver_chains);
    }
    convert_slot_exec(dir, &mut sess.local_identity_public)?;
    convert_slot_exec(dir, &mut sess.remote_identity_public)?;
    match &mut sess.pending_key_exchange {
        Some(kex) => {
            convert_slot_exec(dir, &mut kex.local_base_key)?;
            convert_slot_exec(dir, &mut kex.local_ratchet_key)?;
            convert_slot_exec(dir, &mut kex.local_identity_key)?;
        },
        None => {},
    }
    match &mut sess.pending_pre_key {
        Some(ppk) => {
            convert_slot_exec(dir, &mut ppk.base_key)?;
        },
        None => {},
    }
    match &mut sess.sender_chain {
        Some(chain) => {
            convert_slot_exec(dir, &mut chain.sender_ratchet_key)?;
        },
        None => {},
    }
    convert_chains(dir, &mut sess.receiver_chains)
}

/// Removes the key-type byte from every quirky key of a session (see
/// `convert_session` for the keys and their order).  On the first key that
/// cannot be converted the error is returned; the keys before it are
/// converted, that key is left as `quirk_identity` leaves it, the ones after
/// it are untouched.
pub fn quirk_session_structure(sess: &mut SessionStructure) -> (res: Result<(), QuirkError>)
    ensures
        final(sess)@ == convert_session(Direction::Quirk, old(sess)@, true).0,
        res is Ok <==> convert_session(Direction::Quirk, old(sess)@, true).1,
{
    convert_session_structure(Direction::Quirk, sess)
}

/// Prepends the key-type byte to every quirky key of a session, with the
/// same order and error behaviour as `quirk_session_structure`.
pub fn unquirk_session_structure(sess: &mut SessionStructure) -> (res: Result<(), QuirkError>)
    ensures
        final(sess)@ == convert_session(Direction::Unquirk, old(sess)@, true).0,
        res is Ok <==> convert_session(Direction::Unquirk, old(sess)@, true).1,
{
    convert_session_structure(Direction::Unquirk, sess)
}


proof fn lemma_convert_session_failed(dir: Direction, s: SessionModel)
    ensures
        convert_session(dir, s, false) == (s, false),
{
    lemma_convert_slots_failed(dir, s.receiver_chains);
}

proof fn lemma_convert_sessions_len(dir: Direction, ss: Seq<SessionModel>, ok: bool)
    ensures
        convert_sessions(dir, ss, ok).0.len() == ss.len(),
    decreases ss.len(),
{
    if ss.len() > 0 {
        lemma_convert_sessions_len(dir, ss.drop_last(), ok);
    }
}

proof fn lemma_convert_sessions_failed(dir: Direction, ss: Seq<SessionModel>)
    ensures
        convert_sessions(dir, ss, false) == (ss, false),
    decreases ss.len(),
{
    if ss.len() > 0 {
        lemma_convert_sessions_failed(dir, ss.drop_last());
        lemma_convert_session_failed(dir, ss.last());
        assert(ss.drop_last().push(ss.last()) =~= ss);
    }
}

proof fn lemma_convert_sessions_append(
    dir: Direction,
    a: Seq<SessionModel>,
    b: Seq<SessionModel>,
    ok: bool,
)
    ensures
        convert_sessions(dir, a + b, ok) == ({
            let p = convert_sessions(dir, a, ok);
            let q = convert_sessions(dir, b, p.1);
            (p.0 + q.0, q.1)
        }),
    decreases b.len(),
{
    if b.len() == 0 {
        assert(a + b =~= a);
        assert(convert_sessions(dir, a, ok).0 + b =~= convert_sessions(dir, a, ok).0);
    } else {
        lemma_convert_sessions_append(dir, a, b.drop_last(), ok);
        assert((a + b).drop_last() =~= a + b.drop_last());
        assert((a + b).last() == b.last());
        let p = convert_sessions(dir, a, ok);
        let q = convert_sessions(dir, b.drop_last(), p.1);
        assert(p.0 + q.0.push(convert_session(dir, b.last(), q.1).0) =~= (p.0 + q.0).push(
            convert_session(dir, b.last(), q.1).0,
        ));
    }
}

/// The models of a sequence of sessions.
pub open spec fn session_models(ss: Seq<SessionStructure>) -> Seq<SessionModel> {
    ss.map_values(|s: SessionStructure| s@)
}

fn convert_session_list(dir: Direction, sessions: &mut Vec<SessionStructure>) -> (res: Result<
    (),
    QuirkError,
>)
    ensures
        session_models(final(sessions)@) == convert_sessions(
            dir,
            session_models(old(sessions)@),
            true,
        ).0,
        res is Ok <==> convert_sessions(dir, session_models(old(sessions)@), true).1,
{
    let ghost orig = session_models(sessions@);
    let n = sessions.len();
    let mut i: usize = 0;
    while i < n
        invariant
            0 <= i <= n,
            n == sessions@.len(),
            orig.len() == n,
            orig == session_models(old(sessions)@),
            session_models(sessions@) == convert_sessions(dir, orig.take(i as int), true).0
                + orig.skip(i as int),
            convert_sessions(dir, orig.take(i as int), true).1,
        decreases n - i,
    {
        proof {
            assert(orig.take(i + 1) =~= orig.take(i as int).push(orig[i as int]));
            assert(orig.take(i + 1).drop_last() =~= orig.take(i as int));
        }
        let ghost before = sessions@;
        proof {
            lemma_convert_sessions_len(dir, orig.take(i as int), true);
            assert(session_models(before)[i as int] == orig[i as int]);
        }
        let r = convert_session_structure(dir, &mut sessions[i]);
        proof {
            assert(sessions@.len() == before.len());
            assert(forall|j: int| 0 <= j < n && j != i ==> sessions@[j] == before[j]);
            let done = convert_sessions(dir, orig.take(i + 1), true);
            assert(done.0 =~= convert_sessions(dir, orig.take(i as int), true).0.push(
                convert_session(dir, orig[i as int], true).0));
            let prev = convert_sessions(dir, orig.take(i as int), true).0;
            assert forall|j: int| 0 <= j < n implies #[trigger] session_models(sessions@)[j] == (
            done.0 + orig.skip(i + 1))[j] by {
                if j < i {
                    assert(session_models(before)[j] == prev[j]);
                } else if j > i {
                    assert(session_models(before)[j] == orig.skip(i as int)[j - i]);
                }
            }
            assert(session_models(sessions@) =~= done.0 + orig.skip(i + 1));
            assert(done.1 == convert_session(dir, orig[i as int], true).1);
            assert(done.1 == (r is Ok));
            if r is Err {
                lemma_convert_sessions_failed(dir, orig.skip(i + 1));
                lemma_convert_sessions_append(dir, orig.take(i + 1), orig.skip(i + 1), true);
                assert(orig.take(i + 1) + orig.skip(i + 1) =~= orig);
            }
        }
        if r.is_err() {
            return r;
        }
        i = i + 1;
    }
    proof {
        assert(orig.take(n as int) =~= orig);
        assert(orig.skip(n as int) =~= Seq::<SessionModel>::empty());
        assert(session_models(sessions@) =~= convert_sessions(dir, orig, true).0);
    }
    Ok(())
}

fn convert_record_structure(dir: Direction, record: &mut RecordStructure) -> (res: Result<
    (),
    QuirkError,
>)
    ensures
        final(record)@ == convert_record(dir, old(record)@).0,
        res is Ok <==> convert_record(dir, old(record)@).1,
{
    proof {
        lemma_convert_sessions_failed(dir, old(record)@.previous_sessions);
    }
    match &mut record.current_session {
        Some(sess) => {
            convert_session_structure(dir, sess)?;
        },
        None => {},
    }
    convert_session_list(dir, &mut record.previous_sessions)
}

/// Removes the key-type byte from the keys of every session of a record:
/// the current session first, then the previous sessions in order,
/// stopping at the first key that cannot be converted.
pub fn quirk_record_structure(record: &mut RecordStructure) -> (res: Result<(), QuirkError>)
    ensures
        final(record)@ == convert_record(Direction::Quirk, old(record)@).0,
        res is Ok <==> convert_record(Direction::Quirk, old(record)@).1,
{
    convert_record_structure(Direction::Quirk, record)
}

/// Prepends the key-type byte to the keys of every session of a record,
/// in the same order as `quirk_record_structure`.
pub fn unquirk_record_structure(record: &mut RecordStructure) -> (res: Result<(), QuirkError>)
    ensures
        final(record)@ == convert_record(Direction::Unquirk, old(record)@).0,
        res is Ok <==> convert_record(Direction::Unquirk, old(record)@).1,
{
    convert_record_structure(Direction::Unquirk, record)
}


/// The opposite direction.
pub open spec fn inverse(dir: Direction) -> Direction {
    match dir {
        Direction::Quirk => Direction::Unquirk,
        Direction::Unquirk => Direction::Quirk,
    }
}

/// The keys that a conversion in `dir` takes to the other format and back:
/// 33-byte keys with the DJB type byte for quirking, 32-byte keys for
/// unquirking.
pub open spec fn key_in_format(dir: Direction, k: Seq<u8>) -> bool {
    match dir {
        Direction::Quirk => k.len() == 33 && k[0] == DJB_TYPE,
        Direction::Unquirk => k.len() == 32,
    }
}

/// Whether a key slot is empty or holds a key in the format of `dir`.
pub open spec fn slot_in_format(dir: Direction, k: KeySlot) -> bool {
    match k {
        None => true,
        Some(bytes) => key_in_format(dir, bytes),
    }
}

/// Whether an optional key slot is absent, empty or in the format of `dir`.
pub open spec fn opt_slot_in_format(dir: Direction, k: Option<KeySlot>) -> bool {
    match k {
        None => true,
        Some(s) => slot_in_format(dir, s),
    }
}

/// Every quirky key of the session is in the format that `dir` converts.
pub open spec fn session_in_format(dir: Direction, s: SessionModel) -> bool {
    &&& slot_in_format(dir, s.local_identity_public)
    &&& slot_in_format(dir, s.remote_identity_public)
    &&& match s.pending_key_exchange {
        None => true,
        Some(k) => {
            &&& slot_in_format(dir, k.local_base_key)
            &&& slot_in_format(dir, k.local_ratchet_key)
            &&& slot_in_format(dir, k.local_identity_key)
        },
    }
    &&& opt_slot_in_format(dir, s.pending_pre_key)
    &&& opt_slot_in_format(dir, s.sender_chain)
    &&& forall|i: int|
        0 <= i < s.receiver_chains.len() ==> slot_in_format(dir, #[trigger] s.receiver_chains[i])
}

/// Every session of the record is in the format that `dir` converts.
pub open spec fn record_in_format(dir: Direction, r: RecordModel) -> bool {
    &&& match r.current_session {
        None => true,
        Some(s) => session_in_format(dir, s),
    }
    &&& forall|i: int|
        0 <= i < r.previous_sessions.len() ==> session_in_format(dir, #[trigger] r.previous_sessions[i])
}

/// Quirking a 33-byte DJB key and unquirking the result gives the key back;
/// unquirking a 32-byte key and quirking the result gives the key back.
pub proof fn lemma_key_round_trip(dir: Direction, k: Seq<u8>)
    requires
        key_in_format(dir, k),
    ensures
        convert_key(dir, k).1,
        key_in_format(inverse(dir), convert_key(dir, k).0),
        convert_key(inverse(dir), convert_key(dir, k).0) == (k, true),
{
    match dir {
        Direction::Quirk => {
            assert(seq![DJB_TYPE] + k.drop_first() =~= k);
        },
        Direction::Unquirk => {
            assert((seq![DJB_TYPE] + k).drop_first() =~= k);
        },
    }
}

proof fn lemma_slot_round_trip(dir: Direction, k: KeySlot)
    requires
        slot_in_format(dir, k),
    ensures
        convert_slot(dir, k, true).1,
        slot_in_format(inverse(dir), convert_slot(dir, k, true).0),
        convert_slot(inverse(dir), convert_slot(dir, k, true).0, true) == (k, true),
{
    if let Some(bytes) = k {
        lemma_key_round_trip(dir, bytes);
    }
}

proof fn lemma_slots_round_trip(dir: Direction, ks: Seq<KeySlot>)
    requires
        forall|i: int| 0 <= i < ks.len() ==> slot_in_format(dir, #[trigger] ks[i]),
    ensures
        convert_slots(dir, ks, true).1,
        forall|i: int|
            0 <= i < ks.len() ==> slot_in_format(inverse(dir), #[trigger] convert_slots(dir, ks, true).0[i]),
        convert_slots(inverse(dir), convert_slots(dir, ks, true).0, true) == (ks, true),
    decreases ks.len(),
{
    lemma_convert_slots_len(dir, ks, true);
    if ks.len() > 0 {
        let init = ks.drop_last();
        assert forall|i: int| 0 <= i < init.len() implies slot_in_format(dir, #[trigger] init[i]) by {
            assert(init[i] == ks[i]);
        }
        lemma_slots_round_trip(dir, init);
        lemma_slot_round_trip(dir, ks.last());
        lemma_convert_slots_len(dir, init, true);
        let mid = convert_slots(dir, ks, true).0;
        assert(mid.drop_last() =~= convert_slots(dir, init, true).0);
        assert(mid.drop_last().push(mid.last()) =~= mid);
        assert(init.push(ks.last()) =~= ks);
    }
}

proof fn lemma_session_round_trip(dir: Direction, s: SessionModel)
    requires
        session_in_format(dir, s),
    ensures
        convert_session(dir, s, true).1,
        session_in_format(inverse(dir), convert_session(dir, s, true).0),
        convert_session(inverse(dir), convert_session(dir, s, true).0, true) == (s, true),
{
    lemma_slot_round_trip(dir, s.local_identity_public);
    lemma_slot_round_trip(dir, s.remote_identity_public);
    if let Some(k) = s.pending_key_exchange {
        lemma_slot_round_trip(dir, k.local_base_key);
        lemma_slot_round_trip(dir, k.local_ratchet_key);
        lemma_slot_round_trip(dir, k.local_identity_key);
    }
    if let Some(p) = s.pending_pre_key {
        lemma_slot_round_trip(dir, p);
    }
    if let Some(c) = s.sender_chain {
        lemma_slot_round_trip(dir, c);
    }
    lemma_slots_round_trip(dir, s.receiver_chains);
    lemma_convert_slots_len(dir, s.receiver_chains, true);
}

proof fn lemma_sessions_round_trip(dir: Direction, ss: Seq<SessionModel>)
    requires
        forall|i: int| 0 <= i < ss.len() ==> session_in_format(dir, #[trigger] ss[i]),
    ensures
        convert_sessions(dir, ss, true).1,
        forall|i: int|
            0 <= i < ss.len() ==> session_in_format(
                inverse(dir),
                #[trigger] convert_sessions(dir, ss, true).0[i],
            ),
        convert_sessions(inverse(dir), convert_sessions(dir, ss, true).0, true) == (ss, true),
    decreases ss.len(),
{
    lemma_convert_sessions_len(dir, ss, true);
    if ss.len() > 0 {
        let init = ss.drop_last();
        assert forall|i: int| 0 <= i < init.len() implies session_in_format(dir, #[trigger] init[i]) by {
            assert(init[i] == ss[i]);
        }
        lemma_sessions_round_trip(dir, init);
        lemma_session_round_trip(dir, ss.last());
        lemma_convert_sessions_len(dir, init, true);
        let mid = convert_sessions(dir, ss, true).0;
        assert(mid.drop_last() =~= convert_sessions(dir, init, true).0);
        assert(mid.drop_last().push(mid.last()) =~= mid);
        assert(init.push(ss.last()) =~= ss);
    }
}

/// A record whose quirky keys are all in the format of `dir` is converted
/// without error, and converting the result back in the opposite direction
/// gives the record back: quirking undoes unquirking and vice versa.
pub proof fn lemma_record_round_trip(dir: Direction, r: RecordModel)
    requires
        record_in_format(dir, r),
    ensures
        convert_record(dir, r).1,
        convert_record(inverse(dir), convert_record(dir, r).0) == (r, true),
{
    if let Some(s) = r.current_session {
        lemma_session_round_trip(dir, s);
    }
    lemma_sessions_round_trip(dir, r.previous_sessions);
}

/// Quirking a session whose keys are all 33-byte DJB keys succeeds, and
/// unquirking the result restores the session; unquirking a session whose
/// keys are all 32 bytes long succeeds, and quirking the result restores it.
pub proof fn lemma_session_structure_round_trip(dir: Direction, s: SessionModel)
    requires
        session_in_format(dir, s),
    ensures
        convert_session(dir, s, true).1,
        convert_session(inverse(dir), convert_session(dir, s, true).0, true) == (s, true),
{
    lemma_session_round_trip(dir, s);
}

/// A key written in the other format: quirking drops its leading key-type
/// byte, unquirking puts the DJB key-type byte in front of it.
pub open spec fn in_other_format(dir: Direction, k: Seq<u8>) -> Seq<u8> {
    match dir {
        Direction::Quirk => k.subrange(1, k.len() as int),
        Direction::Unquirk => seq![DJB_TYPE] + k,
    }
}

/// A key slot with its key, if any, written in the other format.
pub open spec fn slot_in_other_format(dir: Direction, k: KeySlot) -> KeySlot {
    match k {
        None => None,
        Some(bytes) => Some(in_other_format(dir, bytes)),
    }
}

proof fn lemma_slot_in_place(dir: Direction, k: KeySlot)
    requires
        slot_in_format(dir, k),
    ensures
        convert_slot(dir, k, true) == (slot_in_other_format(dir, k), true),
{
    if let Some(bytes) = k {
        match dir {
            Direction::Quirk => {
                assert(bytes.drop_first() =~= bytes.subrange(1, bytes.len() as int));
            },
            Direction::Unquirk => {},
        }
    }
}

proof fn lemma_slots_in_place(dir: Direction, ks: Seq<KeySlot>)
    requires
        forall|i: int| 0 <= i < ks.len() ==> slot_in_format(dir, #[trigger] ks[i]),
    ensures
        convert_slots(dir, ks, true).1,
        convert_slots(dir, ks, true).0.len() == ks.len(),
        forall|i: int|
            0 <= i < ks.len() ==> #[trigger] convert_slots(dir, ks, true).0[i] == slot_in_other_format(
                dir,
                ks[i],
            ),
    decreases ks.len(),
{
    if ks.len() > 0 {
        let init = ks.drop_last();
        assert forall|i: int| 0 <= i < init.len() implies slot_in_format(dir, #[trigger] init[i]) by {
            assert(init[i] == ks[i]);
        }
        lemma_slots_in_place(dir, init);
        lemma_slot_in_place(dir, ks.last());
        let out = convert_slots(dir, ks, true).0;
        assert forall|i: int| 0 <= i < ks.len() implies #[trigger] out[i] == slot_in_other_format(
            dir,
            ks[i],
        ) by {
            if i < init.len() {
                assert(out[i] == convert_slots(dir, init, true).0[i]);
                assert(init[i] == ks[i]);
            }
        }
    }
}

/// Every key of a session is converted where it stands: when all its keys
/// are in the format that `dir` converts, the conversion succeeds and each
/// slot of the result (our identity key, the peer's identity key, the keys
/// of a pending key exchange, the pending pre-key, the sender chain and
/// each receiver chain) holds the key of the same slot of the session,
/// written in the other format.  No key moves to another slot.
pub proof fn lemma_session_converted_in_place(dir: Direction, s: SessionModel)
    requires
        session_in_format(dir, s),
    ensures
        convert_session(dir, s, true).1,
        convert_session(dir, s, true).0.local_identity_public == slot_in_other_format(
            dir,
            s.local_identity_public,
        ),
        convert_session(dir, s, true).0.remote_identity_public == slot_in_other_format(
            dir,
            s.remote_identity_public,
        ),
        convert_session(dir, s, true).0.pending_key_exchange == match s.pending_key_exchange {
            None => None,
            Some(k) => Some(
                KexModel {
                    local_base_key: slot_in_other_format(dir, k.local_base_key),
                    local_ratchet_key: slot_in_other_format(dir, k.local_ratchet_key),
                    local_identity_key: slot_in_other_format(dir, k.local_identity_key),
                },
            ),
        },
        convert_session(dir, s, true).0.pending_pre_key == match s.pending_pre_key {
            None => None,
            Some(p) => Some(slot_in_other_format(dir, p)),
        },
        convert_session(dir, s, true).0.sender_chain == match s.sender_chain {
            None => None,
            Some(c) => Some(slot_in_other_format(dir, c)),
        },
        convert_session(dir, s, true).0.receiver_chains.len() == s.receiver_chains.len(),
        forall|i: int|
            0 <= i < s.receiver_chains.len() ==> #[trigger] convert_session(
                dir,
                s,
                true,
            ).0.receiver_chains[i] == slot_in_other_format(dir, s.receiver_chains[i]),
{
    lemma_slot_in_place(dir, s.local_identity_public);
    lemma_slot_in_place(dir, s.remote_identity_public);
    if let Some(k) = s.pending_key_exchange {
        lemma_slot_in_place(dir, k.local_base_key);
        lemma_slot_in_place(dir, k.local_ratchet_key);
        lemma_slot_in_place(dir, k.local_identity_key);
    }
    if let Some(p) = s.pending_pre_key {
        lemma_slot_in_place(dir, p);
    }
    if let Some(c) = s.sender_chain {
        lemma_slot_in_place(dir, c);
    }
    lemma_slots_in_place(dir, s.receiver_chains);
}

/// Quirking converts the two identity keys where they stand, whatever the
/// other keys hold: our identity key, if 33 bytes long, loses its first
/// byte, and any other key stays as it is; when our key converts without
/// error the peer's key is treated the same way in its own slot, and
/// otherwise it is left untouched.
pub proof fn lemma_quirk_identity_slots(s: SessionModel)
    ensures
        convert_session(Direction::Quirk, s, true).0.local_identity_public == match s.local_identity_public {
            None => None,
            Some(k) => Some(if k.len() == 33 { k.subrange(1, 33) } else { k }),
        },
        convert_session(Direction::Quirk, s, true).0.remote_identity_public == (if match s.local_identity_public {
            None => true,
            Some(k) => k.len() == 32 || (k.len() == 33 && k[0] == DJB_TYPE),
        } {
            match s.remote_identity_public {
                None => None,
                Some(k) => Some(if k.len() == 33 { k.subrange(1, 33) } else { k }),
            }
        } else {
            s.remote_identity_public
        }),
{
    if let Some(k) = s.local_identity_public {
        assert(k.len() == 33 ==> k.drop_first() =~= k.subrange(1, 33));
    }
    if let Some(k) = s.remote_identity_public {
        assert(k.len() == 33 ==> k.drop_first() =~= k.subrange(1, 33));
    }
}

} // verus!
