use crate::address::IpAddress;
use crate::expire::{sweep_effect, ExpirationEntry, ExpirationQueue, Sweep};
use crate::knock_meta::{frame_knock, KnockMeta};
use crate::knock_state::{deadline, sequence_port, KnockState, PASSED_WINDOW_NANOS};
use crate::store::{ActiveKnocks, KnockKey, KnockStates, MAX_RECORDS};
use vstd::multiset::Multiset;
use vstd::prelude::*;

verus! {

/// The queue entry that schedules the check of the current record of `addr`.
pub open spec fn scheduled_entry(
    states: Map<KnockKey, KnockState>,
    index: Map<IpAddress, KnockKey>,
    addr: IpAddress,
) -> ExpirationEntry {
    ExpirationEntry { expires: states[index[addr]].expiry(), knock_key: index[addr], addr }
}

/// How the record store, the active-knock index and the expiration queue hang
/// together between operations.
pub open spec fn consistent(
    states: Map<KnockKey, KnockState>,
    index: Map<IpAddress, KnockKey>,
    queue: Multiset<ExpirationEntry>,
) -> bool {
    // No index entry dangles.
    &&& forall|a: IpAddress| #[trigger] index.contains_key(a) ==> states.contains_key(index[a])
    // No record is orphaned.
    &&& forall|k: KnockKey| #[trigger]
        states.contains_key(k) ==> exists|a: IpAddress| index.contains_key(a) && #[trigger] index[a]
            == k
    // No two addresses share a record.
    &&& forall|a: IpAddress, b: IpAddress|
        index.contains_key(a) && index.contains_key(b) && #[trigger] index[a] == #[trigger] index[b]
            ==> a == b
    // A failed state is never stored.
    &&& forall|k: KnockKey| #[trigger]
        states.contains_key(k) ==> !states[k].is_failed() && states[k].wf()
    // Every current record has its expiry scheduled.
    &&& forall|a: IpAddress| #[trigger]
        index.contains_key(a) ==> queue.contains(scheduled_entry(states, index, a))
}

/// The three structures are each well formed and consistent with each other.
pub open spec fn knocks_wf(
    knock_states: &KnockStates,
    active_knocks: &ActiveKnocks,
    expiration_queue: &ExpirationQueue,
) -> bool {
    &&& knock_states.wf()
    &&& expiration_queue.wf()
    &&& consistent(knock_states@, active_knocks@, expiration_queue@)
}

/// Dropping an address together with its record keeps the structures consistent.
pub proof fn lemma_drop_record(
    states: Map<KnockKey, KnockState>,
    index: Map<IpAddress, KnockKey>,
    queue: Multiset<ExpirationEntry>,
    addr: IpAddress,
)
    requires
        consistent(states, index, queue),
        index.contains_key(addr),
    ensures
        consistent(states.remove(index[addr]), index.remove(addr), queue),
{
    let k0 = index[addr];
    let s2 = states.remove(k0);
    let i2 = index.remove(addr);
    assert forall|a: IpAddress| #[trigger] i2.contains_key(a) implies s2.contains_key(i2[a]) by {
        assert(index[a] != k0);
    }
    assert forall|k: KnockKey| #[trigger] s2.contains_key(k) implies exists|a: IpAddress|
        i2.contains_key(a) && #[trigger] i2[a] == k by {
        let a = choose|a: IpAddress| index.contains_key(a) && #[trigger] index[a] == k;
        assert(i2.contains_key(a) && i2[a] == k);
    }
    assert forall|a: IpAddress| #[trigger] i2.contains_key(a) implies queue.contains(
        scheduled_entry(s2, i2, a),
    ) by {
        assert(index[a] != k0);
        assert(scheduled_entry(s2, i2, a) == scheduled_entry(states, index, a));
    }
}

/// Adding a fresh record for an address without one keeps the structures
/// consistent, once its expiry is scheduled.
pub proof fn lemma_add_record(
    states: Map<KnockKey, KnockState>,
    index: Map<IpAddress, KnockKey>,
    queue: Multiset<ExpirationEntry>,
    addr: IpAddress,
    key: KnockKey,
    state: KnockState,
)
    requires
        consistent(states, index, queue),
        !index.contains_key(addr),
        !states.contains_key(key),
        !state.is_failed(),
        state.wf(),
    ensures
        consistent(
            states.insert(key, state),
            index.insert(addr, key),
            queue.insert(ExpirationEntry { expires: state.expiry(), knock_key: key, addr }),
        ),
{
    let s2 = states.insert(key, state);
    let i2 = index.insert(addr, key);
    let q2 = queue.insert(ExpirationEntry { expires: state.expiry(), knock_key: key, addr });
    assert forall|k: KnockKey| #[trigger] s2.contains_key(k) implies exists|a: IpAddress|
        i2.contains_key(a) && #[trigger] i2[a] == k by {
        if k == key {
            assert(i2.contains_key(addr) && i2[addr] == k);
        } else {
            let a = choose|a: IpAddress| index.contains_key(a) && #[trigger] index[a] == k;
            assert(i2.contains_key(a) && i2[a] == k);
        }
    }
    assert forall|a: IpAddress, b: IpAddress|
        i2.contains_key(a) && i2.contains_key(b) && #[trigger] i2[a] == #[trigger] i2[b] implies a
        == b by {
        if a != addr && b != addr {
            assert(index[a] == index[b]);
        } else if a == addr && b != addr {
            assert(states.contains_key(index[b]));
        } else if a != addr && b == addr {
            assert(states.contains_key(index[a]));
        }
    }
    assert forall|a: IpAddress| #[trigger] i2.contains_key(a) implies q2.contains(
        scheduled_entry(s2, i2, a),
    ) by {
        if a != addr {
            assert(states.contains_key(index[a]));
            assert(scheduled_entry(s2, i2, a) == scheduled_entry(states, index, a));
        }
    }
}

/// Taking out an entry that schedules no current record keeps the structures
/// consistent.
pub proof fn lemma_drop_entry(
    states: Map<KnockKey, KnockState>,
    index: Map<IpAddress, KnockKey>,
    queue: Multiset<ExpirationEntry>,
    entry: ExpirationEntry,
)
    requires
        consistent(states, index, queue),
        !(index.contains_key(entry.addr) && index[entry.addr] == entry.knock_key),
    ensures
        consistent(states, index, queue.remove(entry)),
{
    assert forall|a: IpAddress| #[trigger] index.contains_key(a) implies queue.remove(
        entry,
    ).contains(scheduled_entry(states, index, a)) by {
        assert(scheduled_entry(states, index, a) != entry);
    }
}

/// What a knock led to.
#[derive(Clone, Copy, Debug, PartialEq, Eq, Structural)]
pub enum KnockOutcome {
    /// The door of the address is open; nothing changed.
    AlreadyOpen,
    /// A fresh address knocked on a port other than the first of the sequence;
    /// nothing changed.
    Unmatched,
    /// The attempt of the address broke or had expired; its record is gone.
    QuietInside,
    /// The attempt moved on and is stored under the new handle.
    Knocked(KnockKey),
    /// The sequence is complete; the open door is stored under the new handle.
    DoorOpened(KnockKey),
}

/// Whether the current record of `addr` is an open door at `now`.
pub open spec fn door_open(
    states: Map<KnockKey, KnockState>,
    index: Map<IpAddress, KnockKey>,
    addr: IpAddress,
    now: u64,
) -> bool {
    &&& index.contains_key(addr)
    &&& states[index[addr]] is Passed
    &&& states[index[addr]].live(now)
}

/// The state a knock of `addr` on `port` at `now` leads to, past the open-door
/// check.
pub open spec fn next_state(
    states: Map<KnockKey, KnockState>,
    index: Map<IpAddress, KnockKey>,
    addr: IpAddress,
    port: u16,
    now: u64,
) -> KnockState {
    if index.contains_key(addr) {
        states[index[addr]].advance(port, now)
    } else {
        KnockState::start(port, now)
    }
}

/// The effect of a knock of `addr` on `port` at `now`, from the structures
/// `(s0, i0, q0)` to `(s1, i1, q1)`, with outcome `r`.
pub open spec fn knock_effect(
    s0: Map<KnockKey, KnockState>,
    i0: Map<IpAddress, KnockKey>,
    q0: Multiset<ExpirationEntry>,
    s1: Map<KnockKey, KnockState>,
    i1: Map<IpAddress, KnockKey>,
    q1: Multiset<ExpirationEntry>,
    addr: IpAddress,
    port: u16,
    now: u64,
    r: KnockOutcome,
) -> bool {
    let present = i0.contains_key(addr);
    let next = next_state(s0, i0, addr, port, now);
    // The record the knock starts from is always taken out; a new record gets a
    // handle that was not stored before the knock.
    let rest = if present {
        s0.remove(i0[addr])
    } else {
        s0
    };
    if door_open(s0, i0, addr, now) {
        &&& r == KnockOutcome::AlreadyOpen
        &&& s1 == s0
        &&& i1 == i0
        &&& q1 == q0
    } else if !next.live(now) {
        &&& r == (if present {
            KnockOutcome::QuietInside
        } else {
            KnockOutcome::Unmatched
        })
        &&& s1 == rest
        &&& i1 == i0.remove(addr)
        &&& q1 == q0
    } else {
        match r {
            KnockOutcome::Knocked(k) => {
                &&& next is PortPending
                &&& !s0.contains_key(k)
                &&& s1 == rest.insert(k, next)
                &&& i1 == i0.insert(addr, k)
                &&& q1 == q0.insert(ExpirationEntry { expires: next.expiry(), knock_key: k, addr })
            },
            KnockOutcome::DoorOpened(k) => {
                &&& next is Passed
                &&& !s0.contains_key(k)
                &&& s1 == rest.insert(k, next)
                &&& i1 == i0.insert(addr, k)
                &&& q1 == q0.insert(ExpirationEntry { expires: next.expiry(), knock_key: k, addr })
            },
            _ => false,
        }
    }
}

/// Feeds a knock of `addr` on `port` at `now` through the state machine and
/// brings the record store, the active-knock index and the expiration queue
/// up to date.
///
/// A new record gets a handle that no record held before the knock, so it
/// differs from the handle it replaces. It may equal the handle of a record
/// removed earlier (see [`KnockKey`]); queue entries left by such a record are
/// told apart by the index when they are swept.
pub fn handle_knock(
    addr: IpAddress,
    port: u16,
    now: u64,
    knock_states: &mut KnockStates,
    active_knocks: &mut ActiveKnocks,
    expiration_queue: &mut ExpirationQueue,
) -> (r: KnockOutcome)
    requires
        knocks_wf(old(knock_states), old(active_knocks), old(expiration_queue)),
        old(knock_states)@.len() < MAX_RECORDS,
    ensures
        knocks_wf(final(knock_states), final(active_knocks), final(expiration_queue)),
        knock_effect(
            old(knock_states)@,
            old(active_knocks)@,
            old(expiration_queue)@,
            final(knock_states)@,
            final(active_knocks)@,
            final(expiration_queue)@,
            addr,
            port,
            now,
            r,
        ),
{
    let ghost s0 = knock_states@;
    let ghost i0 = active_knocks@;
    let ghost q0 = expiration_queue@;
    let old_key = match active_knocks.get(&addr) {
        None => {
            let knock = KnockState::try_new(port, now);
            if !knock.is_valid(now) {
                proof {
                    assert(active_knocks@ =~= i0.remove(addr));
                }
                return KnockOutcome::Unmatched;
            }
            let key = knock_states.insert(knock);
            expiration_queue.insert(knock.expiration(), key, addr);
            active_knocks.insert(addr, key);
            proof {
                lemma_add_record(s0, i0, q0, addr, key, knock);
            }
            return match knock {
                KnockState::Passed { .. } => KnockOutcome::DoorOpened(key),
                _ => KnockOutcome::Knocked(key),
            };
        },
        Some(old_key) => old_key,
    };
    proof {
        assert(s0.contains_key(old_key));
        lemma_drop_record(s0, i0, q0, addr);
    }
    let state = knock_states.get(old_key).unwrap();
    if let KnockState::Passed { .. } = state {
        if state.is_valid(now) {
            return KnockOutcome::AlreadyOpen;
        }
    }
    let knock = state.progress(port, now);
    if !knock.is_valid(now) {
        knock_states.remove(old_key);
        active_knocks.remove(&addr);
        return KnockOutcome::QuietInside;
    }
    // The new record goes in while the old one is still stored, so its handle
    // differs from the one it replaces.
    let key = knock_states.insert(knock);
    // Taking the old record out turns its queue entry into a tombstone.
    knock_states.remove(old_key);
    expiration_queue.insert(knock.expiration(), key, addr);
    active_knocks.insert(addr, key);
    proof {
        let s1 = s0.remove(old_key);
        let i1 = i0.remove(addr);
        lemma_add_record(s1, i1, q0, addr, key, knock);
        assert(s1.insert(key, knock) =~= knock_states@);
        assert(i1.insert(addr, key) =~= i0.insert(addr, key));
    }
    match knock {
        KnockState::Passed { .. } => KnockOutcome::DoorOpened(key),
        _ => KnockOutcome::Knocked(key),
    }
}

/// Decodes a captured frame and, when it is a candidate knock, feeds its
/// source address and destination port to [`handle_knock`]. Frames that are
/// not knocks are dropped with `None` and change nothing.
pub fn handle_packet(
    packet: &[u8],
    now: u64,
    knock_states: &mut KnockStates,
    active_knocks: &mut ActiveKnocks,
    expiration_queue: &mut ExpirationQueue,
) -> (r: Option<KnockOutcome>)
    requires
        knocks_wf(old(knock_states), old(active_knocks), old(expiration_queue)),
        old(knock_states)@.len() < MAX_RECORDS,
    ensures
        knocks_wf(final(knock_states), final(active_knocks), final(expiration_queue)),
        match frame_knock(packet@) {
            None => {
                &&& r is None
                &&& final(knock_states)@ == old(knock_states)@
                &&& final(active_knocks)@ == old(active_knocks)@
                &&& final(expiration_queue)@ == old(expiration_queue)@
            },
            Some(m) => {
                &&& r is Some
                &&& knock_effect(
                    old(knock_states)@,
                    old(active_knocks)@,
                    old(expiration_queue)@,
                    final(knock_states)@,
                    final(active_knocks)@,
                    final(expiration_queue)@,
                    m.src_addr,
                    m.dst_port,
                    now,
                    r->Some_0,
                )
            },
        },
{
    match KnockMeta::decode(packet) {
        Ok(meta) => Some(
            handle_knock(
                meta.src_addr,
                meta.dst_port,
                now,
                knock_states,
                active_knocks,
                expiration_queue,
            ),
        ),
        Err(_) => None,
    }
}

/// Between operations, an address is in the active-knock index exactly when the
/// store holds a record it reaches, that record is never a failed state, and no
/// stored record is unreachable from the index.
pub proof fn lemma_index_matches_records(
    knock_states: &KnockStates,
    active_knocks: &ActiveKnocks,
    expiration_queue: &ExpirationQueue,
    addr: IpAddress,
)
    requires
        knocks_wf(knock_states, active_knocks, expiration_queue),
    ensures
        active_knocks@.contains_key(addr) <==> exists|k: KnockKey|
            knock_states@.contains_key(k) && active_knocks@.contains_key(addr) && active_knocks@[addr]
                == k,
        active_knocks@.contains_key(addr) ==> !knock_states@[active_knocks@[addr]].is_failed(),
        forall|k: KnockKey| #[trigger]
            knock_states@.contains_key(k) ==> exists|a: IpAddress|
                active_knocks@.contains_key(a) && #[trigger] active_knocks@[a] == k,
{
    if active_knocks@.contains_key(addr) {
        assert(knock_states@.contains_key(active_knocks@[addr]));
    }
}

/// A fresh address that knocks the ports of the sequence in order, one call
/// after the other and before the clock's last instant, is answered with an
/// open door, which is then its record.
pub proof fn lemma_sequence_opens_door(
    s0: Map<KnockKey, KnockState>,
    i0: Map<IpAddress, KnockKey>,
    q0: Multiset<ExpirationEntry>,
    s1: Map<KnockKey, KnockState>,
    i1: Map<IpAddress, KnockKey>,
    q1: Multiset<ExpirationEntry>,
    s2: Map<KnockKey, KnockState>,
    i2: Map<IpAddress, KnockKey>,
    q2: Multiset<ExpirationEntry>,
    s3: Map<KnockKey, KnockState>,
    i3: Map<IpAddress, KnockKey>,
    q3: Multiset<ExpirationEntry>,
    s4: Map<KnockKey, KnockState>,
    i4: Map<IpAddress, KnockKey>,
    q4: Multiset<ExpirationEntry>,
    addr: IpAddress,
    t0: u64,
    t1: u64,
    t2: u64,
    t3: u64,
    r0: KnockOutcome,
    r1: KnockOutcome,
    r2: KnockOutcome,
    r3: KnockOutcome,
)
    requires
        !i0.contains_key(addr),
        t0 < u64::MAX,
        t1 < u64::MAX,
        t2 < u64::MAX,
        t3 < u64::MAX,
        knock_effect(s0, i0, q0, s1, i1, q1, addr, sequence_port(0), t0, r0),
        knock_effect(s1, i1, q1, s2, i2, q2, addr, sequence_port(1), t1, r1),
        knock_effect(s2, i2, q2, s3, i3, q3, addr, sequence_port(2), t2, r2),
        knock_effect(s3, i3, q3, s4, i4, q4, addr, sequence_port(3), t3, r3),
    ensures
        r0 is Knocked,
        r1 is Knocked,
        r2 is Knocked,
        r3 is DoorOpened,
        i4.contains_key(addr),
        s4[i4[addr]] == (KnockState::Passed { expires: deadline(t3, PASSED_WINDOW_NANOS) }),
{
    assert(i1[addr] == r0->Knocked_0);
    assert(s1[i1[addr]] == KnockState::pending_at(0, t0));
    assert(i2[addr] == r1->Knocked_0);
    assert(s2[i2[addr]] == KnockState::pending_at(1, t1));
    assert(i3[addr] == r2->Knocked_0);
    assert(s3[i3[addr]] == KnockState::pending_at(2, t2));
}

/// A knock that moves an attempt on (a restart, a repeated port or the next
/// port) never changes its record in place: the old handle leaves the store and
/// the new state is stored under a different handle, which the index now gives.
pub proof fn lemma_knock_replaces_record(
    s0: Map<KnockKey, KnockState>,
    i0: Map<IpAddress, KnockKey>,
    q0: Multiset<ExpirationEntry>,
    s1: Map<KnockKey, KnockState>,
    i1: Map<IpAddress, KnockKey>,
    q1: Multiset<ExpirationEntry>,
    addr: IpAddress,
    port: u16,
    now: u64,
    r: KnockOutcome,
    k: KnockKey,
)
    requires
        consistent(s0, i0, q0),
        i0.contains_key(addr),
        knock_effect(s0, i0, q0, s1, i1, q1, addr, port, now, r),
        r == KnockOutcome::Knocked(k) || r == KnockOutcome::DoorOpened(k),
    ensures
        k != i0[addr],
        !s1.contains_key(i0[addr]),
        i1[addr] == k,
        s1[k] == s0[i0[addr]].advance(port, now),
        q1 == q0.insert(ExpirationEntry { expires: s1[k].expiry(), knock_key: k, addr }),
{
    assert(s0.contains_key(i0[addr]));
}

/// A knock that breaks a pending attempt takes the record and the index entry of
/// the address away and reports it.
pub proof fn lemma_wrong_port_purges(
    s0: Map<KnockKey, KnockState>,
    i0: Map<IpAddress, KnockKey>,
    q0: Multiset<ExpirationEntry>,
    s1: Map<KnockKey, KnockState>,
    i1: Map<IpAddress, KnockKey>,
    q1: Multiset<ExpirationEntry>,
    addr: IpAddress,
    port: u16,
    now: u64,
    r: KnockOutcome,
)
    requires
        consistent(s0, i0, q0),
        i0.contains_key(addr),
        s0[i0[addr]] is PortPending,
        port != sequence_port(0),
        port != sequence_port(s0[i0[addr]]->last_idx as int),
        port != sequence_port(s0[i0[addr]]->last_idx + 1),
        knock_effect(s0, i0, q0, s1, i1, q1, addr, port, now, r),
    ensures
        r == KnockOutcome::QuietInside,
        !i1.contains_key(addr),
        !s1.contains_key(i0[addr]),
        consistent(s1, i1, q1),
{
    lemma_drop_record(s0, i0, q0, addr);
}

/// Once a cleanup step finds nothing due at `now`, every record left is still
/// live at `now`: an attempt whose window has elapsed has been swept.
pub proof fn lemma_idle_sweep_leaves_live_records(
    s0: Map<KnockKey, KnockState>,
    i0: Map<IpAddress, KnockKey>,
    q0: Multiset<ExpirationEntry>,
    s1: Map<KnockKey, KnockState>,
    i1: Map<IpAddress, KnockKey>,
    q1: Multiset<ExpirationEntry>,
    now: u64,
)
    requires
        consistent(s0, i0, q0),
        sweep_effect(s0, i0, q0, s1, i1, q1, now, Sweep::Idle),
    ensures
        forall|a: IpAddress| #[trigger] i1.contains_key(a) ==> s1[i1[a]].live(now),
{
    assert forall|a: IpAddress| #[trigger] i1.contains_key(a) implies s1[i1[a]].live(now) by {
        assert(q0.contains(scheduled_entry(s0, i0, a)));
        assert(s0.contains_key(i0[a]));
    }
}

/// A cleanup step that takes out a pending attempt reports it as cleared and
/// removes both its record and its index entry.
pub proof fn lemma_swept_attempt_is_cleared(
    s0: Map<KnockKey, KnockState>,
    i0: Map<IpAddress, KnockKey>,
    q0: Multiset<ExpirationEntry>,
    s1: Map<KnockKey, KnockState>,
    i1: Map<IpAddress, KnockKey>,
    q1: Multiset<ExpirationEntry>,
    now: u64,
    r: Sweep,
    e: ExpirationEntry,
)
    requires
        consistent(s0, i0, q0),
        sweep_effect(s0, i0, q0, s1, i1, q1, now, r),
        r == Sweep::Cleared(e) || r == Sweep::DoorClosed(e) || r == Sweep::Stale(e),
        i0.contains_key(e.addr),
        i0[e.addr] == e.knock_key,
        s0[e.knock_key] is PortPending,
    ensures
        r == Sweep::Cleared(e),
        !i1.contains_key(e.addr),
        !s1.contains_key(e.knock_key),
{
}

/// While the door of an address is open, any knock from it is answered as
/// already open and changes nothing.
pub proof fn lemma_open_door_fast_path(
    s0: Map<KnockKey, KnockState>,
    i0: Map<IpAddress, KnockKey>,
    q0: Multiset<ExpirationEntry>,
    s1: Map<KnockKey, KnockState>,
    i1: Map<IpAddress, KnockKey>,
    q1: Multiset<ExpirationEntry>,
    addr: IpAddress,
    port: u16,
    now: u64,
    r: KnockOutcome,
)
    requires
        i0.contains_key(addr),
        s0[i0[addr]] is Passed,
        now < s0[i0[addr]].expiry(),
        knock_effect(s0, i0, q0, s1, i1, q1, addr, port, now, r),
    ensures
        r == KnockOutcome::AlreadyOpen,
        s1 == s0,
        i1 == i0,
        q1 == q0,
{
}

/// Once the door window of an address has elapsed and the record has not been
/// swept yet, the next knock from it only takes that record away.
pub proof fn lemma_elapsed_door_is_purged(
    s0: Map<KnockKey, KnockState>,
    i0: Map<IpAddress, KnockKey>,
    q0: Multiset<ExpirationEntry>,
    s1: Map<KnockKey, KnockState>,
    i1: Map<IpAddress, KnockKey>,
    q1: Multiset<ExpirationEntry>,
    addr: IpAddress,
    port: u16,
    now: u64,
    r: KnockOutcome,
)
    requires
        i0.contains_key(addr),
        s0[i0[addr]] is Passed,
        s0[i0[addr]].expiry() <= now,
        knock_effect(s0, i0, q0, s1, i1, q1, addr, port, now, r),
    ensures
        r == KnockOutcome::QuietInside,
        !i1.contains_key(addr),
        !s1.contains_key(i0[addr]),
{
}

/// An address without a record that knocks on the first port of the sequence
/// before the clock's last instant begins a fresh attempt at step 0.
pub proof fn lemma_fresh_attempt(
    s0: Map<KnockKey, KnockState>,
    i0: Map<IpAddress, KnockKey>,
    q0: Multiset<ExpirationEntry>,
    s1: Map<KnockKey, KnockState>,
    i1: Map<IpAddress, KnockKey>,
    q1: Multiset<ExpirationEntry>,
    addr: IpAddress,
    now: u64,
    r: KnockOutcome,
)
    requires
        !i0.contains_key(addr),
        now < u64::MAX,
        knock_effect(s0, i0, q0, s1, i1, q1, addr, sequence_port(0), now, r),
    ensures
        r is Knocked,
        i1.contains_key(addr),
        s1[i1[addr]] == KnockState::pending_at(0, now),
{
}

/// A popped entry whose record is no longer stored is a tombstone: it leaves
/// the store and the active-knock index as they are and reports neither a
/// closed door nor a cleared attempt.
pub proof fn lemma_tombstone_changes_nothing(
    s0: Map<KnockKey, KnockState>,
    i0: Map<IpAddress, KnockKey>,
    q0: Multiset<ExpirationEntry>,
    s1: Map<KnockKey, KnockState>,
    i1: Map<IpAddress, KnockKey>,
    q1: Multiset<ExpirationEntry>,
    now: u64,
    r: Sweep,
    e: ExpirationEntry,
)
    requires
        consistent(s0, i0, q0),
        sweep_effect(s0, i0, q0, s1, i1, q1, now, r),
        r == Sweep::Cleared(e) || r == Sweep::DoorClosed(e) || r == Sweep::Stale(e),
        !s0.contains_key(e.knock_key),
    ensures
        r == Sweep::Stale(e),
        i1 == i0,
        s1 == s0,
{
    if i0.contains_key(e.addr) {
        assert(s0.contains_key(i0[e.addr]));
    }
}

} // verus!
