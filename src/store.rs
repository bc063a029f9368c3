use crate::address::IpAddress;
use crate::knock_state::KnockState;
use ahash::HashMapExt;
use slotmap::{DefaultKey, Key, KeyData, SlotMap};
use std::collections::HashMap;
use vstd::prelude::*;

verus! {

/// ahash's hasher state, carried unread by the active-knock index.
#[verifier::external_type_specification]
#[verifier::external_body]
pub struct ExAhashRandomState(ahash::RandomState);

/// Bound on the records a store holds when it takes a new one: the slot vector
/// keeps a sentinel slot beside the records and stops short of `u32::MAX` slots.
pub const MAX_RECORDS: usize = 0xffff_fffe;

/// A generational handle to a record: the slot index in the low half and the
/// slot's version in the high half. A handle is never reissued while the record
/// it names is still stored, and a new handle always differs from the handles
/// stored at that moment. Slot versions are 32 bits and wrap around, so after
/// about 2^31 reuses of one slot a handle of a long-removed record can come
/// back; nothing here relies on handles being unique over all time.
#[derive(Clone, Copy, Debug, PartialEq, Eq, Structural, Hash)]
pub struct KnockKey {
    id: u64,
}

impl KnockKey {
    /// Handles of stored records carry an odd version.
    pub closed spec fn issued(self) -> bool {
        (self.id / 0x1_0000_0000) % 2 == 1
    }
}

/// The record store: the knock state of every attempt in flight. The states
/// live in a slotmap, whose generational keys are handed out as `KnockKey`s;
/// `records_of` names what it holds.
#[verifier::external_body]
pub struct KnockStates {
    slots: SlotMap<DefaultKey, KnockState>,
}

/// The records a store holds, by handle.
pub uninterp spec fn records_of(m: KnockStates) -> Map<KnockKey, KnockState>;

/// Relies on slotmap's `SlotMap::new`: a new map holds nothing.
#[verifier::external_body]
fn slots_new() -> (r: KnockStates)
    ensures
        records_of(r).dom() == Set::<KnockKey>::empty(),
{
    KnockStates { slots: SlotMap::new() }
}

/// Relies on slotmap's `SlotMap::insert`: the value goes into a vacant slot whose
/// odd version the returned key carries. Slot 0 is a sentinel that holds no
/// record, so with fewer than `u32::MAX - 1` records either a vacant slot
/// exists or the slot vector is shorter than `u32::MAX`, and it does not panic.
#[verifier::external_body]
fn slots_insert(m: &mut KnockStates, v: KnockState) -> (r: KnockKey)
    requires
        records_of(*old(m)).dom().finite(),
        records_of(*old(m)).len() < MAX_RECORDS,
    ensures
        r.issued(),
        !records_of(*old(m)).contains_key(r),
        records_of(*final(m)) == records_of(*old(m)).insert(r, v),
{
    KnockKey { id: m.slots.insert(v).data().as_ffi() }
}

/// Relies on slotmap's `SlotMap::get`, reached through `KeyData::from_ffi`,
/// which gives back the key an odd-versioned handle was made from.
#[verifier::external_body]
fn slots_get(m: &KnockStates, k: KnockKey) -> (r: Option<KnockState>)
    requires
        k.issued(),
    ensures
        r == (if records_of(*m).contains_key(k) {
            Some(records_of(*m)[k])
        } else {
            None::<KnockState>
        }),
{
    m.slots.get(DefaultKey::from(KeyData::from_ffi(k.id))).copied()
}

/// Relies on slotmap's `SlotMap::remove`, reached through `KeyData::from_ffi`:
/// it takes out the record the key names, if it is still there.
#[verifier::external_body]
fn slots_remove(m: &mut KnockStates, k: KnockKey) -> (r: Option<KnockState>)
    requires
        k.issued(),
    ensures
        r == (if records_of(*old(m)).contains_key(k) {
            Some(records_of(*old(m))[k])
        } else {
            None::<KnockState>
        }),
        records_of(*final(m)) == records_of(*old(m)).remove(k),
{
    m.slots.remove(DefaultKey::from(KeyData::from_ffi(k.id)))
}

/// Relies on slotmap's `SlotMap::len`: the number of stored records.
#[verifier::external_body]
fn slots_len(m: &KnockStates) -> (r: usize)
    requires
        records_of(*m).dom().finite(),
    ensures
        r == records_of(*m).len(),
{
    m.slots.len()
}

impl View for KnockStates {
    type V = Map<KnockKey, KnockState>;

    closed spec fn view(&self) -> Map<KnockKey, KnockState> {
        records_of(*self)
    }
}

impl KnockStates {
    /// Every stored record has an issued handle, and there are finitely many.
    pub open spec fn wf(&self) -> bool {
        &&& self@.dom().finite()
        &&& forall|k: KnockKey| #[trigger] self@.contains_key(k) ==> k.issued()
    }

    pub fn new() -> (r: KnockStates)
        ensures
            r.wf(),
            r@ == Map::<KnockKey, KnockState>::empty(),
    {
        let r = slots_new();
        assert(r@ =~= Map::<KnockKey, KnockState>::empty());
        r
    }

    /// Stores `state` under a fresh handle.
    pub fn insert(&mut self, state: KnockState) -> (r: KnockKey)
        requires
            old(self).wf(),
            old(self)@.len() < MAX_RECORDS,
        ensures
            final(self).wf(),
            r.issued(),
            !old(self)@.contains_key(r),
            final(self)@ == old(self)@.insert(r, state),
    {
        slots_insert(self, state)
    }

    /// The record under `key`, if it is still stored.
    pub fn get(&self, key: KnockKey) -> (r: Option<KnockState>)
        requires
            key.issued(),
        ensures
            r == (if self@.contains_key(key) {
                Some(self@[key])
            } else {
                None::<KnockState>
            }),
    {
        slots_get(self, key)
    }

    /// Takes out the record under `key`; `None` when it was already removed.
    pub fn remove(&mut self, key: KnockKey) -> (r: Option<KnockState>)
        requires
            old(self).wf(),
            key.issued(),
        ensures
            final(self).wf(),
            r == (if old(self)@.contains_key(key) {
                Some(old(self)@[key])
            } else {
                None::<KnockState>
            }),
            final(self)@ == old(self)@.remove(key),
    {
        slots_remove(self, key)
    }

    pub fn len(&self) -> (r: usize)
        requires
            self.wf(),
        ensures
            r == self@.len(),
    {
        slots_len(self)
    }
}

/// Relies on ahash's `HashMapExt::new`: an empty std map with ahash's hasher.
#[verifier::external_body]
fn index_new() -> (r: HashMap<IpAddress, KnockKey, ahash::RandomState>)
    ensures
        r@.dom() == Set::<IpAddress>::empty(),
{
    <HashMap<IpAddress, KnockKey, ahash::RandomState> as HashMapExt>::new()
}

/// Relies on std's `HashMap::get` over ahash's hasher, which hashes equal
/// addresses alike.
#[verifier::external_body]
fn index_get(m: &HashMap<IpAddress, KnockKey, ahash::RandomState>, a: &IpAddress) -> (r: Option<
    KnockKey,
>)
    ensures
        r == (if m@.contains_key(*a) {
            Some(m@[*a])
        } else {
            None::<KnockKey>
        }),
{
    m.get(a).copied()
}

/// Relies on std's `HashMap::insert` over ahash's hasher: sets or replaces one entry.
#[verifier::external_body]
fn index_insert(m: &mut HashMap<IpAddress, KnockKey, ahash::RandomState>, a: IpAddress, k: KnockKey)
    ensures
        final(m)@ == old(m)@.insert(a, k),
{
    m.insert(a, k);
}

/// Relies on std's `HashMap::remove` over ahash's hasher: drops one entry if present.
#[verifier::external_body]
fn index_remove(m: &mut HashMap<IpAddress, KnockKey, ahash::RandomState>, a: &IpAddress)
    ensures
        final(m)@ == old(m)@.remove(*a),
{
    m.remove(a);
}

/// The active-knock index: the handle of the current record of each address.
pub struct ActiveKnocks {
    map: HashMap<IpAddress, KnockKey, ahash::RandomState>,
}

impl View for ActiveKnocks {
    type V = Map<IpAddress, KnockKey>;

    closed spec fn view(&self) -> Map<IpAddress, KnockKey> {
        self.map@
    }
}

impl ActiveKnocks {
    pub fn new() -> (r: ActiveKnocks)
        ensures
            r@ == Map::<IpAddress, KnockKey>::empty(),
    {
        let r = ActiveKnocks { map: index_new() };
        assert(r@ =~= Map::<IpAddress, KnockKey>::empty());
        r
    }

    pub fn get(&self, addr: &IpAddress) -> (r: Option<KnockKey>)
        ensures
            r == (if self@.contains_key(*addr) {
                Some(self@[*addr])
            } else {
                None::<KnockKey>
            }),
    {
        index_get(&self.map, addr)
    }

    pub fn insert(&mut self, addr: IpAddress, key: KnockKey)
        ensures
            final(self)@ == old(self)@.insert(addr, key),
    {
        index_insert(&mut self.map, addr, key)
    }

    pub fn remove(&mut self, addr: &IpAddress)
        ensures
            final(self)@ == old(self)@.remove(*addr),
    {
        index_remove(&mut self.map, addr)
    }
}

} // verus!
