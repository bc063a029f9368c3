use crate::address::IpAddress;
use crate::engine::{knocks_wf, lemma_drop_entry, lemma_drop_record};
use crate::knock_state::KnockState;
use crate::store::{ActiveKnocks, KnockKey, KnockStates};
use vstd::multiset::Multiset;
use vstd::prelude::*;

verus! {

/// A scheduled check on the record `knock_key` of `addr`, due at `expires`.
///
/// Two entries are equal when they name the same record: they are then the
/// same unit of cleanup work.
#[derive(Clone, Copy, Debug)]
pub struct ExpirationEntry {
    pub expires: u64,
    pub knock_key: KnockKey,
    pub addr: IpAddress,
}

impl PartialEq for ExpirationEntry {
    fn eq(&self, other: &ExpirationEntry) -> (r: bool) {
        self.knock_key == other.knock_key
    }
}

impl Eq for ExpirationEntry {
}

impl vstd::std_specs::cmp::PartialEqSpecImpl for ExpirationEntry {
    open spec fn obeys_eq_spec() -> bool {
        true
    }

    open spec fn eq_spec(&self, other: &ExpirationEntry) -> bool {
        self.knock_key == other.knock_key
    }
}

/// The expiration queue: a binary min-heap of entries keyed by due time.
pub struct ExpirationQueue {
    inner: Vec<ExpirationEntry>,
}

/// No entry of `s` is due before its parent in the heap.
pub open spec fn heap_ordered(s: Seq<ExpirationEntry>) -> bool {
    forall|j: int| 0 < j < s.len() ==> s[(j - 1) / 2].expires <= #[trigger] s[j].expires
}

/// `e` is due no later than any entry of `m`.
pub open spec fn is_earliest(e: ExpirationEntry, m: Multiset<ExpirationEntry>) -> bool {
    forall|x: ExpirationEntry| #[trigger] m.contains(x) ==> e.expires <= x.expires
}

/// The root of a heap is due no later than any of its entries.
proof fn lemma_root_earliest(s: Seq<ExpirationEntry>, j: int)
    requires
        heap_ordered(s),
        0 <= j < s.len(),
    ensures
        s[0].expires <= s[j].expires,
    decreases j,
{
    if j > 0 {
        lemma_root_earliest(s, (j - 1) / 2);
    }
}

/// Swapping two positions keeps the entries.
proof fn lemma_swap_keeps_entries(s: Seq<ExpirationEntry>, i: int, j: int)
    requires
        0 <= i < s.len(),
        0 <= j < s.len(),
    ensures
        s.update(i, s[j]).update(j, s[i]).to_multiset() == s.to_multiset(),
{
    broadcast use vstd::seq_lib::group_to_multiset_ensures;
    broadcast use vstd::multiset::group_multiset_axioms;

    let t = s.update(i, s[j]);
    assert(t[j] == s[j] || i == j);
    assert(t.to_multiset() == s.to_multiset().insert(s[j]).remove(s[i]));
    assert(t.update(j, s[i]).to_multiset() == t.to_multiset().insert(s[i]).remove(t[j]));
    assert(t.update(j, s[i]).to_multiset() =~= s.to_multiset());
}

impl View for ExpirationQueue {
    type V = Multiset<ExpirationEntry>;

    closed spec fn view(&self) -> Multiset<ExpirationEntry> {
        self.inner@.to_multiset()
    }
}

impl ExpirationQueue {
    pub closed spec fn wf(&self) -> bool {
        heap_ordered(self.inner@)
    }

    pub fn new() -> (r: ExpirationQueue)
        ensures
            r.wf(),
            r@ == Multiset::<ExpirationEntry>::empty(),
    {
        let r = ExpirationQueue { inner: Vec::new() };
        proof {
            broadcast use vstd::seq_lib::group_to_multiset_ensures;

            assert(r@.len() == 0);
            assert(r@ =~= Multiset::<ExpirationEntry>::empty());
        }
        r
    }

    pub fn len(&self) -> (r: usize)
        ensures
            r == self@.len(),
    {
        proof {
            broadcast use vstd::seq_lib::group_to_multiset_ensures;

        }
        self.inner.len()
    }

    /// Swaps the entries at `i` and `j`.
    fn swap(&mut self, i: usize, j: usize)
        requires
            i < old(self).inner@.len(),
            j < old(self).inner@.len(),
        ensures
            final(self).inner@ == old(self).inner@.update(i as int, old(self).inner@[j as int]).update(
                j as int,
                old(self).inner@[i as int],
            ),
            final(self)@ == old(self)@,
    {
        proof {
            lemma_swap_keeps_entries(self.inner@, i as int, j as int);
        }
        let a = self.inner[i];
        let b = self.inner[j];
        self.inner[i] = b;
        self.inner[j] = a;
    }

    /// Schedules a check of `knock_key` for `addr` at `expires`.
    pub fn insert(&mut self, expires: u64, knock_key: KnockKey, addr: IpAddress)
        requires
            old(self).wf(),
        ensures
            final(self).wf(),
            final(self)@ == old(self)@.insert(ExpirationEntry { expires, knock_key, addr }),
    {
        proof {
            broadcast use vstd::seq_lib::group_to_multiset_ensures;

        }
        let entry = ExpirationEntry { expires, knock_key, addr };
        let ghost goal = self@.insert(entry);
        self.inner.push(entry);
        let mut i: usize = self.inner.len() - 1;
        // Sift the new entry up; only the link from `i` to its parent may be out
        // of order, and the parent of `i` is due no later than the children of `i`.
        while i > 0
            invariant
                i < self.inner@.len(),
                self@ == goal,
                forall|j: int|
                    0 < j < self.inner@.len() && j != i ==> self.inner@[(j - 1) / 2].expires
                        <= #[trigger] self.inner@[j].expires,
                i > 0 ==> forall|c: int|
                    0 < c < self.inner@.len() && (c - 1) / 2 == i ==> self.inner@[(i - 1)
                        / 2].expires <= #[trigger] self.inner@[c].expires,
            ensures
                self@ == goal,
                heap_ordered(self.inner@),
            decreases i,
        {
            let p = (i - 1) / 2;
            if self.inner[p].expires <= self.inner[i].expires {
                break;
            }
            let ghost s = self.inner@;
            self.swap(p, i);
            proof {
                let t = self.inner@;
                assert forall|j: int| 0 < j < t.len() && j != p implies t[(j - 1) / 2].expires
                    <= #[trigger] t[j].expires by {
                    let q = (j - 1) / 2;
                    if j == i as int {
                    } else if q == i as int {
                        assert(s[j] == t[j]);
                    } else if q == p as int {
                        assert(s[(i - 1) / 2].expires <= s[j].expires);
                    } else if j == p as int {
                    } else {
                        assert(s[j] == t[j]);
                    }
                }
                assert forall|c: int| p > 0 && 0 < c < t.len() && (c - 1) / 2 == p implies t[(p
                    - 1) / 2].expires <= #[trigger] t[c].expires by {
                    assert(s[(p as int - 1) / 2].expires <= s[p as int].expires);
                    if c != i as int {
                        assert(s[(c - 1) / 2].expires <= s[c].expires);
                    }
                }
            }
            i = p;
        }
    }

    /// Takes out an earliest entry if it is due at `now`; otherwise leaves the
    /// queue as it is and returns `None`.
    pub fn pop_due(&mut self, now: u64) -> (r: Option<ExpirationEntry>)
        requires
            old(self).wf(),
        ensures
            final(self).wf(),
            match r {
                None => {
                    &&& final(self)@ == old(self)@
                    &&& forall|x: ExpirationEntry| #[trigger]
                        old(self)@.contains(x) ==> now < x.expires
                },
                Some(e) => {
                    &&& old(self)@.contains(e)
                    &&& e.expires <= now
                    &&& is_earliest(e, old(self)@)
                    &&& final(self)@ == old(self)@.remove(e)
                },
            },
    {
        proof {
            broadcast use vstd::seq_lib::group_to_multiset_ensures;
            broadcast use vstd::multiset::group_multiset_axioms;

        }
        let n = self.inner.len();
        if n == 0 {
            proof {
                assert forall|x: ExpirationEntry| #[trigger]
                    old(self)@.contains(x) implies now < x.expires by {
                    assert(self.inner@.contains(x));
                }
            }
            return None;
        }
        let ghost s = self.inner@;
        let root = self.inner[0];
        proof {
            assert forall|x: ExpirationEntry| #[trigger] s.to_multiset().contains(x) implies root.expires
                <= x.expires by {
                assert(s.contains(x));
                let j = choose|j: int| 0 <= j < s.len() && s[j] == x;
                lemma_root_earliest(s, j);
            }
        }
        if root.expires > now {
            return None;
        }
        let last = self.inner.pop().unwrap();
        proof {
            assert(s.remove(n - 1) =~= self.inner@);
        }
        if n == 1 {
            return Some(root);
        }
        let ghost t = self.inner@;
        self.inner[0] = last;
        proof {
            assert(self.inner@ == t.update(0, last));
            assert(self.inner@.to_multiset() =~= s.to_multiset().remove(root));
        }
        let len = self.inner.len();
        let mut i: usize = 0;
        // Sift the moved entry down; only the links from `i` to its children may
        // be out of order, and the parent of `i` is due no later than they are.
        loop
            invariant
                len == self.inner@.len(),
                i < len,
                self@ == s.to_multiset().remove(root),
                forall|j: int|
                    0 < j < len && (j - 1) / 2 != i ==> self.inner@[(j - 1) / 2].expires
                        <= #[trigger] self.inner@[j].expires,
                i > 0 ==> forall|c: int|
                    0 < c < len && (c - 1) / 2 == i ==> self.inner@[(i - 1) / 2].expires
                        <= #[trigger] self.inner@[c].expires,
            ensures
                len == self.inner@.len(),
                self@ == s.to_multiset().remove(root),
                heap_ordered(self.inner@),
            decreases len - i,
        {
            if i >= len / 2 {
                proof {
                    assert forall|j: int| 0 < j < len implies self.inner@[(j - 1) / 2].expires
                        <= #[trigger] self.inner@[j].expires by {
                        if (j - 1) / 2 == i as int {
                            assert(2 * i + 1 >= len);
                        }
                    }
                }
                break;
            }
            let l = 2 * i + 1;
            let m = if l + 1 < len && self.inner[l + 1].expires < self.inner[l].expires {
                l + 1
            } else {
                l
            };
            if self.inner[i].expires <= self.inner[m].expires {
                proof {
                    assert forall|j: int| 0 < j < len implies self.inner@[(j - 1) / 2].expires
                        <= #[trigger] self.inner@[j].expires by {
                        if (j - 1) / 2 == i as int {
                            assert(j == l || j == l + 1);
                        }
                    }
                }
                break;
            }
            let ghost u = self.inner@;
            self.swap(i, m);
            proof {
                let v = self.inner@;
                assert forall|j: int| 0 < j < len && (j - 1) / 2 != m implies v[(j - 1) / 2].expires
                    <= #[trigger] v[j].expires by {
                    let q = (j - 1) / 2;
                    if j == m as int {
                    } else if q == i as int {
                        assert(j == l || j == l + 1);
                        assert(u[j] == v[j]);
                    } else if j == i as int {
                        assert(u[(i - 1) / 2].expires <= u[m as int].expires);
                    } else {
                        assert(u[j] == v[j]);
                        if q == m as int {
                        } else {
                            assert(u[q] == v[q]);
                        }
                    }
                }
                assert forall|c: int| 0 < c < len && (c - 1) / 2 == m implies v[(m - 1)
                    / 2].expires <= #[trigger] v[c].expires by {
                    assert(u[c] == v[c]);
                    assert(u[(c - 1) / 2].expires <= u[c].expires);
                }
            }
            i = m;
        }
        Some(root)
    }
}

/// What one cleanup step did.
#[derive(Clone, Copy, Debug, PartialEq, Eq)]
pub enum Sweep {
    /// Nothing was due.
    Idle,
    /// The entry closed an open door: its record and index entry are gone.
    DoorClosed(ExpirationEntry),
    /// The entry cleared an unfinished attempt: its record and index entry are gone.
    Cleared(ExpirationEntry),
    /// The entry was a tombstone of a record already replaced or removed.
    Stale(ExpirationEntry),
}

impl Sweep {
    /// Whether a queue entry was consumed, tombstones included.
    pub fn did_process(&self) -> (r: bool)
        ensures
            r == !(self is Idle),
    {
        match self {
            Sweep::Idle => false,
            _ => true,
        }
    }
}

/// Whether `entry` schedules the current record of its address.
pub open spec fn applies(entry: ExpirationEntry, index: Map<IpAddress, KnockKey>) -> bool {
    index.contains_key(entry.addr) && index[entry.addr] == entry.knock_key
}

/// The effect of one cleanup step at `now`, from the structures `(s0, i0, q0)`
/// to `(s1, i1, q1)`, with outcome `r`.
pub open spec fn sweep_effect(
    s0: Map<KnockKey, KnockState>,
    i0: Map<IpAddress, KnockKey>,
    q0: Multiset<ExpirationEntry>,
    s1: Map<KnockKey, KnockState>,
    i1: Map<IpAddress, KnockKey>,
    q1: Multiset<ExpirationEntry>,
    now: u64,
    r: Sweep,
) -> bool {
    match r {
        Sweep::Idle => {
            &&& forall|x: ExpirationEntry| #[trigger] q0.contains(x) ==> now < x.expires
            &&& q1 == q0
            &&& s1 == s0
            &&& i1 == i0
        },
        Sweep::Stale(e) => {
            &&& q0.contains(e)
            &&& e.expires <= now
            &&& is_earliest(e, q0)
            &&& q1 == q0.remove(e)
            &&& !applies(e, i0)
            &&& s1 == s0
            &&& i1 == i0
        },
        Sweep::DoorClosed(e) | Sweep::Cleared(e) => {
            &&& q0.contains(e)
            &&& e.expires <= now
            &&& is_earliest(e, q0)
            &&& q1 == q0.remove(e)
            &&& applies(e, i0)
            &&& (r is DoorClosed <==> s0[e.knock_key] is Passed)
            &&& s1 == s0.remove(e.knock_key)
            &&& i1 == i0.remove(e.addr)
        },
    }
}

impl ExpirationQueue {
    /// Consumes at most one due entry: when it still schedules the current
    /// record of its address, that record and its index entry go; otherwise it
    /// is a tombstone and only leaves the queue.
    pub fn try_clean_next(
        &mut self,
        knock_states: &mut KnockStates,
        active_knocks: &mut ActiveKnocks,
        now: u64,
    ) -> (r: Sweep)
        requires
            knocks_wf(old(knock_states), old(active_knocks), old(self)),
        ensures
            knocks_wf(final(knock_states), final(active_knocks), final(self)),
            sweep_effect(
                old(knock_states)@,
                old(active_knocks)@,
                old(self)@,
                final(knock_states)@,
                final(active_knocks)@,
                final(self)@,
                now,
                r,
            ),
    {
        let ghost s0 = knock_states@;
        let ghost i0 = active_knocks@;
        let ghost q0 = self@;
        let entry = match self.pop_due(now) {
            None => {
                return Sweep::Idle;
            },
            Some(entry) => entry,
        };
        // The index, not the store, says whether the entry is current: a slot
        // whose version wraps around hands out an old handle again.
        let current = active_knocks.get(&entry.addr);
        let applies_now = match current {
            Some(key) => key == entry.knock_key,
            None => false,
        };
        if !applies_now {
            proof {
                lemma_drop_entry(s0, i0, q0, entry);
            }
            return Sweep::Stale(entry);
        }
        proof {
            assert(s0.contains_key(entry.knock_key));
        }
        let state = knock_states.remove(entry.knock_key).unwrap();
        active_knocks.remove(&entry.addr);
        proof {
            lemma_drop_record(s0, i0, q0, entry.addr);
            lemma_drop_entry(knock_states@, active_knocks@, q0, entry);
        }
        match state {
            KnockState::Passed { .. } => Sweep::DoorClosed(entry),
            _ => Sweep::Cleared(entry),
        }
    }
}

} // verus!
