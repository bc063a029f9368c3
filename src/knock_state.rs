use vstd::prelude::*;

verus! {

/// Number of ports in the secret knock sequence.
pub const SEQUENCE_LEN: usize = 4;

/// How long a partially completed sequence waits for its next port, in nanoseconds.
pub const PENDING_WINDOW_NANOS: u64 = 5_000_000_000;

/// How long the door stays open after a completed sequence, in nanoseconds.
pub const PASSED_WINDOW_NANOS: u64 = 30_000_000_000;

/// The time `window` after `now`; a deadline past the end of the clock stays
/// at its last instant.
pub open spec fn deadline(now: u64, window: u64) -> u64 {
    if now + window > u64::MAX {
        u64::MAX
    } else {
        (now + window) as u64
    }
}

/// The port expected at position `i` of the secret sequence.
pub open spec fn sequence_port(i: int) -> u16 {
    if i == 0 {
        123
    } else if i == 1 {
        436
    } else if i == 2 {
        1928
    } else {
        29545
    }
}

/// Returns the port expected at position `i` of the secret sequence.
pub fn port_at(i: usize) -> (r: u16)
    requires
        i < SEQUENCE_LEN,
    ensures
        r == sequence_port(i as int),
{
    match i {
        0 => 123,
        1 => 436,
        2 => 1928,
        _ => 29545,
    }
}

/// The knock progress of one source address. Times are nanoseconds on a
/// monotonic clock.
#[derive(Clone, Copy, Debug, PartialEq, Eq, Structural)]
pub enum KnockState {
    /// The sequence matched up to position `last_idx`; the next port must come
    /// before `expires`.
    PortPending { last_idx: usize, expires: u64 },
    /// The whole sequence matched; the door is open until `expires`.
    Passed { expires: u64 },
    /// The sequence was broken.
    Failed,
}

impl KnockState {
    /// A pending state always has a next position to wait for.
    pub open spec fn wf(self) -> bool {
        match self {
            KnockState::PortPending { last_idx, .. } => last_idx + 1 < SEQUENCE_LEN,
            _ => true,
        }
    }

    /// Pending at position `idx`, expiring one pending window after `now`.
    pub open spec fn pending_at(idx: usize, now: u64) -> KnockState {
        KnockState::PortPending { last_idx: idx, expires: deadline(now, PENDING_WINDOW_NANOS) }
    }

    /// The state of a fresh source that knocks on `port` at `now`.
    pub open spec fn start(port: u16, now: u64) -> KnockState {
        if port == sequence_port(0) {
            KnockState::pending_at(0, now)
        } else {
            KnockState::Failed
        }
    }

    /// The state after a knock on `port` at `now`. Only a pending state moves.
    pub open spec fn advance(self, port: u16, now: u64) -> KnockState {
        match self {
            KnockState::PortPending { last_idx, .. } => {
                if port == sequence_port(0) {
                    KnockState::pending_at(0, now)
                } else if port == sequence_port(last_idx as int) {
                    KnockState::pending_at(last_idx, now)
                } else if port != sequence_port(last_idx + 1) {
                    KnockState::Failed
                } else if last_idx + 2 == SEQUENCE_LEN {
                    KnockState::Passed { expires: deadline(now, PASSED_WINDOW_NANOS) }
                } else {
                    KnockState::pending_at((last_idx + 1) as usize, now)
                }
            },
            _ => self,
        }
    }

    /// Whether the state still counts at `now`.
    pub open spec fn live(self, now: u64) -> bool {
        match self {
            KnockState::PortPending { expires, .. } => now < expires,
            KnockState::Passed { expires } => now < expires,
            KnockState::Failed => false,
        }
    }

    /// When a pending or passed state stops counting.
    pub open spec fn expiry(self) -> u64 {
        match self {
            KnockState::PortPending { expires, .. } => expires,
            KnockState::Passed { expires } => expires,
            KnockState::Failed => 0,
        }
    }

    pub open spec fn is_failed(self) -> bool {
        self is Failed
    }

    /// Starts a knock attempt with `port` at time `now`.
    pub fn try_new(port: u16, now: u64) -> (r: KnockState)
        ensures
            r == KnockState::start(port, now),
            r.wf(),
    {
        if port == port_at(0) {
            KnockState::PortPending { last_idx: 0, expires: now.saturating_add(PENDING_WINDOW_NANOS) }
        } else {
            KnockState::Failed
        }
    }

    /// Feeds a knock on `port` at time `now` into the state.
    pub fn progress(self, port: u16, now: u64) -> (r: KnockState)
        requires
            self.wf(),
        ensures
            r == self.advance(port, now),
            r.wf(),
    {
        let last_idx = match self {
            KnockState::PortPending { last_idx, .. } => last_idx,
            _ => {
                return self;
            },
        };
        // A knock on the first port starts over.
        if port == port_at(0) {
            return KnockState::PortPending { last_idx: 0, expires: now.saturating_add(PENDING_WINDOW_NANOS) };
        }
        // A repeated knock only refreshes the deadline.
        if port == port_at(last_idx) {
            return KnockState::PortPending { last_idx, expires: now.saturating_add(PENDING_WINDOW_NANOS) };
        }
        if port != port_at(last_idx + 1) {
            return KnockState::Failed;
        }
        if last_idx + 2 == SEQUENCE_LEN {
            return KnockState::Passed { expires: now.saturating_add(PASSED_WINDOW_NANOS) };
        }
        KnockState::PortPending { last_idx: last_idx + 1, expires: now.saturating_add(PENDING_WINDOW_NANOS) }
    }

    /// Whether the state still counts at time `now`.
    pub fn is_valid(&self, now: u64) -> (r: bool)
        ensures
            r == self.live(now),
    {
        match self {
            KnockState::PortPending { expires, .. } => now < *expires,
            KnockState::Passed { expires } => now < *expires,
            KnockState::Failed => false,
        }
    }

    /// When the state stops counting; never asked of a failed state.
    pub fn expiration(&self) -> (r: u64)
        requires
            !self.is_failed(),
        ensures
            r == self.expiry(),
    {
        match self {
            KnockState::PortPending { expires, .. } => *expires,
            KnockState::Passed { expires } => *expires,
            KnockState::Failed => {
                proof {
                    assert(false);
                }
                0
            },
        }
    }
}

/// A fresh source that presents the ports of the sequence in order ends with an
/// open door, one passed window after its last knock.
pub proof fn lemma_sequence_passes(t0: u64, t1: u64, t2: u64, t3: u64)
    ensures
        KnockState::start(sequence_port(0), t0).advance(sequence_port(1), t1).advance(
            sequence_port(2),
            t2,
        ).advance(sequence_port(3), t3) == (KnockState::Passed {
            expires: deadline(t3, PASSED_WINDOW_NANOS),
        }),
{
}

/// A fresh source whose first knock is not on the first port of the sequence
/// fails.
pub proof fn lemma_wrong_first_port_fails(port: u16, now: u64)
    requires
        port != sequence_port(0),
    ensures
        KnockState::start(port, now) == KnockState::Failed,
{
}

/// At any step, a knock on a port that is neither the first of the sequence,
/// nor the one last matched, nor the next one, breaks the sequence.
pub proof fn lemma_wrong_port_fails(state: KnockState, port: u16, now: u64)
    requires
        state is PortPending,
        state.wf(),
        port != sequence_port(0),
        port != sequence_port(state->last_idx as int),
        port != sequence_port(state->last_idx + 1),
    ensures
        state.advance(port, now) == KnockState::Failed,
{
}

/// A knock on the first port of the sequence restarts a pending attempt at
/// step 0 with a fresh deadline instead of failing it.
pub proof fn lemma_restart(state: KnockState, now: u64)
    requires
        state is PortPending,
    ensures
        state.advance(sequence_port(0), now) == KnockState::pending_at(0, now),
{
}

/// Repeating the port last matched keeps the step and refreshes the deadline.
pub proof fn lemma_duplicate_knock(state: KnockState, now: u64)
    requires
        state is PortPending,
    ensures
        state.advance(sequence_port(state->last_idx as int), now) == KnockState::pending_at(
            state->last_idx,
            now,
        ),
{
}

/// Once its window has elapsed, a pending or passed state no longer counts.
pub proof fn lemma_elapsed_not_live(state: KnockState, now: u64)
    requires
        state.expiry() <= now,
    ensures
        !state.live(now),
{
}

} // verus!
