use crate::expire::Sweep;
use vstd::prelude::*;

verus! {

/// What the event loop does in one turn.
#[derive(Clone, Copy, Debug, PartialEq, Eq, Structural)]
pub enum Turn {
    /// Read and handle the packet that is waiting.
    HandlePacket,
    /// Run one cleanup step.
    Cleanup,
    /// Wait for the next packet or timer tick.
    Wait,
}

/// The scheduling state the event loop carries between turns.
#[derive(Clone, Copy, Debug, PartialEq, Eq, Structural)]
pub struct Scheduler {
    /// The last cleanup step did work, so more may be due.
    pub cleanup_pending: bool,
}

impl Scheduler {
    pub fn new() -> (r: Scheduler)
        ensures
            !r.cleanup_pending,
    {
        Scheduler { cleanup_pending: false }
    }

    /// Picks the work of the next turn: a waiting packet always comes first,
    /// then cleanup when the timer ticked or a previous step asked for more.
    pub fn next_turn(&self, packet_ready: bool, tick_fired: bool) -> (r: Turn)
        ensures
            r == (if packet_ready {
                Turn::HandlePacket
            } else if tick_fired || self.cleanup_pending {
                Turn::Cleanup
            } else {
                Turn::Wait
            }),
    {
        if packet_ready {
            Turn::HandlePacket
        } else if tick_fired || self.cleanup_pending {
            Turn::Cleanup
        } else {
            Turn::Wait
        }
    }

    /// Records the result of a cleanup step: while steps consume entries,
    /// another one is asked for on the next turn.
    pub fn cleanup_done(&mut self, sweep: &Sweep)
        ensures
            final(self).cleanup_pending == !(*sweep is Idle),
    {
        self.cleanup_pending = sweep.did_process();
    }
}

} // verus!
