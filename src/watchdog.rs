//! Decisions of the cancellation watchdog. A monitor first drains the
//! messages that were already waiting, then polls for new ones; a new move
//! request, leaving the room, a disconnected source or the time running out
//! cancels the move computation, for good.
use vstd::prelude::*;

use crate::internal::{ComMessage, RoomMessage};

verus! {

/// Phase of the watchdog's monitor.
#[derive(Debug, Clone, Copy, PartialEq, Eq, Structural)]
pub enum WatchdogPhase {
    /// Discarding messages that were queued before the watchdog existed.
    Draining,
    /// Watching new messages.
    Armed,
    /// The computation should stop; nothing changes this any more.
    Cancelled,
}

/// What one poll of the monitored message source gave.
#[derive(Debug)]
pub enum WatchEvent {
    Received(ComMessage),
    Empty,
    Disconnected,
}

/// Whether a newly arrived message makes the current computation obsolete: a
/// further move request, or leaving the room.
pub open spec fn cancels_on(m: ComMessage) -> bool {
    match m {
        ComMessage::Left(_) => true,
        ComMessage::Room(r) => *r is MoveRequest,
        _ => false,
    }
}

/// Next phase after polling gave `e`; `timed_out` tells whether the time
/// budget has run out by then.
pub open spec fn next_phase(p: WatchdogPhase, e: WatchEvent, timed_out: bool) -> WatchdogPhase {
    match p {
        WatchdogPhase::Draining => match e {
            WatchEvent::Received(_) => WatchdogPhase::Draining,
            _ => WatchdogPhase::Armed,
        },
        WatchdogPhase::Armed => match e {
            WatchEvent::Received(m) => if cancels_on(m) || timed_out {
                WatchdogPhase::Cancelled
            } else {
                WatchdogPhase::Armed
            },
            WatchEvent::Empty => if timed_out {
                WatchdogPhase::Cancelled
            } else {
                WatchdogPhase::Armed
            },
            WatchEvent::Disconnected => WatchdogPhase::Cancelled,
        },
        WatchdogPhase::Cancelled => WatchdogPhase::Cancelled,
    }
}

/// Phase after the polls of `evs`, each with its timeout flag, from `p`.
pub open spec fn run_phases(p: WatchdogPhase, evs: Seq<(WatchEvent, bool)>) -> WatchdogPhase
    decreases evs.len(),
{
    if evs.len() == 0 {
        p
    } else {
        next_phase(run_phases(p, evs.drop_last()), evs.last().0, evs.last().1)
    }
}

pub fn cancels(m: &ComMessage) -> (r: bool)
    ensures
        r == cancels_on(*m),
{
    match m {
        ComMessage::Left(_) => true,
        ComMessage::Room(r) => match **r {
            RoomMessage::MoveRequest => true,
            _ => false,
        },
        _ => false,
    }
}

/// One decision of the monitor.
pub fn watchdog_step(p: WatchdogPhase, e: &WatchEvent, timed_out: bool) -> (r: WatchdogPhase)
    ensures
        r == next_phase(p, *e, timed_out),
{
    match p {
        WatchdogPhase::Draining => match e {
            WatchEvent::Received(_) => WatchdogPhase::Draining,
            _ => WatchdogPhase::Armed,
        },
        WatchdogPhase::Armed => match e {
            WatchEvent::Received(m) => if cancels(m) || timed_out {
                WatchdogPhase::Cancelled
            } else {
                WatchdogPhase::Armed
            },
            WatchEvent::Empty => if timed_out {
                WatchdogPhase::Cancelled
            } else {
                WatchdogPhase::Armed
            },
            WatchEvent::Disconnected => WatchdogPhase::Cancelled,
        },
        WatchdogPhase::Cancelled => WatchdogPhase::Cancelled,
    }
}

/// Messages that were waiting when the watchdog started are drained without
/// effect: whatever they are, and however long draining takes, it never
/// cancels.
pub proof fn lemma_drained_messages_never_cancel(evs: Seq<(WatchEvent, bool)>)
    requires
        forall|i: int| 0 <= i < evs.len() ==> (#[trigger] evs[i]).0 is Received,
    ensures
        run_phases(WatchdogPhase::Draining, evs) == WatchdogPhase::Draining,
    decreases evs.len(),
{
    if evs.len() > 0 {
        let rest = evs.drop_last();
        assert forall|i: int| 0 <= i < rest.len() implies (#[trigger] rest[i]).0 is Received by {
            assert(rest[i] == evs[i]);
        }
        lemma_drained_messages_never_cancel(rest);
        assert(evs[evs.len() - 1].0 is Received);
    }
}

/// A move request that arrives once the watchdog is armed cancels at the
/// very poll that receives it, whatever the time.
pub proof fn lemma_move_request_cancels(timed_out: bool)
    ensures
        next_phase(
            WatchdogPhase::Armed,
            WatchEvent::Received(ComMessage::Room(Box::new(RoomMessage::MoveRequest))),
            timed_out,
        ) == WatchdogPhase::Cancelled,
{
}

/// Cancellation is final: no later poll undoes it.
pub proof fn lemma_cancelled_stays(evs: Seq<(WatchEvent, bool)>)
    ensures
        run_phases(WatchdogPhase::Cancelled, evs) == WatchdogPhase::Cancelled,
    decreases evs.len(),
{
    if evs.len() > 0 {
        lemma_cancelled_stays(evs.drop_last());
    }
}

} // verus!
