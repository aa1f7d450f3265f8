//! The change coalescer: a trailing-edge debounce state machine.
//!
//! Whitelist mutations emit change signals; the coalescer collapses a burst
//! of signals into a single regeneration pass that fires only after a
//! continuous quiet period of one debounce window. The driving loop owns the
//! timer and the signal source; this module owns every decision: which state
//! follows each event, and what the loop must do next.

use vstd::prelude::*;

verus! {

/// The two logical states of the coalescer.
#[derive(Debug, Clone, Copy, PartialEq, Eq, Structural)]
pub enum CoalescerState {
    /// No pending signal.
    Idle,
    /// A signal arrived and the debounce timer is running.
    Pending,
}

/// What the coalescer reacts to.
#[derive(Debug, Clone, Copy, PartialEq, Eq, Structural)]
pub enum CoalescerEvent {
    /// The whitelist changed since the last pass.
    Signal,
    /// The debounce timer ran a full window without interruption.
    TimerElapsed,
}

/// What the driving loop must do after a transition.
#[derive(Debug, Clone, Copy, PartialEq, Eq, Structural)]
pub enum CoalescerAction {
    /// Nothing to do.
    Wait,
    /// Arm the debounce timer for one full window, restarting it if it was
    /// already running (trailing-edge debounce).
    ArmTimer,
    /// Run one regeneration pass.
    RunPass,
}

/// The transition relation: a signal always (re)arms the timer; the timer
/// elapsing while pending runs exactly one pass and returns to idle; a stray
/// timer event while idle does nothing.
pub open spec fn spec_step(s: CoalescerState, e: CoalescerEvent) -> (CoalescerState, CoalescerAction) {
    match (s, e) {
        (CoalescerState::Idle, CoalescerEvent::Signal) => (
            CoalescerState::Pending,
            CoalescerAction::ArmTimer,
        ),
        (CoalescerState::Pending, CoalescerEvent::Signal) => (
            CoalescerState::Pending,
            CoalescerAction::ArmTimer,
        ),
        (CoalescerState::Pending, CoalescerEvent::TimerElapsed) => (
            CoalescerState::Idle,
            CoalescerAction::RunPass,
        ),
        (CoalescerState::Idle, CoalescerEvent::TimerElapsed) => (
            CoalescerState::Idle,
            CoalescerAction::Wait,
        ),
    }
}

/// Performs one transition of the coalescer.
pub fn step(s: CoalescerState, e: CoalescerEvent) -> (r: (CoalescerState, CoalescerAction))
    ensures
        r == spec_step(s, e),
{
    match (s, e) {
        (CoalescerState::Idle, CoalescerEvent::Signal) => (
            CoalescerState::Pending,
            CoalescerAction::ArmTimer,
        ),
        (CoalescerState::Pending, CoalescerEvent::Signal) => (
            CoalescerState::Pending,
            CoalescerAction::ArmTimer,
        ),
        (CoalescerState::Pending, CoalescerEvent::TimerElapsed) => (
            CoalescerState::Idle,
            CoalescerAction::RunPass,
        ),
        (CoalescerState::Idle, CoalescerEvent::TimerElapsed) => (
            CoalescerState::Idle,
            CoalescerAction::Wait,
        ),
    }
}

/// How many regeneration passes a sequence of events causes, starting from
/// state `s`.
pub open spec fn pass_count(s: CoalescerState, events: Seq<CoalescerEvent>) -> nat
    decreases events.len(),
{
    if events.len() == 0 {
        0
    } else {
        (if spec_step(s, events[0]).1 is RunPass {
            1nat
        } else {
            0nat
        }) + pass_count(spec_step(s, events[0]).0, events.drop_first())
    }
}

/// A burst: `n` signals with no full quiet window between them. The timer
/// never elapses inside the burst, so the events reaching the coalescer are
/// the `n` signals followed by one timer expiry.
pub open spec fn burst(n: nat) -> Seq<CoalescerEvent>
    decreases n,
{
    if n == 0 {
        seq![CoalescerEvent::TimerElapsed]
    } else {
        seq![CoalescerEvent::Signal] + burst((n - 1) as nat)
    }
}

/// `n` signals spaced more than a window apart: each one's timer elapses
/// before the next signal arrives.
pub open spec fn spaced(n: nat) -> Seq<CoalescerEvent>
    decreases n,
{
    if n == 0 {
        Seq::empty()
    } else {
        seq![CoalescerEvent::Signal, CoalescerEvent::TimerElapsed] + spaced((n - 1) as nat)
    }
}

proof fn lemma_burst_from_pending(n: nat)
    ensures
        pass_count(CoalescerState::Pending, burst(n)) == 1,
    decreases n,
{
    if n == 0 {
        assert(burst(0)[0] == CoalescerEvent::TimerElapsed);
        assert(burst(0).drop_first() =~= Seq::<CoalescerEvent>::empty());
        assert(pass_count(CoalescerState::Idle, Seq::<CoalescerEvent>::empty()) == 0);
    } else {
        assert(burst(n)[0] == CoalescerEvent::Signal);
        assert(burst(n).drop_first() =~= burst((n - 1) as nat));
        lemma_burst_from_pending((n - 1) as nat);
    }
}

/// Debounce, bursty side: any number (at least one) of signals delivered
/// within one window produce exactly one regeneration pass.
pub proof fn lemma_burst_single_pass(n: nat)
    requires
        n >= 1,
    ensures
        pass_count(CoalescerState::Idle, burst(n)) == 1,
{
    assert(burst(n)[0] == CoalescerEvent::Signal);
    assert(burst(n).drop_first() =~= burst((n - 1) as nat));
    lemma_burst_from_pending((n - 1) as nat);
}

/// Debounce, quiet side: `n` signals each spaced more than a window apart
/// produce `n` regeneration passes.
pub proof fn lemma_spaced_one_pass_each(n: nat)
    ensures
        pass_count(CoalescerState::Idle, spaced(n)) == n,
    decreases n,
{
    if n > 0 {
        let s = spaced(n);
        assert(s[0] == CoalescerEvent::Signal);
        assert(s.drop_first()[0] == CoalescerEvent::TimerElapsed);
        assert(s.drop_first().drop_first() =~= spaced((n - 1) as nat));
        lemma_spaced_one_pass_each((n - 1) as nat);
        assert(pass_count(CoalescerState::Pending, s.drop_first()) == 1 + pass_count(
            CoalescerState::Idle,
            s.drop_first().drop_first(),
        ));
    }
}

} // verus!
