use qpac::coalesce::{step, CoalescerAction, CoalescerEvent, CoalescerState};

fn drive(events: &[CoalescerEvent]) -> (CoalescerState, usize) {
    let mut state = CoalescerState::Idle;
    let mut passes: usize = 0;
    for e in events {
        let (next, action) = step(state, *e);
        if action == CoalescerAction::RunPass {
            passes += 1;
        }
        state = next;
    }
    (state, passes)
}

#[test]
fn burst_of_signals_runs_one_pass() {
    let mut events = vec![CoalescerEvent::Signal; 10];
    events.push(CoalescerEvent::TimerElapsed);
    let (state, passes) = drive(&events);
    assert_eq!(passes, 1);
    assert_eq!(state, CoalescerState::Idle);
}

#[test]
fn spaced_signals_run_one_pass_each() {
    let mut events = Vec::new();
    for _ in 0..5 {
        events.push(CoalescerEvent::Signal);
        events.push(CoalescerEvent::TimerElapsed);
    }
    let (state, passes) = drive(&events);
    assert_eq!(passes, 5);
    assert_eq!(state, CoalescerState::Idle);
}

#[test]
fn signal_rearms_timer_while_pending() {
    let (s1, a1) = step(CoalescerState::Idle, CoalescerEvent::Signal);
    assert_eq!(s1, CoalescerState::Pending);
    assert_eq!(a1, CoalescerAction::ArmTimer);
    let (s2, a2) = step(s1, CoalescerEvent::Signal);
    assert_eq!(s2, CoalescerState::Pending);
    assert_eq!(a2, CoalescerAction::ArmTimer);
}

#[test]
fn stray_timer_while_idle_does_nothing() {
    let (state, action) = step(CoalescerState::Idle, CoalescerEvent::TimerElapsed);
    assert_eq!(state, CoalescerState::Idle);
    assert_eq!(action, CoalescerAction::Wait);
}
