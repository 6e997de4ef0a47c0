use particle_lab::session::{advance, BroadcastEvent, BroadcastState};

#[test]
fn broadcast_loop_cycles_through_its_phases() {
    let s = BroadcastState::Running;
    let s = advance(s, BroadcastEvent::TickFired);
    assert_eq!(s, BroadcastState::Stepping);
    let s = advance(s, BroadcastEvent::StepDone);
    assert_eq!(s, BroadcastState::Serializing);
    let s = advance(s, BroadcastEvent::SnapshotTaken);
    assert_eq!(s, BroadcastState::Sending);
    let s = advance(s, BroadcastEvent::SendSucceeded);
    assert_eq!(s, BroadcastState::Running);
}

#[test]
fn failed_send_closes_the_loop_for_good() {
    let s = advance(BroadcastState::Sending, BroadcastEvent::SendFailed);
    assert_eq!(s, BroadcastState::Closed);
    for e in [
        BroadcastEvent::TickFired,
        BroadcastEvent::StepDone,
        BroadcastEvent::SnapshotTaken,
        BroadcastEvent::SendSucceeded,
        BroadcastEvent::SendFailed,
    ] {
        assert_eq!(advance(BroadcastState::Closed, e), BroadcastState::Closed);
    }
}

#[test]
fn out_of_phase_events_change_nothing() {
    assert_eq!(advance(BroadcastState::Running, BroadcastEvent::SendFailed), BroadcastState::Running);
    assert_eq!(advance(BroadcastState::Stepping, BroadcastEvent::TickFired), BroadcastState::Stepping);
    assert_eq!(advance(BroadcastState::Sending, BroadcastEvent::StepDone), BroadcastState::Sending);
}
