use routecrab::web::sse::{sse_step, SseAction, SseEvent, SsePhase, DEBOUNCE_MILLIS};

#[test]
fn a_burst_of_changes_sends_one_refresh() {
    let mut phase = SsePhase::Idle;
    let mut sent = 0;
    for e in [
        SseEvent::Changed,
        SseEvent::Changed,
        SseEvent::Lagged,
        SseEvent::Changed,
        SseEvent::DebounceElapsed,
    ] {
        let (next, action) = sse_step(phase, e);
        if action == SseAction::Emit || action == SseAction::EmitAndStop {
            sent += 1;
        }
        phase = next;
    }
    assert_eq!(sent, 1);
    assert_eq!(phase, SsePhase::Idle);
}

#[test]
fn steps_from_each_phase() {
    assert_eq!(
        sse_step(SsePhase::Idle, SseEvent::Changed),
        (SsePhase::Collecting, SseAction::StartDebounce)
    );
    assert_eq!(
        sse_step(SsePhase::Idle, SseEvent::Lagged),
        (SsePhase::Collecting, SseAction::StartDebounce)
    );
    assert_eq!(
        sse_step(SsePhase::Idle, SseEvent::Closed),
        (SsePhase::Done, SseAction::Stop)
    );
    assert_eq!(
        sse_step(SsePhase::Collecting, SseEvent::Changed),
        (SsePhase::Collecting, SseAction::Wait)
    );
    assert_eq!(
        sse_step(SsePhase::Collecting, SseEvent::DebounceElapsed),
        (SsePhase::Idle, SseAction::Emit)
    );
    assert_eq!(
        sse_step(SsePhase::Collecting, SseEvent::Closed),
        (SsePhase::Done, SseAction::EmitAndStop)
    );
    assert_eq!(
        sse_step(SsePhase::Done, SseEvent::Changed),
        (SsePhase::Done, SseAction::Stop)
    );
    assert_eq!(DEBOUNCE_MILLIS, 300);
}
