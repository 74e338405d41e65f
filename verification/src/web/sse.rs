//! Live board refreshes: after a change the stream waits out a short window,
//! coalesces the changes that arrive meanwhile, and sends one refresh.
use vstd::prelude::*;

verus! {

/// How long the stream collects further changes before it sends a refresh.
pub const DEBOUNCE_MILLIS: u64 = 300;

/// What the stream of one client can observe.
#[derive(Clone, Copy, Debug, PartialEq, Eq, Structural)]
pub enum SseEvent {
    /// The store announced a change.
    Changed,
    /// The client fell behind and missed changes; treated as a change.
    Lagged,
    /// The store's change channel closed.
    Closed,
    /// The debounce window ran out.
    DebounceElapsed,
}

/// Where the stream of one client stands. It starts in `Idle`, after the
/// initial paint.
#[derive(Clone, Copy, Debug, PartialEq, Eq, Structural)]
pub enum SsePhase {
    /// Waiting for a change.
    Idle,
    /// A change arrived; further changes are collected until the window ends.
    Collecting,
    /// The stream has ended.
    Done,
}

/// What the stream does next.
#[derive(Clone, Copy, Debug, PartialEq, Eq, Structural)]
pub enum SseAction {
    /// Start the debounce window and keep listening.
    StartDebounce,
    /// Keep listening (and keep the running window, if any).
    Wait,
    /// Send one refresh of the board.
    Emit,
    /// Send one last refresh and end the stream.
    EmitAndStop,
    /// End the stream without sending anything.
    Stop,
}

/// The next phase and action of a client's stream. A change (or a lag) while
/// idle starts the window; changes during the window are absorbed; the end of
/// the window sends one refresh; a closed channel ends the stream, sending
/// the refresh that a running window owes at once.
pub open spec fn sse_step_spec(p: SsePhase, e: SseEvent) -> (SsePhase, SseAction) {
    match p {
        SsePhase::Idle => match e {
            SseEvent::Changed | SseEvent::Lagged => (SsePhase::Collecting, SseAction::StartDebounce),
            SseEvent::Closed => (SsePhase::Done, SseAction::Stop),
            SseEvent::DebounceElapsed => (SsePhase::Idle, SseAction::Wait),
        },
        SsePhase::Collecting => match e {
            SseEvent::Changed | SseEvent::Lagged => (SsePhase::Collecting, SseAction::Wait),
            SseEvent::Closed => (SsePhase::Done, SseAction::EmitAndStop),
            SseEvent::DebounceElapsed => (SsePhase::Idle, SseAction::Emit),
        },
        SsePhase::Done => (SsePhase::Done, SseAction::Stop),
    }
}

/// Decides the next phase and action of a client's stream.
pub fn sse_step(p: SsePhase, e: SseEvent) -> (r: (SsePhase, SseAction))
    ensures
        r == sse_step_spec(p, e),
{
    match p {
        SsePhase::Idle => match e {
            SseEvent::Changed | SseEvent::Lagged => (SsePhase::Collecting, SseAction::StartDebounce),
            SseEvent::Closed => (SsePhase::Done, SseAction::Stop),
            SseEvent::DebounceElapsed => (SsePhase::Idle, SseAction::Wait),
        },
        SsePhase::Collecting => match e {
            SseEvent::Changed | SseEvent::Lagged => (SsePhase::Collecting, SseAction::Wait),
            SseEvent::Closed => (SsePhase::Done, SseAction::EmitAndStop),
            SseEvent::DebounceElapsed => (SsePhase::Idle, SseAction::Emit),
        },
        SsePhase::Done => (SsePhase::Done, SseAction::Stop),
    }
}

/// The phase and the actions that a sequence of events leads to from `p`.
pub open spec fn sse_run(p: SsePhase, es: Seq<SseEvent>) -> (SsePhase, Seq<SseAction>)
    decreases es.len(),
{
    if es.len() == 0 {
        (p, Seq::empty())
    } else {
        let (q, a) = sse_step_spec(p, es[0]);
        let (last, rest) = sse_run(q, es.drop_first());
        (last, seq![a] + rest)
    }
}

/// Whether an action sends a refresh.
pub open spec fn sends(a: SseAction) -> bool {
    a == SseAction::Emit || a == SseAction::EmitAndStop
}

/// The number of refreshes among the actions.
pub open spec fn refresh_count(acts: Seq<SseAction>) -> nat
    decreases acts.len(),
{
    if acts.len() == 0 {
        0
    } else {
        (if sends(acts[0]) { 1nat } else { 0nat }) + refresh_count(acts.drop_first())
    }
}

/// Changes and lags only (no end of window, no close).
pub open spec fn only_changes(es: Seq<SseEvent>) -> bool {
    forall|i: int| 0 <= i < es.len() ==> (es[i] == SseEvent::Changed || es[i] == SseEvent::Lagged)
}

proof fn lemma_count_cons(a: SseAction, rest: Seq<SseAction>)
    ensures
        refresh_count(seq![a] + rest) == (if sends(a) {
            1nat
        } else {
            0nat
        }) + refresh_count(rest),
{
    assert((seq![a] + rest).drop_first() =~= rest);
}

/// Any burst of changes seen while idle, however long, followed by the end of
/// the window, yields exactly one refresh and returns to idle.
pub proof fn lemma_burst_sends_one_refresh(burst: Seq<SseEvent>)
    requires
        burst.len() > 0,
        only_changes(burst),
    ensures
        sse_run(SsePhase::Idle, burst.push(SseEvent::DebounceElapsed)).0 == SsePhase::Idle,
        refresh_count(sse_run(SsePhase::Idle, burst.push(SseEvent::DebounceElapsed)).1) == 1,
{
    let es = burst.push(SseEvent::DebounceElapsed);
    assert(es[0] == burst[0]);
    assert(es.drop_first() =~= burst.drop_first().push(SseEvent::DebounceElapsed));
    assert(only_changes(burst.drop_first())) by {
        assert forall|i: int| 0 <= i < burst.drop_first().len() implies (burst.drop_first()[i]
            == SseEvent::Changed || burst.drop_first()[i] == SseEvent::Lagged) by {
            assert(burst.drop_first()[i] == burst[i + 1]);
        }
    }
    lemma_collecting_then_elapsed(burst.drop_first());
    lemma_count_cons(SseAction::StartDebounce, sse_run(SsePhase::Collecting, es.drop_first()).1);
}

proof fn lemma_collecting_then_elapsed(more: Seq<SseEvent>)
    requires
        only_changes(more),
    ensures
        sse_run(SsePhase::Collecting, more.push(SseEvent::DebounceElapsed)).0 == SsePhase::Idle,
        refresh_count(sse_run(SsePhase::Collecting, more.push(SseEvent::DebounceElapsed)).1) == 1,
    decreases more.len(),
{
    let es = more.push(SseEvent::DebounceElapsed);
    if more.len() == 0 {
        assert(es.drop_first() =~= Seq::<SseEvent>::empty());
        assert(sse_run(SsePhase::Idle, es.drop_first()).1 =~= Seq::<SseAction>::empty());
        lemma_count_cons(SseAction::Emit, Seq::<SseAction>::empty());
    } else {
        assert(es[0] == more[0]);
        assert(es.drop_first() =~= more.drop_first().push(SseEvent::DebounceElapsed));
        assert(only_changes(more.drop_first())) by {
            assert forall|i: int| 0 <= i < more.drop_first().len() implies (more.drop_first()[i]
                == SseEvent::Changed || more.drop_first()[i] == SseEvent::Lagged) by {
                assert(more.drop_first()[i] == more[i + 1]);
            }
        }
        lemma_collecting_then_elapsed(more.drop_first());
        lemma_count_cons(SseAction::Wait, sse_run(SsePhase::Collecting, es.drop_first()).1);
    }
}

/// A close during a window still sends the refresh that the window owes,
/// once, and ends the stream; a close while idle ends it without sending.
pub proof fn lemma_close_flushes(burst: Seq<SseEvent>)
    requires
        only_changes(burst),
    ensures
        burst.len() > 0 ==> sse_run(SsePhase::Idle, burst.push(SseEvent::Closed)).0 == SsePhase::Done,
        burst.len() > 0 ==> refresh_count(sse_run(SsePhase::Idle, burst.push(SseEvent::Closed)).1)
            == 1,
        sse_run(SsePhase::Idle, seq![SseEvent::Closed]).0 == SsePhase::Done,
        refresh_count(sse_run(SsePhase::Idle, seq![SseEvent::Closed]).1) == 0,
{
    let one = seq![SseEvent::Closed];
    assert(one.drop_first() =~= Seq::<SseEvent>::empty());
    assert(sse_run(SsePhase::Done, one.drop_first()).1 =~= Seq::<SseAction>::empty());
    lemma_count_cons(SseAction::Stop, Seq::<SseAction>::empty());
    if burst.len() > 0 {
        let es = burst.push(SseEvent::Closed);
        assert(es[0] == burst[0]);
        assert(es.drop_first() =~= burst.drop_first().push(SseEvent::Closed));
        assert(only_changes(burst.drop_first())) by {
            assert forall|i: int| 0 <= i < burst.drop_first().len() implies (burst.drop_first()[i]
                == SseEvent::Changed || burst.drop_first()[i] == SseEvent::Lagged) by {
                assert(burst.drop_first()[i] == burst[i + 1]);
            }
        }
        lemma_collecting_then_closed(burst.drop_first());
        lemma_count_cons(SseAction::StartDebounce, sse_run(SsePhase::Collecting, es.drop_first()).1);
    }
}

proof fn lemma_collecting_then_closed(more: Seq<SseEvent>)
    requires
        only_changes(more),
    ensures
        sse_run(SsePhase::Collecting, more.push(SseEvent::Closed)).0 == SsePhase::Done,
        refresh_count(sse_run(SsePhase::Collecting, more.push(SseEvent::Closed)).1) == 1,
    decreases more.len(),
{
    let es = more.push(SseEvent::Closed);
    if more.len() == 0 {
        assert(es.drop_first() =~= Seq::<SseEvent>::empty());
        assert(sse_run(SsePhase::Done, es.drop_first()).1 =~= Seq::<SseAction>::empty());
        lemma_count_cons(SseAction::EmitAndStop, Seq::<SseAction>::empty());
    } else {
        assert(es[0] == more[0]);
        assert(es.drop_first() =~= more.drop_first().push(SseEvent::Closed));
        assert(only_changes(more.drop_first())) by {
            assert forall|i: int| 0 <= i < more.drop_first().len() implies (more.drop_first()[i]
                == SseEvent::Changed || more.drop_first()[i] == SseEvent::Lagged) by {
                assert(more.drop_first()[i] == more[i + 1]);
            }
        }
        lemma_collecting_then_closed(more.drop_first());
        lemma_count_cons(SseAction::Wait, sse_run(SsePhase::Collecting, es.drop_first()).1);
    }
}

/// Once the stream has ended it stays ended and sends nothing, whatever
/// happens next.
pub proof fn lemma_done_is_final(es: Seq<SseEvent>)
    ensures
        sse_run(SsePhase::Done, es).0 == SsePhase::Done,
        refresh_count(sse_run(SsePhase::Done, es).1) == 0,
    decreases es.len(),
{
    if es.len() > 0 {
        lemma_done_is_final(es.drop_first());
        lemma_count_cons(SseAction::Stop, sse_run(SsePhase::Done, es.drop_first()).1);
    }
}

} // verus!
