//! The server loop's decisions: which phase follows which event. The loop
//! itself, which binds, accepts, reads and writes, only reports events.
use vstd::prelude::*;

verus! {

/// Where the server loop stands.
#[derive(Debug, Clone, Copy, PartialEq, Eq, Structural)]
pub enum ServerPhase {
    /// Building the listen address from the configuration.
    Resolving,
    /// Binding the listener.
    Binding,
    /// Waiting for the next connection.
    Accepting,
    /// Reading one request and writing its response.
    Serving,
    /// Stopped for good: no further event moves the loop.
    Fatal,
}

/// What the loop reports after each step.
#[derive(Debug, Clone, Copy, PartialEq, Eq, Structural)]
pub enum ServerEvent {
    Resolved,
    ResolveFailed,
    Bound,
    BindFailed,
    /// A connection was accepted.
    Accepted,
    /// One accept attempt failed; the listener is still usable.
    AcceptFailed,
    /// The listener yields no further connections.
    ListenerClosed,
    /// The response was written.
    Served,
    /// Reading the request or writing the response failed.
    ServeFailed,
}

/// The phase after `event` in `phase`. An event that does not belong to the
/// phase leaves it unchanged.
pub open spec fn next_phase_spec(phase: ServerPhase, event: ServerEvent) -> ServerPhase {
    match (phase, event) {
        (ServerPhase::Resolving, ServerEvent::Resolved) => ServerPhase::Binding,
        (ServerPhase::Resolving, ServerEvent::ResolveFailed) => ServerPhase::Fatal,
        (ServerPhase::Binding, ServerEvent::Bound) => ServerPhase::Accepting,
        (ServerPhase::Binding, ServerEvent::BindFailed) => ServerPhase::Fatal,
        (ServerPhase::Accepting, ServerEvent::Accepted) => ServerPhase::Serving,
        (ServerPhase::Accepting, ServerEvent::AcceptFailed) => ServerPhase::Accepting,
        (ServerPhase::Accepting, ServerEvent::ListenerClosed) => ServerPhase::Fatal,
        (ServerPhase::Serving, ServerEvent::Served) => ServerPhase::Accepting,
        (ServerPhase::Serving, ServerEvent::ServeFailed) => ServerPhase::Accepting,
        _ => phase,
    }
}

/// The phase after the events in order.
pub open spec fn run_events(phase: ServerPhase, events: Seq<ServerEvent>) -> ServerPhase
    decreases events.len(),
{
    if events.len() == 0 {
        phase
    } else {
        next_phase_spec(run_events(phase, events.drop_last()), events.last())
    }
}

/// The events that can stop a running server.
pub open spec fn is_fatal_event(event: ServerEvent) -> bool {
    event == ServerEvent::ResolveFailed || event == ServerEvent::BindFailed || event
        == ServerEvent::ListenerClosed
}

/// Decides the phase that follows `event`.
pub fn next_phase(phase: ServerPhase, event: ServerEvent) -> (r: ServerPhase)
    ensures
        r == next_phase_spec(phase, event),
{
    match (phase, event) {
        (ServerPhase::Resolving, ServerEvent::Resolved) => ServerPhase::Binding,
        (ServerPhase::Resolving, ServerEvent::ResolveFailed) => ServerPhase::Fatal,
        (ServerPhase::Binding, ServerEvent::Bound) => ServerPhase::Accepting,
        (ServerPhase::Binding, ServerEvent::BindFailed) => ServerPhase::Fatal,
        (ServerPhase::Accepting, ServerEvent::Accepted) => ServerPhase::Serving,
        (ServerPhase::Accepting, ServerEvent::AcceptFailed) => ServerPhase::Accepting,
        (ServerPhase::Accepting, ServerEvent::ListenerClosed) => ServerPhase::Fatal,
        (ServerPhase::Serving, ServerEvent::Served) => ServerPhase::Accepting,
        (ServerPhase::Serving, ServerEvent::ServeFailed) => ServerPhase::Accepting,
        _ => phase,
    }
}

/// Whether the loop goes on in this phase.
pub fn is_running(phase: ServerPhase) -> (r: bool)
    ensures
        r == (phase != ServerPhase::Fatal),
{
    !matches!(phase, ServerPhase::Fatal)
}

/// Failed accept attempts are invisible: any number of them followed by an
/// accepted connection leaves the loop serving that connection.
pub proof fn lemma_accept_retries(failures: Seq<ServerEvent>)
    requires
        forall|i: int| 0 <= i < failures.len() ==> failures[i] == ServerEvent::AcceptFailed,
    ensures
        run_events(ServerPhase::Accepting, failures) == ServerPhase::Accepting,
        run_events(ServerPhase::Accepting, failures.push(ServerEvent::Accepted))
            == ServerPhase::Serving,
    decreases failures.len(),
{
    if failures.len() > 0 {
        lemma_accept_retries(failures.drop_last());
    }
    assert(failures.push(ServerEvent::Accepted).drop_last() =~= failures);
}

/// Once listening, only a closed listener stops the loop: whatever else
/// happens, failed reads and writes included, the loop is still accepting or
/// serving, and the next accepted connection is served.
pub proof fn lemma_connection_failures_isolated(phase: ServerPhase, events: Seq<ServerEvent>)
    requires
        phase == ServerPhase::Accepting || phase == ServerPhase::Serving,
        forall|i: int| 0 <= i < events.len() ==> !is_fatal_event(#[trigger] events[i]),
    ensures
        run_events(phase, events) == ServerPhase::Accepting || run_events(phase, events)
            == ServerPhase::Serving,
        run_events(phase, events) == ServerPhase::Accepting ==> run_events(
            phase,
            events.push(ServerEvent::Accepted),
        ) == ServerPhase::Serving,
    decreases events.len(),
{
    if events.len() > 0 {
        let init = events.drop_last();
        assert forall|i: int| 0 <= i < init.len() implies !is_fatal_event(#[trigger] init[i]) by {
            assert(init[i] == events[i]);
        }
        lemma_connection_failures_isolated(phase, init);
        assert(!is_fatal_event(events[events.len() - 1]));
    }
    assert(events.push(ServerEvent::Accepted).drop_last() =~= events);
}

} // verus!
