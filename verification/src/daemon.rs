//! The decisions of the accept loop: what to do on each event, and when the
//! loop is over.

use vstd::prelude::*;

verus! {

/// The state of the accept loop.
#[derive(Clone, Copy, Debug, PartialEq, Eq, Structural)]
pub enum LoopState {
    /// The loop waits for connections and signals.
    Running,
    /// The loop has ended and accepts nothing more.
    Stopped,
}

/// What the loop waits for.
#[derive(Clone, Copy, Debug, PartialEq, Eq, Structural)]
pub enum Event {
    /// A client has connected.
    Connection,
    /// The operator asks for the directory to be read again.
    Reload,
    /// The operator asks the server to end.
    Shutdown,
}

/// What the loop does next.
#[derive(Clone, Copy, Debug, PartialEq, Eq, Structural)]
pub enum Action {
    /// Take a snapshot of the directory and serve the client in a task of its own.
    Serve,
    /// Read the directory again in a task of its own.
    Reload,
    /// Stop accepting; exchanges under way run to their end.
    Stop,
    /// Nothing: the loop has ended.
    Nothing,
}

/// The state after `event` and the action it calls for. A running loop
/// serves each connection, reloads on request and stops on shutdown; a
/// stopped loop stays stopped and does nothing.
pub open spec fn next(state: LoopState, event: Event) -> (LoopState, Action) {
    match state {
        LoopState::Stopped => (LoopState::Stopped, Action::Nothing),
        LoopState::Running => match event {
            Event::Connection => (LoopState::Running, Action::Serve),
            Event::Reload => (LoopState::Running, Action::Reload),
            Event::Shutdown => (LoopState::Stopped, Action::Stop),
        },
    }
}

/// Takes one step of the accept loop.
pub fn step(state: LoopState, event: Event) -> (result: (LoopState, Action))
    ensures
        result == next(state, event),
{
    match state {
        LoopState::Stopped => (LoopState::Stopped, Action::Nothing),
        LoopState::Running => match event {
            Event::Connection => (LoopState::Running, Action::Serve),
            Event::Reload => (LoopState::Running, Action::Reload),
            Event::Shutdown => (LoopState::Stopped, Action::Stop),
        },
    }
}

/// Whether `at` is the event to handle first among those that are ready
/// together: the first shutdown where there is one, else the first event.
pub open spec fn is_first_ready(pending: Seq<Event>, at: int) -> bool {
    &&& 0 <= at < pending.len()
    &&& if pending.contains(Event::Shutdown) {
        pending[at] == Event::Shutdown && forall|k: int|
            0 <= k < at ==> #[trigger] pending[k] != Event::Shutdown
    } else {
        at == 0
    }
}

/// Picks the event to handle first among those that are ready together. A
/// shutdown goes before everything else; without one, the events are taken
/// in their order.
pub fn first_ready(pending: &[Event]) -> (first: Option<usize>)
    ensures
        match first {
            Some(at) => is_first_ready(pending@, at as int),
            None => pending@.len() == 0,
        },
{
    if pending.len() == 0 {
        return None;
    }
    let mut at: usize = 0;
    while at < pending.len()
        invariant
            0 <= at <= pending.len(),
            forall|k: int| 0 <= k < at ==> #[trigger] pending@[k] != Event::Shutdown,
        decreases pending.len() - at,
    {
        match pending[at] {
            Event::Shutdown => {
                assert(pending@[at as int] == Event::Shutdown);
                return Some(at);
            },
            _ => {},
        }
        at += 1;
    }
    Some(0)
}

/// The state after a sequence of events, from `state`.
pub open spec fn run(state: LoopState, events: Seq<Event>) -> LoopState
    decreases events.len(),
{
    if events.len() == 0 {
        state
    } else {
        next(run(state, events.drop_last()), events.last()).0
    }
}

/// Only a shutdown ends the loop, and nothing starts it again: after any
/// events the loop is stopped exactly if it was stopped before or a shutdown
/// was among them.
pub proof fn lemma_stops_on_shutdown_only(state: LoopState, events: Seq<Event>)
    ensures
        run(state, events) == LoopState::Stopped <==> state == LoopState::Stopped
            || events.contains(Event::Shutdown),
    decreases events.len(),
{
    if events.len() > 0 {
        let before = events.drop_last();
        lemma_stops_on_shutdown_only(state, before);
        if before.contains(Event::Shutdown) {
            let i = choose|i: int| 0 <= i < before.len() && before[i] == Event::Shutdown;
            assert(events[i] == Event::Shutdown);
        }
        if events.contains(Event::Shutdown) && events.last() != Event::Shutdown {
            let i = choose|i: int| 0 <= i < events.len() && events[i] == Event::Shutdown;
            assert(before[i] == Event::Shutdown);
        }
        if events.last() == Event::Shutdown {
            assert(events[events.len() - 1] == Event::Shutdown);
        }
    }
}

} // verus!
