use vstd::prelude::*;

verus! {

/// The phase of the day. `Idle` is before the first morning.
#[derive(Clone, Copy, Debug, PartialEq, Eq, Structural)]
pub enum TimeState {
    Night,
    Evening,
    Morning,
    Day,
    Idle,
}

/// What moves the day forward: the run starting, a fade finishing, or the
/// active pool of petitioners running out of requests.
#[derive(Clone, Copy, Debug, PartialEq, Eq, Structural)]
pub enum PhaseEvent {
    Start,
    FadeFinished,
    PoolExhausted,
}

/// The phase that `event` leads to from `from`; `None` where the event
/// means nothing in that phase.
pub open spec fn next_phase(from: TimeState, event: PhaseEvent) -> Option<TimeState> {
    match (from, event) {
        (TimeState::Idle, PhaseEvent::Start) => Some(TimeState::Morning),
        (TimeState::Morning, PhaseEvent::FadeFinished) => Some(TimeState::Day),
        (TimeState::Day, PhaseEvent::PoolExhausted) => Some(TimeState::Evening),
        (TimeState::Evening, PhaseEvent::FadeFinished) => Some(TimeState::Night),
        (TimeState::Night, PhaseEvent::PoolExhausted) => Some(TimeState::Morning),
        _ => None,
    }
}

impl TimeState {
    /// The phase that `event` leads to; `None` where it means nothing here.
    pub fn next(self, event: PhaseEvent) -> (r: Option<TimeState>)
        ensures
            r == next_phase(self, event),
    {
        match (self, event) {
            (TimeState::Idle, PhaseEvent::Start) => Some(TimeState::Morning),
            (TimeState::Morning, PhaseEvent::FadeFinished) => Some(TimeState::Day),
            (TimeState::Day, PhaseEvent::PoolExhausted) => Some(TimeState::Evening),
            (TimeState::Evening, PhaseEvent::FadeFinished) => Some(TimeState::Night),
            (TimeState::Night, PhaseEvent::PoolExhausted) => Some(TimeState::Morning),
            _ => None,
        }
    }
}

} // verus!
