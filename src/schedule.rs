//! The lifecycle of a node: Initial, Starting, Started, Stopping, Stopped,
//! driven by a cue time and an optional end time.
use vstd::prelude::*;

verus! {

/// A node's lifecycle state.
#[derive(Clone, Copy, Debug, PartialEq, Eq, Structural)]
pub enum State {
    Initial,
    Starting,
    Started,
    Stopping,
    Stopped,
}

/// Why a scheduling request was refused.
#[derive(Clone, Copy, Debug, PartialEq, Eq, Structural)]
pub enum ScheduleError {
    /// The node was already scheduled or started.
    AlreadyStarted,
    /// The request is not valid in the node's current state.
    WrongState(State),
    /// The requested state cannot follow the current one.
    InvalidTransition { from: State, to: State },
}

/// Whether a node may move from `from` to `to`.
pub open spec fn can_move(from: State, to: State) -> bool {
    match (from, to) {
        (State::Initial, State::Starting) => true,
        (State::Starting, State::Started) => true,
        (State::Started, State::Stopping) => true,
        (State::Stopping, State::Stopped) => true,
        (State::Stopped, _) => false,
        (_, State::Stopped) => true,
        _ => false,
    }
}

/// A node's state with its schedule; times are nanoseconds since the Unix
/// epoch.
#[derive(Debug)]
pub struct StateMachine {
    pub state: State,
    pub cue_time: Option<i64>,
    pub end_time: Option<i64>,
}

impl StateMachine {
    /// A node that was not scheduled yet.
    pub fn new() -> (r: StateMachine)
        ensures
            r.state == State::Initial,
            r.cue_time is None,
            r.end_time is None,
    {
        StateMachine { state: State::Initial, cue_time: None, end_time: None }
    }

    /// Schedules the start at `cue_time`, and the stop at `end_time` if
    /// given; refused once the node was scheduled or started.
    pub fn start(&mut self, cue_time: i64, end_time: Option<i64>) -> (r: Result<(), ScheduleError>)
        ensures
            r is Ok <==> old(self).state == State::Initial && old(self).cue_time is None,
            r is Err ==> r == Err::<(), ScheduleError>(ScheduleError::AlreadyStarted)
                && *final(self) == *old(self),
            r is Ok ==> final(self).state == State::Initial && final(self).cue_time == Some(
                cue_time,
            ) && final(self).end_time == end_time,
    {
        if self.state != State::Initial || self.cue_time.is_some() {
            return Err(ScheduleError::AlreadyStarted);
        }
        self.cue_time = Some(cue_time);
        self.end_time = end_time;
        Ok(())
    }

    /// Changes the schedule; only before the node has started.
    pub fn reschedule(&mut self, cue_time: i64, end_time: Option<i64>) -> (r: Result<(), ScheduleError>)
        ensures
            r is Ok <==> (old(self).state == State::Initial || old(self).state == State::Starting),
            r is Err ==> r == Err::<(), ScheduleError>(ScheduleError::WrongState(old(self).state))
                && *final(self) == *old(self),
            r is Ok ==> final(self).state == old(self).state && final(self).cue_time == Some(
                cue_time,
            ) && final(self).end_time == end_time,
    {
        if self.state != State::Initial && self.state != State::Starting {
            return Err(ScheduleError::WrongState(self.state));
        }
        self.cue_time = Some(cue_time);
        self.end_time = end_time;
        Ok(())
    }

    /// The move that the schedule asks for at `now`, if any: a scheduled
    /// node starts once its cue time has come, and a started node stops once
    /// its end time has come.
    pub fn due_transition(&self, now: i64) -> (r: Option<State>)
        ensures
            r == (match (self.state, self.cue_time, self.end_time) {
                (State::Initial, Some(cue), _) if cue <= now => Some(State::Starting),
                (State::Started, _, Some(end)) if end <= now => Some(State::Stopping),
                _ => None,
            }),
    {
        match (self.state, self.cue_time, self.end_time) {
            (State::Initial, Some(cue), _) if cue <= now => Some(State::Starting),
            (State::Started, _, Some(end)) if end <= now => Some(State::Stopping),
            _ => None,
        }
    }

    /// Moves to `target` where the lifecycle allows it.
    pub fn transition(&mut self, target: State) -> (r: Result<(), ScheduleError>)
        ensures
            r is Ok <==> can_move(old(self).state, target),
            r is Ok ==> final(self).state == target,
            r is Err ==> r == Err::<(), ScheduleError>(
                ScheduleError::InvalidTransition { from: old(self).state, to: target },
            ) && final(self).state == old(self).state,
            final(self).cue_time == old(self).cue_time,
            final(self).end_time == old(self).end_time,
    {
        let ok = match (self.state, target) {
            (State::Initial, State::Starting) => true,
            (State::Starting, State::Started) => true,
            (State::Started, State::Stopping) => true,
            (State::Stopping, State::Stopped) => true,
            (State::Stopped, _) => false,
            (_, State::Stopped) => true,
            _ => false,
        };
        if !ok {
            return Err(ScheduleError::InvalidTransition { from: self.state, to: target });
        }
        self.state = target;
        Ok(())
    }

    /// The state a stop request leads to: a started node winds down, one that
    /// is not running yet stops at once.
    pub fn stop_target(&self) -> (r: Option<State>)
        ensures
            r == (match self.state {
                State::Started => Some(State::Stopping),
                State::Stopping | State::Stopped => None,
                _ => Some(State::Stopped),
            }),
            r matches Some(t) ==> can_move(self.state, t),
    {
        match self.state {
            State::Started => Some(State::Stopping),
            State::Stopping | State::Stopped => None,
            _ => Some(State::Stopped),
        }
    }
}

} // verus!
