//! Core runtime types: the transition value handlers return, and the error
//! the background task reports.

use vstd::prelude::*;

verus! {

/// A state transition in the FSM.
///
/// Handlers return this value to name the state the machine moves to next.
/// It is usually created with [`Transition::to`].
#[derive(Debug)]
pub enum Transition<T> {
    /// Transition to the given target state.
    To(T),
}

impl<T> Transition<T> {
    /// The state that this transition leads to.
    pub open spec fn target(self) -> T {
        match self {
            Transition::To(state) => state,
        }
    }

    /// Creates a transition to the given target state.
    pub fn to(state: T) -> (t: Self)
        ensures
            t == Transition::To(state),
            t.target() == state,
    {
        Transition::To(state)
    }

    /// Extracts the target state from the transition.
    pub fn into_state(self) -> (state: T)
        ensures
            state == self.target(),
    {
        match self {
            Transition::To(state) => state,
        }
    }
}

/// Creating a transition and extracting its state gives back the state that
/// went in.
pub proof fn lemma_transition_round_trip<T>(state: T)
    ensures
        Transition::To(state).target() == state,
{
}

/// Error returned by the FSM background task.
///
/// It tells a logical error returned by an FSM handler apart from a failure of
/// the Tokio task itself (a panic or an abort).
#[derive(Debug)]
pub enum TaskError<E> {
    /// A handler returned `Err(..)`, which shut the machine down.
    Fsm(E),
    /// The background task panicked or was aborted.
    Join(tokio::task::JoinError),
}

impl<E> From<tokio::task::JoinError> for TaskError<E> {
    fn from(e: tokio::task::JoinError) -> (r: Self) {
        TaskError::Join(e)
    }
}

impl<E> vstd::std_specs::convert::FromSpecImpl<tokio::task::JoinError> for TaskError<E> {
    open spec fn obeys_from_spec() -> bool {
        true
    }

    open spec fn from_spec(e: tokio::task::JoinError) -> Self {
        TaskError::Join(e)
    }
}

} // verus!
