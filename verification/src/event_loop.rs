//! A model of the decisions the generated event loop makes, as a function of
//! the plan: which handler an input calls, and what the loop does with what
//! the handler returned (including the timeout it re-arms). The rendered loop
//! writes these decisions out from the same plan; it does not call this model.

use vstd::prelude::*;
use crate::codegen::{CodegenPlan, Dispatch, EventArm, TimeoutArm};
use crate::model::{HandlerReturnKind, Timeout};

verus! {

/// An input of the generated event loop.
#[derive(Debug, Clone, PartialEq, Eq)]
pub enum LoopInput {
    /// An event arrived, by its name.
    Event(String),
    /// The state's timer fired.
    TimerFired,
    /// The machine's cancellation token was cancelled.
    Cancelled,
    /// Every sender of events is gone and the queue is drained.
    ChannelClosed,
}

/// What the generated loop does with an input.
#[derive(Debug, Clone, PartialEq, Eq)]
pub enum LoopAction {
    /// Call this handler.
    Call(Dispatch),
    /// Drop the input; the state does not change.
    Ignore,
    /// Leave the loop; the task ends with the context.
    Finish,
}

/// What a handler returned, as far as the loop reads it.
#[derive(Debug, Clone, PartialEq, Eq)]
pub enum HandlerOutcome {
    /// `Transition<S>`, or `Ok(Transition<S>)`, to the named state.
    Transition(String),
    /// `Err(Transition<S>)` of a `Result<Transition<A>, Transition<B>>` handler.
    ErrTransition(String),
    /// `Err(e)` of a `Result<Transition<A>, E>` handler.
    Error,
}

/// What the loop does after a handler returned.
#[derive(Debug, Clone, PartialEq, Eq)]
pub enum LoopStep {
    /// Enter `state`, publish it, and arm its timeout (`None`: no timeout).
    MoveTo { state: String, timeout: Option<Timeout> },
    /// Stop the machine; the task ends with the handler's error.
    Stop,
}

/// `arms[i]` is the first arm for `state` and `event`.
pub open spec fn is_first_matching_arm(arms: Seq<EventArm>, i: int, state: Seq<char>, event: Seq<char>) -> bool {
    &&& 0 <= i < arms.len()
    &&& arms[i].state@ == state && arms[i].event@ == event
    &&& forall|j: int| 0 <= j < i ==> !(#[trigger] arms[j].state@ == state && arms[j].event@ == event)
}

/// Some arm is for `state` and `event`.
pub open spec fn has_matching_arm(arms: Seq<EventArm>, state: Seq<char>, event: Seq<char>) -> bool {
    exists|i: int| 0 <= i < arms.len() && #[trigger] arms[i].state@ == state && arms[i].event@ == event
}

/// What the loop does with `input` in `state`: an event calls the handler of
/// the first matching arm, and is dropped without one; the timer calls the
/// timeout handler, if there is one; cancellation and a closed channel end
/// the loop.
pub open spec fn action_spec(plan: CodegenPlan, state: Seq<char>, input: LoopInput) -> LoopAction {
    match input {
        LoopInput::Event(event) => if has_matching_arm(plan.event_arms@, state, event@) {
            let i = choose|i: int| is_first_matching_arm(plan.event_arms@, i, state, event@);
            LoopAction::Call(
                Dispatch {
                    method_name: plan.event_arms@[i].method_name,
                    return_kind: plan.event_arms@[i].return_kind,
                },
            )
        } else {
            LoopAction::Ignore
        },
        LoopInput::TimerFired => match plan.timeout_handler {
            Some(d) => LoopAction::Call(d),
            None => LoopAction::Ignore,
        },
        LoopInput::Cancelled => LoopAction::Finish,
        LoopInput::ChannelClosed => LoopAction::Finish,
    }
}

/// `arms[i]` is the first timeout arm for `state`.
pub open spec fn is_first_timeout_arm(arms: Seq<TimeoutArm>, i: int, state: Seq<char>) -> bool {
    &&& 0 <= i < arms.len()
    &&& arms[i].state@ == state
    &&& forall|j: int| 0 <= j < i ==> #[trigger] arms[j].state@ != state
}

/// The timeout armed on entering `state`: that of its first arm, or none.
pub open spec fn timeout_for_spec(plan: CodegenPlan, state: Seq<char>) -> Option<Timeout> {
    if exists|i: int| 0 <= i < plan.timeout_arms.len() && #[trigger] plan.timeout_arms@[i].state@ == state {
        let i = choose|i: int| is_first_timeout_arm(plan.timeout_arms@, i, state);
        Some(plan.timeout_arms@[i].timeout)
    } else {
        None
    }
}

/// A handler of this return kind can return this outcome.
pub open spec fn outcome_fits(kind: HandlerReturnKind, outcome: HandlerOutcome) -> bool {
    match outcome {
        HandlerOutcome::Transition(_) => true,
        HandlerOutcome::ErrTransition(_) => kind == HandlerReturnKind::ResultTransition,
        HandlerOutcome::Error => kind == HandlerReturnKind::ResultError,
    }
}

/// What the loop does after the handler returned: every transition (`Ok` or
/// `Err`) enters its state and re-arms that state's timeout; an error stops
/// the machine.
pub open spec fn step_spec(plan: CodegenPlan, outcome: HandlerOutcome) -> LoopStep {
    match outcome {
        HandlerOutcome::Transition(s) => LoopStep::MoveTo { state: s, timeout: timeout_for_spec(plan, s@) },
        HandlerOutcome::ErrTransition(s) => LoopStep::MoveTo { state: s, timeout: timeout_for_spec(plan, s@) },
        HandlerOutcome::Error => LoopStep::Stop,
    }
}

impl CodegenPlan {
    /// The call the generated loop makes for `input` in `state`.
    pub fn next_action(&self, state: &String, input: &LoopInput) -> (a: LoopAction)
        ensures
            a == action_spec(*self, state@, *input),
    {
        match input {
            LoopInput::Event(event) => {
                let mut i: usize = 0;
                while i < self.event_arms.len()
                    invariant
                        i <= self.event_arms.len(),
                        *input == LoopInput::Event(*event),
                        forall|j: int|
                            0 <= j < i ==> !(#[trigger] self.event_arms@[j].state@ == state@ && self.event_arms@[j].event@ == event@),
                    decreases self.event_arms.len() - i,
                {
                    let arm = &self.event_arms[i];
                    if arm.state == *state && arm.event == *event {
                        proof {
                            assert(is_first_matching_arm(self.event_arms@, i as int, state@, event@));
                            assert(has_matching_arm(self.event_arms@, state@, event@));
                            assert(*input == LoopInput::Event(*event));
                            assert(action_spec(*self, state@, *input) == LoopAction::Call(
                                Dispatch { method_name: self.event_arms@[i as int].method_name, return_kind: self.event_arms@[i as int].return_kind },
                            ));
                            assert forall|k: int| #[trigger] is_first_matching_arm(self.event_arms@, k, state@, event@) implies k == i by {
                                if k < i {
                                    assert(!(self.event_arms@[k].state@ == state@ && self.event_arms@[k].event@ == event@));
                                } else if k > i {
                                    assert(self.event_arms@[i as int].state@ == state@ && self.event_arms@[i as int].event@ == event@);
                                }
                            }
                        }
                        return LoopAction::Call(
                            Dispatch { method_name: arm.method_name.clone(), return_kind: arm.return_kind },
                        );
                    }
                    i += 1;
                }
                LoopAction::Ignore
            },
            LoopInput::TimerFired => match &self.timeout_handler {
                Some(d) => LoopAction::Call(Dispatch { method_name: d.method_name.clone(), return_kind: d.return_kind }),
                None => LoopAction::Ignore,
            },
            LoopInput::Cancelled => LoopAction::Finish,
            LoopInput::ChannelClosed => LoopAction::Finish,
        }
    }

    /// The timeout the generated loop arms on entering `state`.
    pub fn timeout_for(&self, state: &String) -> (r: Option<Timeout>)
        ensures
            r == timeout_for_spec(*self, state@),
    {
        let mut i: usize = 0;
        while i < self.timeout_arms.len()
            invariant
                i <= self.timeout_arms.len(),
                forall|j: int| 0 <= j < i ==> #[trigger] self.timeout_arms@[j].state@ != state@,
            decreases self.timeout_arms.len() - i,
        {
            if self.timeout_arms[i].state == *state {
                proof {
                    assert(is_first_timeout_arm(self.timeout_arms@, i as int, state@));
                    assert forall|k: int| #[trigger] is_first_timeout_arm(self.timeout_arms@, k, state@) implies k == i by {
                        if k < i {
                            assert(self.timeout_arms@[k].state@ != state@);
                        } else if k > i {
                            assert(self.timeout_arms@[i as int].state@ == state@);
                        }
                    }
                }
                return Some(self.timeout_arms[i].timeout);
            }
            i += 1;
        }
        None
    }

    /// What the generated loop does after a handler of kind `kind` returned
    /// `outcome`.
    pub fn after_handler(&self, kind: HandlerReturnKind, outcome: HandlerOutcome) -> (r: LoopStep)
        requires
            outcome_fits(kind, outcome),
        ensures
            r == step_spec(*self, outcome),
    {
        match outcome {
            HandlerOutcome::Transition(s) => {
                let timeout = self.timeout_for(&s);
                LoopStep::MoveTo { state: s, timeout }
            },
            HandlerOutcome::ErrTransition(s) => {
                let timeout = self.timeout_for(&s);
                LoopStep::MoveTo { state: s, timeout }
            },
            HandlerOutcome::Error => LoopStep::Stop,
        }
    }
}

} // verus!
