//! The text of the diagnostics the FSM macro reports.

use vstd::prelude::*;
use vstd::string::StringExecFns;
use crate::model::FsmError;

verus! {

/// The text of an optional type: the type's text, or `None`.
pub open spec fn optional_text(o: Option<String>) -> Seq<char> {
    match o {
        Some(s) => s@,
        None => "None"@,
    }
}

fn append_optional(m: &mut String, o: &Option<String>)
    ensures
        final(m)@ == old(m)@ + optional_text(*o),
{
    match o {
        Some(s) => m.append(s.as_str()),
        None => m.append("None"),
    }
}

/// The diagnostic text of an error.
pub open spec fn message_spec(e: FsmError) -> Seq<char> {
    match e {
        FsmError::FsmTypeNotPath => "Expected type path for FSM"@,
        FsmError::FsmTypeNameMissing => "Expected FSM type name"@,
        FsmError::MissingContextType => "Missing associated type: type Context = ..."@,
        FsmError::MissingErrorType => "Missing associated type: type Error = ..."@,
        FsmError::InvalidAttribute { message, .. } => message@,
        FsmError::DuplicateSourceState { handler, state } => "Duplicate #[on] source state '"@ + state@ + "' on handler '"@ + handler@ + "'"@,
        FsmError::MultipleEvents { handler, first, second } => "Handler method '"@ + handler@ + "' handles multiple different events: '"@ + first@ + "' and '"@ + second@ + "'"@,
        FsmError::MixedOnAndOnTimeout { handler } => "Handler method '"@ + handler@ + "' cannot combine #[on(...)] with #[on_timeout]"@,
        FsmError::HandlerNotAsync { handler } => "FSM handler '"@ + handler@ + "' must be an async fn"@,
        FsmError::InvalidDuration { text, reason, .. } => "Invalid duration '"@ + text@ + "': "@ + reason@,
        FsmError::MissingReturnType { .. } => "FSM handlers must return Transition<NextState> or Result<Transition<NextState>, ...>"@,
        FsmError::ReturnNotTransition { .. } => "FSM handlers must return Transition<NextState> or Result<Transition<NextState>, ...>"@,
        FsmError::ResultNotTransition { .. } => "Result handlers must return Result<Transition<NextState>, ...>"@,
        FsmError::ExpectedTransition { .. } => "Expected Transition<NextState>"@,
        FsmError::InconsistentPayload { event, expected, found } => "Event '"@ + event@ + "' has inconsistent payload types across handlers: expected '"@ + optional_text(expected) + "', found '"@ + optional_text(found) + "'"@,
        FsmError::MultipleTimeoutHandlers { .. } => "Multiple #[on_timeout] handlers are not allowed"@,
        FsmError::StateTimeoutWithoutHandler { .. } => "#[state_timeout] requires an #[on_timeout] handler"@,
        FsmError::ConflictingTimeouts { state, first_handler, second_handler } => "State '"@ + state@ + "' has conflicting timeout durations declared by '"@ + first_handler@ + "' and '"@ + second_handler@ + "'"@,
        FsmError::InitialStateNotFound { .. } => "Initial state not found"@,
        FsmError::TargetStateNotFound { .. } => "Target state not found"@,
        FsmError::TimeoutSourceNotFound { .. } => "Internal error: timeout source state not found"@,
        FsmError::SourceStateNotFound { .. } => "Source state not found"@,
        FsmError::UnreachableState { state, initial } => "State '"@ + state@ + "' is unreachable from initial state '"@ + initial@ + "'"@,
        FsmError::MissingReturnKind { is_timeout, .. } => if is_timeout {
            "Internal macro error: missing parsed return kind for timeout handler"@
        } else {
            "Internal macro error: missing parsed return kind for event handler"@
        },
    }
}

impl FsmError {
    /// The diagnostic text of this error.
    pub fn message(&self) -> (m: String)
        ensures
            m@ == message_spec(*self),
    {
        match self {
            FsmError::FsmTypeNotPath => {
                let mut m = <String as StringExecFns>::from_str("Expected type path for FSM");
                m
            },
            FsmError::FsmTypeNameMissing => {
                let mut m = <String as StringExecFns>::from_str("Expected FSM type name");
                m
            },
            FsmError::MissingContextType => {
                let mut m = <String as StringExecFns>::from_str("Missing associated type: type Context = ...");
                m
            },
            FsmError::MissingErrorType => {
                let mut m = <String as StringExecFns>::from_str("Missing associated type: type Error = ...");
                m
            },
            FsmError::InvalidAttribute { message, .. } => {
                let mut m = message.clone();
                m
            },
            FsmError::DuplicateSourceState { handler, state } => {
                let mut m = <String as StringExecFns>::from_str("Duplicate #[on] source state '");
                m.append(state.as_str());
                m.append("' on handler '");
                m.append(handler.as_str());
                m.append("'");
                m
            },
            FsmError::MultipleEvents { handler, first, second } => {
                let mut m = <String as StringExecFns>::from_str("Handler method '");
                m.append(handler.as_str());
                m.append("' handles multiple different events: '");
                m.append(first.as_str());
                m.append("' and '");
                m.append(second.as_str());
                m.append("'");
                m
            },
            FsmError::MixedOnAndOnTimeout { handler } => {
                let mut m = <String as StringExecFns>::from_str("Handler method '");
                m.append(handler.as_str());
                m.append("' cannot combine #[on(...)] with #[on_timeout]");
                m
            },
            FsmError::HandlerNotAsync { handler } => {
                let mut m = <String as StringExecFns>::from_str("FSM handler '");
                m.append(handler.as_str());
                m.append("' must be an async fn");
                m
            },
            FsmError::InvalidDuration { text, reason, .. } => {
                let mut m = <String as StringExecFns>::from_str("Invalid duration '");
                m.append(text.as_str());
                m.append("': ");
                m.append(reason.as_str());
                m
            },
            FsmError::MissingReturnType { .. } => {
                let mut m = <String as StringExecFns>::from_str("FSM handlers must return Transition<NextState> or Result<Transition<NextState>, ...>");
                m
            },
            FsmError::ReturnNotTransition { .. } => {
                let mut m = <String as StringExecFns>::from_str("FSM handlers must return Transition<NextState> or Result<Transition<NextState>, ...>");
                m
            },
            FsmError::ResultNotTransition { .. } => {
                let mut m = <String as StringExecFns>::from_str("Result handlers must return Result<Transition<NextState>, ...>");
                m
            },
            FsmError::ExpectedTransition { .. } => {
                let mut m = <String as StringExecFns>::from_str("Expected Transition<NextState>");
                m
            },
            FsmError::InconsistentPayload { event, expected, found } => {
                let mut m = <String as StringExecFns>::from_str("Event '");
                m.append(event.as_str());
                m.append("' has inconsistent payload types across handlers: expected '");
                append_optional(&mut m, expected);
                m.append("', found '");
                append_optional(&mut m, found);
                m.append("'");
                m
            },
            FsmError::MultipleTimeoutHandlers { .. } => {
                let mut m = <String as StringExecFns>::from_str("Multiple #[on_timeout] handlers are not allowed");
                m
            },
            FsmError::StateTimeoutWithoutHandler { .. } => {
                let mut m = <String as StringExecFns>::from_str("#[state_timeout] requires an #[on_timeout] handler");
                m
            },
            FsmError::ConflictingTimeouts { state, first_handler, second_handler } => {
                let mut m = <String as StringExecFns>::from_str("State '");
                m.append(state.as_str());
                m.append("' has conflicting timeout durations declared by '");
                m.append(first_handler.as_str());
                m.append("' and '");
                m.append(second_handler.as_str());
                m.append("'");
                m
            },
            FsmError::InitialStateNotFound { .. } => {
                let mut m = <String as StringExecFns>::from_str("Initial state not found");
                m
            },
            FsmError::TargetStateNotFound { .. } => {
                let mut m = <String as StringExecFns>::from_str("Target state not found");
                m
            },
            FsmError::TimeoutSourceNotFound { .. } => {
                let mut m = <String as StringExecFns>::from_str("Internal error: timeout source state not found");
                m
            },
            FsmError::SourceStateNotFound { .. } => {
                let mut m = <String as StringExecFns>::from_str("Source state not found");
                m
            },
            FsmError::UnreachableState { state, initial } => {
                let mut m = <String as StringExecFns>::from_str("State '");
                m.append(state.as_str());
                m.append("' is unreachable from initial state '");
                m.append(initial.as_str());
                m.append("'");
                m
            },
            FsmError::MissingReturnKind { is_timeout, .. } => {
                if *is_timeout {
                    <String as StringExecFns>::from_str("Internal macro error: missing parsed return kind for timeout handler")
                } else {
                    <String as StringExecFns>::from_str("Internal macro error: missing parsed return kind for event handler")
                }
            },
        }
    }
}

} // verus!
