//! The data the FSM front end works on: the plain shape of the annotated
//! `impl` block as it arrives, and the discovered FSM structure.
//!
//! Type and identifier tokens are held as their source text; two types are
//! the same type when their token texts are equal.

use vstd::prelude::*;

verus! {

/// A generic argument inside `<...>`.
#[derive(Debug, PartialEq, Eq)]
pub enum GenericArgShape {
    /// A type argument.
    Type(TypeShape),
    /// A lifetime, a constant or a binding.
    Other,
}

/// The arguments of one path segment.
#[derive(Debug, PartialEq, Eq)]
pub enum PathArgsShape {
    /// No arguments: `Foo`.
    Bare,
    /// Angle-bracketed arguments: `Foo<A, B>`.
    AngleBracketed(Vec<GenericArgShape>),
    /// Parenthesized arguments: `Fn(A) -> B`.
    Parenthesized,
}

/// One segment of a type path.
#[derive(Debug, PartialEq, Eq)]
pub struct PathSegmentShape {
    pub ident: String,
    pub arguments: PathArgsShape,
}

/// A type, as far as the FSM front end reads it.
#[derive(Debug, PartialEq, Eq)]
pub enum TypeShape {
    /// A path type such as `a::b::C<D>`, with its segments and token text.
    Path { segments: Vec<PathSegmentShape>, text: String },
    /// Any other type (reference, tuple, slice, ...), with its token text.
    Other { text: String },
}

/// One parameter of a method signature.
#[derive(Debug, PartialEq, Eq)]
pub enum FnArgShape {
    /// `self`, `&self` or `&mut self`.
    Receiver,
    /// A typed parameter `pat: Type`.
    Typed(TypeShape),
}

/// The arguments of an `#[on(state = S, event = E)]` attribute.
#[derive(Debug, Clone, PartialEq, Eq)]
pub struct OnArgs {
    pub state: String,
    pub event: String,
}

/// One attribute of a method.
///
/// `path_ident` is the attribute's path when that path is a single
/// identifier. `on_args` and `duration` are what the attribute's arguments
/// give when read as `#[on(state = .., event = ..)]` and as
/// `#[state_timeout(duration = "..")]`, or the reader's error message; only
/// the reading that matches the attribute's name is ever used.
#[derive(Debug, PartialEq, Eq)]
pub struct AttrShape {
    pub path_ident: Option<String>,
    pub on_args: Result<OnArgs, String>,
    pub duration: Result<String, String>,
}

/// A method of the annotated `impl` block.
#[derive(Debug, PartialEq, Eq)]
pub struct MethodShape {
    pub name: String,
    pub is_async: bool,
    pub attrs: Vec<AttrShape>,
    pub inputs: Vec<FnArgShape>,
    /// The declared return type; `None` for `-> ()` left implicit.
    pub output: Option<TypeShape>,
}

/// An item of the annotated `impl` block.
#[derive(Debug, PartialEq, Eq)]
pub enum ImplItemShape {
    /// An associated type `type Name = Ty;`.
    Type { name: String, ty: TypeShape },
    /// A method.
    Fn(MethodShape),
    /// Anything else (constants, macros).
    Other,
}

/// The annotated `impl` block.
#[derive(Debug, PartialEq, Eq)]
pub struct ImplShape {
    pub self_ty: TypeShape,
    pub items: Vec<ImplItemShape>,
}

/// The arguments of `#[fsm(initial = S, channel_size = N, tracing = b, serde = b)]`.
#[derive(Debug, Clone, PartialEq, Eq)]
pub struct FsmArgs {
    pub initial: String,
    pub channel_size: usize,
    pub tracing: bool,
    pub serde: bool,
}

/// A duration: whole seconds and the nanoseconds below one second.
#[derive(Debug, Clone, Copy, PartialEq, Eq, Structural)]
pub struct Timeout {
    pub secs: u64,
    pub nanos: u32,
}

/// A discovered state of the FSM.
#[derive(Debug, Clone, PartialEq, Eq)]
pub struct State {
    pub name: String,
}

/// A discovered event of the FSM, with the token text of its payload type.
#[derive(Debug, Clone, PartialEq, Eq)]
pub struct Event {
    pub name: String,
    pub payload_type: Option<String>,
}

/// The shape of a handler's return type.
#[derive(Debug, Clone, Copy, PartialEq, Eq, Structural)]
pub enum HandlerReturnKind {
    /// `Transition<S>`.
    Transition,
    /// `Result<Transition<A>, Transition<B>>`: both arms transition.
    ResultTransition,
    /// `Result<Transition<A>, E>`: `Err` stops the machine with the error.
    ResultError,
}

/// What the attributes of a method declare, read in order.
#[derive(Debug, Clone, PartialEq, Eq)]
pub struct HandlerAttrs {
    /// The event of its `#[on(...)]` attributes, if any.
    pub event: Option<Event>,
    /// Whether it carries `#[on_timeout]`.
    pub is_timeout_handler: bool,
    /// The duration text of its last `#[state_timeout]`, if any.
    pub state_timeout: Option<String>,
    /// The source states of its `#[on(...)]` attributes, in order.
    pub source_states: Vec<String>,
}

/// A handler method, with everything derived from its attributes and
/// signature.
#[derive(Debug, Clone, PartialEq, Eq)]
pub struct Handler {
    /// The method's name.
    pub method_name: String,
    /// The event it handles (`#[on(...)]`), if any.
    pub event: Option<Event>,
    /// Whether it is the `#[on_timeout]` handler.
    pub is_timeout_handler: bool,
    /// The states its return type can transition to.
    pub return_states: Vec<State>,
    /// The shape of its return type (for event and timeout handlers).
    pub return_kind: Option<HandlerReturnKind>,
    /// The source states it is valid in, in attribute order.
    pub source_states: Vec<String>,
    /// Whether its event carries a payload argument.
    pub has_payload: bool,
    /// The `#[state_timeout]` armed for its target states, if any.
    pub timeout: Option<Timeout>,
}

/// The complete FSM structure after parsing.
#[derive(Debug, Clone, PartialEq, Eq)]
pub struct FsmStructure {
    pub fsm_name: String,
    pub initial_state: String,
    pub channel_size: usize,
    /// Token text of `type Context = ...;`.
    pub context_type: String,
    /// Token text of `type Error = ...;`.
    pub error_type: String,
    pub states: Vec<State>,
    pub events: Vec<Event>,
    pub handlers: Vec<Handler>,
    pub tracing: bool,
    pub serde: bool,
}

/// Why the `#[fsm]` input was refused. Each variant names what the diagnostic
/// points at.
#[derive(Debug, Clone, PartialEq, Eq)]
pub enum FsmError {
    /// The `impl` target is not a type path.
    FsmTypeNotPath,
    /// The `impl` target path has no segment.
    FsmTypeNameMissing,
    /// No `type Context = ...;`.
    MissingContextType,
    /// No `type Error = ...;`.
    MissingErrorType,
    /// An `#[on]` or `#[state_timeout]` attribute could not be read.
    InvalidAttribute { handler: String, message: String },
    /// Two `#[on]` attributes of one handler name the same source state.
    DuplicateSourceState { handler: String, state: String },
    /// The `#[on]` attributes of one handler name different events.
    MultipleEvents { handler: String, first: String, second: String },
    /// A handler has both `#[on(...)]` and `#[on_timeout]`.
    MixedOnAndOnTimeout { handler: String },
    /// A handler is not an `async fn`.
    HandlerNotAsync { handler: String },
    /// A `#[state_timeout]` duration could not be parsed.
    InvalidDuration { handler: String, text: String, reason: String },
    /// An event or timeout handler without a declared return type.
    MissingReturnType { handler: String },
    /// The handler's return type is neither `Transition<_>` nor `Result<..>`.
    ReturnNotTransition { handler: String, ty: String },
    /// A `Result` return type whose `Ok` side is not `Transition<_>`.
    ResultNotTransition { handler: String, ty: String },
    /// A `Transition` return type without exactly one path type argument.
    ExpectedTransition { handler: String, ty: String },
    /// One event declared with different payload types.
    InconsistentPayload { event: String, expected: Option<String>, found: Option<String> },
    /// More than one `#[on_timeout]` handler; names the second one.
    MultipleTimeoutHandlers { handler: String },
    /// A `#[state_timeout]` without any `#[on_timeout]` handler.
    StateTimeoutWithoutHandler { handler: String },
    /// Two handlers arm different timeouts for the same state.
    ConflictingTimeouts { state: String, first_handler: String, second_handler: String },
    /// The initial state is not among the states.
    InitialStateNotFound { state: String },
    /// A handler's target state is not among the states.
    TargetStateNotFound { state: String },
    /// A state that arms a timeout is not among the states.
    TimeoutSourceNotFound { state: String },
    /// A handler's source state is not among the states.
    SourceStateNotFound { state: String },
    /// A state cannot be reached from the initial state.
    UnreachableState { state: String, initial: String },
    /// An event or timeout handler without a parsed return kind.
    MissingReturnKind { handler: String, is_timeout: bool },
}

} // verus!
