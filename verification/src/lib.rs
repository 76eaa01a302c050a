//! Typed finite state machines for Tokio: the runtime types, and the
//! verified front end of the `#[fsm]` code generator (handler analysis,
//! structure discovery, graph validation and code-generation plans).

pub mod transition;
pub mod outside;
pub mod model;
pub mod errors;
pub mod names;
pub mod graph;
pub mod parser;
pub mod codegen;
pub mod event_loop;
pub mod laws;

pub use transition::{TaskError, Transition};
pub use model::{
    AttrShape, Event, FnArgShape, FsmArgs, FsmError, FsmStructure, GenericArgShape, Handler, HandlerAttrs, HandlerReturnKind,
    ImplItemShape, ImplShape, MethodShape, OnArgs, PathArgsShape, PathSegmentShape, State, Timeout, TypeShape,
};
pub use codegen::{CodegenPlan, Dispatch, EventArm, TimeoutArm};
pub use event_loop::{HandlerOutcome, LoopAction, LoopInput, LoopStep};
