# tokio_fsm

Typed finite state machines for Tokio. A state machine is written as an
annotated `impl` block (`#[fsm(initial = Idle)]`, handlers marked
`#[on(state = .., event = ..)]`, `#[on_timeout]`, `#[state_timeout(duration = "..")]`);
the macro discovers the states and events, validates the machine, and
generates the state and event enums, the handle, the task and the event loop.

Layout:

- `src/` is the verified library (Verus):
  - `transition.rs`: the runtime `Transition` and `TaskError` types;
  - `model.rs`: the plain shape of the annotated block and the discovered
    `FsmStructure`; `errors.rs`: diagnostic texts;
  - `parser.rs`: reading handlers and the block (`HandlerAttrs::read`,
    `parse_timeout`, `Handler::finish`, `Handler::parse`, `FsmStructure::parse`);
  - `graph.rs`: validation (timeout contract and consistency, reachability of
    every state from the initial state, over a petgraph graph);
  - `codegen.rs`: the code-generation plan (item names, event arms, timeout
    handler, per-state timeouts); `event_loop.rs`: a model of the decisions
    the generated loop makes from that plan (which handler an input calls,
    what a handler's outcome leads to). The tokens that `app/` renders write
    the same decisions out from the plan; they do not call this model;
  - `laws.rs`: properties of validated and parsed machines;
  - `outside.rs`: the trusted declarations of petgraph, humantime and tokio items.
- `app/` is the unverified edge: converting `syn` input into the library's
  shapes, reading attributes with darling, rendering tokens with `quote!`,
  and the `TaskError` copy with its `thiserror` derive.
- `tests/` exercise the library.
