use tokio_fsm::{
    AttrShape, Dispatch, Event, FnArgShape, FsmArgs, FsmError, FsmStructure, GenericArgShape, Handler,
    HandlerOutcome, HandlerReturnKind, ImplItemShape, ImplShape, LoopAction, LoopInput, LoopStep, MethodShape,
    OnArgs, PathArgsShape, PathSegmentShape, State, Timeout, TypeShape,
};

fn s(x: &str) -> String {
    x.to_string()
}

fn path(ident: &str, args: Vec<TypeShape>) -> TypeShape {
    let arguments = if args.is_empty() {
        PathArgsShape::Bare
    } else {
        PathArgsShape::AngleBracketed(args.into_iter().map(GenericArgShape::Type).collect())
    };
    TypeShape::Path { segments: vec![PathSegmentShape { ident: s(ident), arguments }], text: s(ident) }
}

fn transition(state: &str) -> TypeShape {
    path("Transition", vec![path(state, vec![])])
}

fn result(ok: TypeShape, err: TypeShape) -> TypeShape {
    path("Result", vec![ok, err])
}

fn on(state: &str, event: &str) -> AttrShape {
    AttrShape { path_ident: Some(s("on")), on_args: Ok(OnArgs { state: s(state), event: s(event) }), duration: Err(s("-")) }
}

fn on_timeout() -> AttrShape {
    AttrShape { path_ident: Some(s("on_timeout")), on_args: Err(s("-")), duration: Err(s("-")) }
}

fn state_timeout(d: &str) -> AttrShape {
    AttrShape { path_ident: Some(s("state_timeout")), on_args: Err(s("-")), duration: Ok(s(d)) }
}

fn method(name: &str, attrs: Vec<AttrShape>, payload: Option<&str>, output: TypeShape) -> MethodShape {
    let mut inputs = vec![FnArgShape::Receiver];
    if let Some(p) = payload {
        inputs.push(FnArgShape::Typed(path(p, vec![])));
    }
    MethodShape { name: s(name), is_async: true, attrs, inputs, output: Some(output) }
}

fn parse(name: &str, initial: &str, methods: Vec<MethodShape>) -> FsmStructure {
    let mut items = vec![
        ImplItemShape::Type { name: s("Context"), ty: path("Ctx", vec![]) },
        ImplItemShape::Type { name: s("Error"), ty: path("Err", vec![]) },
    ];
    items.extend(methods.into_iter().map(ImplItemShape::Fn));
    let imp = ImplShape { self_ty: path(name, vec![]), items };
    FsmStructure::parse(FsmArgs { initial: s(initial), channel_size: 32, tracing: false, serde: false }, &imp).unwrap()
}

fn integration() -> FsmStructure {
    parse(
        "IntegrationFsm",
        "Idle",
        vec![
            method("handle_start", vec![on("Idle", "Start"), state_timeout("100ms")], None, transition("Pending")),
            method(
                "handle_process",
                vec![on("Pending", "Process"), on("Active", "Process"), state_timeout("100ms")],
                Some("String"),
                transition("Active"),
            ),
            method("handle_finish", vec![on("Active", "Finish")], None, transition("Done")),
            method("handle_timeout", vec![on_timeout()], None, transition("Failed")),
        ],
    )
}

fn ev(name: &str) -> LoopInput {
    LoopInput::Event(s(name))
}

fn call(method: &str, kind: HandlerReturnKind) -> LoopAction {
    LoopAction::Call(Dispatch { method_name: s(method), return_kind: kind })
}

const MS100: Timeout = Timeout { secs: 0, nanos: 100_000_000 };

#[test]
fn ident_helpers() {
    let fsm = integration();
    assert_eq!(fsm.state_enum_ident(), "IntegrationFsmState");
    assert_eq!(fsm.event_enum_ident(), "IntegrationFsmEvent");
    assert_eq!(fsm.handle_ident(), "IntegrationFsmHandle");
    assert_eq!(fsm.task_ident(), "IntegrationFsmTask");
}

#[test]
fn fsm_attributes_are_recognised() {
    assert!(tokio_fsm::codegen::is_fsm_attribute(&Some(s("on"))));
    assert!(tokio_fsm::codegen::is_fsm_attribute(&Some(s("state_timeout"))));
    assert!(tokio_fsm::codegen::is_fsm_attribute(&Some(s("on_timeout"))));
    assert!(!tokio_fsm::codegen::is_fsm_attribute(&Some(s("doc"))));
    assert!(!tokio_fsm::codegen::is_fsm_attribute(&None));
}

#[test]
fn plan_event_arms_per_source_state() {
    let plan = integration().plan().unwrap();
    let arms: Vec<(String, String, String)> =
        plan.event_arms.iter().map(|a| (a.state.clone(), a.event.clone(), a.method_name.clone())).collect();
    assert_eq!(
        arms,
        vec![
            (s("Idle"), s("Start"), s("handle_start")),
            (s("Pending"), s("Process"), s("handle_process")),
            (s("Active"), s("Process"), s("handle_process")),
            (s("Active"), s("Finish"), s("handle_finish")),
        ]
    );
    assert!(plan.event_arms[1].has_payload);
    assert_eq!(
        plan.timeout_handler,
        Some(Dispatch { method_name: s("handle_timeout"), return_kind: HandlerReturnKind::Transition })
    );
    let timeouts: Vec<(String, Timeout)> = plan.timeout_arms.iter().map(|a| (a.state.clone(), a.timeout)).collect();
    assert_eq!(timeouts, vec![(s("Pending"), MS100), (s("Active"), MS100)]);
}

#[test]
fn full_lifecycle_scenario() {
    let plan = integration().plan().unwrap();
    let mut state = s("Idle");
    assert_eq!(plan.timeout_for(&state), None);
    assert_eq!(plan.next_action(&state, &ev("Start")), call("handle_start", HandlerReturnKind::Transition));
    let step = plan.after_handler(HandlerReturnKind::Transition, HandlerOutcome::Transition(s("Pending")));
    assert_eq!(step, LoopStep::MoveTo { state: s("Pending"), timeout: Some(MS100) });
    state = s("Pending");
    assert_eq!(plan.next_action(&state, &ev("Process")), call("handle_process", HandlerReturnKind::Transition));
    state = s("Active");
    assert_eq!(plan.next_action(&state, &ev("Finish")), call("handle_finish", HandlerReturnKind::Transition));
    let step = plan.after_handler(HandlerReturnKind::Transition, HandlerOutcome::Transition(s("Done")));
    assert_eq!(step, LoopStep::MoveTo { state: s("Done"), timeout: None });
}

#[test]
fn timeout_scenario() {
    let plan = integration().plan().unwrap();
    assert_eq!(plan.next_action(&s("Pending"), &LoopInput::TimerFired), call("handle_timeout", HandlerReturnKind::Transition));
    let step = plan.after_handler(HandlerReturnKind::Transition, HandlerOutcome::Transition(s("Failed")));
    assert_eq!(step, LoopStep::MoveTo { state: s("Failed"), timeout: None });
}

#[test]
fn unmatched_event_is_dropped() {
    let plan = integration().plan().unwrap();
    assert_eq!(plan.next_action(&s("Idle"), &ev("Finish")), LoopAction::Ignore);
    assert_eq!(plan.next_action(&s("Done"), &ev("Start")), LoopAction::Ignore);
}

#[test]
fn timer_without_timeout_handler_is_ignored() {
    let fsm = parse("LifecycleFsm", "Idle", vec![method("on_tick", vec![on("Idle", "Tick")], None, transition("Running"))]);
    let plan = fsm.plan().unwrap();
    assert_eq!(plan.timeout_handler, None);
    assert_eq!(plan.next_action(&s("Running"), &LoopInput::TimerFired), LoopAction::Ignore);
}

#[test]
fn result_transition_err_still_transitions() {
    let fsm = parse(
        "TransitionResultFsm",
        "Idle",
        vec![method("on_start", vec![on("Idle", "Start")], Some("bool"), result(transition("Running"), transition("Failed")))],
    );
    let plan = fsm.plan().unwrap();
    assert_eq!(plan.next_action(&s("Idle"), &ev("Start")), call("on_start", HandlerReturnKind::ResultTransition));
    let step = plan.after_handler(HandlerReturnKind::ResultTransition, HandlerOutcome::ErrTransition(s("Failed")));
    assert_eq!(step, LoopStep::MoveTo { state: s("Failed"), timeout: None });
}

#[test]
fn handler_error_stops_the_machine() {
    let fsm = parse(
        "ErrorPropagationFsm",
        "Idle",
        vec![method("on_start", vec![on("Idle", "Start")], Some("bool"), result(transition("Running"), path("HandlerError", vec![])))],
    );
    let plan = fsm.plan().unwrap();
    assert_eq!(plan.next_action(&s("Idle"), &ev("Start")), call("on_start", HandlerReturnKind::ResultError));
    assert_eq!(plan.after_handler(HandlerReturnKind::ResultError, HandlerOutcome::Error), LoopStep::Stop);
    let ok = plan.after_handler(HandlerReturnKind::ResultError, HandlerOutcome::Transition(s("Running")));
    assert_eq!(ok, LoopStep::MoveTo { state: s("Running"), timeout: None });
}

#[test]
fn timeout_rearms_after_timeout_transition() {
    let fsm = parse(
        "TimeoutChainFsm",
        "Idle",
        vec![
            method("on_start", vec![on("Idle", "Start"), state_timeout("100ms")], None, transition("Pending")),
            method("prime_cooling_timeout", vec![on("Idle", "PrimeCooling"), state_timeout("50ms")], None, transition("Cooling")),
            method("on_timeout", vec![on_timeout()], None, result(transition("Failed"), transition("Cooling"))),
        ],
    );
    let plan = fsm.plan().unwrap();
    let step = plan.after_handler(HandlerReturnKind::Transition, HandlerOutcome::Transition(s("Pending")));
    assert_eq!(step, LoopStep::MoveTo { state: s("Pending"), timeout: Some(MS100) });
    assert_eq!(plan.next_action(&s("Pending"), &LoopInput::TimerFired), call("on_timeout", HandlerReturnKind::ResultTransition));
    let step = plan.after_handler(HandlerReturnKind::ResultTransition, HandlerOutcome::ErrTransition(s("Cooling")));
    assert_eq!(step, LoopStep::MoveTo { state: s("Cooling"), timeout: Some(Timeout { secs: 0, nanos: 50_000_000 }) });
    let step = plan.after_handler(HandlerReturnKind::ResultTransition, HandlerOutcome::Transition(s("Failed")));
    assert_eq!(step, LoopStep::MoveTo { state: s("Failed"), timeout: None });
}

#[test]
fn first_matching_arm_wins() {
    let fsm = parse(
        "Twice",
        "Idle",
        vec![
            method("first", vec![on("Idle", "Go")], None, transition("Busy")),
            method("second", vec![on("Idle", "Go")], None, transition("Busy")),
        ],
    );
    let plan = fsm.plan().unwrap();
    assert_eq!(plan.next_action(&s("Idle"), &ev("Go")), call("first", HandlerReturnKind::Transition));
}

// ---------------------------------------------------------------- hand-built structures

fn handler(name: &str, event: Option<&str>, sources: &[&str], targets: &[&str], timeout_handler: bool) -> Handler {
    Handler {
        method_name: s(name),
        event: event.map(|e| Event { name: s(e), payload_type: None }),
        is_timeout_handler: timeout_handler,
        return_states: targets.iter().map(|t| State { name: s(t) }).collect(),
        return_kind: Some(HandlerReturnKind::Transition),
        source_states: sources.iter().map(|x| s(x)).collect(),
        has_payload: false,
        timeout: None,
    }
}

fn structure(initial: &str, states: &[&str], handlers: Vec<Handler>) -> FsmStructure {
    FsmStructure {
        fsm_name: s("Hand"),
        initial_state: s(initial),
        channel_size: 1,
        context_type: s("()"),
        error_type: s("()"),
        states: states.iter().map(|x| State { name: s(x) }).collect(),
        events: vec![],
        handlers,
        tracing: false,
        serde: false,
    }
}

#[test]
fn validate_accepts_reachable_graph() {
    let fsm = structure("A", &["A", "B", "C"], vec![
        handler("ab", Some("e"), &["A"], &["B"], false),
        handler("bc", Some("e"), &["B"], &["C"], false),
    ]);
    assert_eq!(fsm.validate(), Ok(()));
}

#[test]
fn validate_initial_state_not_found() {
    let fsm = structure("Z", &["A"], vec![]);
    assert_eq!(fsm.validate(), Err(FsmError::InitialStateNotFound { state: s("Z") }));
}

#[test]
fn validate_target_state_not_found() {
    let fsm = structure("A", &["A"], vec![handler("h", Some("e"), &["A"], &["B"], false)]);
    assert_eq!(fsm.validate(), Err(FsmError::TargetStateNotFound { state: s("B") }));
}

#[test]
fn validate_source_state_not_found() {
    let fsm = structure("A", &["A", "B"], vec![handler("h", Some("e"), &["A", "Q"], &["B"], false)]);
    assert_eq!(fsm.validate(), Err(FsmError::SourceStateNotFound { state: s("Q") }));
}

#[test]
fn validate_later_target_not_found() {
    let fsm = structure("A", &["A", "B"], vec![handler("h", Some("e"), &["A"], &["B", "X"], false)]);
    assert_eq!(fsm.validate(), Err(FsmError::TargetStateNotFound { state: s("X") }));
}

#[test]
fn validate_timeout_source_not_found() {
    let mut armed = handler("arm", Some("e"), &["A"], &["B"], false);
    armed.return_states.push(State { name: s("Ghost") });
    armed.timeout = Some(Timeout { secs: 1, nanos: 0 });
    let t = handler("t", None, &[], &["A"], true);
    let fsm = structure("A", &["A", "B"], vec![t, armed]);
    assert_eq!(fsm.validate(), Err(FsmError::TimeoutSourceNotFound { state: s("Ghost") }));
}

#[test]
fn validate_timeout_edges_make_targets_reachable() {
    let mut armed = handler("arm", Some("e"), &["A"], &["B"], false);
    armed.timeout = Some(Timeout { secs: 1, nanos: 0 });
    let t = handler("t", None, &[], &["C"], true);
    let fsm = structure("A", &["A", "B", "C"], vec![armed, t]);
    assert_eq!(fsm.validate(), Ok(()));
}

#[test]
fn validate_unreachable_names_first_state_in_order() {
    let fsm = structure("A", &["A", "B", "C"], vec![handler("cb", Some("e"), &["C"], &["B"], false)]);
    assert_eq!(fsm.validate(), Err(FsmError::UnreachableState { state: s("B"), initial: s("A") }));
}

#[test]
fn plan_missing_return_kind() {
    let mut h = handler("h", Some("e"), &["A"], &["A"], false);
    h.return_kind = None;
    let fsm = structure("A", &["A"], vec![h]);
    assert_eq!(fsm.plan(), Err(FsmError::MissingReturnKind { handler: s("h"), is_timeout: false }));
    let mut t = handler("t", None, &[], &["A"], true);
    t.return_kind = None;
    let fsm = structure("A", &["A"], vec![t]);
    assert_eq!(fsm.plan(), Err(FsmError::MissingReturnKind { handler: s("t"), is_timeout: true }));
}

// ---------------------------------------------------------------- messages

#[test]
fn messages() {
    assert_eq!(
        FsmError::UnreachableState { state: s("StateC"), initial: s("StateA") }.message(),
        "State 'StateC' is unreachable from initial state 'StateA'"
    );
    assert_eq!(
        FsmError::InconsistentPayload { event: s("Start"), expected: Some(s("String")), found: None }.message(),
        "Event 'Start' has inconsistent payload types across handlers: expected 'String', found 'None'"
    );
    assert_eq!(
        FsmError::MultipleTimeoutHandlers { handler: s("t2") }.message(),
        "Multiple #[on_timeout] handlers are not allowed"
    );
    assert_eq!(
        FsmError::DuplicateSourceState { handler: s("on_start"), state: s("Idle") }.message(),
        "Duplicate #[on] source state 'Idle' on handler 'on_start'"
    );
    assert_eq!(
        FsmError::ConflictingTimeouts { state: s("Busy"), first_handler: s("a"), second_handler: s("b") }.message(),
        "State 'Busy' has conflicting timeout durations declared by 'a' and 'b'"
    );
    assert_eq!(
        FsmError::InvalidDuration { handler: s("h"), text: s("soon"), reason: s("bad") }.message(),
        "Invalid duration 'soon': bad"
    );
    assert_eq!(
        FsmError::MissingReturnKind { handler: s("h"), is_timeout: true }.message(),
        "Internal macro error: missing parsed return kind for timeout handler"
    );
}

#[test]
fn cancellation_and_channel_close_finish() {
    let plan = integration().plan().unwrap();
    for state in ["Idle", "Pending", "Active", "Done", "Failed"] {
        assert_eq!(plan.next_action(&s(state), &LoopInput::Cancelled), LoopAction::Finish);
        assert_eq!(plan.next_action(&s(state), &LoopInput::ChannelClosed), LoopAction::Finish);
    }
}

#[test]
fn validate_skips_sources_of_a_handler_without_targets() {
    let fsm = structure("A", &["A"], vec![handler("nowhere", Some("e"), &["Missing"], &[], false)]);
    assert_eq!(fsm.validate(), Ok(()));
}

#[test]
fn validate_second_timeout_handler_is_named() {
    let fsm = structure("A", &["A"], vec![
        handler("t1", None, &[], &["A"], true),
        handler("plain", Some("e"), &["A"], &["A"], false),
        handler("t2", None, &[], &["A"], true),
    ]);
    assert_eq!(fsm.validate_timeout_contract(), Err(FsmError::MultipleTimeoutHandlers { handler: s("t2") }));
    assert_eq!(fsm.validate(), Err(FsmError::MultipleTimeoutHandlers { handler: s("t2") }));
    let one = structure("A", &["A"], vec![handler("t1", None, &[], &["A"], true)]);
    assert_eq!(one.validate_timeout_contract(), Ok(true));
    let none = structure("A", &["A"], vec![]);
    assert_eq!(none.validate_timeout_contract(), Ok(false));
}

#[test]
fn states_with_timeout_in_order_of_first_mention() {
    let mut a = handler("a", Some("e"), &["A"], &["B", "C"], false);
    a.timeout = Some(Timeout { secs: 1, nanos: 0 });
    let mut b = handler("b", Some("f"), &["B"], &["C", "D"], false);
    b.timeout = Some(Timeout { secs: 1, nanos: 0 });
    let fsm = structure("A", &["A", "B", "C", "D"], vec![a, b]);
    assert_eq!(fsm.identify_states_with_timeout(true), Ok(vec![s("B"), s("C"), s("D")]));
    assert_eq!(
        fsm.identify_states_with_timeout(false),
        Err(FsmError::StateTimeoutWithoutHandler { handler: s("a") })
    );
}

#[test]
fn conflicting_timeouts_name_first_declarer() {
    let mut a = handler("a", Some("e"), &["A"], &["B"], false);
    a.timeout = Some(Timeout { secs: 1, nanos: 0 });
    let mut b = handler("b", Some("f"), &["A"], &["C"], false);
    b.timeout = Some(Timeout { secs: 5, nanos: 0 });
    let mut c = handler("c", Some("g"), &["A"], &["C", "B"], false);
    c.timeout = Some(Timeout { secs: 1, nanos: 0 });
    let fsm = structure("A", &["A", "B", "C"], vec![a, b, c]);
    assert_eq!(
        fsm.validate_state_timeout_consistency(),
        Err(FsmError::ConflictingTimeouts { state: s("C"), first_handler: s("b"), second_handler: s("c") })
    );
}

fn state_graph(n: usize, edges: &[(usize, usize)]) -> petgraph::graph::Graph<usize, (), petgraph::Directed, usize> {
    let mut g = petgraph::graph::Graph::with_capacity(0, 0);
    for i in 0..n {
        g.add_node(i);
    }
    for &(a, b) in edges {
        g.add_edge(petgraph::graph::NodeIndex::new(a), petgraph::graph::NodeIndex::new(b), ());
    }
    g
}

#[test]
fn reachability_is_checked_along_the_given_graph() {
    // no handlers: only the graph's own edges count
    let fsm = structure("A", &["A", "B", "C"], vec![]);
    assert_eq!(fsm.check_reachability(&state_graph(3, &[(0, 1), (1, 2)]), 0), Ok(()));
    assert_eq!(
        fsm.check_reachability(&state_graph(3, &[(0, 2)]), 0),
        Err(FsmError::UnreachableState { state: s("B"), initial: s("A") })
    );
    // from another start node, with extra nodes in the graph
    assert_eq!(
        fsm.check_reachability(&state_graph(4, &[(2, 0), (0, 1)]), 2),
        Ok(())
    );
}

#[test]
fn graph_building_keeps_edges_and_uses_the_given_timed_states() {
    let mut armed = handler("arm", Some("e"), &["A"], &["B"], false);
    armed.timeout = Some(Timeout { secs: 1, nanos: 0 });
    let t = handler("t", None, &[], &["C"], true);
    let fsm = structure("A", &["A", "B", "C"], vec![armed, t]);
    // the timeout handler fires from the states handed in, here A only
    let mut g = state_graph(3, &[(2, 2)]);
    assert_eq!(fsm.build_reachability_graph(&mut g, &vec![s("A")]), Ok(()));
    let mut edges: Vec<(usize, usize)> = g.raw_edges().iter().map(|e| (e.source().index(), e.target().index())).collect();
    edges.sort();
    assert_eq!(edges, vec![(0, 1), (0, 2), (2, 2)]);
    // a timed state without a node is refused
    let mut g = state_graph(3, &[]);
    assert_eq!(
        fsm.build_reachability_graph(&mut g, &vec![s("Ghost")]),
        Err(FsmError::TimeoutSourceNotFound { state: s("Ghost") })
    );
}
