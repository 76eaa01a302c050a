use tokio_fsm::parser::parse_timeout;
use tokio_fsm::{
    AttrShape, Event, FnArgShape, FsmArgs, FsmError, FsmStructure, GenericArgShape, Handler, HandlerAttrs,
    HandlerReturnKind, ImplItemShape, ImplShape, MethodShape, OnArgs, PathArgsShape, PathSegmentShape, TypeShape,
    Timeout,
};

fn s(x: &str) -> String {
    x.to_string()
}

fn path(ident: &str, args: Vec<TypeShape>) -> TypeShape {
    let text = if args.is_empty() {
        ident.to_string()
    } else {
        let inner: Vec<String> = args.iter().map(text_of).collect();
        format!("{} < {} >", ident, inner.join(" , "))
    };
    let arguments = if args.is_empty() {
        PathArgsShape::Bare
    } else {
        PathArgsShape::AngleBracketed(args.into_iter().map(GenericArgShape::Type).collect())
    };
    TypeShape::Path { segments: vec![PathSegmentShape { ident: s(ident), arguments }], text }
}

fn text_of(t: &TypeShape) -> String {
    match t {
        TypeShape::Path { text, .. } => text.clone(),
        TypeShape::Other { text } => text.clone(),
    }
}

fn transition(state: &str) -> TypeShape {
    path("Transition", vec![path(state, vec![])])
}

fn result(ok: TypeShape, err: TypeShape) -> TypeShape {
    path("Result", vec![ok, err])
}

fn on(state: &str, event: &str) -> AttrShape {
    AttrShape {
        path_ident: Some(s("on")),
        on_args: Ok(OnArgs { state: s(state), event: s(event) }),
        duration: Err(s("Unknown field: `state`")),
    }
}

fn on_timeout() -> AttrShape {
    AttrShape {
        path_ident: Some(s("on_timeout")),
        on_args: Err(s("Unexpected meta-item format `word`")),
        duration: Err(s("Unexpected meta-item format `word`")),
    }
}

fn state_timeout(d: &str) -> AttrShape {
    AttrShape {
        path_ident: Some(s("state_timeout")),
        on_args: Err(s("Unknown field: `duration`")),
        duration: Ok(s(d)),
    }
}

fn method(name: &str, attrs: Vec<AttrShape>, payload: Option<&str>, output: Option<TypeShape>) -> MethodShape {
    let mut inputs = vec![FnArgShape::Receiver];
    if let Some(p) = payload {
        inputs.push(FnArgShape::Typed(path(p, vec![])));
    }
    MethodShape { name: s(name), is_async: true, attrs, inputs, output }
}

fn fsm_impl(name: &str, methods: Vec<MethodShape>) -> ImplShape {
    let mut items = vec![
        ImplItemShape::Type { name: s("Context"), ty: path("TestContext", vec![]) },
        ImplItemShape::Type { name: s("Error"), ty: path("TestError", vec![]) },
    ];
    items.extend(methods.into_iter().map(ImplItemShape::Fn));
    ImplShape { self_ty: path(name, vec![]), items }
}

fn args(initial: &str) -> FsmArgs {
    FsmArgs { initial: s(initial), channel_size: 100, tracing: false, serde: false }
}

fn state_names(fsm: &FsmStructure) -> Vec<String> {
    fsm.states.iter().map(|st| st.name.clone()).collect()
}

// ---------------------------------------------------------------- handlers

#[test]
fn handler_transition_return() {
    let m = method("handle_start", vec![on("Idle", "Start"), state_timeout("100ms")], None, Some(transition("Pending")));
    let h = Handler::parse(&m).unwrap();
    assert_eq!(h.method_name, "handle_start");
    assert_eq!(h.event, Some(Event { name: s("Start"), payload_type: None }));
    assert!(!h.is_timeout_handler);
    assert_eq!(h.return_kind, Some(HandlerReturnKind::Transition));
    assert_eq!(h.return_states.len(), 1);
    assert_eq!(h.return_states[0].name, "Pending");
    assert_eq!(h.source_states, vec![s("Idle")]);
    assert!(!h.has_payload);
    assert_eq!(h.timeout, Some(Timeout { secs: 0, nanos: 100_000_000 }));
}

#[test]
fn handler_payload_and_multiple_sources() {
    let m = method(
        "handle_process",
        vec![on("Pending", "Process"), on("Active", "Process"), state_timeout("2h 37min")],
        Some("String"),
        Some(transition("Active")),
    );
    let h = Handler::parse(&m).unwrap();
    assert_eq!(h.event, Some(Event { name: s("Process"), payload_type: Some(s("String")) }));
    assert!(h.has_payload);
    assert_eq!(h.source_states, vec![s("Pending"), s("Active")]);
    assert_eq!(h.timeout, Some(Timeout { secs: 9420, nanos: 0 }));
}

#[test]
fn handler_result_transition_return() {
    let m = method("handle_job", vec![on("Idle", "Job")], Some("Job"), Some(result(transition("Working"), transition("Failed"))));
    let h = Handler::parse(&m).unwrap();
    assert_eq!(h.return_kind, Some(HandlerReturnKind::ResultTransition));
    let names: Vec<String> = h.return_states.iter().map(|x| x.name.clone()).collect();
    assert_eq!(names, vec![s("Working"), s("Failed")]);
}

#[test]
fn handler_result_error_return() {
    let m = method("on_start", vec![on("Idle", "Start")], Some("bool"), Some(result(transition("Running"), path("HandlerError", vec![]))));
    let h = Handler::parse(&m).unwrap();
    assert_eq!(h.return_kind, Some(HandlerReturnKind::ResultError));
    assert_eq!(h.return_states.len(), 1);
    assert_eq!(h.return_states[0].name, "Running");
}

#[test]
fn handler_timeout_handler() {
    let m = method("handle_timeout", vec![on_timeout()], None, Some(transition("Failed")));
    let h = Handler::parse(&m).unwrap();
    assert!(h.is_timeout_handler);
    assert_eq!(h.event, None);
    assert_eq!(h.return_kind, Some(HandlerReturnKind::Transition));
}

#[test]
fn plain_method_is_not_a_handler() {
    let mut m = method("helper", vec![], None, Some(path("usize", vec![])));
    m.is_async = false;
    let h = Handler::parse(&m).unwrap();
    assert_eq!(h.event, None);
    assert!(!h.is_timeout_handler);
    assert_eq!(h.return_kind, None);
    assert!(h.return_states.is_empty());
}

#[test]
fn unrelated_attributes_are_ignored() {
    let doc = AttrShape { path_ident: Some(s("doc")), on_args: Err(s("x")), duration: Err(s("x")) };
    let m = method("on_tick", vec![doc, on("Idle", "Tick")], None, Some(transition("Running")));
    assert!(Handler::parse(&m).is_ok());
}

#[test]
fn handler_duplicate_source_state() {
    let m = method("on_start", vec![on("Idle", "Start"), on("Idle", "Start")], None, Some(transition("Running")));
    assert_eq!(
        Handler::parse(&m),
        Err(FsmError::DuplicateSourceState { handler: s("on_start"), state: s("Idle") })
    );
}

#[test]
fn handler_multiple_events() {
    let m = method("start_or_stop", vec![on("Idle", "Start"), on("Running", "Stop")], None, Some(transition("Idle")));
    assert_eq!(
        Handler::parse(&m),
        Err(FsmError::MultipleEvents { handler: s("start_or_stop"), first: s("Start"), second: s("Stop") })
    );
}

#[test]
fn handler_mixed_on_and_on_timeout() {
    let m = method("mixed_handler", vec![on("Idle", "Tick"), on_timeout()], None, Some(transition("Idle")));
    assert_eq!(Handler::parse(&m), Err(FsmError::MixedOnAndOnTimeout { handler: s("mixed_handler") }));
}

#[test]
fn handler_must_be_async() {
    let mut m = method("on_start", vec![on("Idle", "Start")], None, Some(transition("Running")));
    m.is_async = false;
    assert_eq!(Handler::parse(&m), Err(FsmError::HandlerNotAsync { handler: s("on_start") }));
}

#[test]
fn handler_invalid_attribute() {
    let bad = AttrShape { path_ident: Some(s("on")), on_args: Err(s("Missing field `event`")), duration: Err(s("x")) };
    let m = method("on_start", vec![bad], None, Some(transition("Running")));
    assert_eq!(
        Handler::parse(&m),
        Err(FsmError::InvalidAttribute { handler: s("on_start"), message: s("Missing field `event`") })
    );
}

#[test]
fn handler_invalid_duration() {
    let m = method("on_start", vec![on("Idle", "Start"), state_timeout("soon")], None, Some(transition("Running")));
    assert_eq!(
        Handler::parse(&m),
        Err(FsmError::InvalidDuration { handler: s("on_start"), text: s("soon"), reason: s("expected number at 0") })
    );
}

#[test]
fn handler_duration_with_too_many_digits() {
    let m = method(
        "on_start",
        vec![on("Idle", "Start"), state_timeout("18446744073709551615s 500ms 500ms")],
        None,
        Some(transition("Running")),
    );
    assert_eq!(
        Handler::parse(&m),
        Err(FsmError::InvalidDuration {
            handler: s("on_start"),
            text: s("18446744073709551615s 500ms 500ms"),
            reason: s("more than 11 digits are not supported"),
        })
    );
}

#[test]
fn handler_invalid_return_type() {
    let m = method("on_start", vec![on("Idle", "Start")], None, Some(path("usize", vec![])));
    assert_eq!(
        Handler::parse(&m),
        Err(FsmError::ReturnNotTransition { handler: s("on_start"), ty: s("usize") })
    );
}

#[test]
fn handler_missing_return_type() {
    let m = method("on_start", vec![on("Idle", "Start")], None, None);
    assert_eq!(Handler::parse(&m), Err(FsmError::MissingReturnType { handler: s("on_start") }));
}

#[test]
fn handler_transition_without_state() {
    let m = method("on_start", vec![on("Idle", "Start")], None, Some(path("Transition", vec![])));
    assert_eq!(
        Handler::parse(&m),
        Err(FsmError::ExpectedTransition { handler: s("on_start"), ty: s("Transition") })
    );
}

#[test]
fn handler_result_without_transition() {
    let m = method("on_start", vec![on("Idle", "Start")], None, Some(result(path("u8", vec![]), path("E", vec![]))));
    assert_eq!(
        Handler::parse(&m),
        Err(FsmError::ResultNotTransition { handler: s("on_start"), ty: s("u8") })
    );
    let one_arg = path("Result", vec![transition("Running")]);
    let m = method("on_start", vec![on("Idle", "Start")], None, Some(one_arg));
    assert!(matches!(Handler::parse(&m), Err(FsmError::ResultNotTransition { .. })));
}

// ---------------------------------------------------------------- structures

fn integration_fsm() -> ImplShape {
    fsm_impl(
        "IntegrationFsm",
        vec![
            method("handle_start", vec![on("Idle", "Start"), state_timeout("100ms")], None, Some(transition("Pending"))),
            method(
                "handle_process",
                vec![on("Pending", "Process"), on("Active", "Process"), state_timeout("100ms")],
                Some("String"),
                Some(transition("Active")),
            ),
            method("handle_finish", vec![on("Active", "Finish")], None, Some(transition("Done"))),
            method("handle_timeout", vec![on_timeout()], None, Some(transition("Failed"))),
        ],
    )
}

#[test]
fn parse_integration_fsm() {
    let fsm = FsmStructure::parse(FsmArgs { channel_size: 32, ..args("Idle") }, &integration_fsm()).unwrap();
    assert_eq!(fsm.fsm_name, "IntegrationFsm");
    assert_eq!(fsm.initial_state, "Idle");
    assert_eq!(fsm.channel_size, 32);
    assert_eq!(fsm.context_type, "TestContext");
    assert_eq!(fsm.error_type, "TestError");
    assert_eq!(state_names(&fsm), vec![s("Idle"), s("Pending"), s("Active"), s("Done"), s("Failed")]);
    let events: Vec<String> = fsm.events.iter().map(|e| e.name.clone()).collect();
    assert_eq!(events, vec![s("Start"), s("Process"), s("Finish")]);
    assert_eq!(fsm.events[1].payload_type, Some(s("String")));
    assert_eq!(fsm.handlers.len(), 4);
}

#[test]
fn parse_states_include_sources_and_keep_first_mention() {
    let imp = fsm_impl(
        "WorkerFsm",
        vec![
            method("handle_job", vec![on("Idle", "Job"), state_timeout("30s")], Some("Job"), Some(result(transition("Working"), transition("Failed")))),
            method("handle_done", vec![on("Working", "Done")], None, Some(transition("Idle"))),
            method("handle_timeout", vec![on_timeout()], None, Some(transition("Failed"))),
        ],
    );
    let fsm = FsmStructure::parse(args("Idle"), &imp).unwrap();
    assert_eq!(state_names(&fsm), vec![s("Idle"), s("Working"), s("Failed")]);
}

#[test]
fn parse_skips_non_handler_items() {
    let mut imp = integration_fsm();
    imp.items.push(ImplItemShape::Other);
    let mut helper = method("helper", vec![], None, None);
    helper.is_async = false;
    imp.items.push(ImplItemShape::Fn(helper));
    let fsm = FsmStructure::parse(args("Idle"), &imp).unwrap();
    assert_eq!(fsm.handlers.len(), 5);
    assert_eq!(fsm.handlers[4].return_kind, None);
}

#[test]
fn parse_fsm_type_not_path() {
    let mut imp = integration_fsm();
    imp.self_ty = TypeShape::Other { text: s("& Foo") };
    assert_eq!(FsmStructure::parse(args("Idle"), &imp), Err(FsmError::FsmTypeNotPath));
    imp.self_ty = TypeShape::Path { segments: vec![], text: s("") };
    assert_eq!(FsmStructure::parse(args("Idle"), &imp), Err(FsmError::FsmTypeNameMissing));
}

#[test]
fn parse_missing_associated_types() {
    let mut imp = integration_fsm();
    imp.items.remove(0);
    assert_eq!(FsmStructure::parse(args("Idle"), &imp), Err(FsmError::MissingContextType));
    let mut imp = integration_fsm();
    imp.items.remove(1);
    assert_eq!(FsmStructure::parse(args("Idle"), &imp), Err(FsmError::MissingErrorType));
}

#[test]
fn parse_last_associated_type_wins() {
    let mut imp = integration_fsm();
    imp.items.push(ImplItemShape::Type { name: s("Context"), ty: path("Other", vec![]) });
    let fsm = FsmStructure::parse(args("Idle"), &imp).unwrap();
    assert_eq!(fsm.context_type, "Other");
}

#[test]
fn parse_payload_mismatch() {
    let imp = fsm_impl(
        "PayloadMismatch",
        vec![
            method("start1", vec![on("Idle", "Start")], Some("String"), Some(transition("Idle"))),
            method("start2", vec![on("Idle", "Start")], Some("u32"), Some(transition("Idle"))),
        ],
    );
    assert_eq!(
        FsmStructure::parse(args("Idle"), &imp),
        Err(FsmError::InconsistentPayload { event: s("Start"), expected: Some(s("String")), found: Some(s("u32")) })
    );
}

#[test]
fn parse_payload_missing_on_second_handler() {
    let imp = fsm_impl(
        "PayloadMismatch",
        vec![
            method("start1", vec![on("Idle", "Start")], Some("String"), Some(transition("Idle"))),
            method("start2", vec![on("Idle", "Start")], None, Some(transition("Idle"))),
        ],
    );
    assert_eq!(
        FsmStructure::parse(args("Idle"), &imp),
        Err(FsmError::InconsistentPayload { event: s("Start"), expected: Some(s("String")), found: None })
    );
}

#[test]
fn parse_shared_event_with_same_payload() {
    let imp = fsm_impl(
        "Shared",
        vec![
            method("a", vec![on("Idle", "Go")], Some("u8"), Some(transition("Busy"))),
            method("b", vec![on("Busy", "Go")], Some("u8"), Some(transition("Idle"))),
        ],
    );
    let fsm = FsmStructure::parse(args("Idle"), &imp).unwrap();
    assert_eq!(fsm.events.len(), 1);
}

#[test]
fn parse_duplicate_source_state() {
    let imp = fsm_impl(
        "DuplicateSourceStateFsm",
        vec![method("on_start", vec![on("Idle", "Start"), on("Idle", "Start")], None, Some(transition("Running")))],
    );
    assert_eq!(
        FsmStructure::parse(args("Idle"), &imp),
        Err(FsmError::DuplicateSourceState { handler: s("on_start"), state: s("Idle") })
    );
}

#[test]
fn parse_invalid_return_type() {
    let imp = fsm_impl(
        "InvalidReturnTypeFsm",
        vec![method("on_start", vec![on("Idle", "Start")], None, Some(path("usize", vec![])))],
    );
    assert!(matches!(FsmStructure::parse(args("Idle"), &imp), Err(FsmError::ReturnNotTransition { .. })));
}

#[test]
fn parse_mixed_events() {
    let imp = fsm_impl(
        "MixedEvents",
        vec![
            method("dummy", vec![on("Idle", "Dummy")], None, Some(transition("Running"))),
            method("start_or_stop", vec![on("Idle", "Start"), on("Running", "Stop")], None, Some(transition("Idle"))),
        ],
    );
    assert_eq!(
        FsmStructure::parse(args("Idle"), &imp),
        Err(FsmError::MultipleEvents { handler: s("start_or_stop"), first: s("Start"), second: s("Stop") })
    );
}

#[test]
fn parse_mixed_on_and_on_timeout() {
    let imp = fsm_impl(
        "MixedAttrFsm",
        vec![method("mixed_handler", vec![on("Idle", "Tick"), on_timeout()], None, Some(transition("Idle")))],
    );
    assert_eq!(
        FsmStructure::parse(args("Idle"), &imp),
        Err(FsmError::MixedOnAndOnTimeout { handler: s("mixed_handler") })
    );
}

#[test]
fn parse_multiple_on_timeout() {
    let imp = fsm_impl(
        "MultipleTimeout",
        vec![
            method("start", vec![on("Idle", "Start")], None, Some(transition("Idle"))),
            method("timeout1", vec![on_timeout()], None, Some(transition("Idle"))),
            method("timeout2", vec![on_timeout()], None, Some(transition("Idle"))),
        ],
    );
    assert_eq!(
        FsmStructure::parse(args("Idle"), &imp),
        Err(FsmError::MultipleTimeoutHandlers { handler: s("timeout2") })
    );
}

#[test]
fn parse_timeout_without_handler() {
    let imp = fsm_impl(
        "TimeoutNoHandler",
        vec![method("start", vec![on("Idle", "Start"), state_timeout("1s")], None, Some(transition("Idle")))],
    );
    assert_eq!(
        FsmStructure::parse(args("Idle"), &imp),
        Err(FsmError::StateTimeoutWithoutHandler { handler: s("start") })
    );
}

#[test]
fn parse_unreachable_timeout_target() {
    let imp = fsm_impl(
        "UnreachableTimeout",
        vec![
            method("start", vec![on("Idle", "Start")], None, Some(transition("Running"))),
            method("handle_timeout", vec![on_timeout()], None, Some(transition("Failed"))),
        ],
    );
    assert_eq!(
        FsmStructure::parse(args("Idle"), &imp),
        Err(FsmError::UnreachableState { state: s("Failed"), initial: s("Idle") })
    );
}

#[test]
fn parse_disconnected_island() {
    let imp = fsm_impl(
        "MyFsm",
        vec![
            method("to_b", vec![on("StateA", "Next")], None, Some(transition("StateB"))),
            method("to_a", vec![on("StateB", "Next")], None, Some(transition("StateA"))),
            method("to_c", vec![on("StateC", "Next")], None, Some(transition("StateC"))),
        ],
    );
    assert_eq!(
        FsmStructure::parse(args("StateA"), &imp),
        Err(FsmError::UnreachableState { state: s("StateC"), initial: s("StateA") })
    );
}

#[test]
fn parse_conflicting_timeouts() {
    let imp = fsm_impl(
        "Conflict",
        vec![
            method("a", vec![on("Idle", "Go"), state_timeout("1s")], None, Some(transition("Busy"))),
            method("b", vec![on("Busy", "Again"), state_timeout("2s")], None, Some(transition("Busy"))),
            method("t", vec![on_timeout()], None, Some(transition("Idle"))),
        ],
    );
    assert_eq!(
        FsmStructure::parse(args("Idle"), &imp),
        Err(FsmError::ConflictingTimeouts { state: s("Busy"), first_handler: s("a"), second_handler: s("b") })
    );
}

#[test]
fn parse_equal_timeouts_in_other_spelling_agree() {
    let imp = fsm_impl(
        "Agree",
        vec![
            method("a", vec![on("Idle", "Go"), state_timeout("1s")], None, Some(transition("Busy"))),
            method("b", vec![on("Busy", "Again"), state_timeout("1000ms")], None, Some(transition("Busy"))),
            method("t", vec![on_timeout()], None, Some(transition("Idle"))),
        ],
    );
    assert!(FsmStructure::parse(args("Idle"), &imp).is_ok());
}

#[test]
fn handler_duration_forms() {
    for (text, secs, nanos) in [("32ms", 0u64, 32_000_000u32), ("4.2s", 4, 200_000_000), ("0", 0, 0), ("1min 5s", 65, 0)] {
        let m = method("on_start", vec![on("Idle", "Start"), state_timeout(text)], None, Some(transition("Running")));
        let h = Handler::parse(&m).unwrap();
        assert_eq!(h.timeout, Some(Timeout { secs, nanos }), "duration {text}");
    }
}

#[test]
fn handler_last_state_timeout_wins() {
    let m = method(
        "on_start",
        vec![on("Idle", "Start"), state_timeout("1s"), state_timeout("2s")],
        None,
        Some(transition("Running")),
    );
    assert_eq!(Handler::parse(&m).unwrap().timeout, Some(Timeout { secs: 2, nanos: 0 }));
}

// ---------------------------------------------------------------- timeouts

#[test]
fn timeout_texts_read_by_humantime() {
    assert_eq!(parse_timeout("100ms"), Ok(Timeout { secs: 0, nanos: 100_000_000 }));
    assert_eq!(parse_timeout("2h 37min"), Ok(Timeout { secs: 9420, nanos: 0 }));
    assert_eq!(parse_timeout("4.2s"), Ok(Timeout { secs: 4, nanos: 200_000_000 }));
    assert_eq!(parse_timeout("1.5h"), Ok(Timeout { secs: 5400, nanos: 0 }));
    assert_eq!(parse_timeout("0"), Ok(Timeout { secs: 0, nanos: 0 }));
}

#[test]
fn timeout_texts_refused_by_humantime() {
    assert_eq!(parse_timeout("soon"), Err(s("expected number at 0")));
    assert_eq!(parse_timeout(""), Err(s("value was empty")));
    assert_eq!(parse_timeout("5"), Err(s("time unit needed, for example 5sec or 5ms")));
    assert_eq!(parse_timeout("5 s!"), Err(s("invalid character at 3")));
    assert_eq!(
        parse_timeout("10 parsecs"),
        Err(s(
            "unknown time unit \"parsecs\", supported units: ns, us/µs, ms, sec, min, hours, days, weeks, months, years (and few variations)"
        ))
    );
}

#[test]
fn timeout_digit_limit() {
    // eleven digits are read; the largest unit keeps the total far from overflow
    assert_eq!(parse_timeout("99999999999y"), Ok(Timeout { secs: 3_155_759_999_968_442_400, nanos: 0 }));
    // twelve digits are refused before the duration parser sees them, even with leading zeros
    assert_eq!(parse_timeout("000000000001s"), Err(s("more than 11 digits are not supported")));
    assert_eq!(parse_timeout("18446744073709551615s 1000000000ns"), Err(s("more than 11 digits are not supported")));
    assert_eq!(parse_timeout("12345678901s"), Ok(Timeout { secs: 12_345_678_901, nanos: 0 }));
}

#[test]
fn attrs_read_in_order() {
    let m = method(
        "on_work",
        vec![on("Idle", "Work"), on("Busy", "Work"), state_timeout("1s"), state_timeout("2s")],
        Some("Job"),
        Some(transition("Busy")),
    );
    let a = HandlerAttrs::read(&m).unwrap();
    assert_eq!(a.event, Some(Event { name: s("Work"), payload_type: Some(s("Job")) }));
    assert!(!a.is_timeout_handler);
    assert_eq!(a.state_timeout, Some(s("2s")));
    assert_eq!(a.source_states, vec![s("Idle"), s("Busy")]);
}

#[test]
fn attrs_refuse_mixed_and_sync_handlers() {
    let m = method("mixed", vec![on("Idle", "Tick"), on_timeout()], None, Some(transition("Idle")));
    assert_eq!(HandlerAttrs::read(&m), Err(FsmError::MixedOnAndOnTimeout { handler: s("mixed") }));
    let mut m = method("t", vec![on_timeout()], None, Some(transition("Idle")));
    m.is_async = false;
    assert_eq!(HandlerAttrs::read(&m), Err(FsmError::HandlerNotAsync { handler: s("t") }));
    // a plain method needs not be async
    let mut m = method("helper", vec![], None, None);
    m.is_async = false;
    assert!(HandlerAttrs::read(&m).is_ok());
}

#[test]
fn finish_takes_the_given_timeout() {
    let m = method("on_start", vec![on("Idle", "Start")], Some("Job"), Some(transition("Running")));
    let attrs = HandlerAttrs {
        event: Some(Event { name: s("Start"), payload_type: Some(s("Job")) }),
        is_timeout_handler: false,
        state_timeout: Some(s("7s")),
        source_states: vec![s("Idle")],
    };
    let h = Handler::finish(&m, attrs, Some(Timeout { secs: 7, nanos: 0 })).unwrap();
    assert_eq!(h.method_name, "on_start");
    assert_eq!(h.timeout, Some(Timeout { secs: 7, nanos: 0 }));
    assert!(h.has_payload);
    assert_eq!(h.return_kind, Some(HandlerReturnKind::Transition));
    assert_eq!(h.return_states.len(), 1);
    assert_eq!(h.return_states[0].name, "Running");
    assert_eq!(h.source_states, vec![s("Idle")]);
}

#[test]
fn finish_reads_no_return_type_for_plain_methods() {
    let m = method("helper", vec![], None, None);
    let attrs = HandlerAttrs { event: None, is_timeout_handler: false, state_timeout: None, source_states: vec![] };
    let h = Handler::finish(&m, attrs, None).unwrap();
    assert_eq!(h.return_kind, None);
    assert!(h.return_states.is_empty());
    let t = method("t", vec![on_timeout()], None, None);
    let attrs = HandlerAttrs { event: None, is_timeout_handler: true, state_timeout: None, source_states: vec![] };
    assert_eq!(Handler::finish(&t, attrs, None), Err(FsmError::MissingReturnType { handler: s("t") }));
}
