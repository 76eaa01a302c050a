//! Reading handler methods and the annotated `impl` block into an
//! [`FsmStructure`].

use vstd::prelude::*;
use vstd::string::{StrSliceExecFns, StringExecFns};
use crate::model::{
    AttrShape, Event, FnArgShape, FsmArgs, FsmError, FsmStructure, GenericArgShape, Handler, HandlerAttrs,
    HandlerReturnKind, ImplItemShape, ImplShape, MethodShape, PathArgsShape, PathSegmentShape,
    State, Timeout, TypeShape,
};
use crate::names::{dedup_names, dedup_names_onto, has_name, lemma_dedup_onto_concat, lemma_dedup_onto_empty, push_name_once};
use crate::outside::{digit_count, humantime_parse, parse_duration, MAX_DURATION_DIGITS};
use crate::graph::validate_result;

verus! {

/// The names of a sequence of states.
pub open spec fn names_of_states(states: Seq<State>) -> Seq<String> {
    states.map_values(|s: State| s.name)
}

/// Whether `s` has the text of `kw`.
pub fn is_keyword(s: &String, kw: &str) -> (b: bool)
    ensures
        b == (s@ == kw@),
{
    *s == <String as StringExecFns>::from_str(kw)
}

/// Whether an optional identifier is present and has the text of `kw`.
fn ident_is(p: &Option<String>, kw: &str) -> (b: bool)
    ensures
        b == (p matches Some(s) && s@ == kw@),
{
    match p {
        Some(s) => is_keyword(s, kw),
        None => false,
    }
}

fn clone_opt_string(o: &Option<String>) -> (r: Option<String>)
    ensures
        r == *o,
{
    match o {
        Some(s) => Some(s.clone()),
        None => None,
    }
}

// ----------------------------------------------------------------------
// Types

/// The token text of a type.
pub open spec fn type_text(ty: TypeShape) -> String {
    match ty {
        TypeShape::Path { text, .. } => text,
        TypeShape::Other { text } => text,
    }
}

/// The last segment of a path type.
pub open spec fn last_segment(ty: TypeShape) -> Option<PathSegmentShape> {
    match ty {
        TypeShape::Path { segments, .. } => if segments.len() > 0 {
            Some(segments@.last())
        } else {
            None
        },
        TypeShape::Other { .. } => None,
    }
}

/// The type arguments among generic arguments, in order.
pub open spec fn type_args(args: Seq<GenericArgShape>) -> Seq<TypeShape>
    decreases args.len(),
{
    if args.len() == 0 {
        Seq::empty()
    } else {
        type_args(args.drop_last()) + match args.last() {
            GenericArgShape::Type(t) => seq![t],
            GenericArgShape::Other => Seq::empty(),
        }
    }
}

/// The state named by `Transition<S>` (a path type `S`, by its last
/// segment), when `ty` has that form.
pub open spec fn transition_target(ty: TypeShape) -> Option<String> {
    match last_segment(ty) {
        None => None,
        Some(seg) => if seg.ident@ != "Transition"@ {
            None
        } else {
            match seg.arguments {
                PathArgsShape::AngleBracketed(args) => {
                    let ta = type_args(args@);
                    if ta.len() == 1 {
                        match last_segment(ta[0]) {
                            Some(inner) => Some(inner.ident),
                            None => None,
                        }
                    } else {
                        None
                    }
                },
                _ => None,
            }
        },
    }
}

/// What a `Result<..>` return type gives: `Result<Transition<A>,
/// Transition<B>>` transitions on both sides, `Result<Transition<A>, E>`
/// stops on `Err`.
pub open spec fn result_return(handler: String, ty: TypeShape, seg: PathSegmentShape) -> Result<
    (HandlerReturnKind, Seq<State>),
    FsmError,
> {
    match seg.arguments {
        PathArgsShape::AngleBracketed(args) => {
            let ta = type_args(args@);
            if ta.len() != 2 {
                Err(FsmError::ResultNotTransition { handler, ty: type_text(ty) })
            } else {
                match transition_target(ta[0]) {
                    None => Err(FsmError::ResultNotTransition { handler, ty: type_text(ta[0]) }),
                    Some(ok) => match transition_target(ta[1]) {
                        Some(err) => Ok(
                            (
                                HandlerReturnKind::ResultTransition,
                                seq![State { name: ok }, State { name: err }],
                            ),
                        ),
                        None => Ok((HandlerReturnKind::ResultError, seq![State { name: ok }])),
                    },
                }
            }
        },
        _ => Err(FsmError::ResultNotTransition { handler, ty: type_text(ty) }),
    }
}

/// The return kind and target states of a handler with return type `output`.
pub open spec fn return_shape(handler: String, output: Option<TypeShape>) -> Result<
    (HandlerReturnKind, Seq<State>),
    FsmError,
> {
    match output {
        None => Err(FsmError::MissingReturnType { handler }),
        Some(ty) => match last_segment(ty) {
            None => Err(FsmError::ReturnNotTransition { handler, ty: type_text(ty) }),
            Some(seg) => if seg.ident@ == "Transition"@ {
                match transition_target(ty) {
                    Some(s) => Ok((HandlerReturnKind::Transition, seq![State { name: s }])),
                    None => Err(FsmError::ExpectedTransition { handler, ty: type_text(ty) }),
                }
            } else if seg.ident@ == "Result"@ {
                result_return(handler, ty, seg)
            } else {
                Err(FsmError::ReturnNotTransition { handler, ty: type_text(ty) })
            },
        },
    }
}

fn clone_type_text(ty: &TypeShape) -> (r: String)
    ensures
        r == type_text(*ty),
{
    match ty {
        TypeShape::Path { text, .. } => text.clone(),
        TypeShape::Other { text } => text.clone(),
    }
}

fn last_segment_of(ty: &TypeShape) -> (r: Option<&PathSegmentShape>)
    ensures
        match r {
            Some(seg) => last_segment(*ty) == Some(*seg),
            None => last_segment(*ty) is None,
        },
{
    match ty {
        TypeShape::Path { segments, .. } => {
            if segments.len() > 0 {
                Some(&segments[segments.len() - 1])
            } else {
                None
            }
        },
        TypeShape::Other { .. } => None,
    }
}

fn collect_type_args(args: &Vec<GenericArgShape>) -> (r: Vec<&TypeShape>)
    ensures
        r@.len() == type_args(args@).len(),
        forall|i: int| 0 <= i < r@.len() ==> *r@[i] == #[trigger] type_args(args@)[i],
{
    let mut r: Vec<&TypeShape> = Vec::new();
    let mut i: usize = 0;
    while i < args.len()
        invariant
            i <= args.len(),
            r@.len() == type_args(args@.take(i as int)).len(),
            forall|k: int| 0 <= k < r@.len() ==> *r@[k] == #[trigger] type_args(args@.take(i as int))[k],
        decreases args.len() - i,
    {
        proof {
            assert(args@.take(i + 1).drop_last() == args@.take(i as int));
            assert(args@.take(i + 1).last() == args@[i as int]);
        }
        match &args[i] {
            GenericArgShape::Type(t) => r.push(t),
            GenericArgShape::Other => {},
        }
        i += 1;
    }
    proof {
        assert(args@.take(i as int) == args@);
    }
    r
}

/// Reads `Transition<S>` into the state `S`.
pub fn extract_transition_state(ty: &TypeShape, handler: &String) -> (r: Result<State, FsmError>)
    ensures
        match transition_target(*ty) {
            Some(s) => r == Ok::<State, FsmError>(State { name: s }),
            None => r == Err::<State, FsmError>(FsmError::ExpectedTransition { handler: *handler, ty: type_text(*ty) }),
        },
{
    let fail = FsmError::ExpectedTransition { handler: handler.clone(), ty: clone_type_text(ty) };
    let seg = match last_segment_of(ty) {
        Some(seg) => seg,
        None => return Err(fail),
    };
    if !is_keyword(&seg.ident, "Transition") {
        return Err(fail);
    }
    let args = match &seg.arguments {
        PathArgsShape::AngleBracketed(args) => args,
        _ => return Err(fail),
    };
    let type_args = collect_type_args(args);
    if type_args.len() != 1 {
        return Err(fail);
    }
    match last_segment_of(type_args[0]) {
        Some(inner) => Ok(State { name: inner.ident.clone() }),
        None => Err(fail),
    }
}

/// Reads a `Result<..>` return type.
fn parse_result_return(seg: &PathSegmentShape, ty: &TypeShape, handler: &String) -> (r: Result<
    (HandlerReturnKind, Vec<State>),
    FsmError,
>)
    ensures
        match result_return(*handler, *ty, *seg) {
            Ok(x) => r matches Ok(y) && y.0 == x.0 && y.1@ == x.1,
            Err(e) => r == Err::<(HandlerReturnKind, Vec<State>), FsmError>(e),
        },
{
    let args = match &seg.arguments {
        PathArgsShape::AngleBracketed(args) => args,
        _ => return Err(FsmError::ResultNotTransition { handler: handler.clone(), ty: clone_type_text(ty) }),
    };
    let type_args = collect_type_args(args);
    if type_args.len() != 2 {
        return Err(FsmError::ResultNotTransition { handler: handler.clone(), ty: clone_type_text(ty) });
    }
    let ok_state = match extract_transition_state(type_args[0], handler) {
        Ok(s) => s,
        Err(_) => return Err(FsmError::ResultNotTransition { handler: handler.clone(), ty: clone_type_text(type_args[0]) }),
    };
    match extract_transition_state(type_args[1], handler) {
        Ok(err_state) => {
            let mut v = Vec::new();
            v.push(ok_state);
            v.push(err_state);
            Ok((HandlerReturnKind::ResultTransition, v))
        },
        Err(_) => {
            let mut v = Vec::new();
            v.push(ok_state);
            Ok((HandlerReturnKind::ResultError, v))
        },
    }
}

/// Reads a handler's return type into its kind and target states.
pub fn parse_handler_return(output: &Option<TypeShape>, handler: &String) -> (r: Result<
    (HandlerReturnKind, Vec<State>),
    FsmError,
>)
    ensures
        match return_shape(*handler, *output) {
            Ok(x) => r matches Ok(y) && y.0 == x.0 && y.1@ == x.1,
            Err(e) => r == Err::<(HandlerReturnKind, Vec<State>), FsmError>(e),
        },
{
    let ty = match output {
        Some(ty) => ty,
        None => return Err(FsmError::MissingReturnType { handler: handler.clone() }),
    };
    parse_return_kind(ty, handler)
}

/// Reads a declared return type into its kind and target states.
pub fn parse_return_kind(ty: &TypeShape, handler: &String) -> (r: Result<(HandlerReturnKind, Vec<State>), FsmError>)
    ensures
        match return_shape(*handler, Some(*ty)) {
            Ok(x) => r matches Ok(y) && y.0 == x.0 && y.1@ == x.1,
            Err(e) => r == Err::<(HandlerReturnKind, Vec<State>), FsmError>(e),
        },
{
    let seg = match last_segment_of(ty) {
        Some(seg) => seg,
        None => return Err(FsmError::ReturnNotTransition { handler: handler.clone(), ty: clone_type_text(ty) }),
    };
    if is_keyword(&seg.ident, "Transition") {
        let state = extract_transition_state(ty, handler)?;
        let mut v = Vec::new();
        v.push(state);
        Ok((HandlerReturnKind::Transition, v))
    } else if is_keyword(&seg.ident, "Result") {
        parse_result_return(seg, ty, handler)
    } else {
        Err(FsmError::ReturnNotTransition { handler: handler.clone(), ty: clone_type_text(ty) })
    }
}

// ----------------------------------------------------------------------
// Handlers

/// The token text of a handler's payload type: the type of its second
/// parameter, when that parameter is typed.
pub open spec fn payload_of(m: MethodShape) -> Option<String> {
    if m.inputs.len() > 1 {
        match m.inputs@[1] {
            FnArgShape::Typed(t) => Some(type_text(t)),
            FnArgShape::Receiver => None,
        }
    } else {
        None
    }
}

/// The attribute's path is the single identifier `name`.
pub open spec fn attr_named(a: AttrShape, name: Seq<char>) -> bool {
    a.path_ident matches Some(p) && p@ == name
}

/// What reading a handler's attributes gathers: its event, whether it is the
/// timeout handler, its `#[state_timeout]` duration text, its source states.
pub type AttrScan = (Option<Event>, bool, Option<String>, Seq<String>);

/// Reading one more attribute of method `m`.
pub open spec fn scan_step(m: MethodShape, acc: AttrScan, a: AttrShape) -> Result<AttrScan, FsmError> {
    if attr_named(a, "on"@) {
        match a.on_args {
            Err(message) => Err(FsmError::InvalidAttribute { handler: m.name, message }),
            Ok(on) => if has_name(acc.3, on.state@) {
                Err(FsmError::DuplicateSourceState { handler: m.name, state: on.state })
            } else {
                match acc.0 {
                    Some(e) => if e.name@ != on.event@ {
                        Err(FsmError::MultipleEvents { handler: m.name, first: e.name, second: on.event })
                    } else {
                        Ok((acc.0, acc.1, acc.2, acc.3.push(on.state)))
                    },
                    None => Ok(
                        (
                            Some(Event { name: on.event, payload_type: payload_of(m) }),
                            acc.1,
                            acc.2,
                            acc.3.push(on.state),
                        ),
                    ),
                }
            },
        }
    } else if attr_named(a, "on_timeout"@) {
        Ok((acc.0, true, acc.2, acc.3))
    } else if attr_named(a, "state_timeout"@) {
        match a.duration {
            Err(message) => Err(FsmError::InvalidAttribute { handler: m.name, message }),
            Ok(d) => Ok((acc.0, acc.1, Some(d), acc.3)),
        }
    } else {
        Ok(acc)
    }
}

/// Reading the first `n` attributes of method `m`, in order; the first
/// refused attribute decides the error.
pub open spec fn scan_attrs(m: MethodShape, n: int) -> Result<AttrScan, FsmError>
    decreases n,
{
    if n <= 0 {
        Ok((None, false, None, Seq::empty()))
    } else {
        match scan_attrs(m, n - 1) {
            Err(e) => Err(e),
            Ok(acc) => scan_step(m, acc, m.attrs@[n - 1]),
        }
    }
}

/// A refused attribute decides the outcome of reading all later ones.
pub proof fn lemma_scan_error_sticks(m: MethodShape, k: int, n: int)
    requires
        0 <= k <= n,
        scan_attrs(m, k) is Err,
    ensures
        scan_attrs(m, n) == scan_attrs(m, k),
    decreases n - k,
{
    if n > k {
        lemma_scan_error_sticks(m, k, n - 1);
    }
}

/// What a parsed handler holds: event, whether it is the timeout handler,
/// target states, return kind, source states, timeout.
pub type HandlerParts = (Option<Event>, bool, Seq<State>, Option<HandlerReturnKind>, Seq<String>, Option<Timeout>);

/// The model of the attributes read from a method.
pub open spec fn attrs_view(a: HandlerAttrs) -> AttrScan {
    (a.event, a.is_timeout_handler, a.state_timeout, a.source_states@)
}

/// Reading the attributes of method `m`: the first refused attribute decides;
/// then a handler may not mix `#[on]` with `#[on_timeout]`, and must be
/// `async`.
pub open spec fn attrs_outcome(m: MethodShape) -> Result<AttrScan, FsmError> {
    match scan_attrs(m, m.attrs.len() as int) {
        Err(e) => Err(e),
        Ok(acc) => if acc.0 is Some && acc.1 {
            Err(FsmError::MixedOnAndOnTimeout { handler: m.name })
        } else if (acc.0 is Some || acc.1) && !m.is_async {
            Err(FsmError::HandlerNotAsync { handler: m.name })
        } else {
            Ok(acc)
        },
    }
}

/// The reason given when a duration text holds too many digits.
pub open spec fn too_many_digits_reason() -> Seq<char> {
    "more than 11 digits are not supported"@
}

/// How the duration text `text` reads: refused when it holds more than
/// `MAX_DURATION_DIGITS` digits, else as `humantime::parse_duration` reads it.
pub open spec fn timeout_outcome(text: Seq<char>) -> Result<Timeout, Seq<char>> {
    if digit_count(text) > MAX_DURATION_DIGITS {
        Err(too_many_digits_reason())
    } else {
        match humantime_parse(text) {
            Ok(d) => Ok(Timeout { secs: d.0, nanos: d.1 }),
            Err(reason) => Err(reason),
        }
    }
}

/// The parts of the handler that method `m` makes from its attributes `a` and
/// the timeout `timeout`: the return type is read for event and timeout
/// handlers only.
pub open spec fn finish_outcome(m: MethodShape, a: AttrScan, timeout: Option<Timeout>) -> Result<HandlerParts, FsmError> {
    if a.0 is Some || a.1 {
        match return_shape(m.name, m.output) {
            Err(e) => Err(e),
            Ok(x) => Ok((a.0, a.1, x.1, Some(x.0), a.3, timeout)),
        }
    } else {
        Ok((a.0, a.1, Seq::empty(), None, a.3, timeout))
    }
}

/// A `String` holding the text `s`.
pub open spec fn string_of(s: Seq<char>) -> String {
    choose|t: String| t@ == s
}

/// The outcome of reading method `m` as a handler: its attributes, then the
/// `#[state_timeout]` text, then the return type.
pub open spec fn handler_outcome(m: MethodShape) -> Result<HandlerParts, FsmError> {
    match attrs_outcome(m) {
        Err(e) => Err(e),
        Ok(a) => match a.2 {
            None => finish_outcome(m, a, None),
            Some(d) => match timeout_outcome(d@) {
                Ok(t) => finish_outcome(m, a, Some(t)),
                Err(reason) => Err(FsmError::InvalidDuration { handler: m.name, text: d, reason: string_of(reason) }),
            },
        },
    }
}

/// `actual` is the error `expected`; the reason of an `InvalidDuration` is
/// compared by its text.
pub open spec fn same_error(actual: FsmError, expected: FsmError) -> bool {
    match expected {
        FsmError::InvalidDuration { handler, text, reason } => actual matches FsmError::InvalidDuration {
            handler: h2,
            text: t2,
            reason: r2,
        } && h2 == handler && t2 == text && r2@ == reason@,
        _ => actual == expected,
    }
}

/// Handler `h` holds the parts `x` read from method `m`.
pub open spec fn handler_matches(h: Handler, m: MethodShape, x: HandlerParts) -> bool {
    &&& h.method_name == m.name
    &&& h.event == x.0
    &&& h.is_timeout_handler == x.1
    &&& h.return_states@ == x.2
    &&& h.return_kind == x.3
    &&& h.source_states@ == x.4
    &&& h.timeout == x.5
    &&& h.has_payload == (x.0 matches Some(e) && e.payload_type is Some)
}

/// The outcome `r` of parsing method `m` is the one `handler_outcome`
/// describes.
pub open spec fn handler_parse_agrees(r: Result<Handler, FsmError>, m: MethodShape) -> bool {
    match handler_outcome(m) {
        Ok(x) => r matches Ok(h) && handler_matches(h, m, x),
        Err(e) => r matches Err(e2) && same_error(e2, e),
    }
}

fn payload_type_of(method: &MethodShape) -> (r: Option<String>)
    ensures
        r == payload_of(*method),
{
    if method.inputs.len() > 1 {
        match &method.inputs[1] {
            FnArgShape::Typed(t) => Some(clone_type_text(t)),
            FnArgShape::Receiver => None,
        }
    } else {
        None
    }
}

fn clone_event(e: &Event) -> (r: Event)
    ensures
        r == *e,
{
    Event { name: e.name.clone(), payload_type: clone_opt_string(&e.payload_type) }
}

/// The number of ASCII digits in `text`.
fn count_digits(text: &str) -> (n: usize)
    ensures
        n == digit_count(text@),
{
    let len = text.unicode_len();
    let mut n: usize = 0;
    let mut i: usize = 0;
    while i < len
        invariant
            len == text@.len(),
            i <= len,
            n <= i,
            n == digit_count(text@.take(i as int)),
        decreases len - i,
    {
        let c = text.get_char(i);
        proof {
            assert(text@.take(i + 1).drop_last() == text@.take(i as int));
        }
        if '0' <= c && c <= '9' {
            n += 1;
        }
        i += 1;
    }
    proof {
        assert(text@.take(len as int) == text@);
    }
    n
}

/// Reads a `#[state_timeout]` duration text: a text with more than
/// `MAX_DURATION_DIGITS` digits is refused, any other is read by
/// `humantime::parse_duration`.
pub fn parse_timeout(text: &str) -> (r: Result<Timeout, String>)
    ensures
        match timeout_outcome(text@) {
            Ok(t) => r == Ok::<Timeout, String>(t),
            Err(reason) => r matches Err(s) && s@ == reason,
        },
{
    if count_digits(text) > MAX_DURATION_DIGITS {
        return Err(<String as StringExecFns>::from_str("more than 11 digits are not supported"));
    }
    match parse_duration(text) {
        Ok(d) => Ok(Timeout { secs: d.0, nanos: d.1 }),
        Err(reason) => Err(reason),
    }
}

impl HandlerAttrs {
    /// Reads the attributes of a method in order. The first refused attribute
    /// decides; then a method may not carry both `#[on(...)]` and
    /// `#[on_timeout]`, and a handler must be `async`.
    pub fn read(method: &MethodShape) -> (r: Result<Self, FsmError>)
        ensures
            match attrs_outcome(*method) {
                Ok(a) => r matches Ok(x) && attrs_view(x) == a,
                Err(e) => r == Err::<HandlerAttrs, FsmError>(e),
            },
    {
        let ghost m = *method;
        let mut event: Option<Event> = None;
        let mut is_timeout_handler = false;
        let mut duration: Option<String> = None;
        let mut source_states: Vec<String> = Vec::new();
        let mut i: usize = 0;
        while i < method.attrs.len()
            invariant
                m == *method,
                i <= method.attrs.len(),
                scan_attrs(m, i as int) == Ok::<AttrScan, FsmError>((event, is_timeout_handler, duration, source_states@)),
            decreases method.attrs.len() - i,
        {
            let attr = &method.attrs[i];
            if ident_is(&attr.path_ident, "on") {
                let on = match &attr.on_args {
                    Ok(on) => on,
                    Err(message) => {
                        proof {
                            lemma_scan_error_sticks(m, i + 1, m.attrs.len() as int);
                        }
                        return Err(FsmError::InvalidAttribute { handler: method.name.clone(), message: message.clone() });
                    },
                };
                let payload_type = payload_type_of(method);
                if crate::names::contains_name(&source_states, &on.state) {
                    proof {
                        lemma_scan_error_sticks(m, i + 1, m.attrs.len() as int);
                    }
                    return Err(FsmError::DuplicateSourceState { handler: method.name.clone(), state: on.state.clone() });
                }
                source_states.push(on.state.clone());
                match &event {
                    Some(existing) => {
                        if existing.name != on.event {
                            proof {
                                lemma_scan_error_sticks(m, i + 1, m.attrs.len() as int);
                            }
                            return Err(
                                FsmError::MultipleEvents {
                                    handler: method.name.clone(),
                                    first: existing.name.clone(),
                                    second: on.event.clone(),
                                },
                            );
                        }
                    },
                    None => {
                        event = Some(Event { name: on.event.clone(), payload_type });
                    },
                }
            } else if ident_is(&attr.path_ident, "on_timeout") {
                is_timeout_handler = true;
            } else if ident_is(&attr.path_ident, "state_timeout") {
                match &attr.duration {
                    Ok(d) => {
                        duration = Some(d.clone());
                    },
                    Err(message) => {
                        proof {
                            lemma_scan_error_sticks(m, i + 1, m.attrs.len() as int);
                        }
                        return Err(FsmError::InvalidAttribute { handler: method.name.clone(), message: message.clone() });
                    },
                }
            }
            i += 1;
        }
        if event.is_some() && is_timeout_handler {
            return Err(FsmError::MixedOnAndOnTimeout { handler: method.name.clone() });
        }
        if (event.is_some() || is_timeout_handler) && !method.is_async {
            return Err(FsmError::HandlerNotAsync { handler: method.name.clone() });
        }
        Ok(HandlerAttrs { event, is_timeout_handler, state_timeout: duration, source_states })
    }
}

impl Handler {
    /// Reads a method into a handler, with all its derived fields.
    pub fn parse(method: &MethodShape) -> (r: Result<Self, FsmError>)
        ensures
            handler_parse_agrees(r, *method),
    {
        let attrs = match HandlerAttrs::read(method) {
            Ok(a) => a,
            Err(e) => return Err(e),
        };
        let timeout = match &attrs.state_timeout {
            Some(d) => match parse_timeout(d.as_str()) {
                Ok(t) => Some(t),
                Err(reason) => {
                    proof {
                        let expected = timeout_outcome(d@)->Err_0;
                        assert(reason@ == expected);
                        assert(string_of(expected)@ == expected);
                    }
                    return Err(FsmError::InvalidDuration { handler: method.name.clone(), text: d.clone(), reason });
                },
            },
            None => None,
        };
        Handler::finish(method, attrs, timeout)
    }

    /// Completes the handler of `method` from its attributes and the timeout
    /// its `#[state_timeout]` text was read as: reads the return type of an
    /// event or timeout handler, and derives `has_payload`.
    pub fn finish(method: &MethodShape, attrs: HandlerAttrs, timeout: Option<Timeout>) -> (r: Result<Self, FsmError>)
        ensures
            match finish_outcome(*method, attrs_view(attrs), timeout) {
                Ok(x) => r matches Ok(h) && handler_matches(h, *method, x),
                Err(e) => r == Err::<Handler, FsmError>(e),
            },
    {
        let is_handler = attrs.event.is_some() || attrs.is_timeout_handler;
        let has_payload = match &attrs.event {
            Some(e) => e.payload_type.is_some(),
            None => false,
        };
        let (return_kind, return_states) = if is_handler {
            match parse_handler_return(&method.output, &method.name) {
                Ok((kind, states)) => (Some(kind), states),
                Err(e) => return Err(e),
            }
        } else {
            (None, Vec::new())
        };
        Ok(Handler {
            method_name: method.name.clone(),
            event: attrs.event,
            is_timeout_handler: attrs.is_timeout_handler,
            return_states,
            return_kind,
            source_states: attrs.source_states,
            has_payload,
            timeout,
        })
    }
}

// ----------------------------------------------------------------------
// The impl block

/// The methods among the first `n` items, in order.
pub open spec fn methods_upto(items: Seq<ImplItemShape>, n: int) -> Seq<MethodShape>
    decreases n,
{
    if n <= 0 {
        Seq::empty()
    } else {
        methods_upto(items, n - 1) + match items[n - 1] {
            ImplItemShape::Fn(m) => seq![m],
            _ => Seq::empty(),
        }
    }
}

/// The methods of the impl block, in order.
pub open spec fn impl_methods(imp: ImplShape) -> Seq<MethodShape> {
    methods_upto(imp.items@, imp.items.len() as int)
}

/// The token text of the last associated type named `name` among the first
/// `n` items.
pub open spec fn assoc_type(items: Seq<ImplItemShape>, name: Seq<char>, n: int) -> Option<String>
    decreases n,
{
    if n <= 0 {
        None
    } else {
        match items[n - 1] {
            ImplItemShape::Type { name: nm, ty } => if nm@ == name {
                Some(type_text(ty))
            } else {
                assoc_type(items, name, n - 1)
            },
            _ => assoc_type(items, name, n - 1),
        }
    }
}

/// The FSM's name: the last segment of the `impl` target path.
pub open spec fn fsm_name_of(ty: TypeShape) -> Result<String, FsmError> {
    match ty {
        TypeShape::Path { segments, .. } => if segments.len() > 0 {
            Ok(segments@.last().ident)
        } else {
            Err(FsmError::FsmTypeNameMissing)
        },
        TypeShape::Other { .. } => Err(FsmError::FsmTypeNotPath),
    }
}

/// The parts of the `k`-th method read as a handler (meaningful when it reads).
pub open spec fn parts(ms: Seq<MethodShape>, k: int) -> HandlerParts {
    handler_outcome(ms[k])->Ok_0
}

/// The state names that the first `k` handlers mention: for each, its target
/// states, then its source states.
pub open spec fn mentioned_states(ms: Seq<MethodShape>, k: int) -> Seq<String>
    decreases k,
{
    if k <= 0 {
        Seq::empty()
    } else {
        mentioned_states(ms, k - 1) + names_of_states(parts(ms, k - 1).2) + parts(ms, k - 1).4
    }
}

/// Some event in `evs` is named `name`.
pub open spec fn has_event(evs: Seq<Event>, name: Seq<char>) -> bool {
    exists|i: int| 0 <= i < evs.len() && #[trigger] evs[i].name@ == name
}

/// The events of the first `k` handlers, each at its first declaration.
pub open spec fn events_upto(ms: Seq<MethodShape>, k: int) -> Seq<Event>
    decreases k,
{
    if k <= 0 {
        Seq::empty()
    } else {
        let prev = events_upto(ms, k - 1);
        match parts(ms, k - 1).0 {
            Some(e) => if has_event(prev, e.name@) {
                prev
            } else {
                prev.push(e)
            },
            None => prev,
        }
    }
}

/// Two payload type texts name the same type.
pub open spec fn same_payload(a: Option<String>, b: Option<String>) -> bool {
    match (a, b) {
        (None, None) => true,
        (Some(x), Some(y)) => x@ == y@,
        _ => false,
    }
}

/// `evs[i]` is the first event named `name`.
pub open spec fn is_first_event_named(evs: Seq<Event>, i: int, name: Seq<char>) -> bool {
    &&& 0 <= i < evs.len()
    &&& evs[i].name@ == name
    &&& forall|j: int| 0 <= j < i ==> #[trigger] evs[j].name@ != name
}

/// What the `k`-th method runs into: a refused handler, or an event that an
/// earlier handler declared with another payload type.
pub open spec fn item_error(ms: Seq<MethodShape>, k: int) -> Option<FsmError> {
    match handler_outcome(ms[k]) {
        Err(e) => Some(e),
        Ok(x) => match x.0 {
            Some(e) => {
                let prev = events_upto(ms, k);
                if has_event(prev, e.name@) {
                    let i = choose|i: int| is_first_event_named(prev, i, e.name@);
                    if same_payload(prev[i].payload_type, e.payload_type) {
                        None
                    } else {
                        Some(
                            FsmError::InconsistentPayload {
                                event: e.name,
                                expected: prev[i].payload_type,
                                found: e.payload_type,
                            },
                        )
                    }
                } else {
                    None
                }
            },
            None => None,
        },
    }
}

/// The `k`-th method is the first that runs into an error.
pub open spec fn is_first_item_error(ms: Seq<MethodShape>, k: int) -> bool {
    &&& 0 <= k < ms.len()
    &&& item_error(ms, k) is Some
    &&& forall|j: int| 0 <= j < k ==> #[trigger] item_error(ms, j) is None
}

/// `fsm` is the structure discovered from `args` and `imp`, before validation.
pub open spec fn discovered(fsm: FsmStructure, args: FsmArgs, imp: ImplShape) -> bool {
    let ms = impl_methods(imp);
    let items = imp.items@;
    &&& fsm_name_of(imp.self_ty) == Ok::<String, FsmError>(fsm.fsm_name)
    &&& fsm.initial_state == args.initial
    &&& fsm.channel_size == args.channel_size
    &&& fsm.tracing == args.tracing
    &&& fsm.serde == args.serde
    &&& assoc_type(items, "Context"@, items.len() as int) == Some(fsm.context_type)
    &&& assoc_type(items, "Error"@, items.len() as int) == Some(fsm.error_type)
    &&& fsm.handlers.len() == ms.len()
    &&& forall|k: int| 0 <= k < ms.len() ==> handler_matches(#[trigger] fsm.handlers@[k], ms[k], parts(ms, k))
    &&& names_of_states(fsm.states@) == dedup_names(seq![args.initial] + mentioned_states(ms, ms.len() as int))
    &&& fsm.events@ == events_upto(ms, ms.len() as int)
}

/// The outcome `r` of parsing is the one the annotated block calls for: the
/// FSM's name, then `type Context`, then `type Error`, then each method in
/// order; a structure discovered without error is then validated.
pub open spec fn parse_agrees(r: Result<FsmStructure, FsmError>, args: FsmArgs, imp: ImplShape) -> bool {
    let ms = impl_methods(imp);
    let items = imp.items@;
    match fsm_name_of(imp.self_ty) {
        Err(e) => r == Err::<FsmStructure, FsmError>(e),
        Ok(_) => if assoc_type(items, "Context"@, items.len() as int) is None {
            r == Err::<FsmStructure, FsmError>(FsmError::MissingContextType)
        } else if assoc_type(items, "Error"@, items.len() as int) is None {
            r == Err::<FsmStructure, FsmError>(FsmError::MissingErrorType)
        } else if exists|k: int| is_first_item_error(ms, k) {
            let k = choose|k: int| is_first_item_error(ms, k);
            r matches Err(e) && same_error(e, item_error(ms, k)->Some_0)
        } else {
            exists|fsm: FsmStructure|
                #[trigger] discovered(fsm, args, imp) && r == match validate_result(fsm) {
                    Ok(()) => Ok::<FsmStructure, FsmError>(fsm),
                    Err(e) => Err(e),
                }
        },
    }
}

fn collect_methods(items: &Vec<ImplItemShape>) -> (r: Vec<&MethodShape>)
    ensures
        r@.len() == methods_upto(items@, items@.len() as int).len(),
        forall|k: int| 0 <= k < r@.len() ==> *r@[k] == #[trigger] methods_upto(items@, items@.len() as int)[k],
{
    let mut r: Vec<&MethodShape> = Vec::new();
    let mut i: usize = 0;
    while i < items.len()
        invariant
            i <= items.len(),
            r@.len() == methods_upto(items@, i as int).len(),
            forall|k: int| 0 <= k < r@.len() ==> *r@[k] == #[trigger] methods_upto(items@, i as int)[k],
        decreases items.len() - i,
    {
        match &items[i] {
            ImplItemShape::Fn(m) => r.push(m),
            _ => {},
        }
        i += 1;
    }
    r
}

fn find_assoc_type(items: &Vec<ImplItemShape>, name: &str) -> (r: Option<String>)
    ensures
        r == assoc_type(items@, name@, items@.len() as int),
{
    let mut i: usize = items.len();
    while i > 0
        invariant
            i <= items.len(),
            assoc_type(items@, name@, items@.len() as int) == assoc_type(items@, name@, i as int),
        decreases i,
    {
        match &items[i - 1] {
            ImplItemShape::Type { name: nm, ty } => {
                if is_keyword(nm, name) {
                    return Some(clone_type_text(ty));
                }
            },
            _ => {},
        }
        i -= 1;
    }
    None
}

/// The position of the first event named like `name`, if any.
fn find_event(events: &Vec<Event>, name: &String) -> (r: Option<usize>)
    ensures
        match r {
            Some(i) => is_first_event_named(events@, i as int, name@),
            None => !has_event(events@, name@),
        },
{
    let mut i: usize = 0;
    while i < events.len()
        invariant
            i <= events.len(),
            forall|j: int| 0 <= j < i ==> #[trigger] events@[j].name@ != name@,
        decreases events.len() - i,
    {
        if events[i].name == *name {
            return Some(i);
        }
        i += 1;
    }
    None
}

fn same_payload_exec(a: &Option<String>, b: &Option<String>) -> (r: bool)
    ensures
        r == same_payload(*a, *b),
{
    match (a, b) {
        (None, None) => true,
        (Some(x), Some(y)) => *x == *y,
        _ => false,
    }
}

/// Appends the names of `states` to `names`, skipping texts already there.
fn push_state_names(names: &mut Vec<String>, states: &Vec<State>)
    ensures
        final(names)@ == dedup_names_onto(old(names)@, names_of_states(states@)),
{
    let ghost start = names@;
    let ghost all = names_of_states(states@);
    let mut t: usize = 0;
    while t < states.len()
        invariant
            t <= states.len(),
            all == names_of_states(states@),
            names@ == dedup_names_onto(start, all.take(t as int)),
        decreases states.len() - t,
    {
        proof {
            assert(all.take(t + 1) == all.take(t as int).push(states@[t as int].name));
            assert(all.take(t + 1).drop_last() == all.take(t as int));
        }
        push_name_once(names, &states[t].name);
        t += 1;
    }
    proof {
        assert(all.take(t as int) == all);
    }
}

/// Appends `more` to `names`, skipping texts already there.
fn push_names(names: &mut Vec<String>, more: &Vec<String>)
    ensures
        final(names)@ == dedup_names_onto(old(names)@, more@),
{
    let ghost start = names@;
    let mut t: usize = 0;
    while t < more.len()
        invariant
            t <= more.len(),
            names@ == dedup_names_onto(start, more@.take(t as int)),
        decreases more.len() - t,
    {
        proof {
            assert(more@.take(t + 1) == more@.take(t as int).push(more@[t as int]));
            assert(more@.take(t + 1).drop_last() == more@.take(t as int));
        }
        push_name_once(names, &more[t]);
        t += 1;
    }
    proof {
        assert(more@.take(t as int) == more@);
    }
}

impl FsmStructure {
    /// Reads the annotated `impl` block into the complete FSM structure, and
    /// validates it.
    pub fn parse(args: FsmArgs, impl_block: &ImplShape) -> (r: Result<Self, FsmError>)
        ensures
            parse_agrees(r, args, *impl_block),
    {
        let ghost imp = *impl_block;
        let fsm_name = match &impl_block.self_ty {
            TypeShape::Path { segments, .. } => {
                if segments.len() > 0 {
                    segments[segments.len() - 1].ident.clone()
                } else {
                    return Err(FsmError::FsmTypeNameMissing);
                }
            },
            TypeShape::Other { .. } => return Err(FsmError::FsmTypeNotPath),
        };
        let context_type = match find_assoc_type(&impl_block.items, "Context") {
            Some(t) => t,
            None => return Err(FsmError::MissingContextType),
        };
        let error_type = match find_assoc_type(&impl_block.items, "Error") {
            Some(t) => t,
            None => return Err(FsmError::MissingErrorType),
        };
        let methods = collect_methods(&impl_block.items);
        let ghost ms = impl_methods(imp);
        let mut handlers: Vec<Handler> = Vec::new();
        let mut events: Vec<Event> = Vec::new();
        let mut state_names: Vec<String> = Vec::new();
        state_names.push(args.initial.clone());
        proof {
            assert(dedup_names_onto(Seq::empty(), seq![args.initial]) == seq![args.initial]) by {
                reveal_with_fuel(dedup_names_onto, 2);
                assert(seq![args.initial].drop_last() == Seq::<String>::empty());
            }
            assert(seq![args.initial] + mentioned_states(ms, 0) == seq![args.initial]);
        }
        let mut k: usize = 0;
        while k < methods.len()
            invariant
                imp == *impl_block,
                ms == impl_methods(imp),
                fsm_name_of(imp.self_ty) is Ok,
                assoc_type(imp.items@, "Context"@, imp.items@.len() as int) is Some,
                assoc_type(imp.items@, "Error"@, imp.items@.len() as int) is Some,
                methods@.len() == ms.len(),
                forall|j: int| 0 <= j < methods@.len() ==> *methods@[j] == #[trigger] ms[j],
                k <= methods.len(),
                handlers.len() == k,
                forall|j: int| 0 <= j < k ==> handler_outcome(#[trigger] ms[j]) is Ok,
                forall|j: int| 0 <= j < k ==> handler_matches(#[trigger] handlers@[j], ms[j], parts(ms, j)),
                forall|j: int| 0 <= j < k ==> #[trigger] item_error(ms, j) is None,
                state_names@ == dedup_names_onto(Seq::empty(), seq![args.initial] + mentioned_states(ms, k as int)),
                events@ == events_upto(ms, k as int),
            decreases methods.len() - k,
        {
            let handler = match Handler::parse(methods[k]) {
                Ok(h) => h,
                Err(e) => {
                    proof {
                        assert(item_error(ms, k as int) is Some);
                        self::lemma_first_item_error_at(ms, k as int);
                    }
                    return Err(e);
                },
            };
            let ghost x = parts(ms, k as int);
            proof {
                assert(handler_matches(handler, ms[k as int], x));
            }
            let ghost before = state_names@;
            push_state_names(&mut state_names, &handler.return_states);
            push_names(&mut state_names, &handler.source_states);
            proof {
                let base = seq![args.initial] + mentioned_states(ms, k as int);
                let rs = names_of_states(x.2);
                lemma_dedup_onto_concat(Seq::empty(), base, rs);
                lemma_dedup_onto_concat(Seq::empty(), base + rs, x.4);
                assert(seq![args.initial] + mentioned_states(ms, k + 1) == base + rs + x.4);
            }
            match &handler.event {
                Some(event) => {
                    match find_event(&events, &event.name) {
                        Some(i) => {
                            if !same_payload_exec(&events[i].payload_type, &event.payload_type) {
                                proof {
                                    assert forall|i2: int| #[trigger] is_first_event_named(events@, i2, event.name@) implies i2 == i by {
                                        if i2 < i {
                                            assert(events@[i2].name@ != event.name@);
                                        } else if i2 > i {
                                            assert(events@[i as int].name@ == event.name@);
                                        }
                                    }
                                    assert(item_error(ms, k as int) is Some);
                                    self::lemma_first_item_error_at(ms, k as int);
                                }
                                return Err(
                                    FsmError::InconsistentPayload {
                                        event: event.name.clone(),
                                        expected: clone_opt_string(&events[i].payload_type),
                                        found: clone_opt_string(&event.payload_type),
                                    },
                                );
                            }
                            proof {
                                assert forall|i2: int| #[trigger] is_first_event_named(events@, i2, event.name@) implies i2 == i by {
                                    if i2 < i {
                                        assert(events@[i2].name@ != event.name@);
                                    } else if i2 > i {
                                        assert(events@[i as int].name@ == event.name@);
                                    }
                                }
                                assert(has_event(events@, event.name@));
                            }
                        },
                        None => {
                            events.push(clone_event(event));
                        },
                    }
                },
                None => {},
            }
            proof {
                assert(item_error(ms, k as int) is None);
            }
            handlers.push(handler);
            proof {
                assert forall|j: int| 0 <= j < k + 1 implies handler_matches(#[trigger] handlers@[j], ms[j], parts(ms, j)) by {
                    if j == k {
                        assert(handlers@[j] == handler);
                    }
                }
            }
            k += 1;
        }
        let mut states: Vec<State> = Vec::new();
        let mut i: usize = 0;
        while i < state_names.len()
            invariant
                i <= state_names.len(),
                states@.len() == i,
                forall|j: int| 0 <= j < i ==> (#[trigger] states@[j]).name == state_names@[j],
            decreases state_names.len() - i,
        {
            states.push(State { name: state_names[i].clone() });
            i += 1;
        }
        proof {
            assert(names_of_states(states@) =~= state_names@);
        }
        let fsm = FsmStructure {
            fsm_name,
            initial_state: args.initial,
            channel_size: args.channel_size,
            context_type,
            error_type,
            states,
            events,
            handlers,
            tracing: args.tracing,
            serde: args.serde,
        };
        proof {
            lemma_dedup_onto_empty(seq![fsm.initial_state] + mentioned_states(ms, ms.len() as int));
            assert(forall|k2: int| !#[trigger] is_first_item_error(ms, k2));
            assert(discovered(fsm, args, imp));
        }
        match fsm.validate() {
            Ok(()) => Ok(fsm),
            Err(e) => Err(e),
        }
    }
}

/// When method `k` runs into an error and all earlier ones do not, it is the
/// one the parse names.
proof fn lemma_first_item_error_at(ms: Seq<MethodShape>, k: int)
    requires
        0 <= k < ms.len(),
        item_error(ms, k) is Some,
        forall|j: int| 0 <= j < k ==> #[trigger] item_error(ms, j) is None,
    ensures
        is_first_item_error(ms, k),
        (choose|k2: int| is_first_item_error(ms, k2)) == k,
{
    assert(is_first_item_error(ms, k));
    assert forall|k2: int| #[trigger] is_first_item_error(ms, k2) implies k2 == k by {
        if k2 < k {
            assert(item_error(ms, k2) is None);
        } else if k2 > k {
            assert(item_error(ms, k) is Some);
        }
    }
}

} // verus!
