//! What the code generator decides, as plain values: the names of the
//! generated items, the arms of the event loop, the timeout armed in each
//! state, and what the generated loop does with each input and each handler
//! outcome.

use vstd::prelude::*;
use vstd::string::StringExecFns;
use crate::model::{FsmStructure, FsmError, Handler, HandlerReturnKind, Timeout};
use crate::parser::{is_keyword, names_of_states};

verus! {

/// The duration the generated loop arms in a state without a timeout (about
/// a hundred years), in seconds.
pub const NO_TIMEOUT_SECS: u64 = 3_153_600_000;

/// One arm of the generated event match: in `state`, event `event` calls
/// `method_name`.
#[derive(Debug, Clone, PartialEq, Eq)]
pub struct EventArm {
    pub state: String,
    pub event: String,
    pub method_name: String,
    pub has_payload: bool,
    pub return_kind: HandlerReturnKind,
}

/// A handler call of the generated loop.
#[derive(Debug, Clone, PartialEq, Eq)]
pub struct Dispatch {
    pub method_name: String,
    pub return_kind: HandlerReturnKind,
}

/// The timeout the generated loop arms on entering `state`.
#[derive(Debug, Clone, PartialEq, Eq)]
pub struct TimeoutArm {
    pub state: String,
    pub timeout: Timeout,
}

/// Everything the generated runtime is built from.
#[derive(Debug, Clone, PartialEq, Eq)]
pub struct CodegenPlan {
    /// The arms of the event match, in order; the first matching arm wins.
    pub event_arms: Vec<EventArm>,
    /// The `#[on_timeout]` handler, if any.
    pub timeout_handler: Option<Dispatch>,
    /// The timeout of each state that arms one, each state once.
    pub timeout_arms: Vec<TimeoutArm>,
}

// ----------------------------------------------------------------------
// Names of generated items

impl FsmStructure {
    /// The name of the generated state enum: the FSM's name and `State`.
    pub fn state_enum_ident(&self) -> (r: String)
        ensures
            r@ == self.fsm_name@ + "State"@,
    {
        self.fsm_name.clone().concat("State")
    }

    /// The name of the generated event enum: the FSM's name and `Event`.
    pub fn event_enum_ident(&self) -> (r: String)
        ensures
            r@ == self.fsm_name@ + "Event"@,
    {
        self.fsm_name.clone().concat("Event")
    }

    /// The name of the generated handle: the FSM's name and `Handle`.
    pub fn handle_ident(&self) -> (r: String)
        ensures
            r@ == self.fsm_name@ + "Handle"@,
    {
        self.fsm_name.clone().concat("Handle")
    }

    /// The name of the generated task: the FSM's name and `Task`.
    pub fn task_ident(&self) -> (r: String)
        ensures
            r@ == self.fsm_name@ + "Task"@,
    {
        self.fsm_name.clone().concat("Task")
    }
}

/// The attributes that the FSM macro consumes and strips from the methods it
/// re-emits: `#[on]`, `#[state_timeout]`, `#[on_timeout]`.
pub open spec fn is_fsm_attribute_spec(path_ident: Option<String>) -> bool {
    path_ident matches Some(p) && (p@ == "on"@ || p@ == "state_timeout"@ || p@ == "on_timeout"@)
}

/// Whether an attribute (by its single-identifier path) is one of the FSM
/// macro's own.
pub fn is_fsm_attribute(path_ident: &Option<String>) -> (b: bool)
    ensures
        b == is_fsm_attribute_spec(*path_ident),
{
    match path_ident {
        Some(p) => is_keyword(p, "on") || is_keyword(p, "state_timeout") || is_keyword(p, "on_timeout"),
        None => false,
    }
}

// ----------------------------------------------------------------------
// Event arms

/// The arms of handler `h`: one per source state, when it handles an event.
pub open spec fn handler_event_arms(h: Handler) -> Seq<EventArm> {
    match h.event {
        Some(e) => h.source_states@.map_values(
            |s: String|
                EventArm {
                    state: s,
                    event: e.name,
                    method_name: h.method_name,
                    has_payload: h.has_payload,
                    return_kind: h.return_kind->Some_0,
                },
        ),
        None => Seq::empty(),
    }
}

/// The arms of the first `n` handlers, in handler order.
pub open spec fn event_arms_upto(hs: Seq<Handler>, n: int) -> Seq<EventArm>
    decreases n,
{
    if n <= 0 {
        Seq::empty()
    } else {
        event_arms_upto(hs, n - 1) + handler_event_arms(hs[n - 1])
    }
}

/// Handler `i` is the first event handler without a parsed return kind.
pub open spec fn is_first_kindless_event_handler(fsm: FsmStructure, i: int) -> bool {
    &&& 0 <= i < fsm.handlers.len()
    &&& fsm.handlers@[i].event is Some && fsm.handlers@[i].return_kind is None
    &&& forall|k: int|
        0 <= k < i ==> !(#[trigger] fsm.handlers@[k].event is Some && fsm.handlers@[k].return_kind is None)
}

/// The arms of the event match, or the first event handler that lacks a
/// return kind.
pub open spec fn event_arms_result(fsm: FsmStructure) -> Result<Seq<EventArm>, FsmError> {
    if exists|i: int| is_first_kindless_event_handler(fsm, i) {
        let i = choose|i: int| is_first_kindless_event_handler(fsm, i);
        Err(FsmError::MissingReturnKind { handler: fsm.handlers@[i].method_name, is_timeout: false })
    } else {
        Ok(event_arms_upto(fsm.handlers@, fsm.handlers.len() as int))
    }
}

/// Handler `i` is the first `#[on_timeout]` handler.
pub open spec fn is_first_timeout_handler(fsm: FsmStructure, i: int) -> bool {
    &&& 0 <= i < fsm.handlers.len()
    &&& fsm.handlers@[i].is_timeout_handler
    &&& forall|k: int| 0 <= k < i ==> !(#[trigger] fsm.handlers@[k]).is_timeout_handler
}

/// The call the generated loop makes when the timer fires: the first
/// `#[on_timeout]` handler, which needs a return kind.
pub open spec fn timeout_handler_result(fsm: FsmStructure) -> Result<Option<Dispatch>, FsmError> {
    if exists|i: int| is_first_timeout_handler(fsm, i) {
        let i = choose|i: int| is_first_timeout_handler(fsm, i);
        match fsm.handlers@[i].return_kind {
            Some(k) => Ok(Some(Dispatch { method_name: fsm.handlers@[i].method_name, return_kind: k })),
            None => Err(FsmError::MissingReturnKind { handler: fsm.handlers@[i].method_name, is_timeout: true }),
        }
    } else {
        Ok(None)
    }
}

// ----------------------------------------------------------------------
// Timeout arms

/// The timeout arms that handler `h` declares: one per target, when it has a
/// `#[state_timeout]`.
pub open spec fn handler_timeout_arms(h: Handler) -> Seq<TimeoutArm> {
    match h.timeout {
        Some(d) => names_of_states(h.return_states@).map_values(|s: String| TimeoutArm { state: s, timeout: d }),
        None => Seq::empty(),
    }
}

/// The timeout arms declared by the first `n` handlers, in order.
pub open spec fn timeout_arms_upto(hs: Seq<Handler>, n: int) -> Seq<TimeoutArm>
    decreases n,
{
    if n <= 0 {
        Seq::empty()
    } else {
        timeout_arms_upto(hs, n - 1) + handler_timeout_arms(hs[n - 1])
    }
}

/// Some arm of `arms` is for the state named `name`.
pub open spec fn has_arm_for(arms: Seq<TimeoutArm>, name: Seq<char>) -> bool {
    exists|i: int| 0 <= i < arms.len() && #[trigger] arms[i].state@ == name
}

/// `s` keeping, for each state, only its first arm.
pub open spec fn first_arms(s: Seq<TimeoutArm>) -> Seq<TimeoutArm>
    decreases s.len(),
{
    if s.len() == 0 {
        Seq::empty()
    } else {
        let d = first_arms(s.drop_last());
        if has_arm_for(d, s.last().state@) {
            d
        } else {
            d.push(s.last())
        }
    }
}

/// The timeout arm of each state, as first declared.
pub open spec fn timeout_arms_spec(fsm: FsmStructure) -> Seq<TimeoutArm> {
    first_arms(timeout_arms_upto(fsm.handlers@, fsm.handlers.len() as int))
}

/// The plan the code generator builds from a structure: event arms first
/// (an event handler without a return kind is refused), then the timeout
/// call (likewise), and the timeout arms.
pub open spec fn plan_agrees(r: Result<CodegenPlan, FsmError>, fsm: FsmStructure) -> bool {
    match event_arms_result(fsm) {
        Err(e) => r == Err::<CodegenPlan, FsmError>(e),
        Ok(arms) => match timeout_handler_result(fsm) {
            Err(e) => r == Err::<CodegenPlan, FsmError>(e),
            Ok(t) => r matches Ok(p) && p.event_arms@ == arms && p.timeout_handler == t
                && p.timeout_arms@ == timeout_arms_spec(fsm),
        },
    }
}

fn clone_kind(k: &HandlerReturnKind) -> (r: HandlerReturnKind)
    ensures
        r == *k,
{
    *k
}

impl FsmStructure {
    /// The arms of the generated event match: for each event handler, in
    /// order, one arm per source state.
    fn build_event_arms(&self) -> (r: Result<Vec<EventArm>, FsmError>)
        ensures
            match event_arms_result(*self) {
                Ok(arms) => r matches Ok(v) && v@ == arms,
                Err(e) => r == Err::<Vec<EventArm>, FsmError>(e),
            },
    {
        let ghost fsm = *self;
        let mut arms: Vec<EventArm> = Vec::new();
        let mut h: usize = 0;
        while h < self.handlers.len()
            invariant
                fsm == *self,
                h <= self.handlers.len(),
                arms@ == event_arms_upto(fsm.handlers@, h as int),
                forall|k: int|
                    0 <= k < h ==> !(#[trigger] fsm.handlers@[k].event is Some && fsm.handlers@[k].return_kind is None),
            decreases self.handlers.len() - h,
        {
            let handler = &self.handlers[h];
            if let Some(event) = &handler.event {
                let kind = match &handler.return_kind {
                    Some(k) => clone_kind(k),
                    None => {
                        proof {
                            assert(is_first_kindless_event_handler(fsm, h as int));
                            assert forall|i: int| #[trigger] is_first_kindless_event_handler(fsm, i) implies i == h by {
                                if i < h {
                                    assert(!(fsm.handlers@[i].event is Some && fsm.handlers@[i].return_kind is None));
                                } else if i > h {
                                    assert(fsm.handlers@[h as int].event is Some && fsm.handlers@[h as int].return_kind is None);
                                }
                            }
                        }
                        return Err(FsmError::MissingReturnKind { handler: handler.method_name.clone(), is_timeout: false });
                    },
                };
                let ghost start = arms@;
                let mut k: usize = 0;
                while k < handler.source_states.len()
                    invariant
                        fsm == *self,
                        h < self.handlers.len(),
                        handler == &self.handlers@[h as int],
                        handler.event == Some(*event),
                        handler.return_kind == Some(kind),
                        k <= handler.source_states.len(),
                        arms@ == start + handler_event_arms(*handler).take(k as int),
                    decreases handler.source_states.len() - k,
                {
                    arms.push(
                        EventArm {
                            state: handler.source_states[k].clone(),
                            event: event.name.clone(),
                            method_name: handler.method_name.clone(),
                            has_payload: handler.has_payload,
                            return_kind: kind,
                        },
                    );
                    proof {
                        assert(handler_event_arms(*handler).take(k + 1) == handler_event_arms(*handler).take(k as int).push(
                            handler_event_arms(*handler)[k as int],
                        ));
                    }
                    k += 1;
                }
                proof {
                    assert(handler_event_arms(*handler).take(k as int) == handler_event_arms(*handler));
                }
            }
            h += 1;
        }
        proof {
            assert forall|i: int| !#[trigger] is_first_kindless_event_handler(fsm, i) by {}
        }
        Ok(arms)
    }

    /// The call the generated loop makes when the timer fires.
    fn build_timeout_handler(&self) -> (r: Result<Option<Dispatch>, FsmError>)
        ensures
            r == timeout_handler_result(*self),
    {
        let ghost fsm = *self;
        let mut h: usize = 0;
        while h < self.handlers.len()
            invariant
                fsm == *self,
                h <= self.handlers.len(),
                forall|k: int| 0 <= k < h ==> !(#[trigger] fsm.handlers@[k]).is_timeout_handler,
            decreases self.handlers.len() - h,
        {
            let handler = &self.handlers[h];
            if handler.is_timeout_handler {
                proof {
                    assert(is_first_timeout_handler(fsm, h as int));
                    assert forall|i: int| #[trigger] is_first_timeout_handler(fsm, i) implies i == h by {
                        if i < h {
                            assert(!fsm.handlers@[i].is_timeout_handler);
                        } else if i > h {
                            assert(fsm.handlers@[h as int].is_timeout_handler);
                        }
                    }
                }
                return match &handler.return_kind {
                    Some(k) => Ok(Some(Dispatch { method_name: handler.method_name.clone(), return_kind: clone_kind(k) })),
                    None => Err(FsmError::MissingReturnKind { handler: handler.method_name.clone(), is_timeout: true }),
                };
            }
            h += 1;
        }
        proof {
            assert forall|i: int| !#[trigger] is_first_timeout_handler(fsm, i) by {}
        }
        Ok(None)
    }

    /// The timeout armed in each state: for each handler with a
    /// `#[state_timeout]`, in order, its duration for each target state not
    /// seen before.
    fn build_timeout_arms(&self) -> (r: Vec<TimeoutArm>)
        ensures
            r@ == timeout_arms_spec(*self),
    {
        let ghost fsm = *self;
        let mut arms: Vec<TimeoutArm> = Vec::new();
        let mut h: usize = 0;
        while h < self.handlers.len()
            invariant
                fsm == *self,
                h <= self.handlers.len(),
                arms@ == first_arms(timeout_arms_upto(fsm.handlers@, h as int)),
            decreases self.handlers.len() - h,
        {
            let handler = &self.handlers[h];
            if let Some(d) = handler.timeout {
                let ghost base = timeout_arms_upto(fsm.handlers@, h as int);
                let mut t: usize = 0;
                while t < handler.return_states.len()
                    invariant
                        fsm == *self,
                        h < self.handlers.len(),
                        handler == &self.handlers@[h as int],
                        handler.timeout == Some(d),
                        t <= handler.return_states.len(),
                        base == timeout_arms_upto(fsm.handlers@, h as int),
                        arms@ == first_arms(base + handler_timeout_arms(*handler).take(t as int)),
                    decreases handler.return_states.len() - t,
                {
                    let ghost pre = base + handler_timeout_arms(*handler).take(t as int);
                    let name = &handler.return_states[t].name;
                    let mut seen = false;
                    let mut i: usize = 0;
                    while i < arms.len()
                        invariant
                            i <= arms.len(),
                            seen == exists|j: int| 0 <= j < i && #[trigger] arms@[j].state@ == name@,
                        decreases arms.len() - i,
                    {
                        if arms[i].state == *name {
                            seen = true;
                        }
                        i += 1;
                    }
                    proof {
                        assert(handler_timeout_arms(*handler)[t as int] == TimeoutArm { state: *name, timeout: d });
                        assert(handler_timeout_arms(*handler).take(t + 1) == handler_timeout_arms(*handler).take(t as int).push(
                            TimeoutArm { state: *name, timeout: d },
                        ));
                        assert((base + handler_timeout_arms(*handler).take(t + 1)).drop_last() == pre);
                    }
                    if !seen {
                        arms.push(TimeoutArm { state: name.clone(), timeout: d });
                    }
                    t += 1;
                }
                proof {
                    assert(handler_timeout_arms(*handler).take(t as int) == handler_timeout_arms(*handler));
                }
            } else {
                proof {
                    assert(handler_timeout_arms(fsm.handlers@[h as int]) == Seq::<TimeoutArm>::empty());
                    assert(timeout_arms_upto(fsm.handlers@, h + 1) == timeout_arms_upto(fsm.handlers@, h as int));
                }
            }
            h += 1;
        }
        arms
    }

    /// The code generation plan: the event arms, the timeout call and the
    /// timeout arms.
    pub fn plan(&self) -> (r: Result<CodegenPlan, FsmError>)
        ensures
            plan_agrees(r, *self),
    {
        let event_arms = self.build_event_arms()?;
        let timeout_handler = self.build_timeout_handler()?;
        let timeout_arms = self.build_timeout_arms();
        Ok(CodegenPlan { event_arms, timeout_handler, timeout_arms })
    }
}

} // verus!
