//! Validation of the FSM structure: the timeout contract, timeout
//! consistency, and reachability of every state from the initial state.

use vstd::prelude::*;
use crate::model::{FsmError, FsmStructure, Handler, State, Timeout};
use crate::names::{dedup_names, has_name, push_name_once};
use crate::outside::{graph_add_edge, graph_add_node, graph_dfs, graph_edges, graph_nodes, graph_new, reachable};

verus! {

/// The names of a handler's target states, in order.
pub open spec fn target_names(h: Handler) -> Seq<String> {
    h.return_states@.map_values(|s: State| s.name)
}

/// The name of target `t` of handler `j`.
pub open spec fn target_name(fsm: FsmStructure, j: int, t: int) -> String {
    fsm.handlers@[j].return_states@[t].name
}

// ----------------------------------------------------------------------
// The timeout handler

/// Handler `i` exists and is an `#[on_timeout]` handler.
pub open spec fn is_timeout_handler_at(fsm: FsmStructure, i: int) -> bool {
    0 <= i < fsm.handlers.len() && fsm.handlers@[i].is_timeout_handler
}

/// The FSM has an `#[on_timeout]` handler.
pub open spec fn has_timeout_handler(fsm: FsmStructure) -> bool {
    exists|i: int| is_timeout_handler_at(fsm, i)
}

/// Handler `j` is the second `#[on_timeout]` handler.
pub open spec fn is_second_timeout_handler(fsm: FsmStructure, j: int) -> bool {
    &&& is_timeout_handler_at(fsm, j)
    &&& exists|i: int|
        #![trigger is_timeout_handler_at(fsm, i)]
        0 <= i < j && is_timeout_handler_at(fsm, i) && forall|k: int|
            0 <= k < j && k != i ==> !#[trigger] is_timeout_handler_at(fsm, k)
}

/// At most one `#[on_timeout]` handler is allowed: the second one is named.
/// Otherwise the result tells whether there is one.
pub open spec fn timeout_contract_result(fsm: FsmStructure) -> Result<bool, FsmError> {
    if exists|j: int| is_second_timeout_handler(fsm, j) {
        let j = choose|j: int| is_second_timeout_handler(fsm, j);
        Err(FsmError::MultipleTimeoutHandlers { handler: fsm.handlers@[j].method_name })
    } else {
        Ok(has_timeout_handler(fsm))
    }
}

// ----------------------------------------------------------------------
// States that arm a timeout

/// Handler `i` exists and carries a `#[state_timeout]`.
pub open spec fn has_timeout_at(fsm: FsmStructure, i: int) -> bool {
    0 <= i < fsm.handlers.len() && fsm.handlers@[i].timeout is Some
}

/// Handler `i` is the first handler with a `#[state_timeout]`.
pub open spec fn is_first_timed_handler(fsm: FsmStructure, i: int) -> bool {
    has_timeout_at(fsm, i) && forall|k: int| 0 <= k < i ==> !#[trigger] has_timeout_at(fsm, k)
}

/// The target names of the handlers before `i` that carry a
/// `#[state_timeout]`, in handler order.
pub open spec fn timed_targets_upto(hs: Seq<Handler>, i: int) -> Seq<String>
    decreases i,
{
    if i <= 0 {
        Seq::empty()
    } else {
        timed_targets_upto(hs, i - 1) + (if hs[i - 1].timeout is Some {
            target_names(hs[i - 1])
        } else {
            Seq::empty()
        })
    }
}

/// The states that arm a timeout (targets of handlers with a
/// `#[state_timeout]`), each once, in order of first mention.
pub open spec fn timed_states(fsm: FsmStructure) -> Seq<String> {
    dedup_names(timed_targets_upto(fsm.handlers@, fsm.handlers.len() as int))
}

/// A `#[state_timeout]` needs an `#[on_timeout]` handler; otherwise the
/// states that arm a timeout.
pub open spec fn timed_states_result(fsm: FsmStructure, has_timeout_handler: bool) -> Result<
    Seq<String>,
    FsmError,
> {
    if !has_timeout_handler && exists|i: int| has_timeout_at(fsm, i) {
        let i = choose|i: int| is_first_timed_handler(fsm, i);
        Err(FsmError::StateTimeoutWithoutHandler { handler: fsm.handlers@[i].method_name })
    } else {
        Ok(timed_states(fsm))
    }
}

// ----------------------------------------------------------------------
// Timeout consistency

/// Handler `i` carries a `#[state_timeout]` and targets a state named `name`.
pub open spec fn declares_timeout(fsm: FsmStructure, i: int, name: Seq<char>) -> bool {
    has_timeout_at(fsm, i) && has_name(target_names(fsm.handlers@[i]), name)
}

/// Target `t` of handler `j` gets a timeout from `j` that differs from the one
/// an earlier handler declared for the same state.
pub open spec fn conflict_at(fsm: FsmStructure, j: int, t: int) -> bool {
    &&& has_timeout_at(fsm, j)
    &&& 0 <= t < fsm.handlers@[j].return_states.len()
    &&& exists|i: int|
        0 <= i < j && #[trigger] declares_timeout(fsm, i, target_name(fsm, j, t)@)
            && fsm.handlers@[i].timeout != fsm.handlers@[j].timeout
}

/// `(j, t)` is the first conflict in handler-then-target order.
pub open spec fn is_first_conflict(fsm: FsmStructure, j: int, t: int) -> bool {
    &&& conflict_at(fsm, j, t)
    &&& forall|j2: int, t2: int|
        (j2 < j || (j2 == j && t2 < t)) ==> !#[trigger] conflict_at(fsm, j2, t2)
}

/// Handler `i` is the first to declare a timeout for the state `name`.
pub open spec fn is_first_declarer(fsm: FsmStructure, i: int, name: Seq<char>) -> bool {
    declares_timeout(fsm, i, name) && forall|k: int| 0 <= k < i ==> !#[trigger] declares_timeout(fsm, k, name)
}

/// Every state gets at most one timeout duration; the first conflict is named
/// with the handler that declared the state's timeout first.
pub open spec fn timeout_consistency_result(fsm: FsmStructure) -> Result<(), FsmError> {
    if exists|j: int, t: int| is_first_conflict(fsm, j, t) {
        let (j, t) = choose|j: int, t: int| is_first_conflict(fsm, j, t);
        let name = target_name(fsm, j, t);
        let i = choose|i: int| is_first_declarer(fsm, i, name@);
        Err(
            FsmError::ConflictingTimeouts {
                state: name,
                first_handler: fsm.handlers@[i].method_name,
                second_handler: fsm.handlers@[j].method_name,
            },
        )
    } else {
        Ok(())
    }
}

// ----------------------------------------------------------------------
// Nodes: each state name stands for the node of its last state

/// The index of the last of the first `n` states named `name`, or -1.
pub open spec fn last_state_index(states: Seq<State>, name: Seq<char>, n: int) -> int
    decreases n,
{
    if n <= 0 {
        -1
    } else if states[n - 1].name@ == name {
        n - 1
    } else {
        last_state_index(states, name, n - 1)
    }
}

/// The graph node that a state name stands for: the last state of that name.
pub open spec fn node_of(fsm: FsmStructure, name: Seq<char>) -> Option<int> {
    let i = last_state_index(fsm.states@, name, fsm.states.len() as int);
    if i >= 0 {
        Some(i)
    } else {
        None
    }
}

/// `node_of` gives the last state with the name, or `None` when no state has it.
pub proof fn lemma_last_state_index(states: Seq<State>, name: Seq<char>, n: int)
    requires
        0 <= n <= states.len(),
    ensures
        -1 <= last_state_index(states, name, n) < n,
        last_state_index(states, name, n) >= 0 ==> states[last_state_index(states, name, n)].name@ == name,
        forall|k: int| last_state_index(states, name, n) < k < n ==> #[trigger] states[k].name@ != name,
    decreases n,
{
    if n > 0 {
        lemma_last_state_index(states, name, n - 1);
    }
}

/// No state has the name `name`.
pub open spec fn missing(fsm: FsmStructure, name: Seq<char>) -> bool {
    node_of(fsm, name) is None
}

/// Some name in `names` has no state.
pub open spec fn any_missing(fsm: FsmStructure, names: Seq<String>) -> bool {
    exists|k: int| 0 <= k < names.len() && missing(fsm, #[trigger] names[k]@)
}

/// `names[k]` is the first name in `names` without a state.
pub open spec fn is_first_missing(fsm: FsmStructure, names: Seq<String>, k: int) -> bool {
    &&& 0 <= k < names.len()
    &&& missing(fsm, names[k]@)
    &&& forall|k2: int| 0 <= k2 < k ==> !missing(fsm, #[trigger] names[k2]@)
}

/// The first name in `names` without a state.
pub open spec fn first_missing(fsm: FsmStructure, names: Seq<String>) -> String {
    names[choose|k: int| is_first_missing(fsm, names, k)]
}

// ----------------------------------------------------------------------
// Transitions

/// The states handler `h` fires from, given the states `timed` that arm a
/// timeout: those for the `#[on_timeout]` handler, its `#[on]` source states
/// otherwise.
pub open spec fn handler_sources_in(fsm: FsmStructure, timed: Seq<String>, h: int) -> Seq<String> {
    if fsm.handlers@[h].is_timeout_handler {
        timed
    } else {
        fsm.handlers@[h].source_states@
    }
}

/// The states handler `h` fires from.
#[verifier::inline]
pub open spec fn handler_sources(fsm: FsmStructure, h: int) -> Seq<String> {
    handler_sources_in(fsm, timed_states(fsm), h)
}

/// Node `a` is a source of handler `h`, given the states `timed` that arm a
/// timeout.
pub open spec fn source_node_in(fsm: FsmStructure, timed: Seq<String>, h: int, a: usize) -> bool {
    exists|k: int|
        0 <= k < handler_sources_in(fsm, timed, h).len() && #[trigger] node_of(fsm, handler_sources_in(fsm, timed, h)[k]@)
            == Some(a as int)
}

/// Node `b` is a target of handler `h`.
pub open spec fn target_node(fsm: FsmStructure, h: int, b: usize) -> bool {
    exists|t: int|
        0 <= t < fsm.handlers@[h].return_states.len() && #[trigger] node_of(fsm, target_name(fsm, h, t)@) == Some(b as int)
}

/// Some handler moves the machine from node `a` to node `b`, given the states
/// `timed` that arm a timeout.
pub open spec fn transition_edge_in(fsm: FsmStructure, timed: Seq<String>, a: usize, b: usize) -> bool {
    exists|h: int| 0 <= h < fsm.handlers.len() && #[trigger] target_node(fsm, h, b) && source_node_in(fsm, timed, h, a)
}

/// Some handler moves the machine from node `a` to node `b`.
#[verifier::inline]
pub open spec fn transition_edge(fsm: FsmStructure, a: usize, b: usize) -> bool {
    transition_edge_in(fsm, timed_states(fsm), a, b)
}

/// `path` is a nonempty walk along transitions.
pub open spec fn is_transition_path(fsm: FsmStructure, path: Seq<usize>) -> bool {
    &&& path.len() > 0
    &&& forall|i: int| 0 <= i < path.len() - 1 ==> #[trigger] transition_edge(fsm, path[i], path[i + 1])
}

/// Node `to` can be reached from node `from` by zero or more transitions.
pub open spec fn state_reachable(fsm: FsmStructure, from: usize, to: usize) -> bool {
    exists|path: Seq<usize>| #[trigger] is_transition_path(fsm, path) && path[0] == from && path.last() == to
}

/// What building the transitions of handler `h` runs into, given the states
/// `timed` that arm a timeout: a target without a state (its first target is
/// looked up before its sources), or a source without a state.
pub open spec fn handler_edge_error_in(fsm: FsmStructure, timed: Seq<String>, h: int) -> Option<FsmError> {
    let targets = target_names(fsm.handlers@[h]);
    let sources = handler_sources_in(fsm, timed, h);
    if targets.len() == 0 {
        None
    } else if missing(fsm, targets[0]@) {
        Some(FsmError::TargetStateNotFound { state: targets[0] })
    } else if any_missing(fsm, sources) {
        if fsm.handlers@[h].is_timeout_handler {
            Some(FsmError::TimeoutSourceNotFound { state: first_missing(fsm, sources) })
        } else {
            Some(FsmError::SourceStateNotFound { state: first_missing(fsm, sources) })
        }
    } else if any_missing(fsm, targets) {
        Some(FsmError::TargetStateNotFound { state: first_missing(fsm, targets) })
    } else {
        None
    }
}

/// What building the transitions of handler `h` runs into.
#[verifier::inline]
pub open spec fn handler_edge_error(fsm: FsmStructure, h: int) -> Option<FsmError> {
    handler_edge_error_in(fsm, timed_states(fsm), h)
}

/// Handler `h` is the first whose transitions cannot be built, given the
/// states `timed` that arm a timeout.
pub open spec fn is_first_edge_error_in(fsm: FsmStructure, timed: Seq<String>, h: int) -> bool {
    &&& 0 <= h < fsm.handlers.len()
    &&& handler_edge_error_in(fsm, timed, h) is Some
    &&& forall|k: int| 0 <= k < h ==> #[trigger] handler_edge_error_in(fsm, timed, k) is None
}

/// Handler `h` is the first whose transitions cannot be built.
#[verifier::inline]
pub open spec fn is_first_edge_error(fsm: FsmStructure, h: int) -> bool {
    is_first_edge_error_in(fsm, timed_states(fsm), h)
}

/// State `i` cannot be reached from node `init`.
pub open spec fn unreachable_at(fsm: FsmStructure, init: int, i: int) -> bool {
    &&& 0 <= i < fsm.states.len()
    &&& !state_reachable(fsm, init as usize, node_of(fsm, fsm.states@[i].name@)->Some_0 as usize)
}

/// State `i` is the first state that cannot be reached from node `init`.
pub open spec fn is_first_unreachable(fsm: FsmStructure, init: int, i: int) -> bool {
    unreachable_at(fsm, init, i) && forall|k: int| 0 <= k < i ==> !#[trigger] unreachable_at(fsm, init, k)
}

/// State `i` cannot be reached from node `init` along `edges`.
pub open spec fn unreachable_along(fsm: FsmStructure, edges: Seq<(usize, usize)>, init: usize, i: int) -> bool {
    &&& 0 <= i < fsm.states.len()
    &&& !reachable(edges, init, node_of(fsm, fsm.states@[i].name@)->Some_0 as usize)
}

/// State `i` is the first state that cannot be reached from node `init` along
/// `edges`.
pub open spec fn is_first_unreachable_along(fsm: FsmStructure, edges: Seq<(usize, usize)>, init: usize, i: int) -> bool {
    unreachable_along(fsm, edges, init, i) && forall|k: int| 0 <= k < i ==> !#[trigger] unreachable_along(fsm, edges, init, k)
}

/// What checking the transition graph gives, once the timeout checks passed.
pub open spec fn graph_result(fsm: FsmStructure) -> Result<(), FsmError> {
    match node_of(fsm, fsm.initial_state@) {
        None => Err(FsmError::InitialStateNotFound { state: fsm.initial_state }),
        Some(init) => if exists|h: int| is_first_edge_error(fsm, h) {
            Err(handler_edge_error(fsm, choose|h: int| is_first_edge_error(fsm, h))->Some_0)
        } else if exists|i: int| unreachable_at(fsm, init, i) {
            let i = choose|i: int| is_first_unreachable(fsm, init, i);
            Err(FsmError::UnreachableState { state: fsm.states@[i].name, initial: fsm.initial_state })
        } else {
            Ok(())
        },
    }
}

/// The outcome of validating an FSM structure: the checks run in order and
/// the first failing one decides the error.
pub open spec fn validate_result(fsm: FsmStructure) -> Result<(), FsmError> {
    match timeout_contract_result(fsm) {
        Err(e) => Err(e),
        Ok(has) => match timed_states_result(fsm, has) {
            Err(e) => Err(e),
            Ok(_) => match timeout_consistency_result(fsm) {
                Err(e) => Err(e),
                Ok(_) => graph_result(fsm),
            },
        },
    }
}

/// The type of the graph the validation builds.
pub type StateGraph = petgraph::graph::Graph<usize, (), petgraph::Directed, usize>;

/// Reachability along the graph's edges is reachability along transitions,
/// when the graph holds exactly the transitions.
proof fn lemma_graph_reachability(fsm: FsmStructure, g: StateGraph, from: usize, to: usize)
    requires
        forall|a: usize, b: usize| #[trigger] graph_edges(g).contains((a, b)) <==> transition_edge(fsm, a, b),
    ensures
        reachable(graph_edges(g), from, to) <==> state_reachable(fsm, from, to),
{
    if reachable(graph_edges(g), from, to) {
        let path = choose|path: Seq<usize>| crate::outside::is_path(graph_edges(g), path) && path[0] == from && path.last() == to;
        assert forall|i: int| 0 <= i < path.len() - 1 implies #[trigger] transition_edge(fsm, path[i], path[i + 1]) by {
            assert(graph_edges(g).contains((path[i], path[i + 1])));
        }
        assert(is_transition_path(fsm, path));
    }
    if state_reachable(fsm, from, to) {
        let path = choose|path: Seq<usize>| #[trigger] is_transition_path(fsm, path) && path[0] == from && path.last() == to;
        assert forall|i: int| 0 <= i < path.len() - 1 implies #[trigger] graph_edges(g).contains((path[i], path[i + 1])) by {
            assert(transition_edge(fsm, path[i], path[i + 1]));
        }
        assert(crate::outside::is_path(graph_edges(g), path));
    }
}

/// A property that holds of some natural number holds of a least one.
pub proof fn lemma_least(p: spec_fn(int) -> bool, n: int)
    requires
        0 <= n,
        p(n),
    ensures
        exists|m: int| #![trigger p(m)] 0 <= m <= n && p(m) && forall|k: int| 0 <= k < m ==> !#[trigger] p(k),
    decreases n,
{
    if exists|k: int| 0 <= k < n && #[trigger] p(k) {
        let k = choose|k: int| 0 <= k < n && #[trigger] p(k);
        lemma_least(p, k);
    } else {
        assert(forall|k: int| 0 <= k < n ==> !#[trigger] p(k));
    }
}

/// Over a graph that holds exactly the transitions, reachability along its
/// edges is reachability by transitions.
proof fn lemma_unreachable_along_transitions(fsm: FsmStructure, g: StateGraph, init: usize)
    requires
        forall|a: usize, b: usize| #[trigger] graph_edges(g).contains((a, b)) <==> transition_edge(fsm, a, b),
    ensures
        forall|i: int|
            #![trigger unreachable_along(fsm, graph_edges(g), init, i)]
            #![trigger unreachable_at(fsm, init as int, i)]
            unreachable_along(fsm, graph_edges(g), init, i) <==> unreachable_at(fsm, init as int, i),
        forall|i: int|
            #[trigger] is_first_unreachable_along(fsm, graph_edges(g), init, i) <==> is_first_unreachable(fsm, init as int, i),
{
    assert forall|i: int|
        #![trigger unreachable_along(fsm, graph_edges(g), init, i)]
        #![trigger unreachable_at(fsm, init as int, i)]
        unreachable_along(fsm, graph_edges(g), init, i) <==> unreachable_at(fsm, init as int, i) by {
        if 0 <= i < fsm.states.len() {
            lemma_graph_reachability(fsm, g, init, node_of(fsm, fsm.states@[i].name@)->Some_0 as usize);
        }
    }
}

/// Every edge of `after` that is not in `before` is a transition, read by
/// membership.
proof fn lemma_edge_origin(
    fsm: FsmStructure,
    timed: Seq<String>,
    before: Seq<(usize, usize)>,
    after: Seq<(usize, usize)>,
)
    requires
        forall|i: int|
            0 <= i < after.len() ==> before.contains(after[i]) || #[trigger] transition_edge_in(fsm, timed, after[i].0, after[i].1),
    ensures
        forall|a: usize, b: usize| #[trigger] after.contains((a, b)) ==> before.contains((a, b)) || transition_edge_in(fsm, timed, a, b),
{
    assert forall|a: usize, b: usize| #[trigger] after.contains((a, b)) implies before.contains((a, b)) || transition_edge_in(fsm, timed, a, b) by {
        let i = choose|i: int| 0 <= i < after.len() && after[i] == (a, b);
        assert(before.contains(after[i]) || transition_edge_in(fsm, timed, after[i].0, after[i].1));
    }
}

/// Whether `x` occurs in `v`.
fn contains_index(v: &Vec<usize>, x: usize) -> (b: bool)
    ensures
        b == v@.contains(x),
{
    let mut i: usize = 0;
    while i < v.len()
        invariant
            i <= v.len(),
            forall|k: int| 0 <= k < i ==> v@[k] != x,
        decreases v.len() - i,
    {
        if v[i] == x {
            return true;
        }
        i += 1;
    }
    false
}

/// A state's timeout as first declared, with the declaring handler.
struct TimeoutDecl {
    state: String,
    timeout: Timeout,
    handler: usize,
}

/// The position of the entry for the state named like `name`, if any.
fn find_decl(decls: &Vec<TimeoutDecl>, name: &String) -> (found: Option<usize>)
    ensures
        found is None ==> forall|k: int| 0 <= k < decls.len() ==> (#[trigger] decls@[k]).state@ != name@,
        found matches Some(k) ==> k < decls.len() && decls@[k as int].state@ == name@,
{
    let mut e: usize = 0;
    while e < decls.len()
        invariant
            e <= decls.len(),
            forall|k: int| 0 <= k < e ==> (#[trigger] decls@[k]).state@ != name@,
        decreases decls.len() - e,
    {
        if decls[e].state == *name {
            return Some(e);
        }
        e += 1;
    }
    None
}

impl FsmStructure {
    /// Checks that there is at most one `#[on_timeout]` handler, and tells
    /// whether there is one.
    pub fn validate_timeout_contract(&self) -> (r: Result<bool, FsmError>)
        ensures
            r == timeout_contract_result(*self),
    {
        let mut first: Option<usize> = None;
        let mut i: usize = 0;
        while i < self.handlers.len()
            invariant
                i <= self.handlers.len(),
                first matches Some(f) ==> f < i && is_timeout_handler_at(*self, f as int) && forall|k: int|
                    0 <= k < i && k != f ==> !#[trigger] is_timeout_handler_at(*self, k),
                first is None ==> forall|k: int| 0 <= k < i ==> !#[trigger] is_timeout_handler_at(*self, k),
            decreases self.handlers.len() - i,
        {
            if self.handlers[i].is_timeout_handler {
                if let Some(f) = first {
                    proof {
                        let fsm = *self;
                        assert(is_timeout_handler_at(fsm, f as int));
                        assert(is_second_timeout_handler(fsm, i as int));
                        assert forall|j: int| #[trigger] is_second_timeout_handler(fsm, j) implies j == i by {
                            let i2 = choose|i2: int|
                                #![trigger is_timeout_handler_at(fsm, i2)]
                                0 <= i2 < j && is_timeout_handler_at(fsm, i2) && forall|k: int|
                                    0 <= k < j && k != i2 ==> !#[trigger] is_timeout_handler_at(fsm, k);
                            if j < i {
                                assert(is_timeout_handler_at(fsm, j));
                                assert(is_timeout_handler_at(fsm, i2));
                            } else if j > i {
                                assert(is_timeout_handler_at(fsm, i as int));
                                assert(is_timeout_handler_at(fsm, f as int));
                            }
                        }
                    }
                    return Err(FsmError::MultipleTimeoutHandlers { handler: self.handlers[i].method_name.clone() });
                }
                first = Some(i);
            }
            i += 1;
        }
        proof {
            let fsm = *self;
            assert forall|j: int| !#[trigger] is_second_timeout_handler(fsm, j) by {
                if is_second_timeout_handler(fsm, j) {
                    let i2 = choose|i2: int|
                        #![trigger is_timeout_handler_at(fsm, i2)]
                        0 <= i2 < j && is_timeout_handler_at(fsm, i2) && forall|k: int|
                            0 <= k < j && k != i2 ==> !#[trigger] is_timeout_handler_at(fsm, k);
                    assert(is_timeout_handler_at(fsm, j));
                    assert(is_timeout_handler_at(fsm, i2));
                }
            }
            if first is Some {
                assert(is_timeout_handler_at(fsm, first->Some_0 as int));
            }
        }
        Ok(first.is_some())
    }

    /// Collects the states that arm a timeout; a `#[state_timeout]` without
    /// an `#[on_timeout]` handler is refused.
    pub fn identify_states_with_timeout(&self, has_timeout_handler: bool) -> (r: Result<Vec<String>, FsmError>)
        ensures
            match r {
                Ok(v) => timed_states_result(*self, has_timeout_handler) == Ok::<Seq<String>, FsmError>(v@),
                Err(e) => timed_states_result(*self, has_timeout_handler) == Err::<Seq<String>, FsmError>(e),
            },
    {
        let ghost fsm = *self;
        let ghost hs = self.handlers@;
        let mut states: Vec<String> = Vec::new();
        let mut i: usize = 0;
        while i < self.handlers.len()
            invariant
                fsm == *self,
                hs == self.handlers@,
                i <= self.handlers.len(),
                states@ == dedup_names(timed_targets_upto(hs, i as int)),
                !has_timeout_handler ==> forall|k: int| 0 <= k < i ==> !#[trigger] has_timeout_at(fsm, k),
            decreases self.handlers.len() - i,
        {
            let handler = &self.handlers[i];
            if handler.timeout.is_some() {
                if !has_timeout_handler {
                    proof {
                        assert(is_first_timed_handler(fsm, i as int));
                        assert forall|j: int| #[trigger] is_first_timed_handler(fsm, j) implies j == i by {
                            if j < i {
                                assert(has_timeout_at(fsm, j));
                            } else if j > i {
                                assert(has_timeout_at(fsm, i as int));
                            }
                        }
                    }
                    return Err(FsmError::StateTimeoutWithoutHandler { handler: handler.method_name.clone() });
                }
                let mut t: usize = 0;
                while t < handler.return_states.len()
                    invariant
                        fsm == *self,
                        hs == self.handlers@,
                        i < self.handlers.len(),
                        handler == &self.handlers@[i as int],
                        handler.timeout is Some,
                        t <= handler.return_states.len(),
                        states@ == dedup_names(timed_targets_upto(hs, i as int) + target_names(*handler).take(t as int)),
                    decreases handler.return_states.len() - t,
                {
                    proof {
                        let pre = timed_targets_upto(hs, i as int) + target_names(*handler).take(t as int);
                        let nxt = timed_targets_upto(hs, i as int) + target_names(*handler).take(t + 1);
                        assert(target_names(*handler).take(t + 1) == target_names(*handler).take(t as int).push(
                            handler.return_states@[t as int].name,
                        ));
                        assert(nxt == pre.push(handler.return_states@[t as int].name));
                        assert(nxt.drop_last() == pre);
                    }
                    push_name_once(&mut states, &handler.return_states[t].name);
                    t += 1;
                }
                proof {
                    assert(target_names(*handler).take(t as int) == target_names(*handler));
                    assert(timed_targets_upto(hs, i + 1) == timed_targets_upto(hs, i as int) + target_names(hs[i as int]));
                }
            } else {
                proof {
                    assert(timed_targets_upto(hs, i + 1) == timed_targets_upto(hs, i as int));
                }
            }
            i += 1;
        }
        Ok(states)
    }
    /// Checks that no state gets two different timeout durations.
    pub fn validate_state_timeout_consistency(&self) -> (r: Result<(), FsmError>)
        ensures
            r == timeout_consistency_result(*self),
    {
        let ghost fsm = *self;
        let mut decls: Vec<TimeoutDecl> = Vec::new();
        let mut j: usize = 0;
        while j < self.handlers.len()
            invariant
                fsm == *self,
                j <= self.handlers.len(),
                // each entry records the first declaration of its state
                forall|e: int| 0 <= e < decls.len() ==> {
                    let d = #[trigger] decls@[e];
                    &&& d.handler < j
                    &&& is_first_declarer(fsm, d.handler as int, d.state@)
                    &&& fsm.handlers@[d.handler as int].timeout == Some(d.timeout)
                },
                // every declaration so far has an entry
                forall|i: int, x: Seq<char>| 0 <= i < j && #[trigger] declares_timeout(fsm, i, x) ==>
                    exists|e: int| 0 <= e < decls.len() && (#[trigger] decls@[e]).state@ == x,
                // every declaration so far agrees with its entry
                forall|e: int, i: int| 0 <= e < decls.len() && 0 <= i < j && #[trigger] declares_timeout(fsm, i, (#[trigger] decls@[e]).state@) ==>
                    fsm.handlers@[i].timeout == Some(decls@[e].timeout),
                forall|j2: int, t2: int| j2 < j ==> !#[trigger] conflict_at(fsm, j2, t2),
            decreases self.handlers.len() - j,
        {
            let handler = &self.handlers[j];
            if let Some(timeout) = handler.timeout {
                let mut t: usize = 0;
                while t < handler.return_states.len()
                    invariant
                        fsm == *self,
                        j < self.handlers.len(),
                        handler == &self.handlers@[j as int],
                        handler.timeout == Some(timeout),
                        t <= handler.return_states.len(),
                        forall|e: int| 0 <= e < decls.len() ==> {
                            let d = #[trigger] decls@[e];
                            &&& d.handler <= j
                            &&& is_first_declarer(fsm, d.handler as int, d.state@)
                            &&& fsm.handlers@[d.handler as int].timeout == Some(d.timeout)
                        },
                        forall|i: int, x: Seq<char>| 0 <= i < j && #[trigger] declares_timeout(fsm, i, x) ==>
                            exists|e: int| 0 <= e < decls.len() && (#[trigger] decls@[e]).state@ == x,
                        forall|t1: int| 0 <= t1 < t ==>
                            exists|e: int| 0 <= e < decls.len() && (#[trigger] decls@[e]).state@ == (#[trigger] target_name(fsm, j as int, t1))@,
                        forall|e: int, i: int| 0 <= e < decls.len() && 0 <= i < j && #[trigger] declares_timeout(fsm, i, (#[trigger] decls@[e]).state@) ==>
                            fsm.handlers@[i].timeout == Some(decls@[e].timeout),
                        forall|e: int, t1: int| 0 <= e < decls.len() && 0 <= t1 < t && (#[trigger] decls@[e]).state@ == (#[trigger] target_name(fsm, j as int, t1))@ ==>
                            timeout == decls@[e].timeout,
                        forall|j2: int, t2: int| (j2 < j || (j2 == j && t2 < t)) ==> !#[trigger] conflict_at(fsm, j2, t2),
                    decreases handler.return_states.len() - t,
                {
                    let name = &handler.return_states[t].name;
                    let found = find_decl(&decls, name);
                    assert(name == target_name(fsm, j as int, t as int));
                    match found {
                        Some(k) => {
                            if decls[k].timeout != timeout {
                                let ghost d = decls@[k as int];
                                proof {
                                    assert(d.handler != j);
                                    assert(has_name(target_names(fsm.handlers@[d.handler as int]), name@));
                                    assert(declares_timeout(fsm, d.handler as int, name@));
                                    assert(conflict_at(fsm, j as int, t as int));
                                    assert(is_first_conflict(fsm, j as int, t as int));
                                    assert forall|j3: int, t3: int| #[trigger] is_first_conflict(fsm, j3, t3) implies j3 == j && t3 == t by {
                                        if j3 < j || (j3 == j && t3 < t) {
                                            assert(conflict_at(fsm, j3, t3));
                                        } else if j3 > j || (j3 == j && t3 > t) {
                                            assert(conflict_at(fsm, j as int, t as int));
                                        }
                                    }
                                    assert forall|i3: int| #[trigger] is_first_declarer(fsm, i3, name@) implies i3 == d.handler by {
                                        if i3 < d.handler {
                                            assert(declares_timeout(fsm, i3, name@));
                                        } else if i3 > d.handler {
                                            assert(declares_timeout(fsm, d.handler as int, name@));
                                        }
                                    }
                                }
                                return Err(
                                    FsmError::ConflictingTimeouts {
                                        state: name.clone(),
                                        first_handler: self.handlers[decls[k].handler].method_name.clone(),
                                        second_handler: handler.method_name.clone(),
                                    },
                                );
                            }
                            proof {
                                assert(!conflict_at(fsm, j as int, t as int)) by {
                                    if conflict_at(fsm, j as int, t as int) {
                                        let i = choose|i: int|
                                            0 <= i < j && #[trigger] declares_timeout(fsm, i, target_name(fsm, j as int, t as int)@)
                                                && fsm.handlers@[i].timeout != fsm.handlers@[j as int].timeout;
                                        assert(declares_timeout(fsm, i, decls@[k as int].state@));
                                    }
                                }
                            }
                        },
                        None => {
                            let ghost old_decls = decls@;
                            proof {
                                assert(!conflict_at(fsm, j as int, t as int)) by {
                                    if conflict_at(fsm, j as int, t as int) {
                                        let i = choose|i: int|
                                            0 <= i < j && #[trigger] declares_timeout(fsm, i, target_name(fsm, j as int, t as int)@)
                                                && fsm.handlers@[i].timeout != fsm.handlers@[j as int].timeout;
                                        let e2 = choose|e2: int| 0 <= e2 < decls.len() && (#[trigger] decls@[e2]).state@ == name@;
                                    }
                                }
                                assert(declares_timeout(fsm, j as int, name@)) by {
                                    assert(target_names(*handler)[t as int] == *name);
                                }
                                assert forall|k: int| 0 <= k < j implies !#[trigger] declares_timeout(fsm, k, name@) by {
                                    if declares_timeout(fsm, k, name@) {
                                        let e2 = choose|e2: int| 0 <= e2 < decls.len() && (#[trigger] decls@[e2]).state@ == name@;
                                    }
                                }
                            }
                            decls.push(TimeoutDecl { state: name.clone(), timeout, handler: j });
                            proof {
                                assert(decls@[old_decls.len() as int].state@ == name@);
                                assert forall|i: int, x: Seq<char>| 0 <= i < j && #[trigger] declares_timeout(fsm, i, x) implies
                                    exists|e: int| 0 <= e < decls.len() && (#[trigger] decls@[e]).state@ == x by {
                                    let e2 = choose|e2: int| 0 <= e2 < old_decls.len() && (#[trigger] old_decls[e2]).state@ == x;
                                    assert(decls@[e2] == old_decls[e2]);
                                }
                                assert forall|t1: int| 0 <= t1 < t + 1 implies
                                    exists|e: int| 0 <= e < decls.len() && (#[trigger] decls@[e]).state@ == (#[trigger] target_name(fsm, j as int, t1))@ by {
                                    if t1 < t {
                                        let e2 = choose|e2: int| 0 <= e2 < old_decls.len() && (#[trigger] old_decls[e2]).state@ == target_name(fsm, j as int, t1)@;
                                        assert(decls@[e2] == old_decls[e2]);
                                    } else {
                                        assert(decls@[old_decls.len() as int].state@ == target_name(fsm, j as int, t1)@);
                                    }
                                }
                            }
                        },
                    }
                    t += 1;
                }
                proof {
                    assert forall|i: int, x: Seq<char>| 0 <= i < j + 1 && #[trigger] declares_timeout(fsm, i, x) implies
                        exists|e: int| 0 <= e < decls.len() && (#[trigger] decls@[e]).state@ == x by {
                        if i == j {
                            let t1 = choose|t1: int| 0 <= t1 < target_names(fsm.handlers@[i]).len() && #[trigger] target_names(fsm.handlers@[i])[t1]@ == x;
                            assert(target_name(fsm, j as int, t1)@ == x);
                        }
                    }
                    assert forall|e: int, i: int| 0 <= e < decls.len() && 0 <= i < j + 1 && #[trigger] declares_timeout(fsm, i, (#[trigger] decls@[e]).state@) implies
                        fsm.handlers@[i].timeout == Some(decls@[e].timeout) by {
                        if i == j {
                            let x = decls@[e].state@;
                            let t1 = choose|t1: int| 0 <= t1 < target_names(fsm.handlers@[i]).len() && #[trigger] target_names(fsm.handlers@[i])[t1]@ == x;
                            assert(target_name(fsm, j as int, t1)@ == x);
                        }
                    }
                    assert forall|j2: int, t2: int| j2 < j + 1 implies !#[trigger] conflict_at(fsm, j2, t2) by {
                        if j2 == j && t2 >= t {
                            assert(!(0 <= t2 < fsm.handlers@[j2].return_states.len()));
                        }
                    }
                }
            } else {
                proof {
                    assert forall|j2: int, t2: int| j2 < j + 1 implies !#[trigger] conflict_at(fsm, j2, t2) by {
                        if j2 == j {
                            assert(!has_timeout_at(fsm, j2));
                        }
                    }
                    assert forall|i: int, x: Seq<char>| 0 <= i < j + 1 && #[trigger] declares_timeout(fsm, i, x) implies
                        exists|e: int| 0 <= e < decls.len() && (#[trigger] decls@[e]).state@ == x by {
                        if i == j {
                            assert(!has_timeout_at(fsm, i));
                        }
                    }
                }
            }
            j += 1;
        }
        proof {
            assert forall|j2: int, t2: int| !#[trigger] is_first_conflict(fsm, j2, t2) by {
                if j2 >= fsm.handlers.len() {
                    assert(!has_timeout_at(fsm, j2));
                }
            }
        }
        Ok(())
    }
    /// The graph node of the state named `name`: the index of the last state
    /// with that name.
    fn find_node(&self, name: &String) -> (r: Option<usize>)
        ensures
            match r {
                Some(n) => node_of(*self, name@) == Some(n as int),
                None => node_of(*self, name@) is None,
            },
    {
        let ghost fsm = *self;
        let mut i: usize = self.states.len();
        while i > 0
            invariant
                fsm == *self,
                i <= self.states.len(),
                last_state_index(fsm.states@, name@, fsm.states.len() as int) == last_state_index(
                    fsm.states@,
                    name@,
                    i as int,
                ),
            decreases i,
        {
            if self.states[i - 1].name == *name {
                return Some(i - 1);
            }
            i -= 1;
        }
        None
    }

    /// Adds the transitions of every handler to `graph`, where the states
    /// `timed` arm a timeout: for each target, an edge from each state the
    /// handler fires from. Node `i` of `graph` stands for state `i`.
    pub fn build_reachability_graph(&self, graph: &mut StateGraph, timed: &Vec<String>) -> (r: Result<(), FsmError>)
        requires
            self.states.len() <= graph_nodes(*old(graph)).len(),
        ensures
            graph_nodes(*final(graph)) == graph_nodes(*old(graph)),
            r is Err <==> exists|h: int| is_first_edge_error_in(*self, timed@, h),
            r matches Err(e) ==> e == handler_edge_error_in(*self, timed@, choose|h: int| is_first_edge_error_in(*self, timed@, h))->Some_0,
            forall|a: usize, b: usize|
                #[trigger] graph_edges(*final(graph)).contains((a, b)) ==> graph_edges(*old(graph)).contains((a, b))
                    || transition_edge_in(*self, timed@, a, b),
            r is Ok ==> forall|a: usize, b: usize|
                #[trigger] graph_edges(*final(graph)).contains((a, b)) <==> (graph_edges(*old(graph)).contains((a, b))
                    || transition_edge_in(*self, timed@, a, b)),
    {
        let ghost fsm = *self;
        let ghost nodes = graph_nodes(*graph);
        let mut h: usize = 0;
        while h < self.handlers.len()
            invariant
                fsm == *self,
                h <= self.handlers.len(),
                graph_nodes(*graph) == nodes,
                nodes == graph_nodes(*old(graph)),
                fsm.states.len() <= nodes.len(),
                forall|k: int| 0 <= k < h ==> #[trigger] handler_edge_error_in(fsm, timed@, k) is None,
                forall|i: int| 0 <= i < graph_edges(*graph).len() ==> graph_edges(*old(graph)).contains(graph_edges(*graph)[i])
                    || #[trigger] transition_edge_in(fsm, timed@, graph_edges(*graph)[i].0, graph_edges(*graph)[i].1),
                forall|e: (usize, usize)| #[trigger] graph_edges(*old(graph)).contains(e) ==> graph_edges(*graph).contains(e),
                forall|h2: int, a: usize, b: usize| 0 <= h2 < h && #[trigger] target_node(fsm, h2, b) && #[trigger] source_node_in(fsm, timed@, h2, a) ==>
                    graph_edges(*graph).contains((a, b)),
            decreases self.handlers.len() - h,
        {
            let handler = &self.handlers[h];
            let sources: &Vec<String> = if handler.is_timeout_handler { timed } else { &handler.source_states };
            assert(sources@ == handler_sources_in(fsm, timed@, h as int));
            let mut t: usize = 0;
            while t < handler.return_states.len()
                invariant
                    fsm == *self,
                    h < self.handlers.len(),
                    handler == &self.handlers@[h as int],
                    sources@ == handler_sources_in(fsm, timed@, h as int),
                    t <= handler.return_states.len(),
                    graph_nodes(*graph) == nodes,
                    nodes == graph_nodes(*old(graph)),
                    fsm.states.len() <= nodes.len(),
                    forall|k: int| 0 <= k < h ==> #[trigger] handler_edge_error_in(fsm, timed@, k) is None,
                    forall|t2: int| 0 <= t2 < t ==> !missing(fsm, #[trigger] target_name(fsm, h as int, t2)@),
                    t > 0 ==> !any_missing(fsm, sources@),
                    forall|i: int| 0 <= i < graph_edges(*graph).len() ==> graph_edges(*old(graph)).contains(graph_edges(*graph)[i])
                        || #[trigger] transition_edge_in(fsm, timed@, graph_edges(*graph)[i].0, graph_edges(*graph)[i].1),
                    forall|e: (usize, usize)| #[trigger] graph_edges(*old(graph)).contains(e) ==> graph_edges(*graph).contains(e),
                    forall|h2: int, a: usize, b: usize| 0 <= h2 < h && #[trigger] target_node(fsm, h2, b) && #[trigger] source_node_in(fsm, timed@, h2, a) ==>
                        graph_edges(*graph).contains((a, b)),
                    forall|t2: int, k: int| #![trigger target_name(fsm, h as int, t2), sources@[k]] 0 <= t2 < t && 0 <= k < sources@.len() ==>
                        graph_edges(*graph).contains(
                            (
                                node_of(fsm, sources@[k]@)->Some_0 as usize,
                                node_of(fsm, (target_name(fsm, h as int, t2))@)->Some_0 as usize,
                            ),
                        ),
                decreases handler.return_states.len() - t,
            {
                let target = &handler.return_states[t].name;
                assert(*target == target_name(fsm, h as int, t as int));
                assert(target_names(*handler)[t as int] == *target);
                let tgt = match self.find_node(target) {
                    Some(n) => n,
                    None => {
                        proof {
                            if t > 0 {
                                assert(!missing(fsm, target_name(fsm, h as int, 0)@));
                                assert(target_names(*handler)[0] == target_name(fsm, h as int, 0));
                                assert forall|k2: int| 0 <= k2 < t implies !missing(fsm, #[trigger] target_names(*handler)[k2]@) by {
                                    assert(target_names(*handler)[k2] == target_name(fsm, h as int, k2));
                                }
                                assert(is_first_missing(fsm, target_names(*handler), t as int));
                                assert forall|k: int| #[trigger] is_first_missing(fsm, target_names(*handler), k) implies k == t by {
                                    if k < t {
                                        assert(target_names(*handler)[k] == target_name(fsm, h as int, k));
                                    } else if k > t {
                                        assert(target_names(*handler)[t as int] == target_name(fsm, h as int, t as int));
                                    }
                                }
                            }
                            self.lemma_first_edge_error_at(timed@, h as int);
                            lemma_edge_origin(fsm, timed@, graph_edges(*old(graph)), graph_edges(*graph));
                        }
                        return Err(FsmError::TargetStateNotFound { state: target.clone() });
                    },
                };
                let mut k: usize = 0;
                while k < sources.len()
                    invariant
                        fsm == *self,
                        h < self.handlers.len(),
                        handler == &self.handlers@[h as int],
                        sources@ == handler_sources_in(fsm, timed@, h as int),
                        t < handler.return_states.len(),
                        k <= sources.len(),
                        node_of(fsm, target_name(fsm, h as int, t as int)@) == Some(tgt as int),
                        graph_nodes(*graph) == nodes,
                        nodes == graph_nodes(*old(graph)),
                        fsm.states.len() <= nodes.len(),
                        forall|k: int| 0 <= k < h ==> #[trigger] handler_edge_error_in(fsm, timed@, k) is None,
                        forall|t2: int| 0 <= t2 < t ==> !missing(fsm, #[trigger] target_name(fsm, h as int, t2)@),
                        t > 0 ==> !any_missing(fsm, sources@),
                        forall|k2: int| 0 <= k2 < k ==> !missing(fsm, #[trigger] sources@[k2]@),
                        forall|i: int| 0 <= i < graph_edges(*graph).len() ==> graph_edges(*old(graph)).contains(graph_edges(*graph)[i])
                            || #[trigger] transition_edge_in(fsm, timed@, graph_edges(*graph)[i].0, graph_edges(*graph)[i].1),
                        forall|e: (usize, usize)| #[trigger] graph_edges(*old(graph)).contains(e) ==> graph_edges(*graph).contains(e),
                        forall|h2: int, a: usize, b: usize| 0 <= h2 < h && #[trigger] target_node(fsm, h2, b) && #[trigger] source_node_in(fsm, timed@, h2, a) ==>
                            graph_edges(*graph).contains((a, b)),
                        forall|t2: int, k2: int| #![trigger target_name(fsm, h as int, t2), sources@[k2]] 0 <= t2 < t && 0 <= k2 < sources@.len() ==>
                            graph_edges(*graph).contains(
                                (
                                    node_of(fsm, sources@[k2]@)->Some_0 as usize,
                                    node_of(fsm, (target_name(fsm, h as int, t2))@)->Some_0 as usize,
                                ),
                            ),
                        forall|k2: int| 0 <= k2 < k ==>
                            graph_edges(*graph).contains(
                                (node_of(fsm, (#[trigger] sources@[k2])@)->Some_0 as usize, tgt),
                            ),
                    decreases sources.len() - k,
                {
                    let src = match self.find_node(&sources[k]) {
                        Some(n) => n,
                        None => {
                            proof {
                                assert(t == 0);
                                assert(target_names(*handler)[0] == target_name(fsm, h as int, 0));
                                assert(any_missing(fsm, sources@));
                                assert(is_first_missing(fsm, sources@, k as int));
                                assert forall|k3: int| #[trigger] is_first_missing(fsm, sources@, k3) implies k3 == k by {
                                    if k3 > k {
                                        assert(missing(fsm, sources@[k as int]@));
                                    }
                                }
                                self.lemma_first_edge_error_at(timed@, h as int);
                                lemma_edge_origin(fsm, timed@, graph_edges(*old(graph)), graph_edges(*graph));
                            }
                            if handler.is_timeout_handler {
                                return Err(FsmError::TimeoutSourceNotFound { state: sources[k].clone() });
                            } else {
                                return Err(FsmError::SourceStateNotFound { state: sources[k].clone() });
                            }
                        },
                    };
                    proof {
                        lemma_last_state_index(fsm.states@, sources@[k as int]@, fsm.states.len() as int);
                        lemma_last_state_index(fsm.states@, target_name(fsm, h as int, t as int)@, fsm.states.len() as int);
                        assert(source_node_in(fsm, timed@, h as int, src));
                        assert(target_node(fsm, h as int, tgt));
                        assert(transition_edge_in(fsm, timed@, src, tgt));
                    }
                    let ghost old_edges = graph_edges(*graph);
                    graph_add_edge(graph, src, tgt);
                    proof {
                        assert forall|i: int| 0 <= i < graph_edges(*graph).len() implies graph_edges(*old(graph)).contains(graph_edges(*graph)[i])
                            || #[trigger] transition_edge_in(fsm, timed@, graph_edges(*graph)[i].0, graph_edges(*graph)[i].1) by {
                            if i < old_edges.len() {
                                assert(graph_edges(*graph)[i] == old_edges[i]);
                            }
                        }
                        assert forall|e: (usize, usize)| old_edges.contains(e) implies graph_edges(*graph).contains(e) by {
                            let i = choose|i: int| 0 <= i < old_edges.len() && old_edges[i] == e;
                            assert(graph_edges(*graph)[i] == e);
                        }
                        assert(graph_edges(*graph)[old_edges.len() as int] == (src, tgt));
                    }
                    k += 1;
                }
                proof {
                    assert(!any_missing(fsm, sources@));
                    assert forall|t2: int, k2: int| #![trigger target_name(fsm, h as int, t2), sources@[k2]] 0 <= t2 < t + 1 && 0 <= k2 < sources@.len() implies
                        graph_edges(*graph).contains(
                            (
                                node_of(fsm, sources@[k2]@)->Some_0 as usize,
                                node_of(fsm, (target_name(fsm, h as int, t2))@)->Some_0 as usize,
                            ),
                        ) by {
                        if t2 == t {
                            assert(graph_edges(*graph).contains(
                                (node_of(fsm, sources@[k2]@)->Some_0 as usize, tgt),
                            ));
                        }
                    }
                }
                t += 1;
            }
            proof {
                assert(handler_edge_error_in(fsm, timed@, h as int) is None) by {
                    if t > 0 {
                        assert(target_names(*handler)[0] == target_name(fsm, h as int, 0));
                        assert forall|t2: int| 0 <= t2 < target_names(*handler).len() implies !missing(fsm, #[trigger] target_names(*handler)[t2]@) by {
                            assert(target_names(*handler)[t2] == target_name(fsm, h as int, t2));
                        }
                    }
                }
                assert forall|a: usize, b: usize| #[trigger] target_node(fsm, h as int, b) && #[trigger] source_node_in(fsm, timed@, h as int, a) implies
                    graph_edges(*graph).contains((a, b)) by {
                    let t2 = choose|t2: int|
                        0 <= t2 < fsm.handlers@[h as int].return_states.len() && #[trigger] node_of(fsm, target_name(fsm, h as int, t2)@) == Some(b as int);
                    let k2 = choose|k2: int|
                        0 <= k2 < handler_sources_in(fsm, timed@, h as int).len() && #[trigger] node_of(fsm, handler_sources_in(fsm, timed@, h as int)[k2]@) == Some(a as int);
                    assert(graph_edges(*graph).contains(
                        (
                            node_of(fsm, sources@[k2]@)->Some_0 as usize,
                            node_of(fsm, (target_name(fsm, h as int, t2))@)->Some_0 as usize,
                        ),
                    ));
                }
            }
            h += 1;
        }
        proof {
            assert forall|h2: int| !#[trigger] is_first_edge_error_in(fsm, timed@, h2) by {
                if 0 <= h2 < fsm.handlers.len() {
                    assert(handler_edge_error_in(fsm, timed@, h2) is None);
                }
            }
            lemma_edge_origin(fsm, timed@, graph_edges(*old(graph)), graph_edges(*graph));
            assert forall|a: usize, b: usize| #[trigger] transition_edge_in(fsm, timed@, a, b) implies graph_edges(*graph).contains((a, b)) by {
                let h2 = choose|h2: int| 0 <= h2 < fsm.handlers.len() && #[trigger] target_node(fsm, h2, b) && source_node_in(fsm, timed@, h2, a);
            }
        }
        Ok(())
    }

    /// When handler `h` runs into an error and all earlier handlers do not,
    /// it is the one the validation names.
    proof fn lemma_first_edge_error_at(&self, timed: Seq<String>, h: int)
        requires
            0 <= h < self.handlers.len(),
            handler_edge_error_in(*self, timed, h) is Some,
            forall|k: int| 0 <= k < h ==> #[trigger] handler_edge_error_in(*self, timed, k) is None,
        ensures
            is_first_edge_error_in(*self, timed, h),
            (choose|h2: int| is_first_edge_error_in(*self, timed, h2)) == h,
    {
        assert(is_first_edge_error_in(*self, timed, h));
        assert forall|h2: int| #[trigger] is_first_edge_error_in(*self, timed, h2) implies h2 == h by {
            if h2 < h {
                assert(handler_edge_error_in(*self, timed, h2) is None);
            } else if h2 > h {
                assert(handler_edge_error_in(*self, timed, h) is Some);
            }
        }
    }
    /// Checks that every state can be reached from node `initial_node` along
    /// the edges of `graph`, with a depth-first search; node `i` of `graph`
    /// stands for state `i`. The first state in order that cannot be reached
    /// is named.
    pub fn check_reachability(&self, graph: &StateGraph, initial_node: usize) -> (r: Result<(), FsmError>)
        requires
            initial_node < graph_nodes(*graph).len(),
        ensures
            r == (if exists|i: int| unreachable_along(*self, graph_edges(*graph), initial_node, i) {
                let i = choose|i: int| is_first_unreachable_along(*self, graph_edges(*graph), initial_node, i);
                Err(FsmError::UnreachableState { state: self.states@[i].name, initial: self.initial_state })
            } else {
                Ok(())
            }),
    {
        let ghost fsm = *self;
        let ghost edges = graph_edges(*graph);
        let visited = graph_dfs(graph, initial_node);
        let mut i: usize = 0;
        while i < self.states.len()
            invariant
                fsm == *self,
                edges == graph_edges(*graph),
                i <= self.states.len(),
                forall|v: usize| #[trigger] visited@.contains(v) <==> reachable(edges, initial_node, v),
                forall|k: int| 0 <= k < i ==> !#[trigger] unreachable_along(fsm, edges, initial_node, k),
            decreases self.states.len() - i,
        {
            let name = &self.states[i].name;
            proof {
                lemma_last_state_index(fsm.states@, name@, fsm.states.len() as int);
            }
            let node = match self.find_node(name) {
                Some(n) => n,
                None => {
                    proof {
                        assert(fsm.states@[i as int].name@ == name@);
                    }
                    return Ok(());
                },
            };
            if !contains_index(&visited, node) {
                proof {
                    assert(unreachable_along(fsm, edges, initial_node, i as int));
                    assert forall|k: int| #[trigger] is_first_unreachable_along(fsm, edges, initial_node, k) implies k == i by {
                        if k < i {
                            assert(!unreachable_along(fsm, edges, initial_node, k));
                        } else if k > i {
                            assert(unreachable_along(fsm, edges, initial_node, i as int));
                        }
                    }
                    assert(is_first_unreachable_along(fsm, edges, initial_node, i as int));
                }
                return Err(
                    FsmError::UnreachableState { state: name.clone(), initial: self.initial_state.clone() },
                );
            }
            i += 1;
        }
        Ok(())
    }

    /// Validates the FSM graph: at most one `#[on_timeout]` handler, every
    /// `#[state_timeout]` backed by one, one timeout per state, every handler
    /// state known, and every state reachable from the initial state.
    pub fn validate(&self) -> (r: Result<(), FsmError>)
        ensures
            r == validate_result(*self),
    {
        let has_timeout_handler = match self.validate_timeout_contract() {
            Ok(b) => b,
            Err(e) => return Err(e),
        };
        let states_with_timeout = match self.identify_states_with_timeout(has_timeout_handler) {
            Ok(v) => v,
            Err(e) => return Err(e),
        };
        match self.validate_state_timeout_consistency() {
            Ok(()) => {},
            Err(e) => return Err(e),
        }
        let mut graph = graph_new();
        let mut i: usize = 0;
        while i < self.states.len()
            invariant
                i <= self.states.len(),
                graph_nodes(graph).len() == i,
                graph_edges(graph) == Seq::<(usize, usize)>::empty(),
            decreases self.states.len() - i,
        {
            graph_add_node(&mut graph, i);
            i += 1;
        }
        let initial_node = match self.find_node(&self.initial_state) {
            Some(n) => n,
            None => return Err(FsmError::InitialStateNotFound { state: self.initial_state.clone() }),
        };
        match self.build_reachability_graph(&mut graph, &states_with_timeout) {
            Ok(()) => {},
            Err(e) => return Err(e),
        }
        proof {
            assert forall|a: usize, b: usize| #[trigger] graph_edges(graph).contains((a, b)) <==> transition_edge(*self, a, b) by {}
            lemma_last_state_index(self.states@, self.initial_state@, self.states.len() as int);
        }
        let r = self.check_reachability(&graph, initial_node);
        proof {
            let fsm = *self;
            let init = initial_node as int;
            lemma_unreachable_along_transitions(fsm, graph, initial_node);
            if exists|i: int| unreachable_at(fsm, init, i) {
                let i0 = choose|i: int| unreachable_at(fsm, init, i);
                let p = |k: int| unreachable_at(fsm, init, k);
                lemma_least(p, i0);
                let m = choose|m: int| #![trigger p(m)] 0 <= m <= i0 && p(m) && forall|k: int| 0 <= k < m ==> !#[trigger] p(k);
                assert forall|k: int| 0 <= k < m implies !#[trigger] unreachable_at(fsm, init, k) by {
                    assert(!p(k));
                }
                assert(is_first_unreachable(fsm, init, m));
                assert forall|k: int| #[trigger] is_first_unreachable(fsm, init, k) implies k == m by {
                    if k < m {
                        assert(!unreachable_at(fsm, init, k));
                    } else if k > m {
                        assert(unreachable_at(fsm, init, m));
                    }
                }
                assert(unreachable_along(fsm, graph_edges(graph), initial_node, i0));
                assert(is_first_unreachable_along(fsm, graph_edges(graph), initial_node, m));
            }
        }
        r
    }
}

} // verus!
