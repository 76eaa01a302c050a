//! Properties of the FSM front end as a whole: what every validated and every
//! parsed structure satisfies, and how the model of the generated loop
//! dispatches events and treats handler outcomes.

use vstd::prelude::*;
use crate::codegen::{
    event_arms_upto, first_arms, handler_event_arms, handler_timeout_arms, has_arm_for, plan_agrees, timeout_arms_upto,
    is_first_timeout_handler, CodegenPlan, Dispatch, EventArm, TimeoutArm,
};
use crate::event_loop::{action_spec, has_matching_arm, is_first_matching_arm, is_first_timeout_arm, step_spec, timeout_for_spec, HandlerOutcome, LoopAction, LoopInput, LoopStep};
use crate::graph::{
    lemma_least, any_missing, conflict_at, declares_timeout, graph_result, handler_edge_error, handler_sources, has_timeout_at,
    has_timeout_handler, is_first_conflict, is_first_declarer, is_first_edge_error, is_first_unreachable, is_second_timeout_handler,
    is_timeout_handler_at, lemma_last_state_index, missing, node_of, state_reachable, target_name, target_names, timed_states,
    timed_states_result, timed_targets_upto, transition_edge,
    timeout_consistency_result, timeout_contract_result, unreachable_at, validate_result,
};
use crate::model::{FnArgShape, FsmArgs, FsmError, FsmStructure, Handler, ImplItemShape, ImplShape, MethodShape, TypeShape};
use crate::names::{dedup_names, has_name, lemma_dedup_names, names_distinct};
use crate::parser::{
    assoc_type, attr_named, discovered, events_upto, handler_matches, handler_outcome, handler_parse_agrees, has_event,
    impl_methods, is_first_event_named, is_first_item_error, item_error, mentioned_states, names_of_states, parse_agrees,
    parts, payload_of, same_payload, scan_attrs, type_text,
};

verus! {

/// In a validated FSM every state can be reached from the initial state.
pub proof fn lemma_valid_states_reachable(fsm: FsmStructure)
    requires
        validate_result(fsm) is Ok,
    ensures
        node_of(fsm, fsm.initial_state@) is Some,
        forall|i: int|
            0 <= i < fsm.states.len() ==> state_reachable(
                fsm,
                node_of(fsm, fsm.initial_state@)->Some_0 as usize,
                (#[trigger] node_of(fsm, fsm.states@[i].name@))->Some_0 as usize,
            ),
{
    let init = node_of(fsm, fsm.initial_state@)->Some_0;
    assert forall|i: int| 0 <= i < fsm.states.len() implies state_reachable(
        fsm,
        init as usize,
        (#[trigger] node_of(fsm, fsm.states@[i].name@))->Some_0 as usize,
    ) by {
        assert(!unreachable_at(fsm, init, i));
    }
}

/// A validated FSM has at most one `#[on_timeout]` handler.
pub proof fn lemma_valid_single_timeout_handler(fsm: FsmStructure, i: int, j: int)
    requires
        validate_result(fsm) is Ok,
        is_timeout_handler_at(fsm, i),
        is_timeout_handler_at(fsm, j),
    ensures
        i == j,
{
    if i != j {
        let p = |k: int| is_timeout_handler_at(fsm, k);
        lemma_least(p, if i < j { i } else { j });
        let f = choose|m: int| #![trigger p(m)] 0 <= m <= (if i < j { i } else { j }) && p(m) && forall|k: int| 0 <= k < m ==> !#[trigger] p(k);
        let other = if f == i { j } else { i };
        assert(other > f && is_timeout_handler_at(fsm, other));
        let q = |k: int| k > f && is_timeout_handler_at(fsm, k);
        lemma_least(q, other);
        let s = choose|m: int| #![trigger q(m)] 0 <= m <= other && q(m) && forall|k: int| 0 <= k < m ==> !#[trigger] q(k);
        assert forall|k: int| 0 <= k < s && k != f implies !#[trigger] is_timeout_handler_at(fsm, k) by {
            if k < f {
                assert(!p(k));
            } else {
                assert(!q(k));
            }
        }
        assert(is_second_timeout_handler(fsm, s));
        assert(timeout_contract_result(fsm) is Err);
    }
}

/// In a validated FSM a `#[state_timeout]` comes with an `#[on_timeout]`
/// handler.
pub proof fn lemma_valid_state_timeout_has_handler(fsm: FsmStructure, i: int)
    requires
        validate_result(fsm) is Ok,
        has_timeout_at(fsm, i),
    ensures
        has_timeout_handler(fsm),
{
    if !has_timeout_handler(fsm) {
        lemma_valid_timeout_contract_ok(fsm);
        assert(timed_states_result(fsm, false) is Err);
    }
}

proof fn lemma_valid_timeout_contract_ok(fsm: FsmStructure)
    requires
        validate_result(fsm) is Ok,
    ensures
        timeout_contract_result(fsm) == Ok::<bool, crate::model::FsmError>(has_timeout_handler(fsm)),
        timed_states_result(fsm, has_timeout_handler(fsm)) is Ok,
        timeout_consistency_result(fsm) is Ok,
        graph_result(fsm) is Ok,
{
}

/// In a validated FSM all handlers that arm a timeout for the same state arm
/// the same duration.
pub proof fn lemma_valid_timeouts_agree(fsm: FsmStructure, i: int, j: int, name: Seq<char>)
    requires
        validate_result(fsm) is Ok,
        declares_timeout(fsm, i, name),
        declares_timeout(fsm, j, name),
    ensures
        fsm.handlers@[i].timeout == fsm.handlers@[j].timeout,
{
    lemma_valid_timeout_contract_ok(fsm);
    if fsm.handlers@[i].timeout != fsm.handlers@[j].timeout {
        lemma_conflict_refused(fsm, i, j, name);
    }
}

/// Two handlers that arm different timeouts for one state make the timeout
/// check refuse the structure.
proof fn lemma_conflict_refused(fsm: FsmStructure, i: int, j: int, name: Seq<char>)
    requires
        timeouts_conflict(fsm, i, j, name),
    ensures
        timeout_consistency_result(fsm) is Err,
{
    let (lo, hi) = if i < j { (i, j) } else { (j, i) };
    assert(lo != hi);
    let t = choose|t: int| 0 <= t < crate::graph::target_names(fsm.handlers@[hi]).len() && #[trigger] crate::graph::target_names(fsm.handlers@[hi])[t]@ == name;
    assert(target_name(fsm, hi, t)@ == name);
    assert(conflict_at(fsm, hi, t));
    // the first conflict in handler-then-target order
    let p = |a: int| exists|b: int| #[trigger] conflict_at(fsm, a, b);
    lemma_least(p, hi);
    let j0 = choose|m: int| #![trigger p(m)] 0 <= m <= hi && p(m) && forall|k: int| 0 <= k < m ==> !#[trigger] p(k);
    let t1 = choose|b: int| #[trigger] conflict_at(fsm, j0, b);
    assert(0 <= t1);
    let q = |b: int| conflict_at(fsm, j0, b);
    lemma_least(q, t1);
    let t0 = choose|m: int| #![trigger q(m)] 0 <= m <= t1 && q(m) && forall|k: int| 0 <= k < m ==> !#[trigger] q(k);
    assert forall|j2: int, t2: int| (j2 < j0 || (j2 == j0 && t2 < t0)) implies !#[trigger] conflict_at(fsm, j2, t2) by {
        if j2 < j0 {
            if conflict_at(fsm, j2, t2) {
                if j2 >= 0 {
                    assert(p(j2));
                } else {
                    assert(!has_timeout_at(fsm, j2));
                }
            }
        } else {
            if t2 >= 0 {
                assert(!q(t2));
            }
        }
    }
    assert(is_first_conflict(fsm, j0, t0));
}

/// Handlers `i` and `j` both arm a timeout for the state `name`, with
/// different durations.
pub open spec fn timeouts_conflict(fsm: FsmStructure, i: int, j: int, name: Seq<char>) -> bool {
    &&& declares_timeout(fsm, i, name)
    &&& declares_timeout(fsm, j, name)
    &&& fsm.handlers@[i].timeout != fsm.handlers@[j].timeout
}

/// The timeout check refuses a structure exactly when two handlers arm
/// different timeouts for one state. It then names that state, the first
/// handler that arms a timeout for it, and a later handler whose timeout for
/// it differs from the first one's.
pub proof fn lemma_timeout_consistency(fsm: FsmStructure)
    ensures
        timeout_consistency_result(fsm) is Err <==> exists|i: int, j: int, name: Seq<char>| #[trigger] timeouts_conflict(fsm, i, j, name),
        match timeout_consistency_result(fsm) {
            Ok(()) => true,
            Err(FsmError::ConflictingTimeouts { state, first_handler, second_handler }) => exists|i: int, j: int|
                is_first_declarer(fsm, i, state@) && i < j && #[trigger] timeouts_conflict(fsm, i, j, state@)
                    && first_handler == fsm.handlers@[i].method_name && second_handler == fsm.handlers@[j].method_name,
            Err(_) => false,
        },
{
    if exists|i: int, j: int, name: Seq<char>| #[trigger] timeouts_conflict(fsm, i, j, name) {
        let (i, j, name) = choose|i: int, j: int, name: Seq<char>| #[trigger] timeouts_conflict(fsm, i, j, name);
        lemma_conflict_refused(fsm, i, j, name);
    }
    if timeout_consistency_result(fsm) is Err {
        let (j, t) = choose|j: int, t: int| is_first_conflict(fsm, j, t);
        let name = target_name(fsm, j, t);
        assert(conflict_at(fsm, j, t));
        let i1 = choose|i: int|
            0 <= i < j && #[trigger] declares_timeout(fsm, i, name@) && fsm.handlers@[i].timeout != fsm.handlers@[j].timeout;
        assert(target_names(fsm.handlers@[j])[t] == name);
        assert(declares_timeout(fsm, j, name@));
        let p = |k: int| declares_timeout(fsm, k, name@);
        lemma_least(p, i1);
        let m = choose|m: int| #![trigger p(m)] 0 <= m <= i1 && p(m) && forall|k: int| 0 <= k < m ==> !#[trigger] p(k);
        assert forall|k: int| 0 <= k < m implies !#[trigger] declares_timeout(fsm, k, name@) by {
            assert(!p(k));
        }
        assert(is_first_declarer(fsm, m, name@));
        let i0 = choose|i: int| is_first_declarer(fsm, i, name@);
        assert(i0 == m) by {
            if i0 < m {
                assert(!declares_timeout(fsm, i0, name@));
            } else if i0 > m {
                assert(declares_timeout(fsm, m, name@));
            }
        }
        if fsm.handlers@[i0].timeout == fsm.handlers@[j].timeout {
            // then handler `i1` already conflicts with `i0`, before `j`
            let t1 = choose|t1: int| 0 <= t1 < target_names(fsm.handlers@[i1]).len() && #[trigger] target_names(fsm.handlers@[i1])[t1]@ == name@;
            assert(target_name(fsm, i1, t1)@ == name@);
            assert(declares_timeout(fsm, i0, target_name(fsm, i1, t1)@));
            assert(conflict_at(fsm, i1, t1));
        }
        assert(timeouts_conflict(fsm, i0, j, name@));
        assert(i0 < j);
        assert(timeout_consistency_result(fsm) == Err::<(), FsmError>(
            FsmError::ConflictingTimeouts {
                state: name,
                first_handler: fsm.handlers@[i0].method_name,
                second_handler: fsm.handlers@[j].method_name,
            },
        ));
        assert(timeout_consistency_result(fsm)->Err_0->ConflictingTimeouts_state == name);
    }
}

/// Keeping the first arm of each state keeps one arm per state that occurs,
/// each taken from the input.
proof fn lemma_first_arms(s: Seq<TimeoutArm>)
    ensures
        forall|x: Seq<char>| #[trigger] has_arm_for(first_arms(s), x) <==> has_arm_for(s, x),
        forall|k: int| 0 <= k < first_arms(s).len() ==> #[trigger] s.contains(first_arms(s)[k]),
    decreases s.len(),
{
    if s.len() > 0 {
        let p = s.drop_last();
        lemma_first_arms(p);
        let d = first_arms(p);
        assert(first_arms(s) == (if has_arm_for(d, s.last().state@) { d } else { d.push(s.last()) }));
        assert forall|x: Seq<char>| #[trigger] has_arm_for(first_arms(s), x) <==> has_arm_for(s, x) by {
            if has_arm_for(s, x) {
                let i = choose|i: int| 0 <= i < s.len() && #[trigger] s[i].state@ == x;
                if i < s.len() - 1 {
                    assert(p[i].state@ == x);
                    assert(has_arm_for(p, x));
                    assert(has_arm_for(d, x));
                    let j = choose|j: int| 0 <= j < d.len() && #[trigger] d[j].state@ == x;
                    assert(first_arms(s)[j].state@ == x);
                } else {
                    assert(s.last().state@ == x);
                    if !has_arm_for(d, x) {
                        assert(first_arms(s)[d.len() as int].state@ == x);
                    }
                }
            }
            if has_arm_for(first_arms(s), x) {
                let i = choose|i: int| 0 <= i < first_arms(s).len() && #[trigger] first_arms(s)[i].state@ == x;
                if i < d.len() {
                    assert(d[i].state@ == x);
                    assert(has_arm_for(d, x));
                    assert(has_arm_for(p, x));
                    let k = choose|k: int| 0 <= k < p.len() && #[trigger] p[k].state@ == x;
                    assert(s[k].state@ == x);
                } else {
                    assert(s[s.len() - 1].state@ == x);
                }
            }
        }
        assert forall|k: int| 0 <= k < first_arms(s).len() implies #[trigger] s.contains(first_arms(s)[k]) by {
            if k < d.len() {
                assert(p.contains(d[k]));
                let m = choose|m: int| 0 <= m < p.len() && p[m] == d[k];
                assert(s[m] == d[k]);
            } else {
                assert(s[s.len() - 1] == first_arms(s)[k]);
            }
        }
    }
}

/// Every arm declared by the first `n` handlers comes from a handler with a
/// `#[state_timeout]` that targets the arm's state; each such target has one.
proof fn lemma_timeout_arms_upto(fsm: FsmStructure, n: int)
    requires
        0 <= n <= fsm.handlers.len(),
    ensures
        forall|a: TimeoutArm| #[trigger] timeout_arms_upto(fsm.handlers@, n).contains(a) ==> exists|h: int|
            0 <= h < n && #[trigger] declares_timeout(fsm, h, a.state@) && fsm.handlers@[h].timeout == Some(a.timeout),
        forall|h: int, t: int| 0 <= h < n && has_timeout_at(fsm, h) && 0 <= t < fsm.handlers@[h].return_states.len() ==>
            #[trigger] has_arm_for(timeout_arms_upto(fsm.handlers@, n), target_name(fsm, h, t)@),
    decreases n,
{
    if n > 0 {
        lemma_timeout_arms_upto(fsm, n - 1);
        let prev = timeout_arms_upto(fsm.handlers@, n - 1);
        let own = handler_timeout_arms(fsm.handlers@[n - 1]);
        let all = timeout_arms_upto(fsm.handlers@, n);
        assert(all == prev + own);
        assert forall|a: TimeoutArm| #[trigger] all.contains(a) implies exists|h: int|
            0 <= h < n && #[trigger] declares_timeout(fsm, h, a.state@) && fsm.handlers@[h].timeout == Some(a.timeout) by {
            let i = choose|i: int| 0 <= i < all.len() && all[i] == a;
            if i < prev.len() {
                assert(prev[i] == a);
                assert(prev.contains(a));
            } else {
                let t = i - prev.len();
                assert(own[t] == a);
                let h = n - 1;
                assert(has_timeout_at(fsm, h));
                assert(crate::graph::target_names(fsm.handlers@[h])[t]@ == a.state@);
                assert(declares_timeout(fsm, h, a.state@));
            }
        }
        assert forall|h: int, t: int| 0 <= h < n && has_timeout_at(fsm, h) && 0 <= t < fsm.handlers@[h].return_states.len() implies
            #[trigger] has_arm_for(all, target_name(fsm, h, t)@) by {
            if h < n - 1 {
                assert(has_arm_for(prev, target_name(fsm, h, t)@));
                let i = choose|i: int| 0 <= i < prev.len() && #[trigger] prev[i].state@ == target_name(fsm, h, t)@;
                assert(all[i] == prev[i]);
            } else {
                assert(own[t].state == target_name(fsm, h, t));
                assert(all[prev.len() + t] == own[t]);
            }
        }
    }
}

/// In a validated FSM, entering a state that some handler arms a timeout for
/// arms exactly that handler's duration; entering any other state arms none.
pub proof fn lemma_valid_plan_timeouts(fsm: FsmStructure, plan: CodegenPlan, name: Seq<char>)
    requires
        validate_result(fsm) is Ok,
        plan_agrees(Ok::<CodegenPlan, crate::model::FsmError>(plan), fsm),
    ensures
        forall|h: int| #[trigger] declares_timeout(fsm, h, name) ==> timeout_for_spec(plan, name) == fsm.handlers@[h].timeout,
        (forall|h: int| !#[trigger] declares_timeout(fsm, h, name)) ==> timeout_for_spec(plan, name) is None,
{
    let n = fsm.handlers.len() as int;
    let flat = timeout_arms_upto(fsm.handlers@, n);
    lemma_timeout_arms_upto(fsm, n);
    lemma_first_arms(flat);
    assert(plan.timeout_arms@ == first_arms(flat));
    assert forall|h: int| #[trigger] declares_timeout(fsm, h, name) implies timeout_for_spec(plan, name) == fsm.handlers@[h].timeout by {
        let t = choose|t: int| 0 <= t < crate::graph::target_names(fsm.handlers@[h]).len() && #[trigger] crate::graph::target_names(fsm.handlers@[h])[t]@ == name;
        assert(target_name(fsm, h, t)@ == name);
        assert(has_arm_for(flat, name));
        assert(has_arm_for(first_arms(flat), name));
        let i = choose|i: int| 0 <= i < first_arms(flat).len() && #[trigger] first_arms(flat)[i].state@ == name;
        assert(plan.timeout_arms@[i].state@ == name);
        let f = |k: int| 0 <= k < plan.timeout_arms.len() && plan.timeout_arms@[k].state@ == name;
        lemma_least(f, i);
        let i0 = choose|m: int| #![trigger f(m)] 0 <= m <= i && f(m) && forall|k: int| 0 <= k < m ==> !#[trigger] f(k);
        assert forall|j: int| 0 <= j < i0 implies #[trigger] plan.timeout_arms@[j].state@ != name by {
            assert(!f(j));
        }
        assert(is_first_timeout_arm(plan.timeout_arms@, i0, name));
        let c = choose|c: int| is_first_timeout_arm(plan.timeout_arms@, c, name);
        assert(flat.contains(first_arms(flat)[c]));
        let a = first_arms(flat)[c];
        let h2 = choose|h2: int| 0 <= h2 < n && #[trigger] declares_timeout(fsm, h2, a.state@) && fsm.handlers@[h2].timeout == Some(a.timeout);
        lemma_valid_timeouts_agree(fsm, h, h2, name);
    }
    if forall|h: int| !#[trigger] declares_timeout(fsm, h, name) {
        if exists|i: int| 0 <= i < plan.timeout_arms.len() && #[trigger] plan.timeout_arms@[i].state@ == name {
            let i = choose|i: int| 0 <= i < plan.timeout_arms.len() && #[trigger] plan.timeout_arms@[i].state@ == name;
            assert(flat.contains(first_arms(flat)[i]));
            let a = first_arms(flat)[i];
            let h2 = choose|h2: int| 0 <= h2 < n && #[trigger] declares_timeout(fsm, h2, a.state@) && fsm.handlers@[h2].timeout == Some(a.timeout);
        }
    }
}

// ----------------------------------------------------------------------
// Handlers and parsing

/// The source states gathered from a handler's attributes are distinct.
proof fn lemma_scan_sources_distinct(m: MethodShape, n: int)
    requires
        scan_attrs(m, n) is Ok,
    ensures
        names_distinct(scan_attrs(m, n)->Ok_0.3),
    decreases n,
{
    if n > 0 {
        lemma_scan_sources_distinct(m, n - 1);
        let acc = scan_attrs(m, n - 1)->Ok_0;
        let next = scan_attrs(m, n)->Ok_0;
        let a = m.attrs@[n - 1];
        if attr_named(a, "on"@) && a.on_args is Ok {
            let on = a.on_args->Ok_0;
            if next.3 != acc.3 {
                assert(next.3 == acc.3.push(on.state));
                assert forall|i: int, j: int| 0 <= i < next.3.len() && 0 <= j < next.3.len() && i != j implies #[trigger] next.3[i]@ != #[trigger] next.3[j]@ by {
                    if i == acc.3.len() as int {
                        assert(acc.3[j] == next.3[j]);
                    } else if j == acc.3.len() as int {
                        assert(acc.3[i] == next.3[i]);
                    } else {
                        assert(acc.3[i] == next.3[i] && acc.3[j] == next.3[j]);
                    }
                }
            }
        }
    }
}

/// A method read as a handler has distinct source states, does not mix
/// `#[on]` with `#[on_timeout]`, is `async` when it handles anything, and has
/// a return kind exactly when it handles an event or the timeout.
pub proof fn lemma_handler_shape(m: MethodShape)
    requires
        handler_outcome(m) is Ok,
    ensures
        names_distinct(handler_outcome(m)->Ok_0.4),
        !(handler_outcome(m)->Ok_0.0 is Some && handler_outcome(m)->Ok_0.1),
        (handler_outcome(m)->Ok_0.0 is Some || handler_outcome(m)->Ok_0.1) ==> m.is_async,
        (handler_outcome(m)->Ok_0.0 is Some || handler_outcome(m)->Ok_0.1) <==> handler_outcome(m)->Ok_0.3 is Some,
{
    lemma_scan_sources_distinct(m, m.attrs.len() as int);
}

/// De-duplication keeps the first element.
proof fn lemma_dedup_first(s: Seq<String>)
    requires
        s.len() > 0,
    ensures
        dedup_names(s).len() > 0,
        dedup_names(s)[0] == s[0],
    decreases s.len(),
{
    if s.len() == 1 {
        assert(s.drop_last() == Seq::<String>::empty());
        assert(dedup_names(s.drop_last()) == Seq::<String>::empty());
    } else {
        lemma_dedup_first(s.drop_last());
    }
}

/// The states the first `k` handlers mention include each of their targets
/// and sources.
proof fn lemma_mentioned_states(ms: Seq<MethodShape>, k: int)
    requires
        0 <= k <= ms.len(),
    ensures
        forall|j: int, t: int| 0 <= j < k && 0 <= t < parts(ms, j).2.len() ==>
            has_name(mentioned_states(ms, k), (#[trigger] names_of_states(parts(ms, j).2)[t])@),
        forall|j: int, t: int| 0 <= j < k && 0 <= t < parts(ms, j).4.len() ==>
            has_name(mentioned_states(ms, k), (#[trigger] parts(ms, j).4[t])@),
    decreases k,
{
    if k > 0 {
        lemma_mentioned_states(ms, k - 1);
        let prev = mentioned_states(ms, k - 1);
        let rs = names_of_states(parts(ms, k - 1).2);
        let src = parts(ms, k - 1).4;
        let all = mentioned_states(ms, k);
        assert(all == prev + rs + src);
        assert forall|j: int, t: int| 0 <= j < k && 0 <= t < parts(ms, j).2.len() implies
            has_name(all, (#[trigger] names_of_states(parts(ms, j).2)[t])@) by {
            if j < k - 1 {
                let i = choose|i: int| 0 <= i < prev.len() && #[trigger] prev[i]@ == names_of_states(parts(ms, j).2)[t]@;
                assert(all[i] == prev[i]);
            } else {
                assert(all[prev.len() + t] == rs[t]);
            }
        }
        assert forall|j: int, t: int| 0 <= j < k && 0 <= t < parts(ms, j).4.len() implies
            has_name(all, (#[trigger] parts(ms, j).4[t])@) by {
            if j < k - 1 {
                let i = choose|i: int| 0 <= i < prev.len() && #[trigger] prev[i]@ == parts(ms, j).4[t]@;
                assert(all[i] == prev[i]);
            } else {
                assert(all[prev.len() + rs.len() + t] == src[t]);
            }
        }
    }
}

/// A successful parse gives a discovered structure that passed validation,
/// with no refused method.
proof fn lemma_parse_ok(args: FsmArgs, imp: ImplShape, fsm: FsmStructure)
    requires
        parse_agrees(Ok::<FsmStructure, FsmError>(fsm), args, imp),
    ensures
        discovered(fsm, args, imp),
        validate_result(fsm) is Ok,
        forall|k: int| 0 <= k < impl_methods(imp).len() ==> #[trigger] item_error(impl_methods(imp), k) is None,
{
    let ms = impl_methods(imp);
    assert forall|k: int| 0 <= k < ms.len() implies #[trigger] item_error(ms, k) is None by {
        if item_error(ms, k) is Some {
            let p = |j: int| 0 <= j < ms.len() && item_error(ms, j) is Some;
            lemma_least(p, k);
            let m = choose|m: int| #![trigger p(m)] 0 <= m <= k && p(m) && forall|j: int| 0 <= j < m ==> !#[trigger] p(j);
            assert forall|j: int| 0 <= j < m implies #[trigger] item_error(ms, j) is None by {
                assert(!p(j));
            }
            assert(is_first_item_error(ms, m));
        }
    }
    let fsm0 = choose|fsm0: FsmStructure|
        #[trigger] discovered(fsm0, args, imp) && Ok::<FsmStructure, FsmError>(fsm) == match validate_result(fsm0) {
            Ok(()) => Ok::<FsmStructure, FsmError>(fsm0),
            Err(e) => Err(e),
        };
    assert(fsm0 == fsm);
}

/// A parsed FSM passed validation; its states are distinct, start with the
/// initial state, and include every state a handler names.
pub proof fn lemma_parsed_states(args: FsmArgs, imp: ImplShape, fsm: FsmStructure)
    requires
        parse_agrees(Ok::<FsmStructure, FsmError>(fsm), args, imp),
    ensures
        validate_result(fsm) is Ok,
        names_distinct(names_of_states(fsm.states@)),
        fsm.states.len() > 0,
        fsm.states@[0].name == fsm.initial_state,
        fsm.initial_state == args.initial,
        forall|h: int, t: int| 0 <= h < fsm.handlers.len() && 0 <= t < fsm.handlers@[h].return_states.len() ==>
            has_name(names_of_states(fsm.states@), (#[trigger] target_name(fsm, h, t))@),
        forall|h: int, k: int| 0 <= h < fsm.handlers.len() && 0 <= k < fsm.handlers@[h].source_states.len() ==>
            has_name(names_of_states(fsm.states@), (#[trigger] fsm.handlers@[h].source_states@[k])@),
{
    lemma_parse_ok(args, imp, fsm);
    let ms = impl_methods(imp);
    let s = seq![args.initial] + mentioned_states(ms, ms.len() as int);
    lemma_dedup_names(s);
    lemma_dedup_first(s);
    lemma_mentioned_states(ms, ms.len() as int);
    assert(names_of_states(fsm.states@) == dedup_names(s));
    assert(fsm.states@[0].name == names_of_states(fsm.states@)[0]);
    assert forall|h: int, t: int| 0 <= h < fsm.handlers.len() && 0 <= t < fsm.handlers@[h].return_states.len() implies
        has_name(names_of_states(fsm.states@), (#[trigger] target_name(fsm, h, t))@) by {
        assert(handler_matches(fsm.handlers@[h], ms[h], parts(ms, h)));
        assert(names_of_states(parts(ms, h).2)[t] == target_name(fsm, h, t));
        let m = mentioned_states(ms, ms.len() as int);
        let i = choose|i: int| 0 <= i < m.len() && #[trigger] m[i]@ == names_of_states(parts(ms, h).2)[t]@;
        assert(s[1 + i] == m[i]);
        assert(has_name(s, target_name(fsm, h, t)@));
    }
    assert forall|h: int, k: int| 0 <= h < fsm.handlers.len() && 0 <= k < fsm.handlers@[h].source_states.len() implies
        has_name(names_of_states(fsm.states@), (#[trigger] fsm.handlers@[h].source_states@[k])@) by {
        assert(handler_matches(fsm.handlers@[h], ms[h], parts(ms, h)));
        assert(parts(ms, h).4[k] == fsm.handlers@[h].source_states@[k]);
        let m = mentioned_states(ms, ms.len() as int);
        let i = choose|i: int| 0 <= i < m.len() && #[trigger] m[i]@ == parts(ms, h).4[k]@;
        assert(s[1 + i] == m[i]);
        assert(has_name(s, fsm.handlers@[h].source_states@[k]@));
    }
}

/// Events gathered so far only grow, keeping their positions, and stay
/// distinct by name.
proof fn lemma_events_upto(ms: Seq<MethodShape>, k: int, n: int)
    requires
        0 <= k <= n,
    ensures
        events_upto(ms, k).len() <= events_upto(ms, n).len(),
        forall|i: int| 0 <= i < events_upto(ms, k).len() ==> #[trigger] events_upto(ms, n)[i] == events_upto(ms, k)[i],
        forall|i: int, j: int| 0 <= i < events_upto(ms, n).len() && 0 <= j < events_upto(ms, n).len() && i != j ==>
            (#[trigger] events_upto(ms, n)[i]).name@ != (#[trigger] events_upto(ms, n)[j]).name@,
    decreases n,
{
    if n > 0 {
        if k == n {
            lemma_events_upto(ms, k - 1, n - 1);
        } else {
            lemma_events_upto(ms, k, n - 1);
        }
        let prev = events_upto(ms, n - 1);
        let all = events_upto(ms, n);
        if all != prev {
            let e = parts(ms, n - 1).0->Some_0;
            assert(all == prev.push(e));
            assert(!has_event(prev, e.name@));
            assert forall|i: int, j: int| 0 <= i < all.len() && 0 <= j < all.len() && i != j implies
                (#[trigger] all[i]).name@ != (#[trigger] all[j]).name@ by {
                if i == prev.len() as int {
                    assert(prev[j] == all[j]);
                } else if j == prev.len() as int {
                    assert(prev[i] == all[i]);
                } else {
                    assert(prev[i] == all[i] && prev[j] == all[j]);
                }
            }
        }
    }
}

/// A parsed FSM declares each event once, and every handler's event is
/// declared with that handler's payload type.
pub proof fn lemma_parsed_events(args: FsmArgs, imp: ImplShape, fsm: FsmStructure)
    requires
        parse_agrees(Ok::<FsmStructure, FsmError>(fsm), args, imp),
    ensures
        forall|i: int, j: int| 0 <= i < fsm.events.len() && 0 <= j < fsm.events.len() && i != j ==>
            (#[trigger] fsm.events@[i]).name@ != (#[trigger] fsm.events@[j]).name@,
        forall|h: int| 0 <= h < fsm.handlers.len() && (#[trigger] fsm.handlers@[h]).event is Some ==>
            exists|i: int| 0 <= i < fsm.events.len() && (#[trigger] fsm.events@[i]).name@ == fsm.handlers@[h].event->Some_0.name@
                && same_payload(fsm.events@[i].payload_type, fsm.handlers@[h].event->Some_0.payload_type),
{
    lemma_parse_ok(args, imp, fsm);
    let ms = impl_methods(imp);
    let n = ms.len() as int;
    lemma_events_upto(ms, n, n);
    assert forall|h: int| 0 <= h < fsm.handlers.len() && (#[trigger] fsm.handlers@[h]).event is Some implies
        exists|i: int| 0 <= i < fsm.events.len() && (#[trigger] fsm.events@[i]).name@ == fsm.handlers@[h].event->Some_0.name@
            && same_payload(fsm.events@[i].payload_type, fsm.handlers@[h].event->Some_0.payload_type) by {
        assert(handler_matches(fsm.handlers@[h], ms[h], parts(ms, h)));
        let e = parts(ms, h).0->Some_0;
        assert(item_error(ms, h) is None);
        let prev = events_upto(ms, h);
        let next = events_upto(ms, h + 1);
        lemma_events_upto(ms, h + 1, n);
        if has_event(prev, e.name@) {
            let i = choose|i: int| is_first_event_named(prev, i, e.name@);
            let w = choose|w: int| 0 <= w < prev.len() && #[trigger] prev[w].name@ == e.name@;
            if !is_first_event_named(prev, i, e.name@) {
                let f = |x: int| 0 <= x < prev.len() && prev[x].name@ == e.name@;
                lemma_least(f, w);
                let m = choose|m: int| #![trigger f(m)] 0 <= m <= w && f(m) && forall|x: int| 0 <= x < m ==> !#[trigger] f(x);
                assert forall|x: int| 0 <= x < m implies #[trigger] prev[x].name@ != e.name@ by {
                    assert(!f(x));
                }
                assert(is_first_event_named(prev, m, e.name@));
            }
            assert(same_payload(prev[i].payload_type, e.payload_type));
            assert(next == prev);
            assert(fsm.events@[i] == prev[i]);
        } else {
            assert(next == prev.push(e));
            assert(fsm.events@[prev.len() as int] == next[prev.len() as int]);
            assert(same_payload(e.payload_type, e.payload_type));
        }
    }
}

// ----------------------------------------------------------------------
// The generated loop

/// The generated loop ends gracefully on cancellation and once the event
/// channel is closed, in every state.
pub proof fn lemma_loop_finishes(plan: CodegenPlan, state: Seq<char>)
    ensures
        action_spec(plan, state, LoopInput::Cancelled) == LoopAction::Finish,
        action_spec(plan, state, LoopInput::ChannelClosed) == LoopAction::Finish,
{
}

/// The generated loop drops an event that no arm matches; every transition,
/// whether returned as `Ok` or as `Err`, enters its state and re-arms that
/// state's timeout; only a handler error stops the machine.
pub proof fn lemma_loop_steps(plan: CodegenPlan, state: Seq<char>, event: String, outcome: HandlerOutcome)
    ensures
        !has_matching_arm(plan.event_arms@, state, event@) ==> action_spec(plan, state, LoopInput::Event(event))
            == LoopAction::Ignore,
        step_spec(plan, outcome) is Stop <==> outcome is Error,
        outcome matches HandlerOutcome::Transition(s) ==> step_spec(plan, outcome) == (LoopStep::MoveTo {
            state: s,
            timeout: timeout_for_spec(plan, s@),
        }),
        outcome matches HandlerOutcome::ErrTransition(s) ==> step_spec(plan, outcome) == (LoopStep::MoveTo {
            state: s,
            timeout: timeout_for_spec(plan, s@),
        }),
{
}

/// A structure whose timeout checks pass and whose handler states are all
/// known is refused exactly when some state cannot be reached from the
/// initial state, and the refusal names such a state.
pub proof fn lemma_unreachable_refused(fsm: FsmStructure)
    requires
        timeout_contract_result(fsm) is Ok,
        timed_states_result(fsm, has_timeout_handler(fsm)) is Ok,
        timeout_consistency_result(fsm) is Ok,
        node_of(fsm, fsm.initial_state@) is Some,
        forall|h: int| !#[trigger] is_first_edge_error(fsm, h),
    ensures
        validate_result(fsm) is Ok <==> forall|i: int|
            0 <= i < fsm.states.len() ==> !#[trigger] unreachable_at(fsm, node_of(fsm, fsm.initial_state@)->Some_0, i),
        validate_result(fsm) matches Err(e) ==> e matches FsmError::UnreachableState { state, initial }
            && initial == fsm.initial_state && exists|i: int|
            #[trigger] unreachable_at(fsm, node_of(fsm, fsm.initial_state@)->Some_0, i) && fsm.states@[i].name == state,
{
    lemma_timeout_contract_is_has(fsm);
    let init = node_of(fsm, fsm.initial_state@)->Some_0;
    if exists|i: int| unreachable_at(fsm, init, i) {
        let w = choose|i: int| unreachable_at(fsm, init, i);
        let p = |k: int| unreachable_at(fsm, init, k);
        lemma_least(p, w);
        let m = choose|m: int| #![trigger p(m)] 0 <= m <= w && p(m) && forall|k: int| 0 <= k < m ==> !#[trigger] p(k);
        assert forall|k: int| 0 <= k < m implies !#[trigger] unreachable_at(fsm, init, k) by {
            assert(!p(k));
        }
        assert(is_first_unreachable(fsm, init, m));
        let c = choose|i: int| is_first_unreachable(fsm, init, i);
        assert(unreachable_at(fsm, init, c));
    }
}

proof fn lemma_timeout_contract_is_has(fsm: FsmStructure)
    requires
        timeout_contract_result(fsm) is Ok,
    ensures
        timeout_contract_result(fsm) == Ok::<bool, FsmError>(has_timeout_handler(fsm)),
{
}

/// Every state of a parsed FSM can be reached from its initial state.
pub proof fn lemma_parsed_states_reachable(args: FsmArgs, imp: ImplShape, fsm: FsmStructure)
    requires
        parse_agrees(Ok::<FsmStructure, FsmError>(fsm), args, imp),
    ensures
        node_of(fsm, fsm.initial_state@) is Some,
        forall|i: int|
            0 <= i < fsm.states.len() ==> state_reachable(
                fsm,
                node_of(fsm, fsm.initial_state@)->Some_0 as usize,
                (#[trigger] node_of(fsm, fsm.states@[i].name@))->Some_0 as usize,
            ),
{
    lemma_parse_ok(args, imp, fsm);
    lemma_valid_states_reachable(fsm);
}

/// Handler `j` names the state `x`, as a target or as a source.
pub open spec fn mentions(ms: Seq<MethodShape>, j: int, x: Seq<char>) -> bool {
    has_name(names_of_states(parts(ms, j).2), x) || has_name(parts(ms, j).4, x)
}

/// Every name the first `k` handlers mention is a target or a source of one
/// of them.
proof fn lemma_mentioned_states_origin(ms: Seq<MethodShape>, k: int)
    requires
        0 <= k <= ms.len(),
    ensures
        forall|x: Seq<char>| #[trigger] has_name(mentioned_states(ms, k), x) ==> exists|j: int|
            0 <= j < k && #[trigger] mentions(ms, j, x),
    decreases k,
{
    if k > 0 {
        lemma_mentioned_states_origin(ms, k - 1);
        let prev = mentioned_states(ms, k - 1);
        let rs = names_of_states(parts(ms, k - 1).2);
        let src = parts(ms, k - 1).4;
        let all = mentioned_states(ms, k);
        assert(all == prev + rs + src);
        assert forall|x: Seq<char>| #[trigger] has_name(all, x) implies exists|j: int|
            0 <= j < k && #[trigger] mentions(ms, j, x) by {
            let i = choose|i: int| 0 <= i < all.len() && #[trigger] all[i]@ == x;
            if i < prev.len() {
                assert(prev[i]@ == x);
                assert(has_name(prev, x));
                let j = choose|j: int| 0 <= j < k - 1 && #[trigger] mentions(ms, j, x);
                assert(mentions(ms, j, x));
            } else if i < prev.len() + rs.len() {
                assert(rs[i - prev.len()]@ == x);
                assert(has_name(rs, x));
                assert(mentions(ms, k - 1, x));
            } else {
                assert(src[i - prev.len() - rs.len()]@ == x);
                assert(has_name(src, x));
                assert(mentions(ms, k - 1, x));
            }
        }
    }
}

/// The states of a parsed FSM are exactly the initial state and the states
/// its handlers name: each state is the initial state, a target or a source.
pub proof fn lemma_parsed_states_origin(args: FsmArgs, imp: ImplShape, fsm: FsmStructure)
    requires
        parse_agrees(Ok::<FsmStructure, FsmError>(fsm), args, imp),
    ensures
        forall|i: int| 0 <= i < fsm.states.len() ==> (#[trigger] fsm.states@[i]).name@ == fsm.initial_state@ || exists|h: int|
            0 <= h < fsm.handlers.len() && (has_name(crate::graph::target_names(fsm.handlers@[h]), fsm.states@[i].name@)
                || has_name(#[trigger] fsm.handlers@[h].source_states@, fsm.states@[i].name@)),
{
    lemma_parse_ok(args, imp, fsm);
    let ms = impl_methods(imp);
    let m = mentioned_states(ms, ms.len() as int);
    let s = seq![args.initial] + m;
    lemma_dedup_names(s);
    lemma_mentioned_states_origin(ms, ms.len() as int);
    assert(names_of_states(fsm.states@) == dedup_names(s));
    assert forall|i: int| 0 <= i < fsm.states.len() implies (#[trigger] fsm.states@[i]).name@ == fsm.initial_state@ || exists|h: int|
        0 <= h < fsm.handlers.len() && (has_name(crate::graph::target_names(fsm.handlers@[h]), fsm.states@[i].name@)
            || has_name(#[trigger] fsm.handlers@[h].source_states@, fsm.states@[i].name@)) by {
        let x = fsm.states@[i].name@;
        assert(names_of_states(fsm.states@)[i]@ == x);
        assert(has_name(dedup_names(s), x));
        assert(has_name(s, x));
        let k = choose|k: int| 0 <= k < s.len() && #[trigger] s[k]@ == x;
        if k > 0 {
            assert(m[k - 1]@ == x);
            assert(has_name(m, x));
            let j = choose|j: int| 0 <= j < ms.len() && #[trigger] mentions(ms, j, x);
            assert(0 <= j < fsm.handlers.len());
            assert(handler_matches(fsm.handlers@[j], ms[j], parts(ms, j)));
            assert(crate::graph::target_names(fsm.handlers@[j]) == names_of_states(parts(ms, j).2));
            assert(has_name(fsm.handlers@[j].source_states@, x) || has_name(crate::graph::target_names(fsm.handlers@[j]), x));
        }
    }
}

/// A block is parsed all or nothing: when its `impl` target is not a type
/// path, or when one of its methods is refused as a handler, the parse is
/// refused and no structure comes back.
pub proof fn lemma_parse_all_or_nothing(r: Result<FsmStructure, FsmError>, args: FsmArgs, imp: ImplShape, k: int)
    requires
        parse_agrees(r, args, imp),
        imp.self_ty is Other || (0 <= k < impl_methods(imp).len() && handler_outcome(impl_methods(imp)[k]) is Err),
    ensures
        r is Err,
{
    if r is Ok && !(imp.self_ty is Other) {
        lemma_parse_ok(args, imp, r->Ok_0);
        assert(item_error(impl_methods(imp), k) is Some);
    }
}

/// Everything `validate` checks, stated over the structure: at most one
/// `#[on_timeout]` handler; a `#[state_timeout]` only beside one; one duration
/// per state; the initial state is a state; every target, and every source of
/// a handler with a target, is a state; every state is reachable from the
/// initial state.
pub open spec fn valid_structure(fsm: FsmStructure) -> bool {
    &&& forall|i: int, j: int| #[trigger] is_timeout_handler_at(fsm, i) && #[trigger] is_timeout_handler_at(fsm, j) ==> i == j
    &&& (exists|i: int| has_timeout_at(fsm, i)) ==> has_timeout_handler(fsm)
    &&& forall|i: int, j: int, name: Seq<char>|
        #[trigger] declares_timeout(fsm, i, name) && #[trigger] declares_timeout(fsm, j, name)
            ==> fsm.handlers@[i].timeout == fsm.handlers@[j].timeout
    &&& node_of(fsm, fsm.initial_state@) is Some
    &&& forall|h: int|
        0 <= h < fsm.handlers.len() && target_names(#[trigger] fsm.handlers@[h]).len() > 0 ==> !any_missing(
            fsm,
            target_names(fsm.handlers@[h]),
        ) && !any_missing(fsm, handler_sources(fsm, h))
    &&& forall|i: int|
        0 <= i < fsm.states.len() ==> state_reachable(
            fsm,
            node_of(fsm, fsm.initial_state@)->Some_0 as usize,
            (#[trigger] node_of(fsm, fsm.states@[i].name@))->Some_0 as usize,
        )
}

/// `validate` accepts a structure exactly when it meets every condition of
/// `valid_structure`.
pub proof fn lemma_validate_iff(fsm: FsmStructure)
    ensures
        validate_result(fsm) is Ok <==> valid_structure(fsm),
{
    if validate_result(fsm) is Ok {
        lemma_valid_timeout_contract_ok(fsm);
        lemma_valid_states_reachable(fsm);
        assert forall|i: int, j: int| #[trigger] is_timeout_handler_at(fsm, i) && #[trigger] is_timeout_handler_at(fsm, j) implies i == j by {
            lemma_valid_single_timeout_handler(fsm, i, j);
        }
        if exists|i: int| has_timeout_at(fsm, i) {
            let i = choose|i: int| has_timeout_at(fsm, i);
            lemma_valid_state_timeout_has_handler(fsm, i);
        }
        assert forall|i: int, j: int, name: Seq<char>|
            #[trigger] declares_timeout(fsm, i, name) && #[trigger] declares_timeout(fsm, j, name) implies fsm.handlers@[i].timeout
            == fsm.handlers@[j].timeout by {
            lemma_valid_timeouts_agree(fsm, i, j, name);
        }
        assert forall|h: int| 0 <= h < fsm.handlers.len() && target_names(#[trigger] fsm.handlers@[h]).len() > 0 implies !any_missing(
            fsm,
            target_names(fsm.handlers@[h]),
        ) && !any_missing(fsm, handler_sources(fsm, h)) by {
            if handler_edge_error(fsm, h) is Some {
                let p = |k: int| 0 <= k < fsm.handlers.len() && handler_edge_error(fsm, k) is Some;
                lemma_least(p, h);
                let m = choose|m: int| #![trigger p(m)] 0 <= m <= h && p(m) && forall|k: int| 0 <= k < m ==> !#[trigger] p(k);
                assert forall|k: int| 0 <= k < m implies #[trigger] handler_edge_error(fsm, k) is None by {
                    assert(!p(k));
                }
                assert(is_first_edge_error(fsm, m));
            }
        }
    }
    if valid_structure(fsm) {
        assert forall|j: int| !#[trigger] is_second_timeout_handler(fsm, j) by {
            if is_second_timeout_handler(fsm, j) {
                let i = choose|i: int|
                    #![trigger is_timeout_handler_at(fsm, i)]
                    0 <= i < j && is_timeout_handler_at(fsm, i) && forall|k: int|
                        0 <= k < j && k != i ==> !#[trigger] is_timeout_handler_at(fsm, k);
                assert(is_timeout_handler_at(fsm, j));
            }
        }
        assert(timeout_contract_result(fsm) == Ok::<bool, FsmError>(has_timeout_handler(fsm)));
        assert(timed_states_result(fsm, has_timeout_handler(fsm)) is Ok);
        assert forall|j: int, t: int| !#[trigger] conflict_at(fsm, j, t) by {
            if conflict_at(fsm, j, t) {
                let name = target_name(fsm, j, t)@;
                let i = choose|i: int|
                    0 <= i < j && #[trigger] declares_timeout(fsm, i, name) && fsm.handlers@[i].timeout != fsm.handlers@[j].timeout;
                assert(target_names(fsm.handlers@[j])[t]@ == name);
                assert(declares_timeout(fsm, j, name));
            }
        }
        assert(forall|j: int, t: int| !#[trigger] is_first_conflict(fsm, j, t));
        assert(timeout_consistency_result(fsm) is Ok);
        let init = node_of(fsm, fsm.initial_state@)->Some_0;
        assert forall|h: int| !#[trigger] is_first_edge_error(fsm, h) by {
            if 0 <= h < fsm.handlers.len() && target_names(fsm.handlers@[h]).len() > 0 {
                assert(!any_missing(fsm, target_names(fsm.handlers@[h])));
                assert(!missing(fsm, target_names(fsm.handlers@[h])[0]@));
            }
        }
        assert forall|i: int| !#[trigger] unreachable_at(fsm, init, i) by {
            if 0 <= i < fsm.states.len() {
                assert(state_reachable(fsm, init as usize, node_of(fsm, fsm.states@[i].name@)->Some_0 as usize));
            }
        }
        assert(graph_result(fsm) is Ok);
    }
}

/// Handler `h` of `hs` handles `event` in `state`.
pub open spec fn handles(hs: Seq<Handler>, h: int, state: Seq<char>, event: Seq<char>) -> bool {
    &&& 0 <= h < hs.len()
    &&& hs[h].event matches Some(e) && e.name@ == event
    &&& has_name(hs[h].source_states@, state)
}

/// Handler `h` is the first handler of `hs`, in item order, that handles
/// `event` in `state`.
pub open spec fn is_first_handler_for(hs: Seq<Handler>, h: int, state: Seq<char>, event: Seq<char>) -> bool {
    handles(hs, h, state, event) && forall|k: int| 0 <= k < h ==> !#[trigger] handles(hs, k, state, event)
}

/// The arms of the first `n` handlers match `event` in `state` exactly when
/// one of those handlers handles it, and the first matching arm calls the
/// first such handler.
proof fn lemma_arms_dispatch(hs: Seq<Handler>, n: int, state: Seq<char>, event: Seq<char>)
    requires
        0 <= n <= hs.len(),
    ensures
        has_matching_arm(event_arms_upto(hs, n), state, event) <==> exists|h: int|
            0 <= h < n && #[trigger] handles(hs, h, state, event),
        forall|i: int, h: int|
            #[trigger] is_first_matching_arm(event_arms_upto(hs, n), i, state, event) && #[trigger] is_first_handler_for(
                hs,
                h,
                state,
                event,
            ) && h < n ==> event_arms_upto(hs, n)[i].method_name == hs[h].method_name && event_arms_upto(hs, n)[i].return_kind
                == hs[h].return_kind->Some_0,
    decreases n,
{
    if n > 0 {
        lemma_arms_dispatch(hs, n - 1, state, event);
        let a = event_arms_upto(hs, n - 1);
        let b = handler_event_arms(hs[n - 1]);
        let c = event_arms_upto(hs, n);
        assert(c == a + b);
        let last = hs[n - 1];
        // the arms of the last handler
        assert(has_matching_arm(b, state, event) <==> handles(hs, n - 1, state, event)) by {
            if has_matching_arm(b, state, event) {
                let t = choose|t: int| 0 <= t < b.len() && #[trigger] b[t].state@ == state && b[t].event@ == event;
                assert(last.event is Some);
                assert(last.source_states@[t]@ == state);
            }
            if handles(hs, n - 1, state, event) {
                let t = choose|t: int| 0 <= t < last.source_states@.len() && #[trigger] last.source_states@[t]@ == state;
                assert(b[t].state@ == state && b[t].event@ == event);
            }
        }
        if has_matching_arm(c, state, event) {
            let i = choose|i: int| 0 <= i < c.len() && #[trigger] c[i].state@ == state && c[i].event@ == event;
            if i < a.len() {
                assert(a[i] == c[i]);
                assert(has_matching_arm(a, state, event));
            } else {
                assert(b[i - a.len()] == c[i]);
                assert(has_matching_arm(b, state, event));
            }
        }
        if exists|h: int| 0 <= h < n && #[trigger] handles(hs, h, state, event) {
            let h = choose|h: int| 0 <= h < n && #[trigger] handles(hs, h, state, event);
            if h < n - 1 {
                let i = choose|i: int| 0 <= i < a.len() && #[trigger] a[i].state@ == state && a[i].event@ == event;
                assert(c[i] == a[i]);
            } else {
                let t = choose|t: int| 0 <= t < b.len() && #[trigger] b[t].state@ == state && b[t].event@ == event;
                assert(c[a.len() + t] == b[t]);
            }
        }
        assert forall|i: int, h: int|
            #[trigger] is_first_matching_arm(c, i, state, event) && #[trigger] is_first_handler_for(hs, h, state, event) && h
                < n implies c[i].method_name == hs[h].method_name && c[i].return_kind == hs[h].return_kind->Some_0 by {
            if h < n - 1 {
                let j = choose|j: int| 0 <= j < a.len() && #[trigger] a[j].state@ == state && a[j].event@ == event;
                assert(c[j] == a[j]);
                if i >= a.len() {
                    assert(!(c[j].state@ == state && c[j].event@ == event));
                }
                assert forall|k: int| 0 <= k < i implies !(#[trigger] a[k].state@ == state && a[k].event@ == event) by {
                    assert(c[k] == a[k]);
                }
                assert(a[i] == c[i]);
                assert(is_first_matching_arm(a, i, state, event));
            } else {
                assert(!has_matching_arm(a, state, event)) by {
                    if has_matching_arm(a, state, event) {
                        let h2 = choose|h2: int| 0 <= h2 < n - 1 && #[trigger] handles(hs, h2, state, event);
                        assert(!handles(hs, h2, state, event));
                    }
                }
                if i < a.len() {
                    assert(a[i] == c[i]);
                    assert(has_matching_arm(a, state, event));
                }
                let t = i - a.len();
                assert(c[i] == b[t]);
                assert(last.event is Some);
            }
        }
    }
}

/// The arms of a plan match `event` in `state` only at a least index.
proof fn lemma_first_matching_arm_exists(arms: Seq<EventArm>, state: Seq<char>, event: Seq<char>)
    requires
        has_matching_arm(arms, state, event),
    ensures
        exists|i: int| #[trigger] is_first_matching_arm(arms, i, state, event),
{
    let i = choose|i: int| 0 <= i < arms.len() && #[trigger] arms[i].state@ == state && arms[i].event@ == event;
    let p = |k: int| 0 <= k < arms.len() && arms[k].state@ == state && arms[k].event@ == event;
    lemma_least(p, i);
    let m = choose|m: int| #![trigger p(m)] 0 <= m <= i && p(m) && forall|k: int| 0 <= k < m ==> !#[trigger] p(k);
    assert forall|j: int| 0 <= j < m implies !(#[trigger] arms[j].state@ == state && arms[j].event@ == event) by {
        assert(!p(j));
    }
    assert(is_first_matching_arm(arms, m, state, event));
}

/// An event goes to the first handler, in item order, that declares it for
/// the current state, and to no other; when no handler does, the loop drops
/// it and stays in its state.
pub proof fn lemma_event_dispatch(fsm: FsmStructure, plan: CodegenPlan, state: Seq<char>, event: String)
    requires
        plan_agrees(Ok::<CodegenPlan, FsmError>(plan), fsm),
    ensures
        action_spec(plan, state, LoopInput::Event(event)) == if exists|h: int| #[trigger] handles(fsm.handlers@, h, state, event@) {
            let h = choose|h: int| is_first_handler_for(fsm.handlers@, h, state, event@);
            LoopAction::Call(
                Dispatch { method_name: fsm.handlers@[h].method_name, return_kind: fsm.handlers@[h].return_kind->Some_0 },
            )
        } else {
            LoopAction::Ignore
        },
{
    let hs = fsm.handlers@;
    let n = fsm.handlers.len() as int;
    assert(plan.event_arms@ == event_arms_upto(hs, n));
    lemma_arms_dispatch(hs, n, state, event@);
    if exists|h: int| #[trigger] handles(hs, h, state, event@) {
        let h0 = choose|h: int| #[trigger] handles(hs, h, state, event@);
        let p = |k: int| handles(hs, k, state, event@);
        lemma_least(p, h0);
        let h = choose|m: int| #![trigger p(m)] 0 <= m <= h0 && p(m) && forall|k: int| 0 <= k < m ==> !#[trigger] p(k);
        assert forall|k: int| 0 <= k < h implies !#[trigger] handles(hs, k, state, event@) by {
            assert(!p(k));
        }
        assert(is_first_handler_for(hs, h, state, event@));
        let hc = choose|h: int| is_first_handler_for(hs, h, state, event@);
        assert(hc == h) by {
            if hc < h {
                assert(!handles(hs, hc, state, event@));
            } else if hc > h {
                assert(!handles(hs, h, state, event@));
            }
        }
        lemma_first_matching_arm_exists(plan.event_arms@, state, event@);
    }
}

// ----------------------------------------------------------------------
// What the parts of a parsed structure are made of

/// The last `type <name> = ...;` among the first `n` items gives the
/// associated type, its whole declared type text.
proof fn lemma_assoc_type_last(items: Seq<ImplItemShape>, name: Seq<char>, n: int, k: int)
    requires
        0 <= k < n <= items.len(),
        items[k] matches ImplItemShape::Type { name: nm, .. } && nm@ == name,
        forall|k2: int| k < k2 < n ==> !(#[trigger] items[k2] matches ImplItemShape::Type { name: nm2, .. } && nm2@ == name),
    ensures
        assoc_type(items, name, n) == Some(type_text(items[k]->Type_ty)),
    decreases n,
{
    if n > k + 1 {
        lemma_assoc_type_last(items, name, n - 1, k);
    }
}

/// The context and error types of a parsed structure are the complete token
/// texts of the types of the last `type Context = ...;` and the last
/// `type Error = ...;` items of the block, whatever the shape of those types.
pub proof fn lemma_parsed_assoc_types(args: FsmArgs, imp: ImplShape, fsm: FsmStructure, k: int, name: Seq<char>)
    requires
        parse_agrees(Ok::<FsmStructure, FsmError>(fsm), args, imp),
        name == "Context"@ || name == "Error"@,
        0 <= k < imp.items.len(),
        imp.items@[k] matches ImplItemShape::Type { name: nm, .. } && nm@ == name,
        forall|k2: int|
            k < k2 < imp.items.len() ==> !(#[trigger] imp.items@[k2] matches ImplItemShape::Type { name: nm2, .. } && nm2@ == name),
    ensures
        match imp.items@[k] {
            ImplItemShape::Type { ty: TypeShape::Path { text, .. }, .. } => (name == "Context"@ ==> fsm.context_type == text)
                && (name == "Error"@ ==> fsm.error_type == text),
            ImplItemShape::Type { ty: TypeShape::Other { text }, .. } => (name == "Context"@ ==> fsm.context_type == text)
                && (name == "Error"@ ==> fsm.error_type == text),
            _ => false,
        },
{
    lemma_parse_ok(args, imp, fsm);
    lemma_assoc_type_last(imp.items@, name, imp.items.len() as int, k);
}

/// While reading attributes, the event a method handles carries the payload
/// read from the method's second parameter.
proof fn lemma_scan_payload(m: MethodShape, n: int)
    requires
        scan_attrs(m, n) is Ok,
    ensures
        scan_attrs(m, n)->Ok_0.0 matches Some(e) ==> e.payload_type == payload_of(m),
    decreases n,
{
    if n > 0 {
        lemma_scan_payload(m, n - 1);
    }
}

/// A parsed handler's event carries, as its payload type, the complete token
/// text of the type of the method's second parameter when that parameter is
/// typed, and no payload otherwise; `has_payload` says whether it carries one.
pub proof fn lemma_parsed_handler_payload(m: MethodShape, h: Handler)
    requires
        handler_parse_agrees(Ok::<Handler, FsmError>(h), m),
    ensures
        h.event matches Some(e) ==> e.payload_type == (if m.inputs.len() > 1 {
            match m.inputs@[1] {
                FnArgShape::Typed(TypeShape::Path { text, .. }) => Some(text),
                FnArgShape::Typed(TypeShape::Other { text }) => Some(text),
                FnArgShape::Receiver => None,
            }
        } else {
            None
        }),
        h.has_payload == (h.event matches Some(e) && e.payload_type is Some),
{
    lemma_scan_payload(m, m.attrs.len() as int);
}

// ----------------------------------------------------------------------
// States that arm a timeout

/// A name occurs among the timed targets of the first `n` handlers exactly
/// when one of them has a `#[state_timeout]` and a target of that name.
proof fn lemma_timed_targets(hs: Seq<Handler>, n: int, x: Seq<char>)
    requires
        0 <= n <= hs.len(),
    ensures
        has_name(timed_targets_upto(hs, n), x) <==> exists|i: int, t: int|
            0 <= i < n && hs[i].timeout is Some && 0 <= t < hs[i].return_states.len() && #[trigger] hs[i].return_states@[t].name@ == x,
    decreases n,
{
    if n > 0 {
        lemma_timed_targets(hs, n - 1, x);
        let prev = timed_targets_upto(hs, n - 1);
        let add = if hs[n - 1].timeout is Some { target_names(hs[n - 1]) } else { Seq::empty() };
        let all = timed_targets_upto(hs, n);
        assert(all == prev + add);
        if has_name(all, x) {
            let k = choose|k: int| 0 <= k < all.len() && #[trigger] all[k]@ == x;
            if k < prev.len() {
                assert(prev[k] == all[k]);
            } else {
                assert(add[k - prev.len()] == all[k]);
                assert(hs[n - 1].return_states@[k - prev.len()].name@ == x);
            }
        }
        if exists|i: int, t: int|
            0 <= i < n && hs[i].timeout is Some && 0 <= t < hs[i].return_states.len() && #[trigger] hs[i].return_states@[t].name@ == x {
            let (i, t) = choose|i: int, t: int|
                0 <= i < n && hs[i].timeout is Some && 0 <= t < hs[i].return_states.len() && #[trigger] hs[i].return_states@[t].name@ == x;
            if i < n - 1 {
                let k = choose|k: int| 0 <= k < prev.len() && #[trigger] prev[k]@ == x;
                assert(all[k] == prev[k]);
            } else {
                assert(all[prev.len() + t] == add[t]);
                assert(add[t] == hs[n - 1].return_states@[t].name);
            }
        }
    }
}

/// The states that arm a timeout are exactly the targets of the handlers
/// that carry a `#[state_timeout]`: every such target is among them, and each
/// of them is such a target.
pub proof fn lemma_timed_states(fsm: FsmStructure, has_timeout_handler: bool)
    requires
        timed_states_result(fsm, has_timeout_handler) is Ok,
    ensures
        forall|i: int, t: int|
            0 <= i < fsm.handlers.len() && fsm.handlers@[i].timeout is Some && 0 <= t < fsm.handlers@[i].return_states.len()
                ==> has_name(timed_states_result(fsm, has_timeout_handler)->Ok_0, #[trigger] fsm.handlers@[i].return_states@[t].name@),
        forall|x: Seq<char>|
            #[trigger] has_name(timed_states_result(fsm, has_timeout_handler)->Ok_0, x) ==> exists|i: int, t: int|
                0 <= i < fsm.handlers.len() && fsm.handlers@[i].timeout is Some && 0 <= t < fsm.handlers@[i].return_states.len()
                    && #[trigger] fsm.handlers@[i].return_states@[t].name@ == x,
{
    let hs = fsm.handlers@;
    let n = fsm.handlers.len() as int;
    lemma_dedup_names(timed_targets_upto(hs, n));
    assert forall|i: int, t: int|
        0 <= i < n && hs[i].timeout is Some && 0 <= t < hs[i].return_states.len() implies has_name(
        timed_states_result(fsm, has_timeout_handler)->Ok_0,
        #[trigger] hs[i].return_states@[t].name@,
    ) by {
        lemma_timed_targets(hs, n, hs[i].return_states@[t].name@);
    }
    assert forall|x: Seq<char>| #[trigger] has_name(timed_states_result(fsm, has_timeout_handler)->Ok_0, x) implies exists|i: int, t: int|
        0 <= i < n && hs[i].timeout is Some && 0 <= t < hs[i].return_states.len() && #[trigger] hs[i].return_states@[t].name@ == x by {
        lemma_timed_targets(hs, n, x);
    }
}

/// In a validated structure the `#[on_timeout]` handler moves the machine from
/// every state that some handler arms a timeout for to each of its targets.
pub proof fn lemma_timeout_handler_edges(fsm: FsmStructure, i: int, t: int, th: int, u: int)
    requires
        validate_result(fsm) is Ok,
        has_timeout_at(fsm, i),
        0 <= t < fsm.handlers@[i].return_states.len(),
        is_timeout_handler_at(fsm, th),
        0 <= u < fsm.handlers@[th].return_states.len(),
    ensures
        node_of(fsm, fsm.handlers@[i].return_states@[t].name@) is Some,
        node_of(fsm, fsm.handlers@[th].return_states@[u].name@) is Some,
        transition_edge(
            fsm,
            node_of(fsm, fsm.handlers@[i].return_states@[t].name@)->Some_0 as usize,
            node_of(fsm, fsm.handlers@[th].return_states@[u].name@)->Some_0 as usize,
        ),
{
    let x = fsm.handlers@[i].return_states@[t].name@;
    let y = fsm.handlers@[th].return_states@[u].name@;
    lemma_validate_iff(fsm);
    lemma_valid_timeout_contract_ok(fsm);
    lemma_timed_states(fsm, has_timeout_handler(fsm));
    let timed = timed_states(fsm);
    assert(has_name(timed, x));
    let k = choose|k: int| 0 <= k < timed.len() && #[trigger] timed[k]@ == x;
    assert(target_names(fsm.handlers@[th])[u]@ == y);
    assert(target_names(fsm.handlers@[th]).len() > 0);
    assert(!any_missing(fsm, target_names(fsm.handlers@[th])));
    assert(!missing(fsm, target_names(fsm.handlers@[th])[u]@));
    assert(handler_sources(fsm, th) == timed);
    assert(!any_missing(fsm, timed));
    assert(!missing(fsm, timed[k]@));
    let a = node_of(fsm, x)->Some_0 as usize;
    let b = node_of(fsm, y)->Some_0 as usize;
    lemma_last_state_index(fsm.states@, x, fsm.states.len() as int);
    lemma_last_state_index(fsm.states@, y, fsm.states.len() as int);
    assert(target_name(fsm, th, u)@ == y);
    assert(crate::graph::target_node(fsm, th, b));
    assert(crate::graph::source_node_in(fsm, timed, th, a));
}

// ----------------------------------------------------------------------
// The plan

/// Every arm of the plan's event match calls a handler that declares the arm's
/// event for the arm's state, with that handler's `has_payload` and return
/// kind.
proof fn lemma_arms_from_handlers(hs: Seq<Handler>, n: int)
    requires
        0 <= n <= hs.len(),
    ensures
        forall|k: int|
            0 <= k < event_arms_upto(hs, n).len() ==> exists|h: int, j: int|
                0 <= h < n && 0 <= j < hs[h].source_states@.len() && hs[h].event is Some
                    && #[trigger] event_arms_upto(hs, n)[k] == (EventArm {
                    state: hs[h].source_states@[j],
                    event: hs[h].event->Some_0.name,
                    method_name: hs[h].method_name,
                    has_payload: hs[h].has_payload,
                    return_kind: hs[h].return_kind->Some_0,
                }),
        forall|h: int, j: int|
            0 <= h < n && 0 <= j < hs[h].source_states@.len() && hs[h].event is Some ==> #[trigger] event_arms_upto(hs, n).contains(
                EventArm {
                    state: hs[h].source_states@[j],
                    event: hs[h].event->Some_0.name,
                    method_name: hs[h].method_name,
                    has_payload: hs[h].has_payload,
                    return_kind: hs[h].return_kind->Some_0,
                },
            ),
    decreases n,
{
    if n > 0 {
        lemma_arms_from_handlers(hs, n - 1);
        let prev = event_arms_upto(hs, n - 1);
        let add = handler_event_arms(hs[n - 1]);
        let all = event_arms_upto(hs, n);
        assert(all == prev + add);
        assert forall|k: int| 0 <= k < all.len() implies exists|h: int, j: int|
            0 <= h < n && 0 <= j < hs[h].source_states@.len() && hs[h].event is Some && #[trigger] all[k] == (EventArm {
                state: hs[h].source_states@[j],
                event: hs[h].event->Some_0.name,
                method_name: hs[h].method_name,
                has_payload: hs[h].has_payload,
                return_kind: hs[h].return_kind->Some_0,
            }) by {
            if k < prev.len() {
                assert(all[k] == prev[k]);
            } else {
                let j = k - prev.len();
                assert(all[k] == add[j]);
                assert(hs[n - 1].event is Some);
                assert(add[j] == (EventArm {
                    state: hs[n - 1].source_states@[j],
                    event: hs[n - 1].event->Some_0.name,
                    method_name: hs[n - 1].method_name,
                    has_payload: hs[n - 1].has_payload,
                    return_kind: hs[n - 1].return_kind->Some_0,
                }));
            }
        }
        assert forall|h: int, j: int|
            0 <= h < n && 0 <= j < hs[h].source_states@.len() && hs[h].event is Some implies #[trigger] all.contains(
                EventArm {
                    state: hs[h].source_states@[j],
                    event: hs[h].event->Some_0.name,
                    method_name: hs[h].method_name,
                    has_payload: hs[h].has_payload,
                    return_kind: hs[h].return_kind->Some_0,
                },
            ) by {
            let arm = EventArm {
                state: hs[h].source_states@[j],
                event: hs[h].event->Some_0.name,
                method_name: hs[h].method_name,
                has_payload: hs[h].has_payload,
                return_kind: hs[h].return_kind->Some_0,
            };
            if h < n - 1 {
                assert(prev.contains(arm));
                let k = choose|k: int| 0 <= k < prev.len() && prev[k] == arm;
                assert(all[k] == prev[k]);
            } else {
                assert(add[j] == arm);
                assert(all[prev.len() + j] == add[j]);
            }
        }
    }
}

/// Each arm of a plan is, for some handler that handles an event and one of
/// its source states, the arm for that state and event calling that handler,
/// with the handler's `has_payload` and return kind.
pub proof fn lemma_plan_event_arms(fsm: FsmStructure, plan: CodegenPlan)
    requires
        plan_agrees(Ok::<CodegenPlan, FsmError>(plan), fsm),
    ensures
        forall|k: int|
            0 <= k < plan.event_arms.len() ==> exists|h: int, j: int|
                0 <= h < fsm.handlers.len() && 0 <= j < fsm.handlers@[h].source_states.len() && fsm.handlers@[h].event is Some
                    && #[trigger] plan.event_arms@[k] == (EventArm {
                    state: fsm.handlers@[h].source_states@[j],
                    event: fsm.handlers@[h].event->Some_0.name,
                    method_name: fsm.handlers@[h].method_name,
                    has_payload: fsm.handlers@[h].has_payload,
                    return_kind: fsm.handlers@[h].return_kind->Some_0,
                }),
        forall|h: int, j: int|
            0 <= h < fsm.handlers.len() && 0 <= j < fsm.handlers@[h].source_states.len() && fsm.handlers@[h].event is Some
                ==> #[trigger] plan.event_arms@.contains(
                EventArm {
                    state: fsm.handlers@[h].source_states@[j],
                    event: fsm.handlers@[h].event->Some_0.name,
                    method_name: fsm.handlers@[h].method_name,
                    has_payload: fsm.handlers@[h].has_payload,
                    return_kind: fsm.handlers@[h].return_kind->Some_0,
                },
            ),
{
    let hs = fsm.handlers@;
    let arms = event_arms_upto(hs, fsm.handlers.len() as int);
    lemma_arms_from_handlers(hs, fsm.handlers.len() as int);
    assert(plan.event_arms@ == arms);
    assert forall|k: int| 0 <= k < plan.event_arms.len() implies exists|h: int, j: int|
        0 <= h < fsm.handlers.len() && 0 <= j < fsm.handlers@[h].source_states.len() && fsm.handlers@[h].event is Some
            && #[trigger] plan.event_arms@[k] == (EventArm {
            state: fsm.handlers@[h].source_states@[j],
            event: fsm.handlers@[h].event->Some_0.name,
            method_name: fsm.handlers@[h].method_name,
            has_payload: fsm.handlers@[h].has_payload,
            return_kind: fsm.handlers@[h].return_kind->Some_0,
        }) by {
        assert(plan.event_arms@[k] == arms[k]);
        let (h, j) = choose|h: int, j: int|
            0 <= h < fsm.handlers.len() && 0 <= j < hs[h].source_states@.len() && hs[h].event is Some
                && #[trigger] arms[k] == (EventArm {
                state: hs[h].source_states@[j],
                event: hs[h].event->Some_0.name,
                method_name: hs[h].method_name,
                has_payload: hs[h].has_payload,
                return_kind: hs[h].return_kind->Some_0,
            });
        assert(fsm.handlers@[h].source_states.len() == hs[h].source_states@.len());
    }
}

/// When the timer fires, the loop calls the first `#[on_timeout]` handler,
/// with that handler's own return kind; without one it ignores the timer.
pub proof fn lemma_timer_dispatch(fsm: FsmStructure, plan: CodegenPlan, state: Seq<char>, i: int)
    requires
        plan_agrees(Ok::<CodegenPlan, FsmError>(plan), fsm),
    ensures
        (forall|k: int| !#[trigger] is_timeout_handler_at(fsm, k)) ==> action_spec(plan, state, LoopInput::TimerFired)
            == LoopAction::Ignore,
        is_timeout_handler_at(fsm, i) && (forall|k: int| 0 <= k < i ==> !#[trigger] is_timeout_handler_at(fsm, k)) ==> action_spec(
            plan,
            state,
            LoopInput::TimerFired,
        ) == LoopAction::Call(
            Dispatch { method_name: fsm.handlers@[i].method_name, return_kind: fsm.handlers@[i].return_kind->Some_0 },
        ),
{
    if forall|k: int| !#[trigger] is_timeout_handler_at(fsm, k) {
        assert forall|k: int| !#[trigger] is_first_timeout_handler(fsm, k) by {
            assert(!is_timeout_handler_at(fsm, k));
        }
    }
    if is_timeout_handler_at(fsm, i) && (forall|k: int| 0 <= k < i ==> !#[trigger] is_timeout_handler_at(fsm, k)) {
        assert forall|k: int| 0 <= k < i implies !(#[trigger] fsm.handlers@[k]).is_timeout_handler by {
            assert(!is_timeout_handler_at(fsm, k));
        }
        assert(is_first_timeout_handler(fsm, i));
        let c = choose|c: int| is_first_timeout_handler(fsm, c);
        assert(c == i) by {
            if c < i {
                assert(!is_timeout_handler_at(fsm, c));
            } else if c > i {
                assert(!fsm.handlers@[i].is_timeout_handler);
            }
        }
    }
}

} // verus!
