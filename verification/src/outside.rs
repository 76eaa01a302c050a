//! Declarations of the outside types and calls that the verified code uses.
//! Every contract here is trusted: it states what the outside crate's source
//! and documentation show, and nothing checks it but a reader.

use vstd::prelude::*;

verus! {

/// `tokio::task::JoinError`: the failure of a spawned task. Opaque here; it is
/// only carried through.
#[verifier::external_type_specification]
#[verifier::external_body]
pub struct ExJoinError(tokio::task::JoinError);

} // verus!

verus! {

/// `petgraph::graph::Graph`: an adjacency-list graph. Opaque here; what it
/// holds is read through `graph_nodes` and `graph_edges`.
#[verifier::external_type_specification]
#[verifier::external_body]
#[verifier::reject_recursive_types(N)]
#[verifier::reject_recursive_types(E)]
#[verifier::reject_recursive_types(Ty)]
#[verifier::reject_recursive_types(Ix)]
pub struct ExGraph<N, E, Ty, Ix>(petgraph::graph::Graph<N, E, Ty, Ix>);

/// `petgraph::Directed`: the marker for directed edges.
#[verifier::external_type_specification]
#[verifier::external_body]
pub struct ExDirected(petgraph::Directed);

/// The node weights of a state graph, in node-index order.
pub uninterp spec fn graph_nodes(g: petgraph::graph::Graph<usize, (), petgraph::Directed, usize>) -> Seq<usize>;

/// The edges of a state graph, as (source index, target index), in the order
/// in which they were added.
pub uninterp spec fn graph_edges(g: petgraph::graph::Graph<usize, (), petgraph::Directed, usize>) -> Seq<(usize, usize)>;

/// `path` is a nonempty walk along `edges`.
pub open spec fn is_path(edges: Seq<(usize, usize)>, path: Seq<usize>) -> bool {
    &&& path.len() > 0
    &&& forall|i: int| 0 <= i < path.len() - 1 ==> #[trigger] edges.contains((path[i], path[i + 1]))
}

/// `to` can be reached from `from` along `edges` (in zero or more steps).
pub open spec fn reachable(edges: Seq<(usize, usize)>, from: usize, to: usize) -> bool {
    exists|path: Seq<usize>| is_path(edges, path) && path[0] == from && path.last() == to
}

/// `Graph::with_capacity(0, 0)`: a new directed graph with no nodes and no edges.
#[verifier::external_body]
pub(crate) fn graph_new() -> (g: petgraph::graph::Graph<usize, (), petgraph::Directed, usize>)
    ensures
        graph_nodes(g) == Seq::<usize>::empty(),
        graph_edges(g) == Seq::<(usize, usize)>::empty(),
{
    petgraph::graph::Graph::with_capacity(0, 0)
}

/// `Graph::add_node`: appends a node with the given weight and returns its
/// index, which is the number of nodes before the call. With `usize` indices
/// the capacity check of the source never fails.
#[verifier::external_body]
pub(crate) fn graph_add_node(
    g: &mut petgraph::graph::Graph<usize, (), petgraph::Directed, usize>,
    weight: usize,
) -> (ix: usize)
    ensures
        ix == graph_nodes(*old(g)).len(),
        graph_nodes(*final(g)) == graph_nodes(*old(g)).push(weight),
        graph_edges(*final(g)) == graph_edges(*old(g)),
{
    g.add_node(weight).index()
}

/// `Graph::add_edge`: appends an edge from node `a` to node `b`. It panics
/// when either node does not exist, which `requires` rules out.
#[verifier::external_body]
pub(crate) fn graph_add_edge(
    g: &mut petgraph::graph::Graph<usize, (), petgraph::Directed, usize>,
    a: usize,
    b: usize,
)
    requires
        a < graph_nodes(*old(g)).len(),
        b < graph_nodes(*old(g)).len(),
    ensures
        graph_nodes(*final(g)) == graph_nodes(*old(g)),
        graph_edges(*final(g)) == graph_edges(*old(g)).push((a, b)),
{
    g.add_edge(petgraph::graph::NodeIndex::new(a), petgraph::graph::NodeIndex::new(b), ());
}

/// `petgraph::visit::Dfs` run to completion from `start`: the indices of the
/// nodes that the traversal emits, which (by the type's documentation) are
/// exactly the nodes reachable from `start`. `Dfs::new` panics when `start`
/// is not a node, which `requires` rules out. The order of the nodes is not
/// stated.
#[verifier::external_body]
pub(crate) fn graph_dfs(
    g: &petgraph::graph::Graph<usize, (), petgraph::Directed, usize>,
    start: usize,
) -> (visited: Vec<usize>)
    requires
        start < graph_nodes(*g).len(),
    ensures
        forall|v: usize| #[trigger] visited@.contains(v) <==> reachable(graph_edges(*g), start, v),
{
    let dfs = petgraph::visit::Dfs::new(g, petgraph::graph::NodeIndex::new(start));
    petgraph::visit::Walker::iter(dfs, g).map(petgraph::graph::NodeIndex::<usize>::index).collect()
}

/// The number of ASCII digits (`'0'` to `'9'`) in a text.
pub open spec fn digit_count(s: Seq<char>) -> nat
    decreases s.len(),
{
    if s.len() == 0 {
        0
    } else {
        digit_count(s.drop_last()) + if '0' <= s.last() && s.last() <= '9' {
            1nat
        } else {
            0nat
        }
    }
}

/// The most ASCII digits a duration text may hold to be handed to
/// `humantime::parse_duration`.
pub const MAX_DURATION_DIGITS: usize = 11;

/// What `humantime::parse_duration` gives for a text: `Ok((seconds,
/// nanoseconds))` when it accepts it, or the `Display` text of the error with
/// which it refuses it.
pub uninterp spec fn humantime_parse(text: Seq<char>) -> Result<(u64, u32), Seq<char>>;

/// `humantime::parse_duration`, with the `Duration` taken apart into whole
/// seconds and the sub-second nanoseconds (always under one billion), and a
/// refusal turned into its `Display` text.
///
/// The parser adds each span to the running `Duration` in `add_current`,
/// which builds `Duration::new(secs, nanos)` with `nanos` possibly exactly one
/// billion; `Duration::new` panics when that carry overflows `u64` seconds.
/// Each number in the text is below `10^k` for its `k` digits, the largest
/// unit is a year of 31 557 600 s, and a fractional part adds less than one
/// unit; so a text with at most `MAX_DURATION_DIGITS` digits stays below
/// 4 * 10^18 seconds, far from `u64::MAX`, and the call returns.
#[verifier::external_body]
pub(crate) fn parse_duration(text: &str) -> (r: Result<(u64, u32), String>)
    requires
        digit_count(text@) <= MAX_DURATION_DIGITS,
    ensures
        match r {
            Ok(d) => humantime_parse(text@) == Ok::<(u64, u32), Seq<char>>(d) && d.1 < 1_000_000_000,
            Err(reason) => humantime_parse(text@) == Err::<(u64, u32), Seq<char>>(reason@),
        },
{
    match humantime::parse_duration(text) {
        Ok(d) => Ok((d.as_secs(), d.subsec_nanos())),
        Err(e) => Err(e.to_string()),
    }
}

} // verus!
