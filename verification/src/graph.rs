//! The resolved module dependency graph, and the decisions taken while
//! building it: the load order, the cycle report, and module naming.

use vstd::prelude::*;
use vstd::set_lib::*;
use std::ops::Range;
use petgraph::graph::{DiGraph, NodeIndex};
use petgraph::visit::{Control, DfsEvent};
use crate::module::{Dependency, ExportDecl, ModuleId, ModuleInfo};
use crate::text::{chars_of, push_char, push_char_range};

verus! {

// ----- the petgraph graph the builder orders modules with -----

#[verifier::external_type_specification]
#[verifier::external_body]
#[verifier::reject_recursive_types(N)]
#[verifier::reject_recursive_types(E)]
#[verifier::reject_recursive_types(Ty)]
#[verifier::reject_recursive_types(Ix)]
pub struct ExGraph<N, E, Ty, Ix>(petgraph::graph::Graph<N, E, Ty, Ix>);

#[verifier::external_type_specification]
#[verifier::external_body]
pub struct ExDirected(petgraph::Directed);

/// The module index each node of `g` carries, by node index.
pub uninterp spec fn graph_nodes(g: DiGraph<ModuleId, ()>) -> Seq<usize>;

/// The edges of `g`, as (from, to) node indices in the order they were added.
pub uninterp spec fn graph_edges(g: DiGraph<ModuleId, ()>) -> Seq<(usize, usize)>;

/// `petgraph::graph::Graph::new`: a graph with no nodes and no edges.
#[verifier::external_body]
fn new_graph() -> (g: DiGraph<ModuleId, ()>)
    ensures
        graph_nodes(g) == Seq::<usize>::empty(),
        graph_edges(g) == Seq::<(usize, usize)>::empty(),
{
    DiGraph::new()
}

/// `Graph::add_node`: appends a node carrying `id` and returns its index,
/// one past the last; it panics once the `u32` index space is used up.
#[verifier::external_body]
fn add_graph_node(g: &mut DiGraph<ModuleId, ()>, id: ModuleId) -> (index: usize)
    requires
        graph_nodes(*old(g)).len() < u32::MAX,
    ensures
        index == graph_nodes(*old(g)).len(),
        graph_nodes(*final(g)) == graph_nodes(*old(g)).push(id.0),
        graph_edges(*final(g)) == graph_edges(*old(g)),
{
    g.add_node(id).index()
}

/// `Graph::add_edge`: appends the edge `from -> to`; it panics on a node
/// index out of bounds, or once the `u32` edge index space is used up.
#[verifier::external_body]
fn add_graph_edge(g: &mut DiGraph<ModuleId, ()>, from: usize, to: usize)
    requires
        from < graph_nodes(*old(g)).len(),
        to < graph_nodes(*old(g)).len(),
        graph_edges(*old(g)).len() < u32::MAX,
    ensures
        graph_nodes(*final(g)) == graph_nodes(*old(g)),
        graph_edges(*final(g)) == graph_edges(*old(g)).push((from, to)),
{
    g.add_edge(NodeIndex::new(from), NodeIndex::new(to), ());
}

/// `g[index]`: the module id node `index` carries.
#[verifier::external_body]
fn node_module(g: &DiGraph<ModuleId, ()>, index: usize) -> (id: ModuleId)
    requires
        index < graph_nodes(*g).len(),
    ensures
        id.0 == graph_nodes(*g)[index as int],
{
    g[NodeIndex::new(index)]
}

/// `edges` has an edge `from -> to`.
pub open spec fn has_edge(edges: Seq<(usize, usize)>, from: int, to: int) -> bool {
    exists|i: int| 0 <= i < edges.len() && (#[trigger] edges[i]).0 == from && edges[i].1 == to
}

/// `order` lists the nodes `0..count` once each, every node before its
/// successors along `edges`.
pub open spec fn is_topological_order(count: nat, edges: Seq<(usize, usize)>, order: Seq<usize>) -> bool {
    &&& order.len() == count
    &&& forall|i: int| 0 <= i < order.len() ==> (#[trigger] order[i]) < count
    &&& forall|i: int, j: int| 0 <= i < j < order.len() ==> (#[trigger] order[i]) != (#[trigger] order[j])
    &&& forall|k: int|
        0 <= k < edges.len() ==> exists|i: int, j: int|
            0 <= i < j < order.len() && order[i] == (#[trigger] edges[k]).0 && order[j] == edges[k].1
}

/// `walk` follows `edges` from its first node to its last.
pub open spec fn is_walk(edges: Seq<(usize, usize)>, walk: Seq<usize>) -> bool {
    forall|i: int| 0 <= i < walk.len() - 1 ==> has_edge(edges, #[trigger] walk[i] as int, walk[i + 1] as int)
}

/// Node `n` lies on a cycle of `edges`: some walk of at least one edge
/// leads from `n` back to `n`.
pub open spec fn on_cycle(edges: Seq<(usize, usize)>, n: usize) -> bool {
    exists|walk: Seq<usize>| walk.len() >= 2 && walk[0] == n && walk.last() == n && #[trigger] is_walk(edges, walk)
}

/// What `petgraph::algo::toposort` returns on a graph of `count` nodes with
/// `edges`: the node order, or the node of a cycle it reports.
pub uninterp spec fn toposort_of(count: nat, edges: Seq<(usize, usize)>) -> Result<Seq<usize>, usize>;

/// The order or the cycle node of `sorted`, as plain values.
pub open spec fn sorted_model(sorted: Result<Vec<usize>, usize>) -> Result<Seq<usize>, usize> {
    match sorted {
        Ok(order) => Ok(order@),
        Err(n) => Err(n),
    }
}

/// `petgraph::algo::toposort`: on an acyclic graph every node, each before
/// its successors; on a cyclic one (self loops included), a node that
/// participates in a cycle.
#[verifier::external_body]
fn topological_sort(g: &DiGraph<ModuleId, ()>) -> (sorted: Result<Vec<usize>, usize>)
    ensures
        sorted_model(sorted) == toposort_of(graph_nodes(*g).len(), graph_edges(*g)),
        match sorted {
            Ok(order) => is_topological_order(graph_nodes(*g).len(), graph_edges(*g), order@),
            Err(n) => n < graph_nodes(*g).len() && on_cycle(graph_edges(*g), n),
        },
{
    match petgraph::algo::toposort(g, None) {
        Ok(nodes) => Ok(nodes.into_iter().map(|n| n.index()).collect()),
        Err(cycle) => Err(cycle.node_id().index()),
    }
}

/// A dependency cycle found while ordering modules: the require in
/// `file_path` at `span` closes `cycle`, the module paths around the loop
/// with the first repeated at the end.
#[derive(Debug, Clone)]
pub struct CycleWarning {
    pub file_path: String,
    pub span: Range<usize>,
    pub cycle: Vec<String>,
}

/// A warning met while building the graph.
#[derive(Debug, Clone)]
pub enum GraphWarning {
    /// Reported against module `path` at `span` while it was read.
    Module { path: String, span: Range<usize>, message: String },
    /// A dependency cycle blocks the load order.
    Cycle(CycleWarning),
}

/// The resolved module dependency graph: modules in topological order with
/// the entry point identified.
pub struct DependencyGraph {
    pub modules: Vec<ModuleInfo>,
    pub topo_order: Vec<ModuleId>,
    pub entry_id: ModuleId,
    pub warnings: Vec<GraphWarning>,
}

/// The paths of `modules`, in order.
pub open spec fn module_paths(modules: Seq<ModuleInfo>) -> Seq<Seq<char>> {
    modules.map_values(|m: ModuleInfo| m.path@)
}

/// `path` is the path of one of `modules`.
pub open spec fn is_module_path(modules: Seq<ModuleInfo>, path: Seq<char>) -> bool {
    exists|m: int| 0 <= m < modules.len() && (#[trigger] modules[m]).path@ == path
}

/// Module `m` appears in the load order `topo`.
pub open spec fn listed(topo: Seq<ModuleId>, m: int) -> bool {
    exists|p: int| 0 <= p < topo.len() && (#[trigger] topo[p]).0 == m
}

impl DependencyGraph {
    /// What a built graph always satisfies: the entry is one of the
    /// modules, the load order lists every module exactly once, module
    /// paths are distinct, and every dependency resolves to a module.
    pub open spec fn well_formed(&self) -> bool {
        let modules = self.modules@;
        let topo = self.topo_order@;
        &&& self.entry_id.0 < modules.len()
        &&& topo.len() == modules.len()
        &&& forall|p: int| 0 <= p < topo.len() ==> (#[trigger] topo[p]).0 < modules.len()
        &&& forall|p: int, q: int| 0 <= p < q < topo.len() ==> (#[trigger] topo[p]) != (#[trigger] topo[q])
        &&& forall|m: int| 0 <= m < modules.len() ==> #[trigger] listed(topo, m)
        &&& forall|a: int, b: int|
            0 <= a < b < modules.len() ==> (#[trigger] modules[a]).path@ != (#[trigger] modules[b]).path@
        &&& forall|m: int, j: int|
            0 <= m < modules.len() && 0 <= j < modules[m].dependencies@.len() ==> is_module_path(
                modules,
                (#[trigger] modules[m].dependencies@[j]).resolved_path@,
            )
    }
}

// ----- finding the cycle that blocks the load order -----

/// A depth-first search event, with node indices: a node discovered, an
/// edge of the search tree, an edge back to a node still being explored,
/// a cross or forward edge, and a node whose edges have all been reported.
#[derive(Debug, Clone, Copy, PartialEq, Eq, Structural)]
pub enum DfsStep {
    Discover(usize),
    TreeEdge(usize, usize),
    BackEdge(usize, usize),
    CrossForwardEdge(usize, usize),
    Finish(usize),
}

/// The events `petgraph::visit::depth_first_search` reports, from node
/// `start`, on a graph of `count` nodes with `edges`, when every event is
/// answered with `Control::Continue`.
pub uninterp spec fn dfs_events(count: nat, edges: Seq<(usize, usize)>, start: nat) -> Seq<DfsStep>;

/// The state of the cycle search: the path of nodes being explored, and
/// the cycle once one is found.
pub struct CycleSearch {
    pub path: Vec<usize>,
    pub cycle: Vec<usize>,
}

impl CycleSearch {
    pub open spec fn model(self) -> (Seq<usize>, Seq<usize>) {
        (self.path@, self.cycle@)
    }
}

/// Position of the first `target` in `path`, if any.
pub open spec fn first_index(path: Seq<usize>, target: usize) -> Option<int> {
    if exists|i: int| 0 <= i < path.len() && path[i] == target && forall|j: int| 0 <= j < i ==> path[j] != target {
        Some(choose|i: int| 0 <= i < path.len() && path[i] == target && forall|j: int| 0 <= j < i ==> path[j] != target)
    } else {
        None
    }
}

/// One event of the search: a discovered node joins the path, a finished
/// one leaves it (it is the path's last node), and an edge back to a node
/// on the path closes the cycle from that node on, which ends the search.
pub open spec fn search_step(state: (Seq<usize>, Seq<usize>), event: DfsStep) -> ((Seq<usize>, Seq<usize>), bool) {
    let (path, cycle) = state;
    match event {
        DfsStep::Discover(n) => ((path.push(n), cycle), false),
        DfsStep::BackEdge(_, target) => match first_index(path, target) {
            Some(pos) => ((path, path.subrange(pos, path.len() as int).push(target)), true),
            None => (state, false),
        },
        DfsStep::Finish(_) => ((
            if path.len() > 0 {
                path.drop_last()
            } else {
                path
            },
            cycle,
        ), false),
        _ => (state, false),
    }
}

/// The search state after `events`, stopping at the event that ends it.
pub open spec fn run_search(state: (Seq<usize>, Seq<usize>), events: Seq<DfsStep>) -> (Seq<usize>, Seq<usize>)
    decreases events.len(),
{
    if events.len() == 0 {
        state
    } else {
        let (next, stop) = search_step(state, events[0]);
        if stop {
            next
        } else {
            run_search(next, events.drop_first())
        }
    }
}

/// Handles one search event; true ends the search.
pub fn cycle_step(search: &mut CycleSearch, event: DfsStep) -> (stop: bool)
    ensures
        (final(search).model(), stop) == search_step(old(search).model(), event),
{
    match event {
        DfsStep::Discover(n) => {
            search.path.push(n);
            proof {
                assert(search.model() =~= (old(search).path@.push(n), old(search).cycle@));
            }
            false
        },
        DfsStep::BackEdge(_, target) => {
            let mut pos: usize = 0;
            while pos < search.path.len() && search.path[pos] != target
                invariant
                    pos <= search.path@.len(),
                    forall|j: int| 0 <= j < pos ==> search.path@[j] != target,
                decreases search.path@.len() - pos,
            {
                pos += 1;
            }
            if pos < search.path.len() {
                proof {
                    let i = choose|i: int|
                        0 <= i < search.path@.len() && search.path@[i] == target && forall|j: int|
                            0 <= j < i ==> search.path@[j] != target;
                    if i < pos {
                    } else if pos < i {
                        assert(search.path@[pos as int] == target);
                    }
                }
                let mut cycle: Vec<usize> = Vec::new();
                let mut k: usize = pos;
                while k < search.path.len()
                    invariant
                        pos <= k <= search.path@.len(),
                        cycle@ == search.path@.subrange(pos as int, k as int),
                    decreases search.path@.len() - k,
                {
                    cycle.push(search.path[k]);
                    proof {
                        assert(search.path@.subrange(pos as int, k + 1) =~= search.path@.subrange(pos as int, k as int).push(search.path@[k as int]));
                    }
                    k += 1;
                }
                cycle.push(target);
                search.cycle = cycle;
                proof {
                    assert(search.model() =~= (old(search).path@, old(search).path@.subrange(pos as int, old(search).path@.len() as int).push(target)));
                }
                true
            } else {
                false
            }
        },
        DfsStep::Finish(_) => {
            search.path.pop();
            proof {
                if old(search).path@.len() > 0 {
                    assert(search.model() =~= (old(search).path@.drop_last(), old(search).cycle@));
                } else {
                    assert(search.model() =~= old(search).model());
                }
            }
            false
        },
        _ => false,
    }
}

/// All nodes the search holds are nodes of a graph of `count` nodes.
pub open spec fn search_within(state: (Seq<usize>, Seq<usize>), count: nat) -> bool {
    &&& forall|i: int| 0 <= i < state.0.len() ==> (#[trigger] state.0[i]) < count
    &&& forall|i: int| 0 <= i < state.1.len() ==> (#[trigger] state.1[i]) < count
}

/// `petgraph::visit::depth_first_search` from `start`, each event handed
/// to [`cycle_step`] and the search ended when it asks to: the search
/// state afterwards is that of the events the search reports, up to the
/// one that ends it. The search only reports nodes of the graph.
#[verifier::external_body]
fn search_from(g: &DiGraph<ModuleId, ()>, start: usize, search: &mut CycleSearch)
    requires
        start < graph_nodes(*g).len(),
        old(search).model() == (Seq::<usize>::empty(), Seq::<usize>::empty()),
    ensures
        final(search).model() == run_search(old(search).model(), dfs_events(graph_nodes(*g).len(), graph_edges(*g), start as nat)),
        search_within(final(search).model(), graph_nodes(*g).len()),
{
    petgraph::visit::depth_first_search(g, Some(NodeIndex::new(start)), |event| {
        let step = match event {
            DfsEvent::Discover(n, _) => DfsStep::Discover(n.index()),
            DfsEvent::TreeEdge(u, v) => DfsStep::TreeEdge(u.index(), v.index()),
            DfsEvent::BackEdge(u, v) => DfsStep::BackEdge(u.index(), v.index()),
            DfsEvent::CrossForwardEdge(u, v) => DfsStep::CrossForwardEdge(u.index(), v.index()),
            DfsEvent::Finish(n, _) => DfsStep::Finish(n.index()),
        };
        if cycle_step(search, step) { Control::Break(()) } else { Control::Continue }
    });
}

/// The first of `modules` whose path is `path`.
pub open spec fn first_module_with_path(modules: Seq<ModuleInfo>, path: Seq<char>) -> Option<int> {
    if exists|m: int|
        0 <= m < modules.len() && (#[trigger] modules[m]).path@ == path && forall|k: int|
            0 <= k < m ==> modules[k].path@ != path {
        Some(
            choose|m: int|
                0 <= m < modules.len() && (#[trigger] modules[m]).path@ == path && forall|k: int|
                    0 <= k < m ==> modules[k].path@ != path,
        )
    } else {
        None
    }
}

/// The first of `deps` that resolves to `path`.
pub open spec fn first_require_to(deps: Seq<crate::module::Dependency>, path: Seq<char>) -> Option<int> {
    if exists|j: int|
        0 <= j < deps.len() && (#[trigger] deps[j]).resolved_path@ == path && forall|k: int|
            0 <= k < j ==> deps[k].resolved_path@ != path {
        Some(
            choose|j: int|
                0 <= j < deps.len() && (#[trigger] deps[j]).resolved_path@ == path && forall|k: int|
                    0 <= k < j ==> deps[k].resolved_path@ != path,
        )
    } else {
        None
    }
}

/// The call span of the first require in the module at `from` that
/// resolves to `to`.
pub open spec fn require_span(modules: Seq<ModuleInfo>, from: Seq<char>, to: Seq<char>) -> Option<Range<usize>> {
    match first_module_with_path(modules, from) {
        Some(m) => match first_require_to(modules[m].dependencies@, to) {
            Some(j) => Some(modules[m].dependencies@[j].call_span),
            None => None,
        },
        None => None,
    }
}

/// The search's cycle is empty, or a closed loop: it ends on the node it
/// starts from.
pub open spec fn closed_or_empty(cycle: Seq<usize>) -> bool {
    cycle.len() == 0 || (cycle.len() >= 2 && cycle[0] == cycle.last())
}

proof fn lemma_search_closes(state: (Seq<usize>, Seq<usize>), events: Seq<DfsStep>)
    requires
        closed_or_empty(state.1),
    ensures
        closed_or_empty(run_search(state, events).1),
    decreases events.len(),
{
    if events.len() > 0 {
        let (next, stop) = search_step(state, events[0]);
        if let DfsStep::BackEdge(_, target) = events[0] {
            if let Some(pos) = first_index(state.0, target) {
                assert(0 <= pos < state.0.len() && state.0[pos] == target);
                assert(next.1[0] == state.0[pos]);
            }
        }
        assert(closed_or_empty(next.1));
        if !stop {
            lemma_search_closes(next, events.drop_first());
        }
    }
}

/// The paths of the modules that `nodes` carry, node by node.
pub open spec fn node_paths(modules: Seq<ModuleInfo>, nodes: Seq<usize>, found: Seq<usize>) -> Seq<Seq<char>> {
    found.map_values(|n: usize| modules[nodes[n as int] as int].path@)
}

/// The texts of `strings`.
pub open spec fn texts(strings: Seq<String>) -> Seq<Seq<char>> {
    strings.map_values(|s: String| s@)
}

/// What the cycle search from `start` reports: the module paths around the
/// cycle it found, or the start module's path alone when it found none.
pub open spec fn cycle_report(modules: Seq<ModuleInfo>, nodes: Seq<usize>, found: Seq<usize>, start: usize) -> Seq<Seq<char>> {
    if found.len() == 0 {
        seq![modules[nodes[start as int] as int].path@]
    } else {
        node_paths(modules, nodes, found)
    }
}

/// The module paths around the cycle through node `start`: from the first
/// node on the search path that an edge leads back to, round to it again.
/// With no cycle reachable that way, just the start module's path. Either
/// way the report is a closed loop: its first path is its last.
pub fn find_cycle_path(graph: &DiGraph<ModuleId, ()>, modules: &Vec<ModuleInfo>, start: usize) -> (cycle: Vec<String>)
    requires
        start < graph_nodes(*graph).len(),
        forall|i: int| 0 <= i < graph_nodes(*graph).len() ==> (#[trigger] graph_nodes(*graph)[i]) < modules@.len(),
    ensures
        texts(cycle@) == cycle_report(
            modules@,
            graph_nodes(*graph),
            run_search(
                (Seq::<usize>::empty(), Seq::<usize>::empty()),
                dfs_events(graph_nodes(*graph).len(), graph_edges(*graph), start as nat),
            ).1,
            start,
        ),
        cycle@.len() >= 1,
        cycle@[0]@ == cycle@.last()@,
{
    let mut search = CycleSearch { path: Vec::new(), cycle: Vec::new() };
    proof {
        assert(search.model() =~= (Seq::<usize>::empty(), Seq::<usize>::empty()));
    }
    search_from(graph, start, &mut search);
    let ghost nodes = graph_nodes(*graph);
    proof {
        lemma_search_closes(
            (Seq::<usize>::empty(), Seq::<usize>::empty()),
            dfs_events(nodes.len(), graph_edges(*graph), start as nat),
        );
    }
    let mut cycle: Vec<String> = Vec::new();
    if search.cycle.len() == 0 {
        let id = node_module(graph, start);
        cycle.push(modules[id.0].path.clone());
        proof {
            assert(texts(cycle@) =~= seq![modules@[nodes[start as int] as int].path@]);
        }
        return cycle;
    }
    let mut k: usize = 0;
    while k < search.cycle.len()
        invariant
            nodes == graph_nodes(*graph),
            search_within(search.model(), nodes.len()),
            forall|i: int| 0 <= i < nodes.len() ==> (#[trigger] nodes[i]) < modules@.len(),
            k <= search.cycle@.len(),
            texts(cycle@) == node_paths(modules@, nodes, search.cycle@.take(k as int)),
        decreases search.cycle@.len() - k,
    {
        let n = search.cycle[k];
        proof {
            assert(search.model().1[k as int] == n);
        }
        let id = node_module(graph, n);
        let ghost before = cycle@;
        cycle.push(modules[id.0].path.clone());
        proof {
            assert(search.cycle@.take(k + 1) =~= search.cycle@.take(k as int).push(n));
            assert(texts(cycle@) =~= texts(before).push(modules@[id.0 as int].path@));
        }
        k += 1;
    }
    proof {
        assert(search.cycle@.take(k as int) =~= search.cycle@);
        let found = search.cycle@;
        assert(found[0] == found.last());
        assert(texts(cycle@)[0] == cycle@[0]@);
        assert(texts(cycle@)[cycle@.len() - 1] == cycle@.last()@);
    }
    cycle
}

/// The call span of the first require in module `from_path` that resolves
/// to `to_path`; `None` when no module has that path or no such require.
pub fn find_require_span(modules: &Vec<ModuleInfo>, from_path: &String, to_path: &String) -> (span: Option<Range<usize>>)
    ensures
        span == require_span(modules@, from_path@, to_path@),
{
    let mut m: usize = 0;
    while m < modules.len()
        invariant
            m <= modules@.len(),
            forall|k: int| 0 <= k < m ==> (#[trigger] modules@[k]).path@ != from_path@,
        decreases modules@.len() - m,
    {
        if modules[m].path == *from_path {
            let deps = &modules[m].dependencies;
            let mut j: usize = 0;
            while j < deps.len()
                invariant
                    m < modules@.len(),
                    modules@[m as int].path@ == from_path@,
                    forall|k: int| 0 <= k < m ==> (#[trigger] modules@[k]).path@ != from_path@,
                    *deps == modules@[m as int].dependencies,
                    j <= deps@.len(),
                    forall|k: int| 0 <= k < j ==> (#[trigger] deps@[k]).resolved_path@ != to_path@,
                decreases deps@.len() - j,
            {
                if deps[j].resolved_path == *to_path {
                    let span = deps[j].call_span.start..deps[j].call_span.end;
                    proof {
                        assert(first_module_with_path(modules@, from_path@) == Some(m as int));
                        assert(first_require_to(deps@, to_path@) == Some(j as int));
                    }
                    return Some(span);
                }
                j += 1;
            }
            proof {
                assert(first_module_with_path(modules@, from_path@) == Some(m as int));
            }
            return None;
        }
        m += 1;
    }
    None
}

// ----- module naming -----

/// The directory prefix stripped from module paths: `base` ending in `/`.
pub open spec fn dir_prefix(base: Seq<char>) -> Seq<char> {
    if base.len() > 0 && base.last() == '/' {
        base
    } else {
        base.push('/')
    }
}

/// `path` relative to the directory `base`: without the directory prefix
/// when it starts with it, unchanged otherwise.
pub open spec fn relative_to(path: Seq<char>, base: Seq<char>) -> Seq<char> {
    let p = dir_prefix(base);
    if p.len() <= path.len() && path.take(p.len() as int) == p {
        path.skip(p.len() as int)
    } else {
        path
    }
}

/// `path` relative to the project directory `base_normalized` (a
/// forward-slash normalized path).
pub fn make_relative(path: &str, base_normalized: &str) -> (relative: String)
    ensures
        relative@ == relative_to(path@, base_normalized@),
{
    let path_chars = chars_of(path);
    let mut prefix = chars_of(base_normalized);
    if !(prefix.len() > 0 && prefix[prefix.len() - 1] == '/') {
        prefix.push('/');
    }
    let mut relative = String::new();
    let mut is_prefix = prefix.len() <= path_chars.len();
    let mut i: usize = 0;
    while is_prefix && i < prefix.len()
        invariant
            prefix@ == dir_prefix(base_normalized@),
            path_chars@ == path@,
            is_prefix ==> prefix@.len() <= path_chars@.len(),
            i <= prefix@.len(),
            forall|k: int| 0 <= k < i ==> prefix@[k] == path_chars@[k],
            !is_prefix ==> !(prefix@.len() <= path_chars@.len() && path_chars@.take(prefix@.len() as int) == prefix@),
        decreases prefix@.len() - i, if is_prefix { 1int } else { 0int },
    {
        if prefix[i] != path_chars[i] {
            is_prefix = false;
            proof {
                if prefix@.len() <= path_chars@.len() && path_chars@.take(prefix@.len() as int) == prefix@ {
                    assert(path_chars@.take(prefix@.len() as int)[i as int] == path_chars@[i as int]);
                }
            }
        } else {
            i += 1;
        }
    }
    if is_prefix {
        proof {
            assert(path_chars@.take(prefix@.len() as int) =~= prefix@);
        }
        push_char_range(&mut relative, &path_chars, prefix.len(), path_chars.len());
        proof {
            assert(relative@ =~= path@.skip(prefix@.len() as int));
        }
    } else {
        push_char_range(&mut relative, &path_chars, 0, path_chars.len());
        proof {
            assert(relative@ =~= path@);
        }
    }
    relative
}

// ----- building the graph -----

/// Most modules one bundle may hold.
pub const MAX_MODULE_COUNT: usize = 10_000;

/// Largest module source accepted, in bytes.
pub const MAX_FILE_SIZE: usize = 10 * 1024 * 1024;

/// Why building the graph failed.
#[derive(Debug, Clone)]
pub enum GraphError {
    /// Discovery reached `path` with `limit` modules already in the graph.
    TooManyModules { path: String, limit: usize },
    /// The source of `path` is `size` bytes, over `limit`.
    FileTooLarge { path: String, size: usize, limit: usize },
    /// The entry module is not among the modules discovered.
    EntryNotFound { path: String },
    /// Reading, parsing or resolving module `path` failed at `span`.
    Module { path: String, span: Range<usize>, message: String },
}

/// Some module of `modules` has path `path`.
pub open spec fn known(modules: Seq<ModuleInfo>, path: Seq<char>) -> bool {
    exists|m: int| 0 <= m < modules.len() && (#[trigger] modules[m]).path@ == path
}

/// `queue` less the paths at its end that are already modules.
pub open spec fn skip_known(queue: Seq<Seq<char>>, modules: Seq<ModuleInfo>) -> Seq<Seq<char>>
    decreases queue.len(),
{
    if queue.len() > 0 && known(modules, queue.last()) {
        skip_known(queue.drop_last(), modules)
    } else {
        queue
    }
}

/// `path` is queued.
pub open spec fn queued(queue: Seq<String>, path: Seq<char>) -> bool {
    exists|i: int| 0 <= i < queue.len() && (#[trigger] queue[i])@ == path
}

/// `path` is a module's, queued, or pending.
pub open spec fn tracked_path(modules: Seq<ModuleInfo>, queue: Seq<String>, pending: Option<String>, path: Seq<char>) -> bool {
    known(modules, path) || queued(queue, path) || (pending matches Some(p) && p@ == path)
}

/// Accumulates modules, edges and errors as the walk from the entry module
/// discovers them. Discovery is driven from outside: [`Self::next_path`]
/// names the next file to process, which is then added with
/// [`Self::add_module`] or given up with [`Self::fail_module`].
pub struct GraphBuilder {
    rc_dir: String,
    modules: Vec<ModuleInfo>,
    graph: DiGraph<ModuleId, ()>,
    queue: Vec<String>,
    pending: Option<String>,
    errors: Vec<GraphError>,
    warnings: Vec<GraphWarning>,
}

impl GraphBuilder {
    pub closed spec fn modules_view(&self) -> Seq<ModuleInfo> {
        self.modules@
    }

    pub closed spec fn queue_view(&self) -> Seq<Seq<char>> {
        texts(self.queue@)
    }

    pub closed spec fn pending_view(&self) -> Option<Seq<char>> {
        match self.pending {
            Some(p) => Some(p@),
            None => None,
        }
    }

    pub closed spec fn errors_view(&self) -> Seq<GraphError> {
        self.errors@
    }

    pub closed spec fn rc_dir_view(&self) -> Seq<char> {
        self.rc_dir@
    }

    pub closed spec fn warnings_view(&self) -> Seq<GraphWarning> {
        self.warnings@
    }

    /// Every require is resolved to a module, to a queued path or to the
    /// pending one, unless discovery has already failed.
    closed spec fn requires_tracked(&self) -> bool {
        self.errors@.len() > 0 || forall|m: int, j: int|
            0 <= m < self.modules@.len() && 0 <= j < self.modules@[m].dependencies@.len() ==> tracked_path(
                self.modules@,
                self.queue@,
                self.pending,
                (#[trigger] self.modules@[m].dependencies@[j]).resolved_path@,
            )
    }

    /// What the builder keeps true: node `i` of the graph carries module
    /// `i` and there are no edges yet, module paths are distinct, each
    /// module's relative path is its path relative to the project
    /// directory, the module count stays within [`MAX_MODULE_COUNT`], the
    /// pending path is no module's, and requires are tracked.
    pub closed spec fn inv(&self) -> bool {
        let n = self.modules@.len();
        &&& graph_nodes(self.graph) == Seq::new(n, |i: int| i as usize)
        &&& graph_edges(self.graph) == Seq::<(usize, usize)>::empty()
        &&& n <= MAX_MODULE_COUNT
        &&& forall|a: int, b: int|
            0 <= a < b < n ==> (#[trigger] self.modules@[a]).path@ != (#[trigger] self.modules@[b]).path@
        &&& forall|m: int|
            0 <= m < n ==> (#[trigger] self.modules@[m]).relative_path@ == relative_to(
                self.modules@[m].path@,
                self.rc_dir@,
            )
        &&& match self.pending {
            Some(p) => !known(self.modules@, p@) && n < MAX_MODULE_COUNT,
            None => true,
        }
        &&& self.requires_tracked()
    }

    /// An empty builder for a project whose directory is `rc_dir`
    /// (forward-slash normalized).
    pub fn new(rc_dir: String) -> (b: Self)
        ensures
            b.inv(),
            b.modules_view() == Seq::<ModuleInfo>::empty(),
            b.queue_view() == Seq::<Seq<char>>::empty(),
            b.pending_view() == None::<Seq<char>>,
            b.errors_view() == Seq::<GraphError>::empty(),
            b.rc_dir_view() == rc_dir@,
            b.warnings_view() == Seq::<GraphWarning>::empty(),
    {
        let b = GraphBuilder {
            rc_dir,
            modules: Vec::new(),
            graph: new_graph(),
            queue: Vec::new(),
            pending: None,
            errors: Vec::new(),
            warnings: Vec::new(),
        };
        proof {
            assert(graph_nodes(b.graph) =~= Seq::new(0, |i: int| i as usize));
            assert(b.queue_view() =~= Seq::<Seq<char>>::empty());
        }
        b
    }

    /// Queues `path` (the entry module's) for discovery.
    pub fn queue_path(&mut self, path: String)
        requires
            old(self).inv(),
        ensures
            final(self).inv(),
            final(self).modules_view() == old(self).modules_view(),
            final(self).queue_view() == old(self).queue_view().push(path@),
            final(self).pending_view() == old(self).pending_view(),
            final(self).errors_view() == old(self).errors_view(),
            final(self).rc_dir_view() == old(self).rc_dir_view(),
            final(self).warnings_view() == old(self).warnings_view(),
    {
        let ghost q = self.queue@;
        self.queue.push(path);
        proof {
            assert(texts(self.queue@) =~= texts(q).push(path@));
            assert forall|x: Seq<char>| queued(q, x) implies queued(self.queue@, x) by {
                let i = choose|i: int| 0 <= i < q.len() && (#[trigger] q[i])@ == x;
                assert(self.queue@[i] == q[i]);
            }
        }
    }

    /// The next file to process, taken off the queue: the last queued path
    /// that is not a module yet, which becomes pending. `None` when the
    /// queue holds no such path, and also when the graph already holds
    /// [`MAX_MODULE_COUNT`] modules, which records
    /// [`GraphError::TooManyModules`] for that path.
    pub fn next_path(&mut self) -> (next: Option<String>)
        requires
            old(self).inv(),
            old(self).pending_view() == None::<Seq<char>>,
        ensures
            final(self).inv(),
            final(self).modules_view() == old(self).modules_view(),
            final(self).rc_dir_view() == old(self).rc_dir_view(),
            final(self).warnings_view() == old(self).warnings_view(),
            ({
                let rest = skip_known(old(self).queue_view(), old(self).modules_view());
                if rest.len() == 0 {
                    &&& next.is_none()
                    &&& final(self).queue_view() == rest
                    &&& final(self).pending_view() == None::<Seq<char>>
                    &&& final(self).errors_view() == old(self).errors_view()
                } else if old(self).modules_view().len() >= MAX_MODULE_COUNT {
                    &&& next.is_none()
                    &&& final(self).queue_view() == rest.drop_last()
                    &&& final(self).pending_view() == None::<Seq<char>>
                    &&& final(self).errors_view().len() == old(self).errors_view().len() + 1
                    &&& final(self).errors_view().drop_last() == old(self).errors_view()
                    &&& final(self).errors_view().last() matches GraphError::TooManyModules { path, limit }
                        && path@ == rest.last() && limit == MAX_MODULE_COUNT
                } else {
                    &&& next matches Some(p) && p@ == rest.last()
                    &&& final(self).queue_view() == rest.drop_last()
                    &&& final(self).pending_view() == Some(rest.last())
                    &&& final(self).errors_view() == old(self).errors_view()
                }
            }),
    {
        let ghost modules = self.modules@;
        let ghost initial_queue = self.queue_view();
        loop
            invariant
                self.inv(),
                self.pending_view() == None::<Seq<char>>,
                self.modules@ == modules,
                self.rc_dir_view() == old(self).rc_dir_view(),
                self.errors@ == old(self).errors@,
                self.warnings@ == old(self).warnings@,
                skip_known(self.queue_view(), modules) == skip_known(initial_queue, modules),
                modules == old(self).modules_view(),
                initial_queue == old(self).queue_view(),
            decreases self.queue@.len(),
        {
            let ghost q = self.queue@;
            match self.queue.pop() {
                None => {
                    proof {
                        assert(self.queue_view() =~= Seq::<Seq<char>>::empty());
                        assert(texts(q) =~= Seq::<Seq<char>>::empty());
                    }
                    return None;
                },
                Some(path) => {
                    proof {
                        assert(texts(self.queue@) =~= texts(q).drop_last());
                        assert(texts(q).last() == path@);
                        assert(self.queue@ =~= q.drop_last());
                        assert(q.last() == path);
                    }
                    let mut m: usize = 0;
                    let mut found = false;
                    while m < self.modules.len() && !found
                        invariant
                            m <= self.modules@.len(),
                            found ==> known(self.modules@, path@),
                            !found ==> forall|k: int| 0 <= k < m ==> (#[trigger] self.modules@[k]).path@ != path@,
                        decreases self.modules@.len() - m, if found { 0int } else { 1int },
                    {
                        if self.modules[m].path == path {
                            found = true;
                        } else {
                            m += 1;
                        }
                    }
                    if found {
                        proof {
                            assert(skip_known(texts(q), modules) == skip_known(texts(self.queue@), modules));
                            self.lemma_tracked_after_pop(q, path);
                        }
                        continue;
                    }
                    proof {
                        assert(!known(modules, path@));
                        assert(skip_known(texts(q), modules) == texts(q));
                    }
                    if self.modules.len() >= MAX_MODULE_COUNT {
                        let ghost e = self.errors@;
                        self.errors.push(GraphError::TooManyModules { path, limit: MAX_MODULE_COUNT });
                        proof {
                            assert(self.errors@.drop_last() =~= e);
                        }
                        return None;
                    }
                    self.pending = Some(path.clone());
                    proof {
                        assert forall|m: int, j: int|
                            0 <= m < self.modules@.len() && 0 <= j < self.modules@[m].dependencies@.len()
                                && self.errors@.len() == 0 implies tracked_path(
                            self.modules@,
                            self.queue@,
                            self.pending,
                            (#[trigger] self.modules@[m].dependencies@[j]).resolved_path@,
                        ) by {
                            let p = self.modules@[m].dependencies@[j].resolved_path@;
                            if !known(self.modules@, p) && p != path@ {
                                assert(queued(q, p));
                                let i = choose|i: int| 0 <= i < q.len() && (#[trigger] q[i])@ == p;
                                assert(i < q.len() - 1);
                                assert(self.queue@[i] == q[i]);
                            }
                        }
                    }
                    return Some(path);
                },
            }
        }
    }

    /// After a known path is dropped off the queue, requires stay tracked.
    proof fn lemma_tracked_after_pop(&self, q: Seq<String>, path: String)
        requires
            self.queue@ == q.drop_last(),
            q.len() > 0,
            q.last() == path,
            known(self.modules@, path@),
            self.errors@.len() > 0 || forall|m: int, j: int|
                0 <= m < self.modules@.len() && 0 <= j < self.modules@[m].dependencies@.len() ==> tracked_path(
                    self.modules@,
                    q,
                    self.pending,
                    (#[trigger] self.modules@[m].dependencies@[j]).resolved_path@,
                ),
        ensures
            self.requires_tracked(),
    {
        assert forall|m: int, j: int|
            0 <= m < self.modules@.len() && 0 <= j < self.modules@[m].dependencies@.len() && self.errors@.len()
                == 0 implies tracked_path(
            self.modules@,
            self.queue@,
            self.pending,
            (#[trigger] self.modules@[m].dependencies@[j]).resolved_path@,
        ) by {
            let p = self.modules@[m].dependencies@[j].resolved_path@;
            if !known(self.modules@, p) && !(self.pending matches Some(x) && x@ == p) {
                assert(queued(q, p));
                let i = choose|i: int| 0 <= i < q.len() && (#[trigger] q[i])@ == p;
                if i == q.len() - 1 {
                    assert(p == path@);
                }
                assert(self.queue@[i] == q[i]);
            }
        }
    }
}

/// The resolved paths among `deps` that are no module of `modules`, in order.
pub open spec fn unknown_targets(modules: Seq<ModuleInfo>, deps: Seq<Dependency>) -> Seq<Seq<char>>
    decreases deps.len(),
{
    if deps.len() == 0 {
        Seq::empty()
    } else {
        let rest = unknown_targets(modules, deps.drop_last());
        if known(modules, deps.last().resolved_path@) {
            rest
        } else {
            rest.push(deps.last().resolved_path@)
        }
    }
}

impl GraphBuilder {
    /// Records `error` against the module being processed, which keeps its
    /// place in the graph.
    pub fn report(&mut self, error: GraphError)
        requires
            old(self).inv(),
        ensures
            final(self).inv(),
            final(self).modules_view() == old(self).modules_view(),
            final(self).queue_view() == old(self).queue_view(),
            final(self).pending_view() == old(self).pending_view(),
            final(self).errors_view() == old(self).errors_view().push(error),
            final(self).rc_dir_view() == old(self).rc_dir_view(),
            final(self).warnings_view() == old(self).warnings_view(),
    {
        self.errors.push(error);
    }

    /// Records a warning about module `path` at `span`, met while reading it.
    pub fn warn(&mut self, path: String, span: Range<usize>, message: String)
        requires
            old(self).inv(),
        ensures
            final(self).inv(),
            final(self).modules_view() == old(self).modules_view(),
            final(self).queue_view() == old(self).queue_view(),
            final(self).pending_view() == old(self).pending_view(),
            final(self).errors_view() == old(self).errors_view(),
            final(self).rc_dir_view() == old(self).rc_dir_view(),
            final(self).warnings_view() == old(self).warnings_view().push(GraphWarning::Module { path, span, message }),
    {
        self.warnings.push(GraphWarning::Module { path, span, message });
    }

    /// Records `error` and gives up the pending module.
    pub fn fail_module(&mut self, error: GraphError)
        requires
            old(self).inv(),
        ensures
            final(self).inv(),
            final(self).modules_view() == old(self).modules_view(),
            final(self).queue_view() == old(self).queue_view(),
            final(self).pending_view() == None::<Seq<char>>,
            final(self).errors_view() == old(self).errors_view().push(error),
            final(self).rc_dir_view() == old(self).rc_dir_view(),
            final(self).warnings_view() == old(self).warnings_view(),
    {
        self.errors.push(error);
        self.pending = None;
    }

    /// Whether a source of `size` bytes is small enough for the pending
    /// module; one over [`MAX_FILE_SIZE`] gives the module up with
    /// [`GraphError::FileTooLarge`].
    pub fn check_size(&mut self, size: usize) -> (ok: bool)
        requires
            old(self).inv(),
            old(self).pending_view() is Some,
        ensures
            final(self).inv(),
            ok == (size <= MAX_FILE_SIZE),
            final(self).modules_view() == old(self).modules_view(),
            final(self).queue_view() == old(self).queue_view(),
            final(self).rc_dir_view() == old(self).rc_dir_view(),
            final(self).warnings_view() == old(self).warnings_view(),
            ok ==> final(self).pending_view() == old(self).pending_view() && final(self).errors_view()
                == old(self).errors_view(),
            !ok ==> {
                &&& final(self).pending_view() == None::<Seq<char>>
                &&& final(self).errors_view().len() == old(self).errors_view().len() + 1
                &&& final(self).errors_view().drop_last() == old(self).errors_view()
                &&& final(self).errors_view().last() matches GraphError::FileTooLarge { path, size: s, limit }
                    && Some(path@) == old(self).pending_view() && s == size && limit == MAX_FILE_SIZE
            },
    {
        if size > MAX_FILE_SIZE {
            let path = match &self.pending {
                Some(p) => p.clone(),
                None => String::new(),
            };
            self.fail_module(GraphError::FileTooLarge { path, size, limit: MAX_FILE_SIZE });
            false
        } else {
            true
        }
    }

    /// Whether `path` is the path of a module already in the graph.
    fn is_known(&self, path: &String) -> (b: bool)
        ensures
            b == known(self.modules@, path@),
    {
        let mut m: usize = 0;
        while m < self.modules.len()
            invariant
                m <= self.modules@.len(),
                forall|k: int| 0 <= k < m ==> (#[trigger] self.modules@[k]).path@ != path@,
            decreases self.modules@.len() - m,
        {
            if self.modules[m].path == *path {
                return true;
            }
            m += 1;
        }
        false
    }

    /// Adds the pending module with its source, its resolved requires, the
    /// callees of its dynamic requires and its exports; queues each
    /// required path that is no module yet.
    pub fn add_module(
        &mut self,
        source: String,
        dependencies: Vec<Dependency>,
        dynamic_callees: Vec<Range<usize>>,
        exports: Vec<ExportDecl>,
    )
        requires
            old(self).inv(),
            old(self).pending_view() is Some,
        ensures
            final(self).inv(),
            final(self).pending_view() == None::<Seq<char>>,
            final(self).errors_view() == old(self).errors_view(),
            final(self).rc_dir_view() == old(self).rc_dir_view(),
            final(self).warnings_view() == old(self).warnings_view(),
            final(self).queue_view() == old(self).queue_view() + unknown_targets(old(self).modules_view(), dependencies@),
            final(self).modules_view().len() == old(self).modules_view().len() + 1,
            final(self).modules_view().drop_last() == old(self).modules_view(),
            ({
                let added = final(self).modules_view().last();
                &&& Some(added.path@) == old(self).pending_view()
                &&& added.source == source
                &&& added.dependencies@ == dependencies@
                &&& added.relative_path@ == relative_to(added.path@, old(self).rc_dir_view())
                &&& added.dynamic_callees@ == dynamic_callees@
                &&& added.exports@ == exports@
            }),
    {
        let path = match &self.pending {
            Some(p) => p.clone(),
            None => String::new(),
        };
        let ghost old_queue = self.queue@;
        let mut j: usize = 0;
        while j < dependencies.len()
            invariant
                self.inv(),
                self.pending matches Some(p) && p@ == path@,
                self.modules@ == old(self).modules@,
                self.errors@ == old(self).errors@,
                self.warnings@ == old(self).warnings@,
                self.rc_dir == old(self).rc_dir,
                self.graph == old(self).graph,
                j <= dependencies@.len(),
                self.queue@.len() >= old_queue.len(),
                self.queue@.take(old_queue.len() as int) == old_queue,
                texts(self.queue@) == texts(old_queue) + unknown_targets(self.modules@, dependencies@.take(j as int)),
                forall|k: int| 0 <= k < j ==> tracked_path(self.modules@, self.queue@, self.pending, (#[trigger] dependencies@[k]).resolved_path@),
            decreases dependencies@.len() - j,
        {
            let target = &dependencies[j].resolved_path;
            let ghost q = self.queue@;
            proof {
                assert(dependencies@.take(j + 1).drop_last() =~= dependencies@.take(j as int));
            }
            if !self.is_known(target) {
                self.queue.push(target.clone());
                proof {
                    assert(texts(self.queue@) =~= texts(q).push(target@));
                    assert(self.queue@.take(old_queue.len() as int) =~= q.take(old_queue.len() as int));
                    assert(self.queue@[q.len() as int]@ == target@);
                    assert forall|x: Seq<char>| queued(q, x) implies queued(self.queue@, x) by {
                        let i = choose|i: int| 0 <= i < q.len() && (#[trigger] q[i])@ == x;
                        assert(self.queue@[i] == q[i]);
                    }
                }
            }
            j += 1;
        }
        proof {
            assert(dependencies@.take(dependencies@.len() as int) =~= dependencies@);
        }
        let id = self.modules.len();
        let node = add_graph_node(&mut self.graph, ModuleId(id));
        let relative_path = make_relative(path.as_str(), self.rc_dir.as_str());
        let ghost old_modules = self.modules@;
        self.modules.push(ModuleInfo { path, source, dependencies, relative_path, dynamic_callees, exports });
        self.pending = None;
        proof {
            let n = self.modules@.len();
            assert(graph_nodes(self.graph) =~= Seq::new(n, |i: int| i as usize));
            assert(self.modules@.drop_last() =~= old_modules);
            assert forall|x: Seq<char>| known(old_modules, x) implies known(self.modules@, x) by {
                let m = choose|m: int| 0 <= m < old_modules.len() && (#[trigger] old_modules[m]).path@ == x;
                assert(self.modules@[m] == old_modules[m]);
            }
            assert(known(self.modules@, path@)) by {
                assert(self.modules@[id as int].path@ == path@);
            }
            assert forall|a: int, b: int|
                0 <= a < b < n implies (#[trigger] self.modules@[a]).path@ != (#[trigger] self.modules@[b]).path@ by {
                if b == id {
                    assert(self.modules@[a] == old_modules[a]);
                }
            }
            if self.errors@.len() == 0 {
                assert forall|m: int, j: int|
                    0 <= m < self.modules@.len() && 0 <= j < self.modules@[m].dependencies@.len() implies tracked_path(
                    self.modules@,
                    self.queue@,
                    self.pending,
                    (#[trigger] self.modules@[m].dependencies@[j]).resolved_path@,
                ) by {
                    let p = self.modules@[m].dependencies@[j].resolved_path@;
                    if m < id {
                        assert(self.modules@[m] == old_modules[m]);
                        assert(old(self).requires_tracked());
                        assert(tracked_path(old_modules, old_queue, old(self).pending, p));
                        if queued(old_queue, p) {
                            let i = choose|i: int| 0 <= i < old_queue.len() && (#[trigger] old_queue[i])@ == p;
                            assert(self.queue@.take(old_queue.len() as int)[i] == old_queue[i]);
                            assert(self.queue@[i] == old_queue[i]);
                        }
                    } else {
                        assert(tracked_path(old_modules, self.queue@, Some(path), p));
                    }
                }
            }
        }
    }
}

/// The module of `modules` whose path is `path`.
pub open spec fn module_with(modules: Seq<ModuleInfo>, path: Seq<char>) -> int {
    choose|m: int| 0 <= m < modules.len() && (#[trigger] modules[m]).path@ == path
}

/// The edges for the requires of module `m` among `deps` that resolve to a
/// module: from `m` to that module, in order.
pub open spec fn module_edges(modules: Seq<ModuleInfo>, m: int, deps: Seq<Dependency>) -> Seq<(usize, usize)>
    decreases deps.len(),
{
    if deps.len() == 0 {
        Seq::empty()
    } else {
        let rest = module_edges(modules, m, deps.drop_last());
        let path = deps.last().resolved_path@;
        if known(modules, path) {
            rest.push((m as usize, module_with(modules, path) as usize))
        } else {
            rest
        }
    }
}

/// The require edges of the first `k` modules.
pub open spec fn require_edges(modules: Seq<ModuleInfo>, k: int) -> Seq<(usize, usize)>
    decreases k,
{
    if k <= 0 {
        Seq::empty()
    } else {
        require_edges(modules, k - 1) + module_edges(modules, k - 1, modules[k - 1].dependencies@)
    }
}

/// The module ids `0..n`, in order.
pub open spec fn discovery_order(n: nat) -> Seq<ModuleId> {
    Seq::new(n, |i: int| ModuleId(i as usize))
}

/// The load order from a topological node order: leaves first.
pub open spec fn leaves_first(order: Seq<usize>) -> Seq<ModuleId> {
    Seq::new(order.len(), |i: int| ModuleId(order[order.len() - 1 - i]))
}

/// The cycle report for cycle node `c` of the graph of `modules`.
pub open spec fn cycle_report_of(modules: Seq<ModuleInfo>, c: usize) -> Seq<Seq<char>> {
    let n = modules.len();
    cycle_report(
        modules,
        Seq::new(n, |i: int| i as usize),
        run_search((Seq::<usize>::empty(), Seq::<usize>::empty()), dfs_events(n, require_edges(modules, n as int), c as nat)).1,
        c,
    )
}

/// The warning for the cycle `report`: the require in the second-to-last
/// module that closes it, at its call span (`0..0` when not found).
pub open spec fn is_cycle_warning(w: CycleWarning, modules: Seq<ModuleInfo>, report: Seq<Seq<char>>) -> bool {
    let closing = if report.len() >= 2 {
        require_span(modules, report[report.len() - 2], report[report.len() - 1])
    } else {
        None
    };
    &&& texts(w.cycle@) == report
    &&& w.file_path@ == if report.len() >= 2 {
        report[report.len() - 2]
    } else {
        modules[0].path@
    }
    &&& w.span == match closing {
        Some(span) => span,
        None => Range { start: 0usize, end: 0usize },
    }
}

/// `order` holds the index `m`.
pub open spec fn holds_index(order: Seq<usize>, m: int) -> bool {
    exists|p: int| 0 <= p < order.len() && order[p] == m
}

/// A sequence of distinct indices below `n`, `n` long, holds every index
/// below `n`.
proof fn lemma_permutation_covers(order: Seq<usize>, n: nat)
    requires
        order.len() == n,
        forall|i: int| 0 <= i < order.len() ==> (#[trigger] order[i]) < n,
        forall|i: int, j: int| 0 <= i < j < order.len() ==> (#[trigger] order[i]) != (#[trigger] order[j]),
    ensures
        forall|m: int| 0 <= m < n ==> #[trigger] holds_index(order, m),
{
    let ints = order.map_values(|x: usize| x as int);
    assert(ints.no_duplicates()) by {
        assert forall|i: int, j: int| 0 <= i < ints.len() && 0 <= j < ints.len() && i != j implies ints[i] != ints[j] by {
            if i < j {
                assert(order[i] != order[j]);
            } else {
                assert(order[j] != order[i]);
            }
        }
    }
    ints.unique_seq_to_set();
    lemma_int_range(0, n as int);
    assert(ints.to_set().subset_of(set_int_range(0, n as int))) by {
        assert forall|x: int| ints.to_set().contains(x) implies set_int_range(0, n as int).contains(x) by {
            assert(ints.contains(x));
            let i = choose|i: int| 0 <= i < ints.len() && ints[i] == x;
            assert(order[i] < n);
        }
    }
    lemma_subset_equality(ints.to_set(), set_int_range(0, n as int));
    assert forall|m: int| 0 <= m < n implies #[trigger] holds_index(order, m) by {
        assert(set_int_range(0, n as int).contains(m));
        assert(ints.to_set().contains(m));
        let p = choose|p: int| 0 <= p < ints.len() && ints[p] == m;
        assert(order[p] == m);
    }
}

impl GraphBuilder {
    /// The index of the module whose path is `path`, if any.
    fn index_of(&self, path: &String) -> (m: Option<usize>)
        ensures
            match m {
                Some(i) => i < self.modules@.len() && self.modules@[i as int].path@ == path@,
                None => !known(self.modules@, path@),
            },
    {
        let mut m: usize = 0;
        while m < self.modules.len()
            invariant
                m <= self.modules@.len(),
                forall|k: int| 0 <= k < m ==> (#[trigger] self.modules@[k]).path@ != path@,
            decreases self.modules@.len() - m,
        {
            if self.modules[m].path == *path {
                return Some(m);
            }
            m += 1;
        }
        None
    }

    /// Adds an edge from each module to each module it requires.
    fn add_edges(&mut self)
        requires
            old(self).inv(),
            require_edges(old(self).modules@, old(self).modules@.len() as int).len() < u32::MAX,
        ensures
            final(self).modules@ == old(self).modules@,
            final(self).warnings@ == old(self).warnings@,
            graph_nodes(final(self).graph) == graph_nodes(old(self).graph),
            graph_edges(final(self).graph) == require_edges(old(self).modules@, old(self).modules@.len() as int),
    {
        let ghost modules = self.modules@;
        let ghost n = modules.len();
        let ghost nodes = graph_nodes(self.graph);
        let mut m: usize = 0;
        while m < self.modules.len()
            invariant
                self.modules@ == modules,
                n == modules.len(),
                self.warnings@ == old(self).warnings@,
                nodes == Seq::new(n, |i: int| i as usize),
                graph_nodes(self.graph) == nodes,
                forall|a: int, b: int|
                    0 <= a < b < n ==> (#[trigger] modules[a]).path@ != (#[trigger] modules[b]).path@,
                m <= n,
                graph_edges(self.graph) == require_edges(modules, m as int),
                require_edges(modules, n as int).len() < u32::MAX,
            decreases n - m,
        {
            let deps = &self.modules[m].dependencies;
            let ghost base = require_edges(modules, m as int);
            let mut j: usize = 0;
            proof {
                lemma_require_edges_grow(modules, m + 1, n as int);
            }
            while j < deps.len()
                invariant
                    self.modules@ == modules,
                    n == modules.len(),
                    m < n,
                    *deps == modules[m as int].dependencies,
                    graph_nodes(self.graph) == nodes,
                    nodes == Seq::new(n, |i: int| i as usize),
                    forall|a: int, b: int|
                        0 <= a < b < n ==> (#[trigger] modules[a]).path@ != (#[trigger] modules[b]).path@,
                    j <= deps@.len(),
                    graph_edges(self.graph) == base + module_edges(modules, m as int, deps@.take(j as int)),
                    base + module_edges(modules, m as int, deps@) == require_edges(modules, m + 1),
                    require_edges(modules, m + 1).len() < u32::MAX,
                    self.warnings@ == old(self).warnings@,
                decreases deps@.len() - j,
            {
                let target = self.index_of(&deps[j].resolved_path);
                proof {
                    assert(deps@.take(j + 1).drop_last() =~= deps@.take(j as int));
                    lemma_module_edges_prefix(modules, m as int, deps@, j + 1);
                }
                match target {
                    Some(t) => {
                        proof {
                            let c = module_with(modules, deps@[j as int].resolved_path@);
                            if c < t {
                                assert(modules[c].path@ != modules[t as int].path@);
                            } else if t < c {
                                assert(modules[t as int].path@ != modules[c].path@);
                            }
                        }
                        add_graph_edge(&mut self.graph, m, t);
                        proof {
                            assert(graph_edges(self.graph) =~= base + module_edges(modules, m as int, deps@.take(j + 1)));
                        }
                    },
                    None => {
                        proof {
                            assert(graph_edges(self.graph) =~= base + module_edges(modules, m as int, deps@.take(j + 1)));
                        }
                    },
                }
                j += 1;
            }
            proof {
                assert(deps@.take(deps@.len() as int) =~= deps@);
            }
            m += 1;
        }
    }
}

/// The require edges only grow with more modules.
proof fn lemma_require_edges_grow(modules: Seq<ModuleInfo>, a: int, b: int)
    requires
        0 <= a <= b,
    ensures
        require_edges(modules, a).len() <= require_edges(modules, b).len(),
    decreases b - a,
{
    if a < b {
        lemma_require_edges_grow(modules, a, b - 1);
    }
}

/// The edges of a prefix of `deps` are a prefix of the edges of `deps`.
proof fn lemma_module_edges_prefix(modules: Seq<ModuleInfo>, m: int, deps: Seq<Dependency>, k: int)
    requires
        0 <= k <= deps.len(),
    ensures
        module_edges(modules, m, deps.take(k)).len() <= module_edges(modules, m, deps).len(),
    decreases deps.len() - k,
{
    if k < deps.len() {
        lemma_module_edges_prefix(modules, m, deps, k + 1);
        assert(deps.take(k + 1).drop_last() =~= deps.take(k));
    } else {
        assert(deps.take(k) =~= deps);
    }
}

impl GraphBuilder {
    /// Topological order (leaves first). A cycle does not block bundling,
    /// since the loader is lazy: on a cycle, warn with the cycle found from
    /// the node `toposort` reports, and fall back to discovery order.
    fn topo_order(&mut self) -> (order: Vec<ModuleId>)
        requires
            graph_nodes(old(self).graph) == Seq::new(old(self).modules@.len(), |i: int| i as usize),
            graph_edges(old(self).graph) == require_edges(old(self).modules@, old(self).modules@.len() as int),
        ensures
            final(self).modules@ == old(self).modules@,
            final(self).graph == old(self).graph,
            ({
                let modules = old(self).modules@;
                let n = modules.len();
                match toposort_of(n, require_edges(modules, n as int)) {
                    Ok(sorted) => {
                        &&& order@ == leaves_first(sorted)
                        &&& final(self).warnings@ == old(self).warnings@
                        &&& is_topological_order(n, require_edges(modules, n as int), sorted)
                    },
                    Err(c) => {
                        &&& order@ == discovery_order(n)
                        &&& c < n
                        &&& final(self).warnings@.len() == old(self).warnings@.len() + 1
                        &&& final(self).warnings@.drop_last() == old(self).warnings@
                        &&& final(self).warnings@.last() matches GraphWarning::Cycle(w) && is_cycle_warning(
                            w,
                            modules,
                            cycle_report_of(modules, c),
                        )
                    },
                }
            }),
    {
        let ghost modules = self.modules@;
        let ghost n = modules.len();
        let ghost nodes = graph_nodes(self.graph);
        let sorted = topological_sort(&self.graph);
        match sorted {
            Ok(nodes_sorted) => {
                let mut order: Vec<ModuleId> = Vec::new();
                let mut k: usize = nodes_sorted.len();
                while k > 0
                    invariant
                        nodes == graph_nodes(self.graph),
                        nodes == Seq::new(n, |i: int| i as usize),
                        is_topological_order(n, graph_edges(self.graph), nodes_sorted@),
                        k <= nodes_sorted@.len(),
                        order@.len() == nodes_sorted@.len() - k,
                        forall|i: int| 0 <= i < order@.len() ==> (#[trigger] order@[i]) == ModuleId(nodes_sorted@[nodes_sorted@.len() - 1 - i]),
                    decreases k,
                {
                    k -= 1;
                    let idx = nodes_sorted[k];
                    let id = node_module(&self.graph, idx);
                    order.push(id);
                }
                proof {
                    assert(order@ =~= leaves_first(nodes_sorted@));
                }
                order
            },
            Err(c) => {
                let cycle = find_cycle_path(&self.graph, &self.modules, c);
                let len = cycle.len();
                let closing = if len >= 2 {
                    find_require_span(&self.modules, &cycle[len - 2], &cycle[len - 1])
                } else {
                    None
                };
                let file_path = if len >= 2 {
                    cycle[len - 2].clone()
                } else {
                    self.modules[0].path.clone()
                };
                let span = match closing {
                    Some(span) => span,
                    None => 0..0,
                };
                let warning = CycleWarning { file_path, span, cycle };
                self.warnings.push(GraphWarning::Cycle(warning));
                let mut order: Vec<ModuleId> = Vec::new();
                let mut i: usize = 0;
                while i < self.modules.len()
                    invariant
                        i <= self.modules@.len(),
                        order@ == discovery_order(i as nat),
                    decreases self.modules@.len() - i,
                {
                    order.push(ModuleId(i));
                    proof {
                        assert(order@ =~= discovery_order((i + 1) as nat));
                    }
                    i += 1;
                }
                proof {
                    assert(self.warnings@.drop_last() =~= old(self).warnings@);
                    let report = cycle_report_of(modules, c);
                    assert(texts(cycle@) == report);
                    if len >= 2 {
                        assert(cycle@[len - 2]@ == report[report.len() - 2]);
                        assert(cycle@[len - 1]@ == report[report.len() - 1]);
                    }
                }
                order
            },
        }
    }

    /// Wires the graph's edges, orders the modules, and finds the entry
    /// module `entry_normalized`. Errors recorded during discovery win;
    /// otherwise the graph is well formed.
    pub fn finish(self, entry_normalized: &String) -> (result: Result<DependencyGraph, Vec<GraphError>>)
        requires
            self.inv(),
            self.pending_view() == None::<Seq<char>>,
            self.queue_view().len() == 0 || self.errors_view().len() > 0,
            require_edges(self.modules_view(), self.modules_view().len() as int).len() < u32::MAX,
        ensures
            self.errors_view().len() > 0 ==> (result matches Err(e) && e@ == self.errors_view()),
            self.errors_view().len() == 0 && !known(self.modules_view(), entry_normalized@) ==> (result matches Err(e)
                && e@.len() == 1 && (e@[0] matches GraphError::EntryNotFound { path } && path@ == entry_normalized@)),
            self.errors_view().len() == 0 && known(self.modules_view(), entry_normalized@) ==> (result matches Ok(g) && {
                let modules = self.modules_view();
                let n = modules.len();
                &&& g.well_formed()
                &&& g.modules@ == modules
                &&& g.entry_id.0 == module_with(modules, entry_normalized@)
                &&& match toposort_of(n, require_edges(modules, n as int)) {
                    Ok(sorted) => {
                        &&& g.topo_order@ == leaves_first(sorted)
                        &&& g.warnings@ == self.warnings_view()
                        &&& requires_load_first(modules, g.topo_order@)
                    },
                    Err(c) => {
                        &&& g.topo_order@ == discovery_order(n)
                        &&& g.warnings@.len() == self.warnings_view().len() + 1
                        &&& g.warnings@.drop_last() == self.warnings_view()
                        &&& g.warnings@.last() matches GraphWarning::Cycle(w) && is_cycle_warning(
                            w,
                            modules,
                            cycle_report_of(modules, c),
                        )
                    },
                }
            }),
    {
        if self.errors.len() > 0 {
            return Err(self.errors);
        }
        let mut builder = self;
        let ghost modules = builder.modules@;
        let ghost n = modules.len();
        builder.add_edges();
        let topo_order = builder.topo_order();
        let entry = builder.index_of(entry_normalized);
        match entry {
            None => {
                let mut errors: Vec<GraphError> = Vec::new();
                errors.push(GraphError::EntryNotFound { path: entry_normalized.clone() });
                Err(errors)
            },
            Some(e) => {
                let g = DependencyGraph {
                    modules: builder.modules,
                    topo_order,
                    entry_id: ModuleId(e),
                    warnings: builder.warnings,
                };
                proof {
                    lemma_built_graph(g, modules, e as int, entry_normalized@);
                }
                Ok(g)
            },
        }
    }
}

/// Every require of `modules` that resolves to a module points to one
/// earlier in `topo`.
pub open spec fn requires_load_first(modules: Seq<ModuleInfo>, topo: Seq<ModuleId>) -> bool {
    forall|m: int, j: int|
        0 <= m < modules.len() && 0 <= j < modules[m].dependencies@.len() && known(
            modules,
            (#[trigger] modules[m].dependencies@[j]).resolved_path@,
        ) ==> exists|p: int, q: int|
            0 <= p < q < topo.len() && topo[p].0 == module_with(modules, modules[m].dependencies@[j].resolved_path@)
                && topo[q].0 == m
}

proof fn lemma_module_edge_present(modules: Seq<ModuleInfo>, m: int, deps: Seq<Dependency>, j: int)
    requires
        0 <= j < deps.len(),
        known(modules, deps[j].resolved_path@),
    ensures
        exists|k: int|
            0 <= k < module_edges(modules, m, deps).len() && #[trigger] module_edges(modules, m, deps)[k] == (
            m as usize,
            module_with(modules, deps[j].resolved_path@) as usize,
        ),
    decreases deps.len(),
{
    if j < deps.len() - 1 {
        lemma_module_edge_present(modules, m, deps.drop_last(), j);
        let k = choose|k: int|
            0 <= k < module_edges(modules, m, deps.drop_last()).len() && #[trigger] module_edges(modules, m, deps.drop_last())[k] == (
            m as usize,
            module_with(modules, deps.drop_last()[j].resolved_path@) as usize,
        );
        assert(module_edges(modules, m, deps)[k] == module_edges(modules, m, deps.drop_last())[k]);
    } else {
        let rest = module_edges(modules, m, deps.drop_last());
        assert(module_edges(modules, m, deps)[rest.len() as int] == (
            m as usize,
            module_with(modules, deps[j].resolved_path@) as usize,
        ));
    }
}

proof fn lemma_require_edge_present(modules: Seq<ModuleInfo>, k: int, m: int, j: int)
    requires
        0 <= m < k <= modules.len(),
        0 <= j < modules[m].dependencies@.len(),
        known(modules, modules[m].dependencies@[j].resolved_path@),
    ensures
        exists|e: int|
            0 <= e < require_edges(modules, k).len() && #[trigger] require_edges(modules, k)[e] == (
            m as usize,
            module_with(modules, modules[m].dependencies@[j].resolved_path@) as usize,
        ),
    decreases k,
{
    let t = module_with(modules, modules[m].dependencies@[j].resolved_path@);
    if m < k - 1 {
        lemma_require_edge_present(modules, k - 1, m, j);
        let e = choose|e: int|
            0 <= e < require_edges(modules, k - 1).len() && #[trigger] require_edges(modules, k - 1)[e] == (
            m as usize,
            t as usize,
        );
        assert(require_edges(modules, k)[e] == require_edges(modules, k - 1)[e]);
    } else {
        lemma_module_edge_present(modules, m, modules[m].dependencies@, j);
        let base = require_edges(modules, k - 1);
        let own = module_edges(modules, m, modules[m].dependencies@);
        let i = choose|i: int| 0 <= i < own.len() && #[trigger] own[i] == (m as usize, t as usize);
        assert(require_edges(modules, k)[base.len() + i] == own[i]);
    }
}

/// The graph `finish` returns is well formed, and when acyclic loads each
/// required module before the modules requiring it.
proof fn lemma_built_graph(g: DependencyGraph, modules: Seq<ModuleInfo>, e: int, entry: Seq<char>)
    requires
        g.modules@ == modules,
        modules.len() <= MAX_MODULE_COUNT,
        0 <= e < modules.len(),
        modules[e].path@ == entry,
        g.entry_id.0 == e,
        forall|a: int, b: int| 0 <= a < b < modules.len() ==> (#[trigger] modules[a]).path@ != (#[trigger] modules[b]).path@,
        forall|m: int, j: int|
            0 <= m < modules.len() && 0 <= j < modules[m].dependencies@.len() ==> known(
                modules,
                (#[trigger] modules[m].dependencies@[j]).resolved_path@,
            ),
        match toposort_of(modules.len(), require_edges(modules, modules.len() as int)) {
            Ok(sorted) => g.topo_order@ == leaves_first(sorted) && is_topological_order(
                modules.len(),
                require_edges(modules, modules.len() as int),
                sorted,
            ),
            Err(c) => g.topo_order@ == discovery_order(modules.len()),
        },
    ensures
        g.well_formed(),
        g.entry_id.0 == module_with(modules, entry),
        toposort_of(modules.len(), require_edges(modules, modules.len() as int)) is Ok ==> requires_load_first(
            modules,
            g.topo_order@,
        ),
{
    let n = modules.len();
    let topo = g.topo_order@;
    let c = module_with(modules, entry);
    assert(known(modules, entry)) by {
        assert(modules[e].path@ == entry);
    }
    if c < e {
        assert(modules[c].path@ != modules[e].path@);
    } else if e < c {
        assert(modules[e].path@ != modules[c].path@);
    }
    match toposort_of(n, require_edges(modules, n as int)) {
        Ok(sorted) => {
            lemma_permutation_covers(sorted, n);
            assert(topo.len() == n);
            assert forall|p: int| 0 <= p < topo.len() implies (#[trigger] topo[p]).0 < n by {
                assert(topo[p] == ModuleId(sorted[n - 1 - p]));
            }
            assert forall|p: int, q: int| 0 <= p < q < topo.len() implies (#[trigger] topo[p]) != (#[trigger] topo[q]) by {
                assert(topo[p] == ModuleId(sorted[n - 1 - p]));
                assert(topo[q] == ModuleId(sorted[n - 1 - q]));
                assert(sorted[n - 1 - q] != sorted[n - 1 - p]);
            }
            assert forall|m: int| 0 <= m < n implies #[trigger] listed(topo, m) by {
                assert(holds_index(sorted, m));
                let p = choose|p: int| 0 <= p < sorted.len() && sorted[p] == m;
                assert(topo[n - 1 - p] == ModuleId(sorted[p]));
                assert(topo[n - 1 - p].0 == m);
            }
            assert forall|m: int, j: int|
                0 <= m < n && 0 <= j < modules[m].dependencies@.len() && known(
                    modules,
                    (#[trigger] modules[m].dependencies@[j]).resolved_path@,
                ) implies exists|p: int, q: int|
                0 <= p < q < topo.len() && topo[p].0 == module_with(modules, modules[m].dependencies@[j].resolved_path@)
                    && topo[q].0 == m by {
                lemma_require_edge_present(modules, n as int, m, j);
                let edges = require_edges(modules, n as int);
                let t = module_with(modules, modules[m].dependencies@[j].resolved_path@);
                let k = choose|k: int| 0 <= k < edges.len() && #[trigger] edges[k] == (m as usize, t as usize);
                assert(exists|i: int, jj: int| 0 <= i < jj < sorted.len() && sorted[i] == edges[k].0 && sorted[jj] == edges[k].1);
                let (i, jj) = choose|i: int, jj: int| 0 <= i < jj < sorted.len() && sorted[i] == edges[k].0 && sorted[jj] == edges[k].1;
                assert(sorted.len() == n);
                assert(topo[n - 1 - jj] == ModuleId(sorted[jj]));
                assert(sorted[jj] == t as usize);
                assert(topo[n - 1 - jj].0 == t);
                assert(topo[n - 1 - i] == ModuleId(sorted[i]));
                assert(topo[n - 1 - i].0 == m);
            }
        },
        Err(_) => {
            assert(topo.len() == n);
            assert forall|m: int| 0 <= m < n implies #[trigger] listed(topo, m) by {
                assert(topo[m] == ModuleId(m as usize));
                assert(topo[m].0 == m);
            }
            assert forall|p: int| 0 <= p < topo.len() implies (#[trigger] topo[p]).0 < n by {
                assert(topo[p] == ModuleId(p as usize));
            }
            assert forall|p: int, q: int| 0 <= p < q < topo.len() implies (#[trigger] topo[p]) != (#[trigger] topo[q]) by {
                assert(topo[p] == ModuleId(p as usize));
                assert(topo[q] == ModuleId(q as usize));
            }
        },
    }
    assert forall|m: int, j: int|
        0 <= m < n && 0 <= j < modules[m].dependencies@.len() implies is_module_path(
        modules,
        (#[trigger] modules[m].dependencies@[j]).resolved_path@,
    ) by {
        assert(known(modules, modules[m].dependencies@[j].resolved_path@));
    }
}

} // verus!
