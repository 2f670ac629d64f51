//! The track topology: a directed multigraph of track features whose edges carry rails,
//! kept in a petgraph graph.
use vstd::prelude::*;
use crate::geometry::{Coord, Direction, Position, Rail};
use crate::speed::Address;
use crate::switch::SwitchType;
use petgraph::graph::{DiGraph, NodeIndex};
use petgraph::visit::EdgeRef;
use fixedbitset::FixedBitSet;

verus! {

/// Which side of a switch carries its two branches.
#[derive(Debug, Copy, Clone, PartialEq, Eq, Structural, Hash)]
pub enum EdgeSide {
    Incoming,
    Outgoing,
}

/// A track feature.
#[derive(Debug, Copy, Clone, PartialEq, Eq, Hash)]
pub enum Node {
    /// A signal with a controllable aspect.
    Signal(Address, Position),
    /// An occupancy detector.
    Sensor(Address, Position),
    /// A movable point; the fourth field is the neighbour of the straight branch, the fifth
    /// the side on which the two branches lie.
    Switch(Address, Position, SwitchType, Option<usize>, EdgeSide),
    /// A sensor at which trains stop.
    Station(Address, Position),
    /// One of the two tracks of a crossing.
    Cross(Address),
    /// The end of a track.
    Buffer(Position),
}

/// Whether a train can stop on the node: a sensor or a station.
pub open spec fn driveable(n: Node) -> bool {
    matches!(n, Node::Sensor(..) | Node::Station(..))
}

/// Whether the node is a signal.
pub open spec fn is_signal(n: Node) -> bool {
    matches!(n, Node::Signal(..))
}

impl Node {
    /// Whether a train can stop on this node.
    pub fn is_driveable(&self) -> (r: bool)
        ensures
            r == driveable(*self),
    {
        match self {
            Node::Sensor(..) | Node::Station(..) => true,
            _ => false,
        }
    }

    /// The position of the node; a crossing track has none of its own (see the crossing).
    pub fn position(&self) -> (r: Option<Position>)
        ensures
            r == node_position(*self),
    {
        match self {
            Node::Signal(_, p) => Some(*p),
            Node::Sensor(_, p) => Some(*p),
            Node::Switch(_, p, ..) => Some(*p),
            Node::Station(_, p) => Some(*p),
            Node::Cross(_) => None,
            Node::Buffer(p) => Some(*p),
        }
    }
}

/// The position a node carries, if any.
pub open spec fn node_position(n: Node) -> Option<Position> {
    match n {
        Node::Signal(_, p) => Some(p),
        Node::Sensor(_, p) => Some(p),
        Node::Switch(_, p, ..) => Some(p),
        Node::Station(_, p) => Some(p),
        Node::Cross(_) => None,
        Node::Buffer(p) => Some(p),
    }
}

#[verifier::external_type_specification]
#[verifier::external_body]
#[verifier::reject_recursive_types(N)]
#[verifier::reject_recursive_types(E)]
#[verifier::reject_recursive_types(Ty)]
#[verifier::reject_recursive_types(Ix)]
pub struct ExGraph<N, E, Ty, Ix>(petgraph::graph::Graph<N, E, Ty, Ix>);

#[verifier::external_type_specification]
#[verifier::external_body]
pub struct ExDirected(petgraph::Directed);

#[verifier::external_type_specification]
#[verifier::external_body]
pub struct ExFixedBitSet(fixedbitset::FixedBitSet);

/// The node weights of a graph, by node index.
pub uninterp spec fn graph_nodes(g: DiGraph<Node, Vec<Rail>>) -> Seq<Node>;

/// The `(source, target)` pair of each edge of a graph, by edge index.
pub uninterp spec fn graph_edges(g: DiGraph<Node, Vec<Rail>>) -> Seq<(usize, usize)>;

/// The rails of each edge of a graph, by edge index.
pub uninterp spec fn graph_rails(g: DiGraph<Node, Vec<Rail>>) -> Seq<Seq<Rail>>;

/// The bits of a bit set, by index.
pub uninterp spec fn bit_values(b: FixedBitSet) -> Seq<bool>;

/// The route that petgraph's A* search finds over edges with the given costs and the given
/// remaining-cost estimates per node, with its total cost.
pub uninterp spec fn astar_route(
    edges: Seq<(usize, usize)>,
    costs: Seq<usize>,
    estimates: Seq<usize>,
    start: usize,
    dest: usize,
) -> Option<(usize, Seq<usize>)>;

/// The order in which a breadth-first search from `start` against the edge directions visits
/// the nodes.
pub uninterp spec fn reverse_bfs_order(edges: Seq<(usize, usize)>, start: usize) -> Seq<usize>;

/// The targets of the edges leaving `n`, the most recently added first.
pub open spec fn succs(edges: Seq<(usize, usize)>, n: usize) -> Seq<usize>
    decreases edges.len(),
{
    if edges.len() == 0 {
        seq![]
    } else {
        let e = edges.last();
        let rest = succs(edges.drop_last(), n);
        if e.0 == n { seq![e.1] + rest } else { rest }
    }
}

/// The sources of the edges entering `n`, the most recently added first.
pub open spec fn preds(edges: Seq<(usize, usize)>, n: usize) -> Seq<usize>
    decreases edges.len(),
{
    if edges.len() == 0 {
        seq![]
    } else {
        let e = edges.last();
        let rest = preds(edges.drop_last(), n);
        if e.1 == n { seq![e.0] + rest } else { rest }
    }
}

/// Whether an edge from `a` to `b` exists.
pub open spec fn has_edge(edges: Seq<(usize, usize)>, a: usize, b: usize) -> bool {
    exists|i: int| 0 <= i < edges.len() && edges[i] == (a, b)
}

/// No two edges join the same pair in the same direction.
pub open spec fn distinct_edges(edges: Seq<(usize, usize)>) -> bool {
    forall|i: int, j: int| 0 <= i < j < edges.len() ==> edges[i] != edges[j]
}

/// Whether `p` is a walk along edges from `start` to `dest`.
pub open spec fn is_walk(edges: Seq<(usize, usize)>, p: Seq<usize>, start: usize, dest: usize) -> bool {
    &&& p.len() > 0
    &&& p[0] == start
    &&& p.last() == dest
    &&& forall|i: int| 0 <= i < p.len() - 1 ==> #[trigger] has_edge(edges, p[i], p[i + 1])
}

/// The index of the first edge from `a` to `b`.
pub open spec fn edge_index(edges: Seq<(usize, usize)>, a: usize, b: usize) -> Option<int>
    decreases edges.len(),
{
    if edges.len() == 0 {
        None
    } else if edges[0] == (a, b) {
        Some(0)
    } else {
        match edge_index(edges.drop_first(), a, b) {
            Some(k) => Some(k + 1),
            None => None,
        }
    }
}

/// The sum of the costs of the edges along the walk `p`.
pub open spec fn walk_cost(edges: Seq<(usize, usize)>, costs: Seq<usize>, p: Seq<usize>) -> int
    decreases p.len(),
{
    if p.len() < 2 {
        0
    } else {
        let e = match edge_index(edges, p[0], p[1]) {
            Some(k) => costs[k] as int,
            None => 0,
        };
        e + walk_cost(edges, costs, p.drop_first())
    }
}

/// Whether some walk along edges leads from `start` to `dest`.
pub open spec fn reachable(edges: Seq<(usize, usize)>, start: usize, dest: usize) -> bool {
    exists|q: Seq<usize>| #[trigger] is_walk(edges, q, start, dest)
}

/// Whether no estimate exceeds the cost of a walk from its node to `dest`.
pub open spec fn admissible(edges: Seq<(usize, usize)>, costs: Seq<usize>, estimates: Seq<usize>, dest: usize) -> bool {
    forall|v: usize, q: Seq<usize>| #[trigger] is_walk(edges, q, v, dest) && v < estimates.len()
        ==> estimates[v as int] <= walk_cost(edges, costs, q)
}

/// The sum of a sequence of costs.
pub open spec fn cost_sum(s: Seq<usize>) -> int
    decreases s.len(),
{
    if s.len() == 0 { 0 } else { cost_sum(s.drop_last()) + s.last() }
}

/// A prefix of costs never sums to more than the whole sequence.
pub(crate) proof fn lemma_cost_sum_prefix(s: Seq<usize>, k: int)
    requires
        0 <= k <= s.len(),
    ensures
        cost_sum(s.subrange(0, k)) <= cost_sum(s),
    decreases s.len() - k,
{
    if k < s.len() {
        assert(s.subrange(0, k + 1).drop_last() =~= s.subrange(0, k));
        lemma_cost_sum_prefix(s, k + 1);
    } else {
        assert(s.subrange(0, k) =~= s);
    }
}

/// The number of unset bits.
pub open spec fn count_unset(s: Seq<bool>) -> nat
    decreases s.len(),
{
    if s.len() == 0 {
        0
    } else {
        count_unset(s.drop_last()) + if s.last() { 0nat } else { 1nat }
    }
}

/// Setting an unset bit lowers the number of unset bits by one.
pub(crate) proof fn lemma_count_unset_update(s: Seq<bool>, i: int)
    requires
        0 <= i < s.len(),
        !s[i],
    ensures
        count_unset(s.update(i, true)) + 1 == count_unset(s),
    decreases s.len(),
{
    let t = s.update(i, true);
    if i == s.len() - 1 {
        assert(t.drop_last() =~= s.drop_last());
    } else {
        assert(t.drop_last() =~= s.drop_last().update(i, true));
        lemma_count_unset_update(s.drop_last(), i);
    }
}

/// Whether node `n` is the goal `dest` of a search.
pub fn is_goal(n: usize, dest: usize) -> (r: bool)
    ensures
        r == (n == dest),
{
    n == dest
}

/// The entry `i` of `values`, zero past its end.
pub fn value_at(values: &Vec<usize>, i: usize) -> (r: usize)
    ensures
        r == (if i < values@.len() { values@[i as int] } else { 0 }),
{
    if i < values.len() { values[i] } else { 0 }
}

/// A visited-set over node indices.
pub struct VisitSet {
    pub(crate) bits: FixedBitSet,
}

impl VisitSet {
    pub closed spec fn view(&self) -> Seq<bool> {
        bit_values(self.bits)
    }

    /// Relies on `FixedBitSet::with_capacity`: `n` bits, all unset.
    #[verifier::external_body]
    fn raw_new(n: usize) -> (r: VisitSet)
        ensures
            bit_values(r.bits) == Seq::new(n as nat, |i: int| false),
    {
        VisitSet { bits: FixedBitSet::with_capacity(n) }
    }

    /// Through `FixedBitSet::with_capacity`: `n` bits, all unset.
    pub(crate) fn new(n: usize) -> (r: VisitSet)
        ensures
            r.view() == Seq::new(n as nat, |i: int| false),
    {
        Self::raw_new(n)
    }

    /// Relies on `FixedBitSet::put`: sets bit `i` and returns whether it was set before;
    /// it panics beyond the capacity.
    #[verifier::external_body]
    fn raw_put(&mut self, i: usize) -> (r: bool)
        requires
            i < bit_values(old(self).bits).len(),
        ensures
            r == bit_values(old(self).bits)[i as int],
            bit_values(final(self).bits) == bit_values(old(self).bits).update(i as int, true),
    {
        self.bits.put(i)
    }

    /// Through `FixedBitSet::put`: sets bit `i` and returns whether it was set before;
    /// it panics beyond the capacity.
    pub(crate) fn put(&mut self, i: usize) -> (r: bool)
        requires
            i < old(self).view().len(),
        ensures
            r == old(self).view()[i as int],
            final(self).view() == old(self).view().update(i as int, true),
    {
        self.raw_put(i)
    }
}

/// The track graph.
pub struct RoadGraph {
    pub(crate) graph: DiGraph<Node, Vec<Rail>>,
}

impl RoadGraph {
    /// The node weights.
    pub closed spec fn nodes(&self) -> Seq<Node> {
        graph_nodes(self.graph)
    }

    /// The edges, as `(source, target)`.
    pub closed spec fn edges(&self) -> Seq<(usize, usize)> {
        graph_edges(self.graph)
    }

    /// The rails of each edge.
    pub closed spec fn rails(&self) -> Seq<Seq<Rail>> {
        graph_rails(self.graph)
    }

    /// The graph's shape: one rail list per edge, edge ends within the nodes, no repeated edge,
    /// and room for petgraph's 32-bit indices.
    pub open spec fn wf(&self) -> bool {
        &&& self.rails().len() == self.edges().len()
        &&& forall|i: int| 0 <= i < self.edges().len() ==> (#[trigger] self.edges()[i]).0 < self.nodes().len()
            && self.edges()[i].1 < self.nodes().len()
        &&& distinct_edges(self.edges())
        &&& self.nodes().len() < u32::MAX
        &&& self.edges().len() < u32::MAX
    }

    /// Relies on `Graph::new`: an empty graph.
    #[verifier::external_body]
    fn raw_new() -> (r: RoadGraph)
        ensures
            graph_nodes(r.graph) == Seq::<Node>::empty(),
            graph_edges(r.graph) == Seq::<(usize, usize)>::empty(),
            graph_rails(r.graph) == Seq::<Seq<Rail>>::empty(),
    {
        RoadGraph { graph: DiGraph::new() }
    }

    /// Through `Graph::new`: an empty graph.
    pub(crate) fn new() -> (r: RoadGraph)
        ensures
            r.nodes() == Seq::<Node>::empty(),
            r.edges() == Seq::<(usize, usize)>::empty(),
            r.rails() == Seq::<Seq<Rail>>::empty(),
    {
        Self::raw_new()
    }

    /// Relies on `Graph::node_count`: the number of nodes.
    #[verifier::external_body]
    fn raw_node_count(&self) -> (r: usize)
        ensures
            r == graph_nodes(self.graph).len(),
    {
        self.graph.node_count()
    }

    /// Through `Graph::node_count`: the number of nodes.
    pub(crate) fn node_count(&self) -> (r: usize)
        ensures
            r == self.nodes().len(),
    {
        self.raw_node_count()
    }

    /// Relies on `Graph::edge_count`: the number of edges.
    #[verifier::external_body]
    fn raw_edge_count(&self) -> (r: usize)
        ensures
            r == graph_edges(self.graph).len(),
    {
        self.graph.edge_count()
    }

    /// Through `Graph::edge_count`: the number of edges.
    pub(crate) fn edge_count(&self) -> (r: usize)
        ensures
            r == self.edges().len(),
    {
        self.raw_edge_count()
    }

    /// Relies on `Graph::add_node`: appends a node, whose index is the old node count; it
    /// panics when the index would reach the largest 32-bit value.
    #[verifier::external_body]
    fn raw_add_node(&mut self, node: Node) -> (r: usize)
        requires
            graph_nodes(old(self).graph).len() + 1 < u32::MAX,
        ensures
            r == graph_nodes(old(self).graph).len(),
            graph_nodes(final(self).graph) == graph_nodes(old(self).graph).push(node),
            graph_edges(final(self).graph) == graph_edges(old(self).graph),
            graph_rails(final(self).graph) == graph_rails(old(self).graph),
    {
        self.graph.add_node(node).index()
    }

    /// Through `Graph::add_node`: appends a node, whose index is the old node count; it
    /// panics when the index would reach the largest 32-bit value.
    pub(crate) fn add_node(&mut self, node: Node) -> (r: usize)
        requires
            old(self).nodes().len() + 1 < u32::MAX,
        ensures
            r == old(self).nodes().len(),
            final(self).nodes() == old(self).nodes().push(node),
            final(self).edges() == old(self).edges(),
            final(self).rails() == old(self).rails(),
    {
        self.raw_add_node(node)
    }

    /// Relies on `Graph::node_weight`: the weight of node `i`. The index is below the node
    /// count, which is below the largest 32-bit value, so petgraph's 32-bit index keeps it.
    #[verifier::external_body]
    fn raw_node_weight(&self, i: usize) -> (r: Option<Node>)
        requires
            i < graph_nodes(self.graph).len(),
        ensures
            r == Some(graph_nodes(self.graph)[i as int]),
    {
        self.graph.node_weight(NodeIndex::new(i)).copied()
    }

    /// The weight of node `i`, if it exists.
    pub(crate) fn node_weight(&self, i: usize) -> (r: Option<Node>)
        ensures
            r == (if i < self.nodes().len() { Some(self.nodes()[i as int]) } else { None }),
    {
        if i < self.node_count() {
            self.raw_node_weight(i)
        } else {
            None
        }
    }

    /// Relies on indexing a `Graph` by node (`IndexMut`): replaces the weight of node `i`; it
    /// panics on an index out of bounds.
    #[verifier::external_body]
    fn raw_set_node_weight(&mut self, i: usize, node: Node)
        requires
            i < graph_nodes(old(self).graph).len(),
        ensures
            graph_nodes(final(self).graph) == graph_nodes(old(self).graph).update(i as int, node),
            graph_edges(final(self).graph) == graph_edges(old(self).graph),
            graph_rails(final(self).graph) == graph_rails(old(self).graph),
    {
        self.graph[NodeIndex::new(i)] = node;
    }

    /// Through indexing a `Graph` by node (`IndexMut`): replaces the weight of node `i`; it
    /// panics on an index out of bounds.
    pub(crate) fn set_node_weight(&mut self, i: usize, node: Node)
        requires
            i < old(self).nodes().len(),
        ensures
            final(self).nodes() == old(self).nodes().update(i as int, node),
            final(self).edges() == old(self).edges(),
            final(self).rails() == old(self).rails(),
    {
        self.raw_set_node_weight(i, node)
    }

    /// Relies on `Graph::edge_weight`: the rails of edge `e`.
    #[verifier::external_body]
    fn raw_edge_rails(&self, e: usize) -> (r: Vec<Rail>)
        requires
            e < graph_rails(self.graph).len(),
        ensures
            r@ == graph_rails(self.graph)[e as int],
    {
        self.graph.edge_weight(petgraph::graph::EdgeIndex::new(e)).cloned().unwrap_or_default()
    }

    /// Through `Graph::edge_weight`: the rails of edge `e`.
    pub(crate) fn edge_rails(&self, e: usize) -> (r: Vec<Rail>)
        requires
            e < self.rails().len(),
        ensures
            r@ == self.rails()[e as int],
    {
        self.raw_edge_rails(e)
    }

    /// Relies on `Graph::edge_endpoints`: the source and target of edge `e`.
    #[verifier::external_body]
    fn raw_edge_endpoints(&self, e: usize) -> (r: (usize, usize))
        requires
            e < graph_edges(self.graph).len(),
        ensures
            r == graph_edges(self.graph)[e as int],
    {
        let (a, b) = self.graph.edge_endpoints(petgraph::graph::EdgeIndex::new(e)).unwrap_or_default();
        (a.index(), b.index())
    }

    /// Through `Graph::edge_endpoints`: the source and target of edge `e`.
    pub(crate) fn edge_endpoints(&self, e: usize) -> (r: (usize, usize))
        requires
            e < self.edges().len(),
        ensures
            r == self.edges()[e as int],
    {
        self.raw_edge_endpoints(e)
    }

    /// Relies on `Graph::update_edge`: an existing edge from `a` to `b` gets the new rails,
    /// otherwise a new edge is appended; the index of that edge is returned. It panics on node
    /// indices out of bounds and when the edge index would reach the largest 32-bit value.
    #[verifier::external_body]
    fn raw_update_edge(&mut self, a: usize, b: usize, rails: Vec<Rail>) -> (r: usize)
        requires
            a < graph_nodes(old(self).graph).len(),
            b < graph_nodes(old(self).graph).len(),
            graph_edges(old(self).graph).len() + 1 < u32::MAX,
            distinct_edges(graph_edges(old(self).graph)),
        ensures
            graph_nodes(final(self).graph) == graph_nodes(old(self).graph),
            has_edge(graph_edges(old(self).graph), a, b) ==> {
                &&& graph_edges(final(self).graph) == graph_edges(old(self).graph)
                &&& r < graph_edges(old(self).graph).len()
                &&& graph_edges(old(self).graph)[r as int] == (a, b)
                &&& graph_rails(final(self).graph) == graph_rails(old(self).graph).update(r as int, rails@)
            },
            !has_edge(graph_edges(old(self).graph), a, b) ==> {
                &&& graph_edges(final(self).graph) == graph_edges(old(self).graph).push((a, b))
                &&& graph_rails(final(self).graph) == graph_rails(old(self).graph).push(rails@)
                &&& r == graph_edges(old(self).graph).len()
            },
    {
        self.graph.update_edge(NodeIndex::new(a), NodeIndex::new(b), rails).index()
    }

    /// Through `Graph::update_edge`: an existing edge from `a` to `b` gets the new rails,
    /// otherwise a new edge is appended; the index of that edge is returned. It panics on node
    /// indices out of bounds and when the edge index would reach the largest 32-bit value.
    pub(crate) fn update_edge(&mut self, a: usize, b: usize, rails: Vec<Rail>) -> (r: usize)
        requires
            a < old(self).nodes().len(),
            b < old(self).nodes().len(),
            old(self).edges().len() + 1 < u32::MAX,
            distinct_edges(old(self).edges()),
        ensures
            final(self).nodes() == old(self).nodes(),
            has_edge(old(self).edges(), a, b) ==> {
                &&& final(self).edges() == old(self).edges()
                &&& r < old(self).edges().len()
                &&& old(self).edges()[r as int] == (a, b)
                &&& final(self).rails() == old(self).rails().update(r as int, rails@)
            },
            !has_edge(old(self).edges(), a, b) ==> {
                &&& final(self).edges() == old(self).edges().push((a, b))
                &&& final(self).rails() == old(self).rails().push(rails@)
                &&& r == old(self).edges().len()
            },
    {
        self.raw_update_edge(a, b, rails)
    }

    /// Relies on `Graph::neighbors_directed`: the targets of the edges leaving `n`
    /// (`Outgoing`) or the sources of the edges entering it (`Incoming`), most recently added
    /// first.
    #[verifier::external_body]
    fn raw_neighbors_directed(&self, n: usize, side: EdgeSide) -> (r: Vec<usize>)
        requires
            n < graph_nodes(self.graph).len(),
        ensures
            r@ == (match side {
                EdgeSide::Outgoing => succs(graph_edges(self.graph), n),
                EdgeSide::Incoming => preds(graph_edges(self.graph), n),
            }),
    {
        let dir = match side {
            EdgeSide::Outgoing => petgraph::Direction::Outgoing,
            EdgeSide::Incoming => petgraph::Direction::Incoming,
        };
        self.graph.neighbors_directed(NodeIndex::new(n), dir).map(|i| i.index()).collect()
    }

    /// Through `Graph::neighbors_directed`: the targets of the edges leaving `n`
    /// (`Outgoing`) or the sources of the edges entering it (`Incoming`), most recently added
    /// first.
    pub(crate) fn neighbors_directed(&self, n: usize, side: EdgeSide) -> (r: Vec<usize>)
        requires
            n < self.nodes().len(),
        ensures
            r@ == (match side {
                EdgeSide::Outgoing => succs(self.edges(), n),
                EdgeSide::Incoming => preds(self.edges(), n),
            }),
    {
        self.raw_neighbors_directed(n, side)
    }

    /// The targets of the edges leaving `n`, most recently added first.
    pub(crate) fn successors(&self, n: usize) -> (r: Vec<usize>)
        requires
            n < self.nodes().len(),
        ensures
            r@ == succs(self.edges(), n),
    {
        self.neighbors_directed(n, EdgeSide::Outgoing)
    }

    /// The sources of the edges entering `n`, most recently added first.
    pub(crate) fn predecessors(&self, n: usize) -> (r: Vec<usize>)
        requires
            n < self.nodes().len(),
        ensures
            r@ == preds(self.edges(), n),
    {
        self.neighbors_directed(n, EdgeSide::Incoming)
    }

    /// Relies on `petgraph::algo::astar` over the outgoing edges, with `costs` per edge index,
    /// `estimates` per node index and the goal `dest`. As its documentation states, it finds
    /// a route exactly when `dest` is reachable; the route runs from `start` to `dest` along
    /// edges with the returned total cost; and with admissible estimates no walk is cheaper.
    /// Edges join distinct pairs, so each step has one edge. Sums of costs must not overflow.
    #[verifier::external_body]
    fn raw_astar(&self, start: usize, dest: usize, costs: &Vec<usize>, estimates: &Vec<usize>) -> (r: Option<(usize, Vec<usize>)>)
        requires
            start < graph_nodes(self.graph).len(),
            dest < graph_nodes(self.graph).len(),
            costs@.len() == graph_edges(self.graph).len(),
            estimates@.len() == graph_nodes(self.graph).len(),
            distinct_edges(graph_edges(self.graph)),
            forall|i: int| 0 <= i < estimates@.len() ==> cost_sum(costs@) + #[trigger] estimates@[i] <= usize::MAX,
        ensures
            match r {
                Some((c, p)) => astar_route(graph_edges(self.graph), costs@, estimates@, start, dest) == Some((c, p@))
                    && is_walk(graph_edges(self.graph), p@, start, dest),
                None => astar_route(graph_edges(self.graph), costs@, estimates@, start, dest).is_none(),
            },
            r is None <==> !reachable(graph_edges(self.graph), start, dest),
            r matches Some((c, p)) ==> c as int == walk_cost(graph_edges(self.graph), costs@, p@),
            r.is_some() && admissible(graph_edges(self.graph), costs@, estimates@, dest) ==> forall|q: Seq<usize>|
                #[trigger] is_walk(graph_edges(self.graph), q, start, dest) ==> r.unwrap().0 as int <= walk_cost(graph_edges(self.graph), costs@, q),
    {
        petgraph::algo::astar(
            &self.graph,
            NodeIndex::new(start),
            |n| is_goal(n.index(), dest),
            |e| value_at(costs, e.id().index()),
            |n| value_at(estimates, n.index()),
        ).map(|(c, p)| (c, p.into_iter().map(|n| n.index()).collect()))
    }

    /// Through `petgraph::algo::astar` over the outgoing edges, with `costs` per edge index,
    /// `estimates` per node index and the goal `dest`: a found route runs from `start` to
    /// `dest` along edges. Sums of costs must not overflow.
    pub(crate) fn astar(&self, start: usize, dest: usize, costs: &Vec<usize>, estimates: &Vec<usize>) -> (r: Option<(usize, Vec<usize>)>)
        requires
            start < self.nodes().len(),
            dest < self.nodes().len(),
            costs@.len() == self.edges().len(),
            estimates@.len() == self.nodes().len(),
            distinct_edges(self.edges()),
            forall|i: int| 0 <= i < estimates@.len() ==> cost_sum(costs@) + #[trigger] estimates@[i] <= usize::MAX,
        ensures
            match r {
                Some((c, p)) => astar_route(self.edges(), costs@, estimates@, start, dest) == Some((c, p@))
                    && is_walk(self.edges(), p@, start, dest),
                None => astar_route(self.edges(), costs@, estimates@, start, dest).is_none(),
            },
            r is None <==> !reachable(self.edges(), start, dest),
            r matches Some((c, p)) ==> c as int == walk_cost(self.edges(), costs@, p@),
            r.is_some() && admissible(self.edges(), costs@, estimates@, dest) ==> forall|q: Seq<usize>|
                #[trigger] is_walk(self.edges(), q, start, dest) ==> r.unwrap().0 as int <= walk_cost(self.edges(), costs@, q),
    {
        self.raw_astar(start, dest, costs, estimates)
    }

    /// Relies on `petgraph::visit::Bfs` over `petgraph::visit::Reversed`: the nodes in the order
    /// a breadth-first search from `start` against the edge directions visits them. The walk
    /// begins at `start` and marks each node discovered, so it lists each node once. It panics
    /// when `start` is not a node.
    #[verifier::external_body]
    fn raw_reverse_bfs(&self, start: usize) -> (r: Vec<usize>)
        requires
            start < graph_nodes(self.graph).len(),
        ensures
            r@ == reverse_bfs_order(graph_edges(self.graph), start),
            r@.len() > 0 && r@[0] == start,
            r@.no_duplicates(),
            forall|k: int| 0 <= k < r@.len() ==> #[trigger] r@[k] < graph_nodes(self.graph).len(),
    {
        let reversed = petgraph::visit::Reversed(&self.graph);
        let mut bfs = petgraph::visit::Bfs::new(reversed, NodeIndex::new(start));
        let mut order = Vec::new();
        while let Some(n) = bfs.next(reversed) {
            order.push(n.index());
        }
        order
    }

    /// Through `petgraph::visit::Bfs` over `petgraph::visit::Reversed`: the nodes in the order
    /// a breadth-first search from `start` against the edge directions visits them. It panics
    /// when `start` is not a node.
    pub(crate) fn reverse_bfs(&self, start: usize) -> (r: Vec<usize>)
        requires
            start < self.nodes().len(),
        ensures
            r@ == reverse_bfs_order(self.edges(), start),
            r@.len() > 0 && r@[0] == start,
            r@.no_duplicates(),
            forall|k: int| 0 <= k < r@.len() ==> #[trigger] r@[k] < self.nodes().len(),
    {
        self.raw_reverse_bfs(start)
    }
}

} // verus!
