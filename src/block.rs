//! Block discovery: the sensors a signal guards and the other signals that lead into them.
use vstd::prelude::*;
use crate::speed::Address;
use crate::switch::Cross;
use crate::topology::{count_unset, lemma_count_unset_update, preds, succs, Node, RoadGraph, VisitSet};

verus! {

/// The address of a sensor or station node.
pub open spec fn sensor_address(n: Node) -> Option<Address> {
    match n {
        Node::Sensor(a, _) => Some(a),
        Node::Station(a, _) => Some(a),
        _ => None,
    }
}

/// The address of a signal node.
pub open spec fn signal_address(n: Node) -> Option<Address> {
    match n {
        Node::Signal(a, _) => Some(a),
        _ => None,
    }
}

/// Whether some node of `nodes` is a sensor or station with address `a`.
pub open spec fn has_sensor(nodes: Seq<Node>, a: Address) -> bool {
    exists|j: int| 0 <= j < nodes.len() && #[trigger] sensor_address(nodes[j]) == Some(a)
}

/// Whether some node of `nodes` is a signal with address `a`.
pub open spec fn has_signal(nodes: Seq<Node>, a: Address) -> bool {
    exists|j: int| 0 <= j < nodes.len() && #[trigger] signal_address(nodes[j]) == Some(a)
}

/// Whether node `v` of `nodes` is a signal.
pub open spec fn signal_node(nodes: Seq<Node>, v: usize) -> bool {
    v < nodes.len() && nodes[v as int] is Signal
}

/// The other track node of the first crossing in `crossings` with address `a`, seen from `u`.
pub open spec fn partner_of(crossings: Seq<Cross>, a: Address, u: usize) -> Option<usize>
    decreases crossings.len(),
{
    if crossings.len() == 0 {
        None
    } else if crossings[0].address == a {
        Some(if crossings[0].nodes.0 == u { crossings[0].nodes.1 } else { crossings[0].nodes.0 })
    } else {
        partner_of(crossings.drop_first(), a, u)
    }
}

/// Whether the walk through a block may go from node `u` to node `v`: `v` is a node but no
/// signal, and an edge joins the two in either direction, or `u` is one track of a crossing
/// and `v` the other.
pub open spec fn block_step(nodes: Seq<Node>, edges: Seq<(usize, usize)>, crossings: Seq<Cross>, u: usize, v: usize) -> bool {
    &&& v < nodes.len()
    &&& !(nodes[v as int] is Signal)
    &&& (succs(edges, u).contains(v) || preds(edges, u).contains(v) || (u < nodes.len()
        && (nodes[u as int] matches Node::Cross(a) && partner_of(crossings, a, u) == Some(v))))
}

/// The addresses of the sensors and stations among the nodes `block`, in order.
pub open spec fn sensors_of(block: Seq<usize>, nodes: Seq<Node>) -> Seq<Address>
    decreases block.len(),
{
    if block.len() == 0 {
        seq![]
    } else {
        let rest = sensors_of(block.drop_last(), nodes);
        if block.last() < nodes.len() {
            match sensor_address(nodes[block.last() as int]) {
                Some(a) => rest.push(a),
                None => rest,
            }
        } else {
            rest
        }
    }
}

/// Whether `m` starts a block walk from the signal at `start`: a successor of it that is a
/// node but no signal.
pub open spec fn block_seed(nodes: Seq<Node>, edges: Seq<(usize, usize)>, start: usize, m: usize) -> bool {
    succs(edges, start).contains(m) && m < nodes.len() && !(nodes[m as int] is Signal)
}

/// Whether `w` is a walk through the block of the signal at `start`: it begins at a seed and
/// each step is a `block_step`.
pub open spec fn block_path(nodes: Seq<Node>, edges: Seq<(usize, usize)>, crossings: Seq<Cross>, start: usize, w: Seq<usize>) -> bool {
    &&& w.len() > 0
    &&& block_seed(nodes, edges, start, w[0])
    &&& forall|i: int| 0 <= i < w.len() - 1 ==> #[trigger] block_step(nodes, edges, crossings, w[i], w[i + 1])
}

/// Whether node `v` lies in the block of the signal at `start`: some block walk ends at it.
pub open spec fn block_reach(nodes: Seq<Node>, edges: Seq<(usize, usize)>, crossings: Seq<Cross>, start: usize, v: usize) -> bool {
    exists|w: Seq<usize>| #[trigger] block_path(nodes, edges, crossings, start, w) && w.last() == v
}

/// Whether `a` is the address of a signal, other than the one at `start`, with an edge into
/// a node of `block`.
pub open spec fn entering_signal(nodes: Seq<Node>, edges: Seq<(usize, usize)>, start: usize, block: Seq<usize>, a: Address) -> bool {
    exists|p: int, v: usize| 0 <= p < block.len() && #[trigger] preds(edges, block[p]).contains(v) && v != start
        && signal_node(nodes, v) && signal_address(nodes[v as int]) == Some(a)
}

/// Whether `block` is exactly the block of the signal at `start`, each node once: every seed
/// is in it, it is closed under `block_step`, and every node in it lies in the block.
pub open spec fn is_block(nodes: Seq<Node>, edges: Seq<(usize, usize)>, crossings: Seq<Cross>, start: usize, block: Seq<usize>) -> bool {
    &&& block.no_duplicates()
    &&& forall|k: int| 0 <= k < block.len() ==> block_reach(nodes, edges, crossings, start, #[trigger] block[k])
    &&& forall|m: usize| #[trigger] block_seed(nodes, edges, start, m) ==> block.contains(m)
    &&& forall|k: int, v: usize| 0 <= k < block.len() && #[trigger] block_step(nodes, edges, crossings, block[k], v)
        ==> block.contains(v)
}

/// Whether `peers` are exactly the signals entering `block`: each is one, and every signal
/// other than the start with an edge into a block node is listed.
pub open spec fn are_peers(nodes: Seq<Node>, edges: Seq<(usize, usize)>, start: usize, block: Seq<usize>, peers: Seq<Address>) -> bool {
    &&& forall|q: int| 0 <= q < peers.len() ==> entering_signal(nodes, edges, start, block, #[trigger] peers[q])
    &&& forall|k: int, v: usize| 0 <= k < block.len() && #[trigger] preds(edges, block[k]).contains(v) && v != start
        && signal_node(nodes, v) ==> peers.contains(signal_address(nodes[v as int]).unwrap())
}

proof fn lemma_reach_seed(nodes: Seq<Node>, edges: Seq<(usize, usize)>, crossings: Seq<Cross>, start: usize, m: usize)
    requires
        block_seed(nodes, edges, start, m),
    ensures
        block_reach(nodes, edges, crossings, start, m),
{
    let w = seq![m];
    assert(block_path(nodes, edges, crossings, start, w));
}

proof fn lemma_reach_step(nodes: Seq<Node>, edges: Seq<(usize, usize)>, crossings: Seq<Cross>, start: usize, u: usize, v: usize)
    requires
        block_reach(nodes, edges, crossings, start, u),
        block_step(nodes, edges, crossings, u, v),
    ensures
        block_reach(nodes, edges, crossings, start, v),
{
    let w = choose|w: Seq<usize>| #[trigger] block_path(nodes, edges, crossings, start, w) && w.last() == u;
    let w2 = w.push(v);
    assert forall|i: int| 0 <= i < w2.len() - 1 implies #[trigger] block_step(nodes, edges, crossings, w2[i], w2[i + 1]) by {
        if i < w.len() - 1 {
            assert(w2[i] == w[i] && w2[i + 1] == w[i + 1]);
            assert(block_step(nodes, edges, crossings, w[i], w[i + 1]));
        }
    }
    assert(block_path(nodes, edges, crossings, start, w2));
}

/// Whether every bit set in `a` is set in `b`.
pub open spec fn grows(a: Seq<bool>, b: Seq<bool>) -> bool {
    a.len() == b.len() && forall|x: int| 0 <= x < a.len() && #[trigger] a[x] ==> b[x]
}

/// Marks `m` visited and queues it, unless it was visited before.
fn visit(visited: &mut VisitSet, queue: &mut Vec<usize>, m: usize)
    requires
        m < old(visited).view().len(),
    ensures
        final(visited).view() == old(visited).view().update(m as int, true),
        count_unset(final(visited).view()) + final(queue)@.len() == count_unset(old(visited).view())
            + old(queue)@.len(),
        final(queue)@ == (if old(visited).view()[m as int] { old(queue)@ } else { old(queue)@.push(m) }),
{
    let ghost before = visited.view();
    let seen = visited.put(m);
    proof {
        if seen {
            assert(before.update(m as int, true) =~= before);
        } else {
            lemma_count_unset_update(before, m as int);
        }
    }
    if !seen {
        queue.push(m);
    }
}

/// The other track node of the crossing `adr` seen from `node`, if the crossing is known.
fn crossing_partner(crossings: &Vec<Cross>, adr: Address, node: usize) -> (r: Option<usize>)
    ensures
        r == partner_of(crossings@, adr, node),
{
    let mut i: usize = 0;
    assert(crossings@.subrange(0, crossings@.len() as int) =~= crossings@);
    while i < crossings.len()
        invariant
            i <= crossings@.len(),
            partner_of(crossings@, adr, node) == partner_of(crossings@.subrange(i as int, crossings@.len() as int), adr, node),
        decreases crossings@.len() - i,
    {
        let ghost sub = crossings@.subrange(i as int, crossings@.len() as int);
        assert(sub.drop_first() =~= crossings@.subrange(i + 1, crossings@.len() as int));
        if crossings[i].address == adr {
            return Some(crossings[i].other_node(node));
        }
        i = i + 1;
    }
    None
}

/// The invariant of the walk in `search_block`: the queue holds visited non-signal nodes and
/// every visited non-signal node; every processed node has its steps visited; every visited
/// signal other than the start is a peer; the sensors are those of the processed nodes.
pub open spec fn walk_inv(
    nodes: Seq<Node>,
    edges: Seq<(usize, usize)>,
    crossings: Seq<Cross>,
    start: usize,
    bits: Seq<bool>,
    queue: Seq<usize>,
    head: int,
    peers: Seq<Address>,
    sensors: Seq<Address>,
) -> bool {
    &&& bits.len() == nodes.len()
    &&& 0 <= head <= queue.len()
    &&& start < nodes.len()
    &&& bits[start as int]
    &&& forall|q: int| 0 <= q < queue.len() ==> (#[trigger] queue[q]) < nodes.len() && !(nodes[queue[q] as int] is Signal)
        && bits[queue[q] as int]
    &&& forall|v: int| 0 <= v < nodes.len() && #[trigger] bits[v] && !(nodes[v] is Signal) ==> queue.contains(v as usize)
    &&& forall|p: int, v: usize| 0 <= p < head && #[trigger] block_step(nodes, edges, crossings, queue[p], v) ==> bits[v as int]
    &&& forall|p: int, v: usize| 0 <= p < head && #[trigger] preds(edges, queue[p]).contains(v) && v < nodes.len() ==> bits[v as int]
    &&& forall|v: int| 0 <= v < nodes.len() && #[trigger] bits[v] && nodes[v] is Signal && v != start
        ==> peers.contains(signal_address(nodes[v]).unwrap())
    &&& sensors == sensors_of(queue.subrange(0, head), nodes)
    &&& forall|q: int| 0 <= q < peers.len() ==> has_signal(nodes, #[trigger] peers[q])
    &&& queue.no_duplicates()
    &&& forall|q: int| 0 <= q < queue.len() ==> block_reach(nodes, edges, crossings, start, #[trigger] queue[q])
    &&& forall|q: int| 0 <= q < peers.len() ==> entering_signal(nodes, edges, start, queue, #[trigger] peers[q])
}

proof fn lemma_sensors_of_sound(block: Seq<usize>, nodes: Seq<Node>)
    ensures
        forall|k: int| 0 <= k < sensors_of(block, nodes).len() ==> has_sensor(nodes, #[trigger] sensors_of(block, nodes)[k]),
    decreases block.len(),
{
    if block.len() > 0 {
        lemma_sensors_of_sound(block.drop_last(), nodes);
        let rest = sensors_of(block.drop_last(), nodes);
        if block.last() < nodes.len() {
            if let Some(a) = sensor_address(nodes[block.last() as int]) {
                assert forall|k: int| 0 <= k < rest.push(a).len() implies has_sensor(nodes, #[trigger] rest.push(a)[k]) by {
                    if k == rest.len() as int {
                        assert(sensor_address(nodes[block.last() as int]) == Some(rest.push(a)[k]));
                    } else {
                        assert(rest.push(a)[k] == rest[k]);
                    }
                }
            }
        }
    }
}

/// Visiting a non-signal node keeps the walk invariant.
proof fn lemma_visit_node(
    nodes: Seq<Node>,
    edges: Seq<(usize, usize)>,
    crossings: Seq<Cross>,
    start: usize,
    b0: Seq<bool>,
    q0: Seq<usize>,
    head: int,
    peers: Seq<Address>,
    sensors: Seq<Address>,
    m: usize,
)
    requires
        walk_inv(nodes, edges, crossings, start, b0, q0, head, peers, sensors),
        m < nodes.len(),
        !(nodes[m as int] is Signal),
        block_reach(nodes, edges, crossings, start, m),
    ensures
        walk_inv(nodes, edges, crossings, start, b0.update(m as int, true), if b0[m as int] { q0 } else { q0.push(m) }, head, peers, sensors),
        grows(b0, b0.update(m as int, true)),
{
    let b1 = b0.update(m as int, true);
    let q1 = if b0[m as int] { q0 } else { q0.push(m) };
    assert forall|q: int| 0 <= q < q1.len() implies (#[trigger] q1[q]) < nodes.len() && !(nodes[q1[q] as int] is Signal)
        && b1[q1[q] as int] by {
        if q < q0.len() { assert(q1[q] == q0[q]); }
    }
    assert forall|v: int| 0 <= v < nodes.len() && #[trigger] b1[v] && !(nodes[v] is Signal) implies q1.contains(v as usize) by {
        if v != m as int || b0[m as int] {
            assert(b0[v]);
            let w = choose|w: int| 0 <= w < q0.len() && q0[w] == v as usize;
            assert(q1[w] == q0[w]);
        } else {
            assert(q1[q0.len() as int] == m);
        }
    }
    assert forall|p: int, v: usize| 0 <= p < head && #[trigger] block_step(nodes, edges, crossings, q1[p], v) implies b1[v as int] by {
        assert(q1[p] == q0[p]);
        assert(block_step(nodes, edges, crossings, q0[p], v));
    }
    assert forall|p: int, v: usize| 0 <= p < head && #[trigger] preds(edges, q1[p]).contains(v) && v < nodes.len() implies b1[v as int] by {
        assert(q1[p] == q0[p]);
        assert(preds(edges, q0[p]).contains(v));
    }
    assert forall|v: int| 0 <= v < nodes.len() && #[trigger] b1[v] && nodes[v] is Signal && v != start
        implies peers.contains(signal_address(nodes[v]).unwrap()) by {
        assert(b0[v]);
    }
    assert(q1.subrange(0, head) =~= q0.subrange(0, head));
    assert(b1.len() == nodes.len());
    assert(b1[start as int]);
    if !b0[m as int] {
        assert(!q0.contains(m)) by {
            if q0.contains(m) {
                let w = choose|w: int| 0 <= w < q0.len() && q0[w] == m;
                assert(b0[q0[w] as int]);
            }
        }
        assert forall|x: int, y: int| 0 <= x < q1.len() && 0 <= y < q1.len() && x != y implies q1[x] != q1[y] by {
            if x == q0.len() as int {
                assert(q1[y] == q0[y]);
            } else if y == q0.len() as int {
                assert(q1[x] == q0[x]);
            } else {
                assert(q1[x] == q0[x] && q1[y] == q0[y]);
            }
        }
    }
    assert forall|q: int| 0 <= q < q1.len() implies block_reach(nodes, edges, crossings, start, #[trigger] q1[q]) by {
        if q < q0.len() { assert(q1[q] == q0[q]); }
    }
    assert forall|q: int| 0 <= q < peers.len() implies entering_signal(nodes, edges, start, q1, #[trigger] peers[q]) by {
        assert(entering_signal(nodes, edges, start, q0, peers[q]));
        let (p, v) = choose|p: int, v: usize| 0 <= p < q0.len() && #[trigger] preds(edges, q0[p]).contains(v) && v != start
            && signal_node(nodes, v) && signal_address(nodes[v as int]) == Some(peers[q]);
        assert(q1[p] == q0[p]);
    }
}

/// Visiting a signal node, and listing it as a peer when it is new, keeps the walk invariant.
proof fn lemma_visit_signal(
    nodes: Seq<Node>,
    edges: Seq<(usize, usize)>,
    crossings: Seq<Cross>,
    start: usize,
    b0: Seq<bool>,
    q0: Seq<usize>,
    head: int,
    peers: Seq<Address>,
    sensors: Seq<Address>,
    m: usize,
)
    requires
        walk_inv(nodes, edges, crossings, start, b0, q0, head, peers, sensors),
        m < nodes.len(),
        nodes[m as int] is Signal,
        0 <= head < q0.len(),
        preds(edges, q0[head]).contains(m),
    ensures
        walk_inv(nodes, edges, crossings, start, b0.update(m as int, true), q0, head,
            if b0[m as int] { peers } else { peers.push(signal_address(nodes[m as int]).unwrap()) }, sensors),
        grows(b0, b0.update(m as int, true)),
        !b0[m as int] ==> m != start,
{
    let b1 = b0.update(m as int, true);
    let p1 = if b0[m as int] { peers } else { peers.push(signal_address(nodes[m as int]).unwrap()) };
    assert forall|v: int| 0 <= v < nodes.len() && #[trigger] b1[v] && !(nodes[v] is Signal) implies q0.contains(v as usize) by {
        assert(b0[v]);
    }
    assert forall|v: int| 0 <= v < nodes.len() && #[trigger] b1[v] && nodes[v] is Signal && v != start
        implies p1.contains(signal_address(nodes[v]).unwrap()) by {
        if v == m as int && !b0[m as int] {
            assert(p1[peers.len() as int] == signal_address(nodes[v]).unwrap());
        } else {
            assert(b0[v]);
            let w = choose|w: int| 0 <= w < peers.len() && peers[w] == signal_address(nodes[v]).unwrap();
            assert(p1[w] == peers[w]);
        }
    }
    assert forall|q: int| 0 <= q < p1.len() implies has_signal(nodes, #[trigger] p1[q]) by {
        if q == peers.len() as int && !b0[m as int] {
            assert(signal_address(nodes[m as int]) == Some(p1[q]));
        } else {
            assert(p1[q] == peers[q]);
        }
    }
    assert forall|p: int, v: usize| 0 <= p < head && #[trigger] block_step(nodes, edges, crossings, q0[p], v) implies b1[v as int] by {
        assert(b0[v as int]);
    }
    assert forall|p: int, v: usize| 0 <= p < head && #[trigger] preds(edges, q0[p]).contains(v) && v < nodes.len() implies b1[v as int] by {
        assert(b0[v as int]);
    }
    assert forall|q: int| 0 <= q < q0.len() implies (#[trigger] q0[q]) < nodes.len() && !(nodes[q0[q] as int] is Signal)
        && b1[q0[q] as int] by {
    }
    assert forall|q: int| 0 <= q < p1.len() implies entering_signal(nodes, edges, start, q0, #[trigger] p1[q]) by {
        if q == peers.len() as int && !b0[m as int] {
            assert(preds(edges, q0[head]).contains(m));
            assert(signal_address(nodes[m as int]) == Some(p1[q]));
        } else {
            assert(p1[q] == peers[q]);
        }
    }
}

/// Searches the block behind the signal at node `start`: a breadth-first walk over the graph,
/// ignoring edge directions, that starts at the signal's successors and stops at signals
/// (see `block_step`). Returns `(peers, sensors, block)`: `block` holds the nodes met, each
/// once; `sensors` the addresses of its sensors and stations, in that order; `peers` the
/// signals met through an edge entering a block node, other than the start.
pub fn search_block(road: &RoadGraph, crossings: &Vec<Cross>, start: usize) -> (r: (Vec<Address>, Vec<Address>, Vec<usize>))
    requires
        road.wf(),
        start < road.nodes().len(),
        road.nodes()[start as int] is Signal,
    ensures
        forall|k: int| 0 <= k < r.0@.len() ==> has_signal(road.nodes(), #[trigger] r.0@[k]),
        forall|k: int| 0 <= k < r.1@.len() ==> has_sensor(road.nodes(), #[trigger] r.1@[k]),
        r.1@ == sensors_of(r.2@, road.nodes()),
        forall|k: int| 0 <= k < r.2@.len() ==> (#[trigger] r.2@[k]) < road.nodes().len() && !(road.nodes()[r.2@[k] as int] is Signal),
        forall|m: usize| #[trigger] succs(road.edges(), start).contains(m) && m < road.nodes().len()
            && !(road.nodes()[m as int] is Signal) ==> r.2@.contains(m),
        forall|k: int, v: usize| 0 <= k < r.2@.len() && #[trigger] block_step(road.nodes(), road.edges(), crossings@, r.2@[k], v)
            ==> r.2@.contains(v),
        forall|k: int, v: usize| 0 <= k < r.2@.len() && #[trigger] preds(road.edges(), r.2@[k]).contains(v) && v != start
            && signal_node(road.nodes(), v) ==> r.0@.contains(signal_address(road.nodes()[v as int]).unwrap()),
        is_block(road.nodes(), road.edges(), crossings@, start, r.2@),
        are_peers(road.nodes(), road.edges(), start, r.2@, r.0@),
{
    let n = road.node_count();
    let ghost nodes = road.nodes();
    let ghost edges = road.edges();
    let mut visited = VisitSet::new(n);
    let mut scratch: Vec<usize> = Vec::new();
    visit(&mut visited, &mut scratch, start);
    let mut queue: Vec<usize> = Vec::new();
    let mut peers: Vec<Address> = Vec::new();
    let mut sensors: Vec<Address> = Vec::new();
    assert(sensors@ =~= sensors_of(queue@.subrange(0, 0), nodes));
    let first = road.successors(start);
    let mut k: usize = 0;
    while k < first.len()
        invariant
            n == nodes.len(),
            nodes == road.nodes(),
            edges == road.edges(),
            first@ == succs(edges, start),
            k <= first@.len(),
            walk_inv(nodes, edges, crossings@, start, visited.view(), queue@, 0, peers@, sensors@),
            forall|j: int| 0 <= j < k && first@[j] < n && !(nodes[first@[j] as int] is Signal) ==> visited.view()[#[trigger] first@[j] as int],
        ensures
            forall|j: int| 0 <= j < first@.len() && first@[j] < n && !(nodes[first@[j] as int] is Signal) ==> visited.view()[#[trigger] first@[j] as int],
            walk_inv(nodes, edges, crossings@, start, visited.view(), queue@, 0, peers@, sensors@),
        decreases first@.len() - k,
    {
        let m = first[k];
        if m < n {
            let is_signal = match road.node_weight(m) {
                Some(Node::Signal(..)) => true,
                _ => false,
            };
            if !is_signal {
                let ghost b0 = visited.view();
                let ghost q0 = queue@;
                proof {
                    assert(first@[k as int] == m);
                    assert(block_seed(nodes, edges, start, m));
                    lemma_reach_seed(nodes, edges, crossings@, start, m);
                    lemma_visit_node(nodes, edges, crossings@, start, b0, q0, 0, peers@, sensors@, m);
                }
                visit(&mut visited, &mut queue, m);
            }
        }
        k = k + 1;
    }
    proof {
        assert forall|m: usize| #[trigger] succs(edges, start).contains(m) && m < n && !(nodes[m as int] is Signal)
            implies visited.view()[m as int] by {
            let j = choose|j: int| 0 <= j < first@.len() && first@[j] == m;
        }
    }
    let mut head: usize = 0;
    while head < queue.len()
        invariant
            n == nodes.len(),
            nodes == road.nodes(),
            edges == road.edges(),
            road.wf(),
            head <= queue@.len(),
            walk_inv(nodes, edges, crossings@, start, visited.view(), queue@, head as int, peers@, sensors@),
            forall|m: usize| #[trigger] succs(edges, start).contains(m) && m < n && !(nodes[m as int] is Signal)
                ==> visited.view()[m as int],
        decreases count_unset(visited.view()) + queue@.len() - head,
    {
        let node = queue[head];
        let ghost b_start = visited.view();
        let ghost measure = count_unset(visited.view()) + queue@.len();
        if let Some(Node::Cross(adr)) = road.node_weight(node) {
            if let Some(other) = crossing_partner(crossings, adr, node) {
                if other < n {
                    let is_signal = match road.node_weight(other) {
                        Some(Node::Signal(..)) => true,
                        _ => false,
                    };
                    if !is_signal {
                        proof {
                            assert(block_reach(nodes, edges, crossings@, start, queue@[head as int]));
                            assert(block_step(nodes, edges, crossings@, node, other));
                            lemma_reach_step(nodes, edges, crossings@, start, node, other);
                            lemma_visit_node(nodes, edges, crossings@, start, visited.view(), queue@, head as int, peers@, sensors@, other);
                        }
                        visit(&mut visited, &mut queue, other);
                    }
                }
            }
        }
        let ghost b_cross = visited.view();
        let outs = road.successors(node);
        let mut i: usize = 0;
        while i < outs.len()
            invariant
                n == nodes.len(),
                nodes == road.nodes(),
                edges == road.edges(),
                head < queue@.len(),
                queue@[head as int] == node,
                outs@ == succs(edges, node),
                i <= outs@.len(),
                walk_inv(nodes, edges, crossings@, start, visited.view(), queue@, head as int, peers@, sensors@),
                grows(b_start, visited.view()),
                grows(b_cross, visited.view()),
                count_unset(visited.view()) + queue@.len() <= measure,
                forall|j: int| 0 <= j < i && outs@[j] < n && !(nodes[outs@[j] as int] is Signal) ==> visited.view()[#[trigger] outs@[j] as int],
            decreases outs@.len() - i,
        {
            let m = outs[i];
            if m < n {
                let is_signal = match road.node_weight(m) {
                    Some(Node::Signal(..)) => true,
                    _ => false,
                };
                if !is_signal {
                    proof {
                        assert(block_reach(nodes, edges, crossings@, start, queue@[head as int]));
                        assert(outs@[i as int] == m);
                        assert(block_step(nodes, edges, crossings@, node, m));
                        lemma_reach_step(nodes, edges, crossings@, start, node, m);
                        lemma_visit_node(nodes, edges, crossings@, start, visited.view(), queue@, head as int, peers@, sensors@, m);
                    }
                    visit(&mut visited, &mut queue, m);
                }
            }
            i = i + 1;
        }
        let ghost b_outs = visited.view();
        let ins = road.predecessors(node);
        let mut j: usize = 0;
        while j < ins.len()
            invariant
                n == nodes.len(),
                nodes == road.nodes(),
                edges == road.edges(),
                head < queue@.len(),
                queue@[head as int] == node,
                ins@ == preds(edges, node),
                outs@ == succs(edges, node),
                j <= ins@.len(),
                walk_inv(nodes, edges, crossings@, start, visited.view(), queue@, head as int, peers@, sensors@),
                grows(b_start, visited.view()),
                grows(b_cross, visited.view()),
                grows(b_outs, visited.view()),
                count_unset(visited.view()) + queue@.len() <= measure,
                forall|x: int| 0 <= x < outs@.len() && outs@[x] < n && !(nodes[outs@[x] as int] is Signal) ==> b_outs[#[trigger] outs@[x] as int],
                forall|x: int| 0 <= x < j && ins@[x] < n ==> visited.view()[#[trigger] ins@[x] as int],
            decreases ins@.len() - j,
        {
            let m = ins[j];
            if m < n {
                match road.node_weight(m) {
                    Some(Node::Signal(a, _)) => {
                        let ghost b0 = visited.view();
                        let mut scratch2: Vec<usize> = Vec::new();
                        proof {
                            assert(ins@[j as int] == m);
                            assert(preds(edges, queue@[head as int]).contains(m));
                            lemma_visit_signal(nodes, edges, crossings@, start, b0, queue@, head as int, peers@, sensors@, m);
                        }
                        visit(&mut visited, &mut scratch2, m);
                        if scratch2.len() > 0 {
                            assert(signal_address(road.nodes()[m as int]) == Some(a));
                            peers.push(a);
                        }
                    },
                    _ => {
                        proof {
                            assert(block_reach(nodes, edges, crossings@, start, queue@[head as int]));
                            assert(ins@[j as int] == m);
                            assert(block_step(nodes, edges, crossings@, node, m));
                            lemma_reach_step(nodes, edges, crossings@, start, node, m);
                            lemma_visit_node(nodes, edges, crossings@, start, visited.view(), queue@, head as int, peers@, sensors@, m);
                        }
                        visit(&mut visited, &mut queue, m);
                    },
                }
            }
            j = j + 1;
        }
        proof {
            let b = visited.view();
            assert forall|v: usize| #[trigger] block_step(nodes, edges, crossings@, node, v) implies b[v as int] by {
                if succs(edges, node).contains(v) {
                    let x = choose|x: int| 0 <= x < outs@.len() && outs@[x] == v;
                    assert(b_outs[outs@[x] as int]);
                } else if preds(edges, node).contains(v) {
                    let x = choose|x: int| 0 <= x < ins@.len() && ins@[x] == v;
                } else {
                    assert(b_cross[v as int]);
                }
            }
            assert forall|p: int, v: usize| 0 <= p < head + 1 && #[trigger] block_step(nodes, edges, crossings@, queue@[p], v)
                implies b[v as int] by {
                if p == head as int {
                    assert(queue@[p] == node);
                }
            }
            assert forall|v: usize| #[trigger] preds(edges, node).contains(v) && v < n implies b[v as int] by {
                let x = choose|x: int| 0 <= x < ins@.len() && ins@[x] == v;
            }
            assert forall|p: int, v: usize| 0 <= p < head + 1 && #[trigger] preds(edges, queue@[p]).contains(v) && v < n
                implies b[v as int] by {
                if p == head as int {
                    assert(queue@[p] == node);
                }
            }
        }
        match road.node_weight(node) {
            Some(Node::Sensor(a, _)) | Some(Node::Station(a, _)) => {
                sensors.push(a);
            },
            _ => {},
        }
        proof {
            let pre = queue@.subrange(0, head as int);
            let post = queue@.subrange(0, head + 1);
            assert(post.drop_last() =~= pre);
            assert(post.last() == node);
        }
        head = head + 1;
    }
    assert(queue@.subrange(0, head as int) =~= queue@);
    proof {
        lemma_sensors_of_sound(queue@, nodes);
    }
    (peers, sensors, queue)
}

} // verus!
