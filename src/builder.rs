//! The topology builder: adds elements and joins them while keeping the per-kind limits on
//! neighbours, then freezes everything into a [`Railroad`].
use vstd::prelude::*;
use crate::geometry::{Position, Rail};
use crate::railroad::Railroad;
use crate::train::Train;
use crate::sensor::Sensor;
use crate::signal::{Signal, SignalType};
use crate::speed::{Address, Speed};
use crate::switch::{Cross, Switch, SwitchType};
use crate::topology::{preds, succs, distinct_edges, has_edge, EdgeSide, Node, RoadGraph};

verus! {

/// Whether a node of this kind may have `ins` incoming and `outs` outgoing edges: a switch
/// two on one side and one on the other at most, any other node one of each.
pub open spec fn degree_ok(n: Node, ins: nat, outs: nat) -> bool {
    match n {
        Node::Switch(..) => ins <= 2 && outs <= 2 && ins + outs <= 3,
        _ => ins <= 1 && outs <= 1,
    }
}

/// Whether every node of the graph keeps the limits of its kind.
pub open spec fn degrees_ok(nodes: Seq<Node>, edges: Seq<(usize, usize)>) -> bool {
    forall|n: int| 0 <= n < nodes.len() ==> degree_ok(
        #[trigger] nodes[n],
        preds(edges, n as usize).len(),
        succs(edges, n as usize).len(),
    )
}

/// Whether adding one more edge on `side` of node `n` keeps its limits.
pub open spec fn slot_free(n: Node, ins: nat, outs: nat, side: EdgeSide) -> bool {
    match side {
        EdgeSide::Incoming => degree_ok(n, ins + 1, outs),
        EdgeSide::Outgoing => degree_ok(n, ins, outs + 1),
    }
}

/// An added edge counts once among the successors of its source and the predecessors of its
/// target, and nowhere else.
proof fn lemma_push_edge(edges: Seq<(usize, usize)>, a: usize, b: usize, n: usize)
    ensures
        succs(edges.push((a, b)), n) == (if a == n { seq![b] + succs(edges, n) } else { succs(edges, n) }),
        preds(edges.push((a, b)), n) == (if b == n { seq![a] + preds(edges, n) } else { preds(edges, n) }),
{
    assert(edges.push((a, b)).drop_last() =~= edges);
}

/// A node that no edge touches has no neighbours.
proof fn lemma_untouched(edges: Seq<(usize, usize)>, n: usize)
    requires
        forall|i: int| 0 <= i < edges.len() ==> (#[trigger] edges[i]).0 != n && edges[i].1 != n,
    ensures
        succs(edges, n).len() == 0,
        preds(edges, n).len() == 0,
    decreases edges.len(),
{
    if edges.len() > 0 {
        lemma_untouched(edges.drop_last(), n);
    }
}

/// Whether two node weights are of the same kind.
pub open spec fn same_kind(a: Node, b: Node) -> bool {
    match (a, b) {
        (Node::Signal(..), Node::Signal(..)) => true,
        (Node::Sensor(..), Node::Sensor(..)) => true,
        (Node::Switch(..), Node::Switch(..)) => true,
        (Node::Station(..), Node::Station(..)) => true,
        (Node::Cross(..), Node::Cross(..)) => true,
        (Node::Buffer(..), Node::Buffer(..)) => true,
        _ => false,
    }
}

/// Node `n` once `build` has given a switch without a default branch the first neighbour
/// (in petgraph's order) on its side with two neighbours; any other node stays as it is.
pub open spec fn switch_default(nodes: Seq<Node>, edges: Seq<(usize, usize)>, n: usize) -> Node {
    match nodes[n as int] {
        Node::Switch(a, p, t, None, side) => if preds(edges, n).len() == 2 {
            Node::Switch(a, p, t, Some(preds(edges, n)[0]), EdgeSide::Incoming)
        } else if succs(edges, n).len() == 2 {
            Node::Switch(a, p, t, Some(succs(edges, n)[0]), EdgeSide::Outgoing)
        } else {
            nodes[n as int]
        },
        other => other,
    }
}

/// Whether `sensors` and `peers` are what block discovery gives the signal at `node`: the
/// sensors and stations of its block (see `is_block`), in some order of that block, and the
/// signals entering it (see `are_peers`).
pub open spec fn block_set_up(
    nodes: Seq<Node>,
    edges: Seq<(usize, usize)>,
    crossings: Seq<Cross>,
    node: usize,
    sensors: Seq<Address>,
    peers: Seq<Address>,
) -> bool {
    exists|block: Seq<usize>| #[trigger] crate::block::is_block(nodes, edges, crossings, node, block)
        && sensors == crate::block::sensors_of(block, nodes) && crate::block::are_peers(nodes, edges, node, block, peers)
}

/// Collects the elements and the track graph of a railroad under construction.
pub struct Builder {
    pub(crate) road: RoadGraph,
    pub(crate) sensors: Vec<Sensor>,
    pub(crate) sensor_nodes: Vec<Vec<usize>>,
    pub(crate) signals: Vec<Signal>,
    pub(crate) crossings: Vec<Cross>,
    pub(crate) switches: Vec<Switch>,
    pub(crate) switch_nodes: Vec<Vec<usize>>,
    pub(crate) trains: Vec<Train>,
}

impl Builder {
    /// The graph is well formed, every node keeps the neighbour limits of its kind, each sensor
    /// and switch has its list of nodes, and sensors are in a consistent state.
    pub closed spec fn wf(&self) -> bool {
        &&& self.road.wf()
        &&& degrees_ok(self.road.nodes(), self.road.edges())
        &&& self.sensors@.len() == self.sensor_nodes@.len()
        &&& self.switches@.len() == self.switch_nodes@.len()
        &&& forall|i: int| 0 <= i < self.sensors@.len() ==> (#[trigger] self.sensors@[i]).wf()
        &&& forall|i: int, j: int| 0 <= i < j < self.sensors@.len()
            ==> (#[trigger] self.sensors@[i]).address_spec() != (#[trigger] self.sensors@[j]).address_spec()
        &&& forall|i: int, j: int| 0 <= i < j < self.signals@.len()
            ==> (#[trigger] self.signals@[i]).address_spec() != (#[trigger] self.signals@[j]).address_spec()
        &&& forall|i: int, j: int| 0 <= i < j < self.switches@.len()
            ==> (#[trigger] self.switches@[i]).address_spec() != (#[trigger] self.switches@[j]).address_spec()
        &&& forall|i: int, j: int| 0 <= i < j < self.crossings@.len()
            ==> (#[trigger] self.crossings@[i]).address != (#[trigger] self.crossings@[j]).address
        &&& forall|i: int, j: int| 0 <= i < j < self.trains@.len()
            ==> (#[trigger] self.trains@[i]).address_spec() != (#[trigger] self.trains@[j]).address_spec()
    }

    /// Whether a signal with this address exists.
    pub closed spec fn signal_exists(&self, adr: Address) -> bool {
        exists|i: int| 0 <= i < self.signals@.len() && (#[trigger] self.signals@[i]).address_spec() == adr
    }

    /// The signals added so far.
    pub closed spec fn signals_spec(&self) -> Seq<Signal> {
        self.signals@
    }

    /// The crossings added so far.
    pub closed spec fn crossings_spec(&self) -> Seq<Cross> {
        self.crossings@
    }

    /// Whether a sensor with this address exists.
    pub closed spec fn sensor_exists(&self, adr: Address) -> bool {
        exists|i: int| 0 <= i < self.sensors@.len() && (#[trigger] self.sensors@[i]).address_spec() == adr
    }

    /// Whether a switch with this address exists.
    pub closed spec fn switch_exists(&self, adr: Address) -> bool {
        exists|i: int| 0 <= i < self.switches@.len() && (#[trigger] self.switches@[i]).address_spec() == adr
    }

    /// Whether a crossing with this address exists.
    pub closed spec fn crossing_exists(&self, adr: Address) -> bool {
        exists|i: int| 0 <= i < self.crossings@.len() && (#[trigger] self.crossings@[i]).address == adr
    }

    /// The node weights of the graph.
    pub closed spec fn nodes(&self) -> Seq<Node> {
        self.road.nodes()
    }

    /// The edges of the graph.
    pub closed spec fn edges(&self) -> Seq<(usize, usize)> {
        self.road.edges()
    }

    /// The rails of each edge of the graph.
    pub closed spec fn rails(&self) -> Seq<Seq<Rail>> {
        self.road.rails()
    }

    /// An empty railroad.
    pub fn new() -> (r: Builder)
        ensures
            r.wf(),
            r.nodes().len() == 0,
            r.edges().len() == 0,
    {
        Builder {
            road: RoadGraph::new(),
            sensors: Vec::new(),
            sensor_nodes: Vec::new(),
            signals: Vec::new(),
            crossings: Vec::new(),
            switches: Vec::new(),
            switch_nodes: Vec::new(),
            trains: Vec::new(),
        }
    }

    /// Assembles a builder from the parts of a railroad.
    pub(crate) fn from_parts(
        road: RoadGraph,
        sensors: Vec<Sensor>,
        sensor_nodes: Vec<Vec<usize>>,
        signals: Vec<Signal>,
        crossings: Vec<Cross>,
        switches: Vec<Switch>,
        switch_nodes: Vec<Vec<usize>>,
        trains: Vec<Train>,
    ) -> (r: Builder)
        requires
            road.wf(),
            degrees_ok(road.nodes(), road.edges()),
            sensors@.len() == sensor_nodes@.len(),
            switches@.len() == switch_nodes@.len(),
            forall|i: int| 0 <= i < sensors@.len() ==> (#[trigger] sensors@[i]).wf(),
            forall|i: int, j: int| 0 <= i < j < sensors@.len()
                ==> (#[trigger] sensors@[i]).address_spec() != (#[trigger] sensors@[j]).address_spec(),
            forall|i: int, j: int| 0 <= i < j < signals@.len()
                ==> (#[trigger] signals@[i]).address_spec() != (#[trigger] signals@[j]).address_spec(),
            forall|i: int, j: int| 0 <= i < j < switches@.len()
                ==> (#[trigger] switches@[i]).address_spec() != (#[trigger] switches@[j]).address_spec(),
            forall|i: int, j: int| 0 <= i < j < crossings@.len()
                ==> (#[trigger] crossings@[i]).address != (#[trigger] crossings@[j]).address,
            forall|i: int, j: int| 0 <= i < j < trains@.len()
                ==> (#[trigger] trains@[i]).address_spec() != (#[trigger] trains@[j]).address_spec(),
        ensures
            r.wf(),
            r.nodes() == road.nodes(),
            r.edges() == road.edges(),
    {
        Builder { road, sensors, sensor_nodes, signals, crossings, switches, switch_nodes, trains }
    }

    /// A builder holding everything of `railroad`, to change it and build it again. Trains
    /// keep their address and position, and lose their route and speed.
    pub fn from_railroad(railroad: Railroad) -> (r: Builder)
        requires
            railroad.wf(),
        ensures
            r.wf(),
            r.nodes() == railroad.nodes(),
            r.edges() == railroad.edges(),
    {
        railroad.into_builder()
    }

    /// Forgets the train `adr`.
    pub fn remove_train(&mut self, adr: Address)
        requires
            old(self).wf(),
        ensures
            final(self).wf(),
            final(self).nodes() == old(self).nodes(),
            final(self).edges() == old(self).edges(),
    {
        let mut i: usize = 0;
        while i < self.trains.len()
            invariant
                i <= self.trains@.len(),
            decreases self.trains@.len() - i,
        {
            if self.trains[i].address() == adr {
                break;
            }
            i = i + 1;
        }
        if i < self.trains.len() {
            let ghost before = self.trains@;
            let _ = self.trains.remove(i);
            proof {
                assert forall|x: int, y: int| 0 <= x < y < self.trains@.len() implies
                    (#[trigger] self.trains@[x]).address_spec() != (#[trigger] self.trains@[y]).address_spec() by {
                    let xo = if x < i { x } else { x + 1 };
                    let yo = if y < i { y } else { y + 1 };
                    assert(self.trains@[x] == before[xo] && self.trains@[y] == before[yo]);
                }
            }
        }
    }

    /// Forgets the crossing `adr`; its nodes stay in the graph.
    pub fn remove_crossing(&mut self, adr: Address)
        requires
            old(self).wf(),
        ensures
            final(self).wf(),
            final(self).nodes() == old(self).nodes(),
            final(self).edges() == old(self).edges(),
            !final(self).crossing_exists(adr),
    {
        let mut i: usize = 0;
        while i < self.crossings.len()
            invariant
                i <= self.crossings@.len(),
                forall|k: int| 0 <= k < i ==> (#[trigger] self.crossings@[k]).address != adr,
            ensures
                i <= self.crossings@.len(),
                forall|k: int| 0 <= k < i ==> (#[trigger] self.crossings@[k]).address != adr,
                i < self.crossings@.len() ==> self.crossings@[i as int].address == adr,
            decreases self.crossings@.len() - i,
        {
            if self.crossings[i].address == adr {
                break;
            }
            i = i + 1;
        }
        if i < self.crossings.len() {
            let ghost before = self.crossings@;
            let _ = self.crossings.remove(i);
            proof {
                assert forall|x: int, y: int| 0 <= x < y < self.crossings@.len() implies
                    (#[trigger] self.crossings@[x]).address != (#[trigger] self.crossings@[y]).address by {
                    let xo = if x < i { x } else { x + 1 };
                    let yo = if y < i { y } else { y + 1 };
                    assert(self.crossings@[x] == before[xo] && self.crossings@[y] == before[yo]);
                }
                assert forall|x: int| 0 <= x < self.crossings@.len() implies (#[trigger] self.crossings@[x]).address != adr by {
                    let xo = if x < i { x } else { x + 1 };
                    assert(self.crossings@[x] == before[xo]);
                    if xo > i {
                        assert(before[i as int].address != before[xo].address);
                    }
                }
            }
        }
    }

    /// The number of nodes.
    pub fn node_count(&self) -> (r: usize)
        ensures
            r == self.nodes().len(),
    {
        self.road.node_count()
    }

    /// The weight of node `i`.
    pub fn node(&self, i: usize) -> (r: Option<Node>)
        ensures
            r == (if i < self.nodes().len() { Some(self.nodes()[i as int]) } else { None }),
    {
        self.road.node_weight(i)
    }

    /// Adds a node without edges.
    fn add_node(&mut self, node: Node) -> (r: usize)
        requires
            old(self).wf(),
            old(self).nodes().len() + 1 < u32::MAX,
        ensures
            final(self).wf(),
            r == old(self).nodes().len(),
            final(self).nodes() == old(self).nodes().push(node),
            final(self).edges() == old(self).edges(),
            final(self).sensors@ == old(self).sensors@,
            final(self).sensor_nodes@ == old(self).sensor_nodes@,
            final(self).signals@ == old(self).signals@,
            final(self).crossings@ == old(self).crossings@,
            final(self).switches@ == old(self).switches@,
            final(self).switch_nodes@ == old(self).switch_nodes@,
    {
        let ghost old_nodes = self.road.nodes();
        let r = self.road.add_node(node);
        proof {
            let edges = self.road.edges();
            assert forall|i: int| 0 <= i < edges.len() implies (#[trigger] edges[i]).0 != r && edges[i].1 != r by {}
            lemma_untouched(edges, r);
            assert forall|n: int| 0 <= n < self.road.nodes().len() implies degree_ok(
                #[trigger] self.road.nodes()[n],
                preds(edges, n as usize).len(),
                succs(edges, n as usize).len(),
            ) by {
                if n < old_nodes.len() {
                    assert(self.road.nodes()[n] == old_nodes[n]);
                }
            }
        }
        r
    }

    /// The position in the sensor list of the sensor with this address.
    pub(crate) fn sensor_slot(&self, adr: Address) -> (r: Option<usize>)
        ensures
            match r {
                Some(i) => i < self.sensors@.len() && self.sensors@[i as int].address_spec() == adr,
                None => forall|i: int| 0 <= i < self.sensors@.len() ==> (#[trigger] self.sensors@[i]).address_spec() != adr,
            },
    {
        let mut i: usize = 0;
        while i < self.sensors.len()
            invariant
                i <= self.sensors@.len(),
                forall|k: int| 0 <= k < i ==> (#[trigger] self.sensors@[k]).address_spec() != adr,
            decreases self.sensors@.len() - i,
        {
            if self.sensors[i].address() == adr {
                return Some(i);
            }
            i = i + 1;
        }
        None
    }

    /// The position in the switch list of the switch with this address.
    pub(crate) fn switch_slot(&self, adr: Address) -> (r: Option<usize>)
        ensures
            match r {
                Some(i) => i < self.switches@.len() && self.switches@[i as int].address_spec() == adr,
                None => forall|i: int| 0 <= i < self.switches@.len() ==> (#[trigger] self.switches@[i]).address_spec() != adr,
            },
    {
        let mut i: usize = 0;
        while i < self.switches.len()
            invariant
                i <= self.switches@.len(),
                forall|k: int| 0 <= k < i ==> (#[trigger] self.switches@[k]).address_spec() != adr,
            decreases self.switches@.len() - i,
        {
            if self.switches[i].address() == adr {
                return Some(i);
            }
            i = i + 1;
        }
        None
    }

    /// Records that `node` belongs to the sensor `adr`, creating the sensor on first use.
    fn register_sensor_node(&mut self, adr: Address, max_speed: Speed, node: usize)
        requires
            old(self).wf(),
        ensures
            final(self).wf(),
            final(self).road == old(self).road,
            final(self).signals@ == old(self).signals@,
            final(self).crossings@ == old(self).crossings@,
            final(self).switches@ == old(self).switches@,
            final(self).switch_nodes@ == old(self).switch_nodes@,
            exists|i: int| 0 <= i < final(self).sensors@.len() && (#[trigger] final(self).sensors@[i]).address_spec() == adr
                && final(self).sensor_nodes@[i]@.contains(node),
    {
        match self.sensor_slot(adr) {
            Some(i) => {
                let mut nodes = self.sensor_nodes[i].clone();
                nodes.push(node);
                self.sensor_nodes.set(i, nodes);
                assert(self.sensor_nodes@[i as int]@.last() == node);
            },
            None => {
                self.sensors.push(Sensor::new(adr, max_speed));
                self.sensor_nodes.push(vec![node]);
                let k = self.sensors.len() - 1;
                assert(self.sensors@[k as int].address_spec() == adr);
                assert(self.sensor_nodes@[k as int]@[0] == node);
            },
        }
    }

    /// Records that `node` belongs to the switch `adr`, creating the switch on first use.
    fn register_switch_node(&mut self, adr: Address, node: usize)
        requires
            old(self).wf(),
        ensures
            final(self).wf(),
            final(self).road == old(self).road,
            final(self).sensors@ == old(self).sensors@,
            final(self).sensor_nodes@ == old(self).sensor_nodes@,
            final(self).signals@ == old(self).signals@,
            final(self).crossings@ == old(self).crossings@,
    {
        match self.switch_slot(adr) {
            Some(i) => {
                let mut nodes = self.switch_nodes[i].clone();
                nodes.push(node);
                self.switch_nodes.set(i, nodes);
            },
            None => {
                self.switches.push(Switch::new(adr));
                self.switch_nodes.push(vec![node]);
            },
        }
    }

    /// Adds a one-way sensor and returns its node.
    pub fn add_sensor(&mut self, sensor: Address, max_speed: Speed, position: Position) -> (r: usize)
        requires
            old(self).wf(),
            old(self).nodes().len() + 1 < u32::MAX,
        ensures
            final(self).wf(),
            r == old(self).nodes().len(),
            final(self).nodes() == old(self).nodes().push(Node::Sensor(sensor, position)),
            final(self).edges() == old(self).edges(),
    {
        let node = self.add_node(Node::Sensor(sensor, position));
        self.register_sensor_node(sensor, max_speed, node);
        node
    }

    /// Adds a sensor on two-way track: two nodes, one per direction, sharing the address.
    pub fn add_bidirectional_sensor(&mut self, sensor: Address, max_speed: Speed, position: Position) -> (r: (usize, usize))
        requires
            old(self).wf(),
            old(self).nodes().len() + 2 < u32::MAX,
        ensures
            final(self).wf(),
            r == (old(self).nodes().len() as usize, (old(self).nodes().len() + 1) as usize),
            final(self).nodes() == old(self).nodes().push(Node::Sensor(sensor, position)).push(Node::Sensor(sensor, position)),
            final(self).edges() == old(self).edges(),
    {
        let a = self.add_node(Node::Sensor(sensor, position));
        self.register_sensor_node(sensor, max_speed, a);
        let b = self.add_node(Node::Sensor(sensor, position));
        self.register_sensor_node(sensor, max_speed, b);
        (a, b)
    }

    /// Adds a one-way station and returns its node.
    pub fn add_station(&mut self, station: Address, max_speed: Speed, position: Position) -> (r: usize)
        requires
            old(self).wf(),
            old(self).nodes().len() + 1 < u32::MAX,
        ensures
            final(self).wf(),
            r == old(self).nodes().len(),
            final(self).nodes() == old(self).nodes().push(Node::Station(station, position)),
            final(self).edges() == old(self).edges(),
    {
        let node = self.add_node(Node::Station(station, position));
        self.register_sensor_node(station, max_speed, node);
        node
    }

    /// Adds a station on two-way track: two nodes sharing the address.
    pub fn add_bidirectional_station(&mut self, station: Address, max_speed: Speed, position: Position) -> (r: (usize, usize))
        requires
            old(self).wf(),
            old(self).nodes().len() + 2 < u32::MAX,
        ensures
            final(self).wf(),
            r == (old(self).nodes().len() as usize, (old(self).nodes().len() + 1) as usize),
            final(self).nodes() == old(self).nodes().push(Node::Station(station, position)).push(Node::Station(station, position)),
            final(self).edges() == old(self).edges(),
    {
        let a = self.add_node(Node::Station(station, position));
        self.register_sensor_node(station, max_speed, a);
        let b = self.add_node(Node::Station(station, position));
        self.register_sensor_node(station, max_speed, b);
        (a, b)
    }

    /// Whether a signal with this address exists.
    pub(crate) fn has_signal(&self, adr: Address) -> (r: bool)
        ensures
            r == self.signal_exists(adr),
    {
        let mut i: usize = 0;
        while i < self.signals.len()
            invariant
                i <= self.signals@.len(),
                forall|k: int| 0 <= k < i ==> (#[trigger] self.signals@[k]).address_spec() != adr,
            decreases self.signals@.len() - i,
        {
            if self.signals[i].address() == adr {
                return true;
            }
            i = i + 1;
        }
        false
    }

    /// Adds a signal; `None`, and nothing added, when a signal with this address exists.
    pub fn add_signal(&mut self, signal: Address, signal_type: SignalType, position: Position) -> (r: Option<usize>)
        requires
            old(self).wf(),
            old(self).nodes().len() + 1 < u32::MAX,
        ensures
            final(self).wf(),
            old(self).signal_exists(signal)
                ==> r.is_none() && final(self).nodes() == old(self).nodes(),
            !old(self).signal_exists(signal)
                ==> r == Some(old(self).nodes().len() as usize) && final(self).nodes() == old(self).nodes().push(Node::Signal(signal, position)),
            final(self).edges() == old(self).edges(),
    {
        if self.has_signal(signal) {
            return None;
        }
        let node = self.add_node(Node::Signal(signal, position));
        self.signals.push(Signal::new(signal, signal_type, node));
        Some(node)
    }

    /// Whether a crossing with this address exists.
    pub(crate) fn has_crossing(&self, adr: Address) -> (r: bool)
        ensures
            r == self.crossing_exists(adr),
    {
        let mut i: usize = 0;
        while i < self.crossings.len()
            invariant
                i <= self.crossings@.len(),
                forall|k: int| 0 <= k < i ==> (#[trigger] self.crossings@[k]).address != adr,
            decreases self.crossings@.len() - i,
        {
            if self.crossings[i].address == adr {
                return true;
            }
            i = i + 1;
        }
        false
    }

    /// Adds a crossing as two nodes, one per track; `None` when one with this address exists.
    pub fn add_crossing(&mut self, cross: Address, pos: Position) -> (r: Option<(usize, usize)>)
        requires
            old(self).wf(),
            old(self).nodes().len() + 2 < u32::MAX,
        ensures
            final(self).wf(),
            old(self).crossing_exists(cross)
                ==> r.is_none() && final(self).nodes() == old(self).nodes(),
            !old(self).crossing_exists(cross)
                ==> r == Some((old(self).nodes().len() as usize, (old(self).nodes().len() + 1) as usize))
                && final(self).nodes() == old(self).nodes().push(Node::Cross(cross)).push(Node::Cross(cross)),
            final(self).edges() == old(self).edges(),
    {
        if self.has_crossing(cross) {
            return None;
        }
        let a = self.add_node(Node::Cross(cross));
        let b = self.add_node(Node::Cross(cross));
        self.crossings.push(Cross::new(cross, pos, (a, b)));
        Some((a, b))
    }

    /// Adds a one-way switch, its branches taken to lie on the incoming side until a default
    /// branch is set.
    pub fn add_switch(&mut self, switch: Address, position: Position, s_type: SwitchType) -> (r: usize)
        requires
            old(self).wf(),
            old(self).nodes().len() + 1 < u32::MAX,
        ensures
            final(self).wf(),
            r == old(self).nodes().len(),
            final(self).nodes() == old(self).nodes().push(Node::Switch(switch, position, s_type, None, EdgeSide::Incoming)),
            final(self).edges() == old(self).edges(),
    {
        let node = self.add_node(Node::Switch(switch, position, s_type, None, EdgeSide::Incoming));
        self.register_switch_node(switch, node);
        node
    }

    /// Adds a switch on two-way track: two nodes sharing the address.
    pub fn add_bidirectional_switch(&mut self, switch: Address, position: Position, s_type: SwitchType) -> (r: (usize, usize))
        requires
            old(self).wf(),
            old(self).nodes().len() + 2 < u32::MAX,
        ensures
            final(self).wf(),
            r == (old(self).nodes().len() as usize, (old(self).nodes().len() + 1) as usize),
            final(self).nodes() == old(self).nodes().push(Node::Switch(switch, position, s_type, None, EdgeSide::Outgoing))
                .push(Node::Switch(switch, position, s_type, None, EdgeSide::Outgoing)),
            final(self).edges() == old(self).edges(),
    {
        let a = self.add_node(Node::Switch(switch, position, s_type, None, EdgeSide::Outgoing));
        self.register_switch_node(switch, a);
        let b = self.add_node(Node::Switch(switch, position, s_type, None, EdgeSide::Outgoing));
        self.register_switch_node(switch, b);
        (a, b)
    }

    /// Whether `node` can take one more edge on `side`; `None` when there is no such node.
    pub fn can_add_neighbour(&self, node: usize, side: EdgeSide) -> (r: Option<bool>)
        requires
            self.wf(),
        ensures
            node >= self.nodes().len() ==> r.is_none(),
            node < self.nodes().len() ==> r == Some(slot_free(
                self.nodes()[node as int],
                preds(self.edges(), node).len(),
                succs(self.edges(), node).len(),
                side,
            )),
    {
        let n = match self.road.node_weight(node) {
            Some(n) => n,
            None => return None,
        };
        let ins = self.road.predecessors(node).len();
        let outs = self.road.successors(node).len();
        let (ins, outs) = match side {
            EdgeSide::Incoming => (ins + 1, outs),
            EdgeSide::Outgoing => (ins, outs + 1),
        };
        Some(
            match n {
                Node::Switch(..) => ins <= 2 && outs <= 2 && ins + outs <= 3,
                _ => ins <= 1 && outs <= 1,
            },
        )
    }

    /// Whether an edge from `from` to `to` keeps the limits of both ends: the source takes one
    /// more outgoing and the target one more incoming edge.
    pub open spec fn join_ok(&self, from: usize, to: usize) -> bool {
        &&& from < self.nodes().len()
        &&& to < self.nodes().len()
        &&& if from == to {
            degree_ok(
                self.nodes()[from as int],
                preds(self.edges(), from).len() + 1,
                succs(self.edges(), from).len() + 1,
            )
        } else {
            &&& slot_free(
                self.nodes()[from as int],
                preds(self.edges(), from).len(),
                succs(self.edges(), from).len(),
                EdgeSide::Outgoing,
            )
            &&& slot_free(
                self.nodes()[to as int],
                preds(self.edges(), to).len(),
                succs(self.edges(), to).len(),
                EdgeSide::Incoming,
            )
        }
    }

    /// Adds the edge from `from` to `to` once `join_ok` allows it.
    fn join_checked(&mut self, from: usize, to: usize, rails: Vec<Rail>) -> (r: usize)
        requires
            old(self).wf(),
            old(self).join_ok(from, to),
            old(self).edges().len() + 1 < u32::MAX,
        ensures
            final(self).wf(),
            final(self).nodes() == old(self).nodes(),
            has_edge(final(self).edges(), from, to),
            final(self).edges() == (if has_edge(old(self).edges(), from, to) {
                old(self).edges()
            } else {
                old(self).edges().push((from, to))
            }),
            r < final(self).edges().len(),
            final(self).edges()[r as int] == (from, to),
            final(self).road.rails()[r as int] == rails@,
            final(self).road.rails() == (if has_edge(old(self).edges(), from, to) {
                old(self).road.rails().update(r as int, rails@)
            } else {
                old(self).road.rails().push(rails@)
            }),
            final(self).sensors@ == old(self).sensors@,
            final(self).sensor_nodes@ == old(self).sensor_nodes@,
            final(self).signals@ == old(self).signals@,
            final(self).crossings@ == old(self).crossings@,
            final(self).switches@ == old(self).switches@,
            final(self).switch_nodes@ == old(self).switch_nodes@,
    {
        let ghost old_edges = self.road.edges();
        let ghost existed = has_edge(old_edges, from, to);
        let r = self.road.update_edge(from, to, rails);
        proof {
            let edges = self.road.edges();
            let nodes = self.road.nodes();
            if !existed {
                assert(edges[old_edges.len() as int] == (from, to));
                assert forall|i: int, j: int| 0 <= i < j < edges.len() implies edges[i] != edges[j] by {
                    if j == old_edges.len() {
                        assert(old_edges[i] == edges[i]);
                    } else {
                        assert(old_edges[i] == edges[i] && old_edges[j] == edges[j]);
                    }
                }
                assert forall|i: int| 0 <= i < edges.len() implies (#[trigger] edges[i]).0 < nodes.len()
                    && edges[i].1 < nodes.len() by {
                    if i < old_edges.len() {
                        assert(old_edges[i] == edges[i]);
                    }
                }
                assert forall|n: int| 0 <= n < nodes.len() implies degree_ok(
                    #[trigger] nodes[n],
                    preds(edges, n as usize).len(),
                    succs(edges, n as usize).len(),
                ) by {
                    lemma_push_edge(old_edges, from, to, n as usize);
                }
            }
        }
        r
    }

    /// Joins `from` to `to` by an edge carrying `rails`. Refused, with nothing changed, when a
    /// node is missing or an end has no free slot of that side (see `join_ok`); an existing
    /// edge between the two gets the new rails.
    pub fn connect(&mut self, from: usize, to: usize, rails: Vec<Rail>) -> (r: Option<usize>)
        requires
            old(self).wf(),
            old(self).edges().len() + 1 < u32::MAX,
        ensures
            final(self).wf(),
            final(self).nodes() == old(self).nodes(),
            r.is_some() == old(self).join_ok(from, to),
            r.is_none() ==> *final(self) == *old(self),
            r matches Some(e) ==> e < final(self).edges().len() && final(self).edges()[e as int] == (from, to)
                && final(self).rails() == (if has_edge(old(self).edges(), from, to) {
                    old(self).rails().update(e as int, rails@)
                } else {
                    old(self).rails().push(rails@)
                }),
            r.is_some() ==> has_edge(final(self).edges(), from, to) && final(self).edges() == (if has_edge(
                old(self).edges(),
                from,
                to,
            ) {
                old(self).edges()
            } else {
                old(self).edges().push((from, to))
            }),
    {
        let out_ok = match self.can_add_neighbour(from, EdgeSide::Outgoing) {
            Some(b) => b,
            None => return None,
        };
        let in_ok = match self.can_add_neighbour(to, EdgeSide::Incoming) {
            Some(b) => b,
            None => return None,
        };
        let ok = if from == to {
            let n = self.road.node_weight(from).unwrap();
            let ins = self.road.predecessors(from).len() + 1;
            let outs = self.road.successors(from).len() + 1;
            match n {
                Node::Switch(..) => ins <= 2 && outs <= 2 && ins + outs <= 3,
                _ => ins <= 1 && outs <= 1,
            }
        } else {
            out_ok && in_ok
        };
        if !ok {
            return None;
        }
        Some(self.join_checked(from, to, rails))
    }

    /// Joins two elements on two-way track: `one_end` is the (outgoing, incoming) node pair of
    /// the first element and `other_end` the (incoming, outgoing) pair of the second. Adds the
    /// edges `one_end.0 -> other_end.0` and `other_end.1 -> one_end.1`, both or neither: it is
    /// refused when the four nodes are not distinct or either edge would break a limit.
    pub fn connect_bidirectional(
        &mut self,
        one_end: (usize, usize),
        other_end: (usize, usize),
        rails: Vec<Rail>,
    ) -> (r: Option<(usize, usize)>)
        requires
            old(self).wf(),
            old(self).edges().len() + 2 < u32::MAX,
        ensures
            final(self).wf(),
            final(self).nodes() == old(self).nodes(),
            r.is_some() == ({
                &&& one_end.0 != one_end.1 && one_end.0 != other_end.0 && one_end.0 != other_end.1
                &&& one_end.1 != other_end.0 && one_end.1 != other_end.1 && other_end.0 != other_end.1
                &&& old(self).join_ok(one_end.0, other_end.0)
                &&& old(self).join_ok(other_end.1, one_end.1)
            }),
            r.is_none() ==> final(self).edges() == old(self).edges(),
            r.is_some() ==> has_edge(final(self).edges(), one_end.0, other_end.0) && has_edge(
                final(self).edges(),
                other_end.1,
                one_end.1,
            ),
    {
        let (a0, a1) = one_end;
        let (b0, b1) = other_end;
        if a0 == a1 || a0 == b0 || a0 == b1 || a1 == b0 || a1 == b1 || b0 == b1 {
            return None;
        }
        let c1 = self.can_add_neighbour(a0, EdgeSide::Outgoing);
        let c2 = self.can_add_neighbour(a1, EdgeSide::Incoming);
        let c3 = self.can_add_neighbour(b1, EdgeSide::Outgoing);
        let c4 = self.can_add_neighbour(b0, EdgeSide::Incoming);
        match (c1, c2, c3, c4) {
            (Some(true), Some(true), Some(true), Some(true)) => {},
            _ => return None,
        }
        let ghost e0 = self.road.edges();
        let first = self.join_checked(a0, b0, rails.clone());
        proof {
            let e1 = self.road.edges();
            if !has_edge(e0, a0, b0) {
                lemma_push_edge(e0, a0, b0, b1);
                lemma_push_edge(e0, a0, b0, a1);
            }
            assert(succs(e1, b1) == succs(e0, b1));
            assert(preds(e1, a1) == preds(e0, a1));
        }
        let second = self.join_checked(b1, a1, rails);
        assert(has_edge(self.road.edges(), a0, b0)) by {
            let e1 = if has_edge(e0, a0, b0) { e0 } else { e0.push((a0, b0)) };
            let i = choose|i: int| 0 <= i < e1.len() && e1[i] == (a0, b0);
            let e2 = self.road.edges();
            if !has_edge(e1, b1, a1) {
                assert(e2[i] == (a0, b0));
            }
        }
        Some((first, second))
    }

    /// Records `default_connection` as the neighbour of the straight branch of `switch`; the
    /// branches are taken to lie on the incoming side when the switch has two incoming edges,
    /// on the outgoing side otherwise. Nodes that are not switches are left alone.
    pub fn set_switch_default_dir(&mut self, switch: usize, default_connection: usize)
        requires
            old(self).wf(),
        ensures
            final(self).wf(),
            final(self).edges() == old(self).edges(),
            final(self).nodes() == (if switch < old(self).nodes().len() {
                match old(self).nodes()[switch as int] {
                    Node::Switch(a, p, t, _, _) => old(self).nodes().update(
                        switch as int,
                        Node::Switch(
                            a,
                            p,
                            t,
                            Some(default_connection),
                            if preds(old(self).edges(), switch).len() == 2 {
                                EdgeSide::Incoming
                            } else {
                                EdgeSide::Outgoing
                            },
                        ),
                    ),
                    _ => old(self).nodes(),
                }
            } else {
                old(self).nodes()
            }),
    {
        if let Some(Node::Switch(a, p, t, _, _)) = self.road.node_weight(switch) {
            let side = if self.road.predecessors(switch).len() == 2 {
                EdgeSide::Incoming
            } else {
                EdgeSide::Outgoing
            };
            self.set_switch_node(switch, Node::Switch(a, p, t, Some(default_connection), side));
        }
    }

    /// Sets the default branch of both nodes of a two-way switch.
    pub fn set_switch_default_dir_bidirectional(&mut self, switch: (usize, usize), default_connection: (usize, usize))
        requires
            old(self).wf(),
        ensures
            final(self).wf(),
            final(self).edges() == old(self).edges(),
    {
        self.set_switch_default_dir(switch.0, default_connection.0);
        self.set_switch_default_dir(switch.1, default_connection.1);
    }

    /// Replaces the weight of the switch node `i` by another switch weight.
    fn set_switch_node(&mut self, i: usize, node: Node)
        requires
            old(self).wf(),
            i < old(self).nodes().len(),
            old(self).nodes()[i as int] is Switch,
            node is Switch,
        ensures
            final(self).wf(),
            final(self).nodes() == old(self).nodes().update(i as int, node),
            final(self).edges() == old(self).edges(),
            final(self).sensors@ == old(self).sensors@,
            final(self).sensor_nodes@ == old(self).sensor_nodes@,
            final(self).signals@ == old(self).signals@,
            final(self).crossings@ == old(self).crossings@,
            final(self).switches@ == old(self).switches@,
            final(self).switch_nodes@ == old(self).switch_nodes@,
    {
        let ghost old_nodes = self.road.nodes();
        self.road.set_node_weight(i, node);
        proof {
            let nodes = self.road.nodes();
            let edges = self.road.edges();
            assert forall|n: int| 0 <= n < nodes.len() implies degree_ok(
                #[trigger] nodes[n],
                preds(edges, n as usize).len(),
                succs(edges, n as usize).len(),
            ) by {
                assert(degree_ok(old_nodes[n], preds(edges, n as usize).len(), succs(edges, n as usize).len()));
            }
        }
    }

    /// Gives a switch without a default branch the first neighbour (in petgraph's order, the
    /// most recently joined) on its side with two neighbours.
    fn set_first_neighbour_for_switch(&mut self, switch: usize)
        requires
            old(self).wf(),
        ensures
            final(self).wf(),
            final(self).edges() == old(self).edges(),
            final(self).sensors@ == old(self).sensors@,
            final(self).sensor_nodes@ == old(self).sensor_nodes@,
            final(self).signals@ == old(self).signals@,
            final(self).crossings@ == old(self).crossings@,
            final(self).switches@ == old(self).switches@,
            final(self).switch_nodes@ == old(self).switch_nodes@,
            final(self).nodes() == (if switch < old(self).nodes().len() {
                old(self).nodes().update(switch as int, switch_default(old(self).nodes(), old(self).edges(), switch))
            } else {
                old(self).nodes()
            }),
    {
        proof {
            if switch < self.nodes().len() {
                assert(self.nodes().update(switch as int, self.nodes()[switch as int]) =~= self.nodes());
            }
        }
        if let Some(Node::Switch(a, p, t, None, _)) = self.road.node_weight(switch) {
            let ins = self.road.predecessors(switch);
            let outs = self.road.successors(switch);
            if ins.len() == 2 {
                self.set_switch_node(switch, Node::Switch(a, p, t, Some(ins[0]), EdgeSide::Incoming));
            } else if outs.len() == 2 {
                self.set_switch_node(switch, Node::Switch(a, p, t, Some(outs[0]), EdgeSide::Outgoing));
            }
        }
    }

    /// Adds one-way sensors; returns each node with its address.
    pub fn add_sensors(&mut self, sensors: &[(Address, Speed, Position)]) -> (r: Vec<(usize, Address)>)
        requires
            old(self).wf(),
            old(self).nodes().len() + sensors@.len() + 1 < u32::MAX,
        ensures
            final(self).wf(),
            final(self).nodes().len() == old(self).nodes().len() + sensors@.len(),
            final(self).edges() == old(self).edges(),
            r@.len() == sensors@.len(),
            forall|k: int| 0 <= k < r@.len() ==> (#[trigger] r@[k]) == ((old(self).nodes().len() + k) as usize, sensors@[k].0),
    {
        let mut out: Vec<(usize, Address)> = Vec::new();
        let mut k: usize = 0;
        while k < sensors.len()
            invariant
                self.wf(),
                k <= sensors@.len(),
                self.nodes().len() == old(self).nodes().len() + k,
                old(self).nodes().len() + sensors@.len() + 1 < u32::MAX,
                self.edges() == old(self).edges(),
                out@.len() == k,
                forall|x: int| 0 <= x < k ==> (#[trigger] out@[x]) == ((old(self).nodes().len() + x) as usize, sensors@[x].0),
            decreases sensors@.len() - k,
        {
            let (a, speed, p) = sensors[k];
            let n = self.add_sensor(a, speed, p);
            out.push((n, a));
            k = k + 1;
        }
        out
    }

    /// Adds sensors on two-way track; returns each node pair with its address.
    pub fn add_bidirectional_sensors(&mut self, sensors: &[(Address, Speed, Position)]) -> (r: Vec<((usize, usize), Address)>)
        requires
            old(self).wf(),
            old(self).nodes().len() + 2 * sensors@.len() + 2 < u32::MAX,
        ensures
            final(self).wf(),
            final(self).nodes().len() == old(self).nodes().len() + 2 * sensors@.len(),
            final(self).edges() == old(self).edges(),
            r@.len() == sensors@.len(),
    {
        let mut out: Vec<((usize, usize), Address)> = Vec::new();
        let mut k: usize = 0;
        while k < sensors.len()
            invariant
                self.wf(),
                k <= sensors@.len(),
                self.nodes().len() == old(self).nodes().len() + 2 * k,
                old(self).nodes().len() + 2 * sensors@.len() + 2 < u32::MAX,
                self.edges() == old(self).edges(),
                out@.len() == k,
            decreases sensors@.len() - k,
        {
            let (a, speed, p) = sensors[k];
            let n = self.add_bidirectional_sensor(a, speed, p);
            out.push((n, a));
            k = k + 1;
        }
        out
    }

    /// Adds one-way stations; returns each node with its address.
    pub fn add_stations(&mut self, stations: &[(Address, Speed, Position)]) -> (r: Vec<(usize, Address)>)
        requires
            old(self).wf(),
            old(self).nodes().len() + stations@.len() + 1 < u32::MAX,
        ensures
            final(self).wf(),
            final(self).nodes().len() == old(self).nodes().len() + stations@.len(),
            final(self).edges() == old(self).edges(),
            r@.len() == stations@.len(),
            forall|k: int| 0 <= k < r@.len() ==> (#[trigger] r@[k]) == ((old(self).nodes().len() + k) as usize, stations@[k].0),
    {
        let mut out: Vec<(usize, Address)> = Vec::new();
        let mut k: usize = 0;
        while k < stations.len()
            invariant
                self.wf(),
                k <= stations@.len(),
                self.nodes().len() == old(self).nodes().len() + k,
                old(self).nodes().len() + stations@.len() + 1 < u32::MAX,
                self.edges() == old(self).edges(),
                out@.len() == k,
                forall|x: int| 0 <= x < k ==> (#[trigger] out@[x]) == ((old(self).nodes().len() + x) as usize, stations@[x].0),
            decreases stations@.len() - k,
        {
            let (a, speed, p) = stations[k];
            let n = self.add_station(a, speed, p);
            out.push((n, a));
            k = k + 1;
        }
        out
    }

    /// Adds stations on two-way track; returns each node pair with its address.
    pub fn add_bidirectional_stations(&mut self, stations: &[(Address, Speed, Position)]) -> (r: Vec<((usize, usize), Address)>)
        requires
            old(self).wf(),
            old(self).nodes().len() + 2 * stations@.len() + 2 < u32::MAX,
        ensures
            final(self).wf(),
            final(self).nodes().len() == old(self).nodes().len() + 2 * stations@.len(),
            final(self).edges() == old(self).edges(),
            r@.len() == stations@.len(),
    {
        let mut out: Vec<((usize, usize), Address)> = Vec::new();
        let mut k: usize = 0;
        while k < stations.len()
            invariant
                self.wf(),
                k <= stations@.len(),
                self.nodes().len() == old(self).nodes().len() + 2 * k,
                old(self).nodes().len() + 2 * stations@.len() + 2 < u32::MAX,
                self.edges() == old(self).edges(),
                out@.len() == k,
            decreases stations@.len() - k,
        {
            let (a, speed, p) = stations[k];
            let n = self.add_bidirectional_station(a, speed, p);
            out.push((n, a));
            k = k + 1;
        }
        out
    }

    /// Adds signals, skipping those whose address exists; returns the added ones with their
    /// nodes.
    pub fn add_signals(&mut self, signals: &[(Address, SignalType, Position)]) -> (r: Vec<(Address, usize)>)
        requires
            old(self).wf(),
            old(self).nodes().len() + signals@.len() + 1 < u32::MAX,
        ensures
            final(self).wf(),
            final(self).edges() == old(self).edges(),
            r@.len() <= signals@.len(),
    {
        let mut out: Vec<(Address, usize)> = Vec::new();
        let mut k: usize = 0;
        while k < signals.len()
            invariant
                self.wf(),
                k <= signals@.len(),
                self.nodes().len() <= old(self).nodes().len() + k,
                old(self).nodes().len() + signals@.len() + 1 < u32::MAX,
                self.edges() == old(self).edges(),
                out@.len() <= k,
            decreases signals@.len() - k,
        {
            let (a, t, p) = signals[k];
            if let Some(n) = self.add_signal(a, t, p) {
                out.push((a, n));
            }
            k = k + 1;
        }
        out
    }

    /// Adds one-way switches; returns each node with its address.
    pub fn add_switches(&mut self, switches: &[(Address, Position, SwitchType)]) -> (r: Vec<(usize, Address)>)
        requires
            old(self).wf(),
            old(self).nodes().len() + switches@.len() + 1 < u32::MAX,
        ensures
            final(self).wf(),
            final(self).nodes().len() == old(self).nodes().len() + switches@.len(),
            final(self).edges() == old(self).edges(),
            r@.len() == switches@.len(),
            forall|k: int| 0 <= k < r@.len() ==> (#[trigger] r@[k]) == ((old(self).nodes().len() + k) as usize, switches@[k].0),
    {
        let mut out: Vec<(usize, Address)> = Vec::new();
        let mut k: usize = 0;
        while k < switches.len()
            invariant
                self.wf(),
                k <= switches@.len(),
                self.nodes().len() == old(self).nodes().len() + k,
                old(self).nodes().len() + switches@.len() + 1 < u32::MAX,
                self.edges() == old(self).edges(),
                out@.len() == k,
                forall|x: int| 0 <= x < k ==> (#[trigger] out@[x]) == ((old(self).nodes().len() + x) as usize, switches@[x].0),
            decreases switches@.len() - k,
        {
            let (a, p, t) = switches[k];
            let n = self.add_switch(a, p, t);
            out.push((n, a));
            k = k + 1;
        }
        out
    }

    /// Adds switches on two-way track; returns each node pair with its address.
    pub fn add_bidirectional_switches(&mut self, switches: &[(Address, Position, SwitchType)]) -> (r: Vec<((usize, usize), Address)>)
        requires
            old(self).wf(),
            old(self).nodes().len() + 2 * switches@.len() + 2 < u32::MAX,
        ensures
            final(self).wf(),
            final(self).nodes().len() == old(self).nodes().len() + 2 * switches@.len(),
            final(self).edges() == old(self).edges(),
            r@.len() == switches@.len(),
    {
        let mut out: Vec<((usize, usize), Address)> = Vec::new();
        let mut k: usize = 0;
        while k < switches.len()
            invariant
                self.wf(),
                k <= switches@.len(),
                self.nodes().len() == old(self).nodes().len() + 2 * k,
                old(self).nodes().len() + 2 * switches@.len() + 2 < u32::MAX,
                self.edges() == old(self).edges(),
                out@.len() == k,
            decreases switches@.len() - k,
        {
            let (a, p, t) = switches[k];
            let n = self.add_bidirectional_switch(a, p, t);
            out.push((n, a));
            k = k + 1;
        }
        out
    }

    /// Forgets the sensor `adr`; its nodes stay in the graph and count as unknown.
    pub fn remove_sensor(&mut self, adr: Address)
        requires
            old(self).wf(),
        ensures
            final(self).wf(),
            final(self).nodes() == old(self).nodes(),
            final(self).edges() == old(self).edges(),
            !final(self).sensor_exists(adr),
    {
        if let Some(i) = self.sensor_slot(adr) {
            let ghost before = self.sensors@;
            let _ = self.sensors.remove(i);
            let _ = self.sensor_nodes.remove(i);
            proof {
                assert forall|x: int, y: int| 0 <= x < y < self.sensors@.len() implies
                    (#[trigger] self.sensors@[x]).address_spec() != (#[trigger] self.sensors@[y]).address_spec() by {
                    let xo = if x < i { x } else { x + 1 };
                    let yo = if y < i { y } else { y + 1 };
                    assert(self.sensors@[x] == before[xo] && self.sensors@[y] == before[yo]);
                }
                assert forall|x: int| 0 <= x < self.sensors@.len() implies (#[trigger] self.sensors@[x]).address_spec() != adr by {
                    let xo = if x < i { x } else { x + 1 };
                    assert(self.sensors@[x] == before[xo]);
                }
                assert forall|x: int| 0 <= x < self.sensors@.len() implies (#[trigger] self.sensors@[x]).wf() by {
                    let xo = if x < i { x } else { x + 1 };
                    assert(self.sensors@[x] == before[xo]);
                }
            }
        }
    }

    /// Forgets the switch `adr`; its nodes stay in the graph and count as unknown.
    pub fn remove_switch(&mut self, adr: Address)
        requires
            old(self).wf(),
        ensures
            final(self).wf(),
            final(self).nodes() == old(self).nodes(),
            final(self).edges() == old(self).edges(),
            !final(self).switch_exists(adr),
    {
        if let Some(i) = self.switch_slot(adr) {
            let ghost before = self.switches@;
            let _ = self.switches.remove(i);
            let _ = self.switch_nodes.remove(i);
            proof {
                assert forall|x: int, y: int| 0 <= x < y < self.switches@.len() implies
                    (#[trigger] self.switches@[x]).address_spec() != (#[trigger] self.switches@[y]).address_spec() by {
                    let xo = if x < i { x } else { x + 1 };
                    let yo = if y < i { y } else { y + 1 };
                    assert(self.switches@[x] == before[xo] && self.switches@[y] == before[yo]);
                }
                assert forall|x: int| 0 <= x < self.switches@.len() implies (#[trigger] self.switches@[x]).address_spec() != adr by {
                    let xo = if x < i { x } else { x + 1 };
                    assert(self.switches@[x] == before[xo]);
                }
            }
        }
    }

    /// Freezes the railroad. Switches without a default branch get the first neighbour on their
    /// two-neighbour side, and every signal searches its block, learning its sensors, the other
    /// signals leading into it and its fairness-group leader.
    pub fn build(self) -> (r: Railroad)
        requires
            self.wf(),
        ensures
            r.wf(),
            r.nodes().len() == self.nodes().len(),
            forall|n: int| 0 <= n < self.nodes().len() ==> #[trigger] r.nodes()[n] == switch_default(
                self.nodes(),
                self.edges(),
                n as usize,
            ),
            r.edges() == self.edges(),
            r.signals_spec().len() == self.signals_spec().len(),
            forall|k: int| 0 <= k < self.signals_spec().len() ==> {
                let before = self.signals_spec()[k];
                let after = #[trigger] r.signals_spec()[k];
                &&& after.address_spec() == before.address_spec()
                &&& after.node_spec() == before.node_spec()
                &&& after.sig_type_spec() == before.sig_type_spec()
                &&& after.status_spec() == before.status_spec()
                &&& after.trains_spec() == before.trains_spec()
                &&& after.requesters_spec() == before.requesters_spec()
                &&& crate::block::signal_node(r.nodes(), before.node_spec()) ==> {
                    &&& block_set_up(r.nodes(), r.edges(), self.crossings_spec(), before.node_spec(), after.block_sensors_spec(), after.peers_spec())
                    &&& after.leader_spec() == crate::signal::min_address(seq![before.address_spec()] + after.peers_spec())
                    &&& forall|x: int| 0 <= x < after.peers_spec().len() ==> crate::block::has_signal(r.nodes(), #[trigger] after.peers_spec()[x])
                    &&& forall|x: int| 0 <= x < after.block_sensors_spec().len() ==> crate::block::has_sensor(r.nodes(), #[trigger] after.block_sensors_spec()[x])
                }
            },
    {
        let mut b = self;
        let ghost edges = b.road.edges();
        let ghost orig = b.road.nodes();
        let count = b.road.node_count();
        let mut n: usize = 0;
        while n < count
            invariant
                b.wf(),
                b.road.edges() == edges,
                count == orig.len(),
                b.road.nodes().len() == count,
                n <= count,
                b.signals@ == self.signals@,
                b.crossings@ == self.crossings@,
                forall|m: int| 0 <= m < n ==> #[trigger] b.road.nodes()[m] == switch_default(orig, edges, m as usize),
                forall|m: int| n <= m < count ==> #[trigger] b.road.nodes()[m] == orig[m],
            decreases count - n,
        {
            b.set_first_neighbour_for_switch(n);
            n = n + 1;
        }
        let Builder { road, sensors, sensor_nodes, signals, crossings, switches, switch_nodes, trains } = b;
        let ghost unbuilt = signals@;
        let ghost built_nodes = road.nodes();
        let mut pending = signals;
        let mut done: Vec<Signal> = Vec::new();
        while pending.len() > 0
            invariant
                road.wf(),
                road.nodes() == built_nodes,
                done@.len() + pending@.len() == unbuilt.len(),
                forall|k: int| 0 <= k < done@.len() ==> {
                    let before = unbuilt[k];
                    let after = #[trigger] done@[k];
                    &&& after.address_spec() == before.address_spec()
                    &&& after.node_spec() == before.node_spec()
                    &&& after.sig_type_spec() == before.sig_type_spec()
                    &&& after.status_spec() == before.status_spec()
                    &&& after.trains_spec() == before.trains_spec()
                    &&& after.requesters_spec() == before.requesters_spec()
                    &&& crate::block::signal_node(built_nodes, before.node_spec()) ==> {
                        &&& block_set_up(built_nodes, road.edges(), crossings@, before.node_spec(), after.block_sensors_spec(), after.peers_spec())
                        &&& after.leader_spec() == crate::signal::min_address(seq![before.address_spec()] + after.peers_spec())
                        &&& forall|x: int| 0 <= x < after.peers_spec().len() ==> crate::block::has_signal(built_nodes, #[trigger] after.peers_spec()[x])
                        &&& forall|x: int| 0 <= x < after.block_sensors_spec().len() ==> crate::block::has_sensor(built_nodes, #[trigger] after.block_sensors_spec()[x])
                    }
                },
                forall|k: int| 0 <= k < pending@.len() ==> #[trigger] pending@[k] == unbuilt[done@.len() + k],
            decreases pending@.len(),
        {
            let mut sig = pending.remove(0);
            let node = sig.representing_node();
            if let Some(Node::Signal(..)) = road.node_weight(node) {
                let (peers, found, blk) = crate::block::search_block(&road, &crossings, node);
                assert(crate::block::is_block(road.nodes(), road.edges(), crossings@, node, blk@));
                sig.set_block(peers, found);
            }
            let ghost before_push = done@;
            done.push(sig);
            proof {
                assert forall|k: int| 0 <= k < before_push.len() implies #[trigger] done@[k] == before_push[k] by {}
            }
        }
        assert forall|i: int, j: int| 0 <= i < j < done@.len() implies
            (#[trigger] done@[i]).address_spec() != (#[trigger] done@[j]).address_spec() by {
            assert(done@[i].address_spec() == unbuilt[i].address_spec());
            assert(done@[j].address_spec() == unbuilt[j].address_spec());
        }
        Railroad::from_parts(road, sensors, sensor_nodes, done, crossings, switches, switch_nodes, trains)
    }
}

impl Default for Builder {
    fn default() -> (r: Builder)
        ensures
            r.wf(),
            r.nodes().len() == 0,
            r.edges().len() == 0,
    {
        Builder::new()
    }
}

} // verus!
