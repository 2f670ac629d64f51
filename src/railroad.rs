//! The built railroad: the frozen track graph with the state of every element and train, and
//! the interlocking and train-control decisions made on it. Each operation returns the
//! messages it publishes on the event bus.
use vstd::prelude::*;
use crate::block::{sensor_address, signal_address};
use crate::builder::degrees_ok;
use crate::messages::Message;
use crate::sensor::Sensor;
use crate::signal::{Signal, SignalType};
use crate::speed::Address;
use crate::status::{SLevel, Status};
use crate::switch::{Cross, SwDir, Switch};
use crate::geometry::{manhattan, rail_manhattan, Coord, Position, Rail};
use crate::speed::{between, ramp_step_spec, Speed};
use crate::topology::{admissible, reachable, walk_cost, reverse_bfs_order, astar_route, cost_sum, is_walk, lemma_cost_sum_prefix, node_position, Node, RoadGraph};
use crate::train::Train;

verus! {

/// The first position in `sensors` of the sensor with address `a`.
pub open spec fn sensor_index(sensors: Seq<Sensor>, a: Address) -> Option<int>
    decreases sensors.len(),
{
    if sensors.len() == 0 {
        None
    } else if sensors[0].address_spec() == a {
        Some(0)
    } else {
        match sensor_index(sensors.drop_first(), a) {
            Some(k) => Some(k + 1),
            None => None,
        }
    }
}

/// A sensor index found in a suffix is found, shifted, in the whole sequence, when the
/// prefix holds no sensor with that address.
proof fn lemma_sensor_index_none(sensors: Seq<Sensor>, a: Address)
    requires
        forall|k: int| 0 <= k < sensors.len() ==> (#[trigger] sensors[k]).address_spec() != a,
    ensures
        sensor_index(sensors, a).is_none(),
    decreases sensors.len(),
{
    if sensors.len() > 0 {
        assert forall|k: int| 0 <= k < sensors.drop_first().len() implies (#[trigger] sensors.drop_first()[k]).address_spec() != a by {
            assert(sensors.drop_first()[k] == sensors[k + 1]);
        }
        lemma_sensor_index_none(sensors.drop_first(), a);
    }
}

proof fn lemma_sensor_index_at(sensors: Seq<Sensor>, a: Address, i: int)
    requires
        0 <= i < sensors.len(),
        sensors[i].address_spec() == a,
        forall|k: int| 0 <= k < i ==> (#[trigger] sensors[k]).address_spec() != a,
    ensures
        sensor_index(sensors, a) == Some(i),
    decreases i,
{
    if i > 0 {
        assert forall|k: int| 0 <= k < i - 1 implies (#[trigger] sensors.drop_first()[k]).address_spec() != a by {
            assert(sensors.drop_first()[k] == sensors[k + 1]);
        }
        lemma_sensor_index_at(sensors.drop_first(), a, i - 1);
    }
}

/// A found sensor index is in range and names a sensor with that address.
proof fn lemma_sensor_index_valid(s: Seq<Sensor>, a: Address)
    ensures
        sensor_index(s, a) matches Some(i) ==> 0 <= i < s.len() && s[i].address_spec() == a,
    decreases s.len(),
{
    if s.len() > 0 && s[0].address_spec() != a {
        lemma_sensor_index_valid(s.drop_first(), a);
    }
}

/// `sensor_index` looks at addresses only.
proof fn lemma_sensor_index_addresses(a: Seq<Sensor>, b: Seq<Sensor>, x: Address)
    requires
        a.len() == b.len(),
        forall|j: int| 0 <= j < a.len() ==> (#[trigger] a[j]).address_spec() == b[j].address_spec(),
    ensures
        sensor_index(a, x) == sensor_index(b, x),
    decreases a.len(),
{
    if a.len() > 0 {
        assert forall|j: int| 0 <= j < a.drop_first().len() implies (#[trigger] a.drop_first()[j]).address_spec()
            == b.drop_first()[j].address_spec() by {
            assert(a.drop_first()[j] == a[j + 1] && b.drop_first()[j] == b[j + 1]);
        }
        lemma_sensor_index_addresses(a.drop_first(), b.drop_first(), x);
    }
}

/// Whether every known sensor among `addrs` that was free of trains or held by `t` in
/// `before` is held by `t` in `after`.
pub open spec fn held_for(before: Seq<Sensor>, after: Seq<Sensor>, addrs: Seq<Address>, t: Address) -> bool {
    forall|x: int| 0 <= x < addrs.len() ==> match #[trigger] sensor_index(before, addrs[x]) {
        Some(i) => (before[i].train_spec().is_none() || before[i].train_spec() == Some(t)) ==> after[i].train_spec() == Some(t),
        None => true,
    }
}

/// The first position in `trains` of the train with address `a`.
pub open spec fn train_index(trains: Seq<Train>, a: Address) -> Option<int>
    decreases trains.len(),
{
    if trains.len() == 0 {
        None
    } else if trains[0].address_spec() == a {
        Some(0)
    } else {
        match train_index(trains.drop_first(), a) {
            Some(k) => Some(k + 1),
            None => None,
        }
    }
}

proof fn lemma_train_index_none(trains: Seq<Train>, a: Address)
    requires
        forall|k: int| 0 <= k < trains.len() ==> (#[trigger] trains[k]).address_spec() != a,
    ensures
        train_index(trains, a).is_none(),
    decreases trains.len(),
{
    if trains.len() > 0 {
        assert forall|k: int| 0 <= k < trains.drop_first().len() implies (#[trigger] trains.drop_first()[k]).address_spec() != a by {
            assert(trains.drop_first()[k] == trains[k + 1]);
        }
        lemma_train_index_none(trains.drop_first(), a);
    }
}

proof fn lemma_train_index_at(trains: Seq<Train>, a: Address, i: int)
    requires
        0 <= i < trains.len(),
        trains[i].address_spec() == a,
        forall|k: int| 0 <= k < i ==> (#[trigger] trains[k]).address_spec() != a,
    ensures
        train_index(trains, a) == Some(i),
    decreases i,
{
    if i > 0 {
        assert forall|k: int| 0 <= k < i - 1 implies (#[trigger] trains.drop_first()[k]).address_spec() != a by {
            assert(trains.drop_first()[k] == trains[k + 1]);
        }
        lemma_train_index_at(trains.drop_first(), a, i - 1);
    }
}

/// The first position in `signals` of the signal with address `a`.
pub open spec fn signal_index(signals: Seq<Signal>, a: Address) -> Option<int>
    decreases signals.len(),
{
    if signals.len() == 0 {
        None
    } else if signals[0].address_spec() == a {
        Some(0)
    } else {
        match signal_index(signals.drop_first(), a) {
            Some(k) => Some(k + 1),
            None => None,
        }
    }
}

proof fn lemma_signal_index_none(signals: Seq<Signal>, a: Address)
    requires
        forall|k: int| 0 <= k < signals.len() ==> (#[trigger] signals[k]).address_spec() != a,
    ensures
        signal_index(signals, a).is_none(),
    decreases signals.len(),
{
    if signals.len() > 0 {
        assert forall|k: int| 0 <= k < signals.drop_first().len() implies (#[trigger] signals.drop_first()[k]).address_spec() != a by {
            assert(signals.drop_first()[k] == signals[k + 1]);
        }
        lemma_signal_index_none(signals.drop_first(), a);
    }
}

proof fn lemma_signal_index_at(signals: Seq<Signal>, a: Address, i: int)
    requires
        0 <= i < signals.len(),
        signals[i].address_spec() == a,
        forall|k: int| 0 <= k < i ==> (#[trigger] signals[k]).address_spec() != a,
    ensures
        signal_index(signals, a) == Some(i),
    decreases i,
{
    if i > 0 {
        assert forall|k: int| 0 <= k < i - 1 implies (#[trigger] signals.drop_first()[k]).address_spec() != a by {
            assert(signals.drop_first()[k] == signals[k + 1]);
        }
        lemma_signal_index_at(signals.drop_first(), a, i - 1);
    }
}

/// The first position in `switches` of the switch with address `a`.
pub open spec fn switch_index(switches: Seq<Switch>, a: Address) -> Option<int>
    decreases switches.len(),
{
    if switches.len() == 0 {
        None
    } else if switches[0].address_spec() == a {
        Some(0)
    } else {
        match switch_index(switches.drop_first(), a) {
            Some(k) => Some(k + 1),
            None => None,
        }
    }
}

proof fn lemma_switch_index_none(switches: Seq<Switch>, a: Address)
    requires
        forall|k: int| 0 <= k < switches.len() ==> (#[trigger] switches[k]).address_spec() != a,
    ensures
        switch_index(switches, a).is_none(),
    decreases switches.len(),
{
    if switches.len() > 0 {
        assert forall|k: int| 0 <= k < switches.drop_first().len() implies (#[trigger] switches.drop_first()[k]).address_spec() != a by {
            assert(switches.drop_first()[k] == switches[k + 1]);
        }
        lemma_switch_index_none(switches.drop_first(), a);
    }
}

proof fn lemma_switch_index_at(switches: Seq<Switch>, a: Address, i: int)
    requires
        0 <= i < switches.len(),
        switches[i].address_spec() == a,
        forall|k: int| 0 <= k < i ==> (#[trigger] switches[k]).address_spec() != a,
    ensures
        switch_index(switches, a) == Some(i),
    decreases i,
{
    if i > 0 {
        assert forall|k: int| 0 <= k < i - 1 implies (#[trigger] switches.drop_first()[k]).address_spec() != a by {
            assert(switches.drop_first()[k] == switches[k + 1]);
        }
        lemma_switch_index_at(switches.drop_first(), a, i - 1);
    }
}

/// The status of the first signal in `signals` with address `a`.
pub open spec fn signal_status_of(signals: Seq<Signal>, a: Address) -> Option<Status>
    decreases signals.len(),
{
    if signals.len() == 0 {
        None
    } else if signals[0].address_spec() == a {
        Some(signals[0].status_spec())
    } else {
        signal_status_of(signals.drop_first(), a)
    }
}

/// Whether a sensor lets a block be granted to `train`: it is `Free` or `PathFree`, or it is
/// held by that train already. A train placed on a sensor holds it (`create_train`), and
/// `reset_position` asks for the block it stands in; refusing the train its own sensor would
/// leave that block, and the train, stuck for good.
pub open spec fn grantable(s: Sensor, train: Address) -> bool {
    s.status_spec() == Status::Free || s.status_spec() == Status::PathFree || s.train_spec() == Some(train)
}

/// Whether every known sensor among `addrs` lets the block be granted to `train`; unknown
/// addresses do not count.
pub open spec fn block_free(sensors: Seq<Sensor>, addrs: Seq<Address>, train: Address) -> bool {
    forall|k: int| 0 <= k < addrs.len() ==> match #[trigger] sensor_index(sensors, addrs[k]) {
        Some(i) => grantable(sensors[i], train),
        None => true,
    }
}

/// Whether the road `seg` is free: walking it, the first known signal decides (it must be
/// `Free`, unless signals are ignored); before it, every known sensor or station must be
/// `Free`. Unknown elements and other nodes do not count.
pub open spec fn path_free(seg: Seq<usize>, nodes: Seq<Node>, sensors: Seq<Sensor>, signals: Seq<Signal>, ignore_signal: bool) -> bool
    decreases seg.len(),
{
    if seg.len() == 0 {
        true
    } else {
        let rest = path_free(seg.drop_first(), nodes, sensors, signals, ignore_signal);
        if seg[0] < nodes.len() {
            match nodes[seg[0] as int] {
                Node::Signal(a, _) => match signal_status_of(signals, a) {
                    Some(st) => st == Status::Free || ignore_signal,
                    None => rest,
                },
                Node::Sensor(a, _) | Node::Station(a, _) => match sensor_index(sensors, a) {
                    Some(i) => sensors[i].status_spec() == Status::Free && rest,
                    None => rest,
                },
                _ => rest,
            }
        } else {
            rest
        }
    }
}

/// The addresses of the sensors and stations of `seg`, in order.
pub open spec fn road_sensors(seg: Seq<usize>, nodes: Seq<Node>) -> Seq<Address>
    decreases seg.len(),
{
    if seg.len() == 0 {
        seq![]
    } else {
        let rest = road_sensors(seg.drop_first(), nodes);
        if seg[0] < nodes.len() {
            match sensor_address(nodes[seg[0] as int]) {
                Some(a) => seq![a] + rest,
                None => rest,
            }
        } else {
            rest
        }
    }
}

/// The summed grid distance of a list of rails.
pub open spec fn rails_cost(rails: Seq<Rail>) -> int
    decreases rails.len(),
{
    if rails.len() == 0 { 0 } else { rails_cost(rails.drop_last()) + rail_manhattan(rails.last()) }
}

proof fn lemma_rails_cost_prefix(rails: Seq<Rail>, k: int)
    requires
        0 <= k <= rails.len(),
    ensures
        rails_cost(rails.subrange(0, k)) <= rails_cost(rails),
    decreases rails.len() - k,
{
    if k < rails.len() {
        assert(rails.subrange(0, k + 1).drop_last() =~= rails.subrange(0, k));
        lemma_rails_cost_prefix(rails, k + 1);
    } else {
        assert(rails.subrange(0, k) =~= rails);
    }
}

/// The position of the first crossing in `crossings` with address `a`, at the origin when
/// there is none.
pub open spec fn crossing_coord(crossings: Seq<Cross>, a: Address) -> Coord
    decreases crossings.len(),
{
    if crossings.len() == 0 {
        Coord(0, 0, 0)
    } else if crossings[0].address == a {
        crossings[0].pos.coord
    } else {
        crossing_coord(crossings.drop_first(), a)
    }
}

/// The total grid distance of a list of rails, or `None` when it exceeds `usize`.
pub fn rails_cost_checked(rails: &Vec<Rail>) -> (r: Option<usize>)
    ensures
        match r {
            Some(v) => v as int == rails_cost(rails@),
            None => rails_cost(rails@) > usize::MAX,
        },
{
    let mut total: usize = 0;
    let mut k: usize = 0;
    while k < rails.len()
        invariant
            k <= rails@.len(),
            total == rails_cost(rails@.subrange(0, k as int)),
        decreases rails@.len() - k,
    {
        assert(rails@.subrange(0, k + 1).drop_last() =~= rails@.subrange(0, k as int));
        let step: usize = if rails[k].length == usize::MAX {
            proof {
                lemma_rails_cost_prefix(rails@, k + 1);
            }
            return None;
        } else if rails[k].pos.dir == crate::geometry::Direction::Northeast
            || rails[k].pos.dir == crate::geometry::Direction::Southeast
            || rails[k].pos.dir == crate::geometry::Direction::Southwest
            || rails[k].pos.dir == crate::geometry::Direction::Northwest {
            match (rails[k].length + 1).checked_mul(2) {
                Some(v) => v,
                None => {
                    proof {
                        lemma_rails_cost_prefix(rails@, k + 1);
                    }
                    return None;
                },
            }
        } else {
            rails[k].length + 1
        };
        match total.checked_add(step) {
            Some(t) => total = t,
            None => {
                proof {
                    lemma_rails_cost_prefix(rails@, k + 1);
                }
                return None;
            },
        }
        k = k + 1;
    }
    assert(rails@.subrange(0, k as int) =~= rails@);
    Some(total)
}

/// The first node of `order` that is a signal of `nodes`.
pub open spec fn first_signal_node(order: Seq<usize>, nodes: Seq<Node>) -> Option<usize>
    decreases order.len(),
{
    if order.len() == 0 {
        None
    } else if order[0] < nodes.len() && nodes[order[0] as int] is Signal {
        Some(order[0])
    } else {
        first_signal_node(order.drop_first(), nodes)
    }
}

/// Whether none of the known signals among `peers` holds a grant.
pub open spec fn peers_idle(signals: Seq<Signal>, peers: Seq<Address>) -> bool {
    forall|x: int| 0 <= x < peers.len() ==> match #[trigger] signal_index(signals, peers[x]) {
        Some(j) => signals[j].trains_spec().len() == 0,
        None => true,
    }
}

/// Two signal lists that agree on the address, status and granted trains of every signal.
pub open spec fn same_signal_view(a: Seq<Signal>, b: Seq<Signal>) -> bool {
    &&& a.len() == b.len()
    &&& forall|i: int| 0 <= i < a.len() ==> (#[trigger] a[i]).address_spec() == b[i].address_spec()
        && a[i].status_spec() == b[i].status_spec() && a[i].trains_spec() == b[i].trains_spec()
}

proof fn lemma_same_signal_view(a: Seq<Signal>, b: Seq<Signal>, x: Address)
    requires
        same_signal_view(a, b),
    ensures
        signal_index(a, x) == signal_index(b, x),
        signal_status_of(a, x) == signal_status_of(b, x),
    decreases a.len(),
{
    if a.len() > 0 {
        assert(same_signal_view(a.drop_first(), b.drop_first())) by {
            assert forall|i: int| 0 <= i < a.drop_first().len() implies (#[trigger] a.drop_first()[i]).address_spec()
                == b.drop_first()[i].address_spec() && a.drop_first()[i].status_spec() == b.drop_first()[i].status_spec()
                && a.drop_first()[i].trains_spec() == b.drop_first()[i].trains_spec() by {
                assert(a.drop_first()[i] == a[i + 1] && b.drop_first()[i] == b[i + 1]);
            }
        }
        lemma_same_signal_view(a.drop_first(), b.drop_first(), x);
    }
}

proof fn lemma_path_free_view(seg: Seq<usize>, nodes: Seq<Node>, sensors: Seq<Sensor>, a: Seq<Signal>, b: Seq<Signal>, ignore: bool)
    requires
        same_signal_view(a, b),
    ensures
        path_free(seg, nodes, sensors, a, ignore) == path_free(seg, nodes, sensors, b, ignore),
    decreases seg.len(),
{
    if seg.len() > 0 {
        lemma_path_free_view(seg.drop_first(), nodes, sensors, a, b, ignore);
        if seg[0] < nodes.len() {
            if let Node::Signal(x, _) = nodes[seg[0] as int] {
                lemma_same_signal_view(a, b, x);
            }
        }
    }
}

proof fn lemma_peers_idle_view(a: Seq<Signal>, b: Seq<Signal>, peers: Seq<Address>)
    requires
        same_signal_view(a, b),
    ensures
        peers_idle(a, peers) == peers_idle(b, peers),
{
    assert forall|x: int| 0 <= x < peers.len() implies signal_index(a, peers[x]) == signal_index(b, peers[x]) by {
        lemma_same_signal_view(a, b, peers[x]);
    }
    assert forall|x: int| 0 <= x < peers.len() implies (match #[trigger] signal_index(a, peers[x]) {
        Some(j) => a[j].trains_spec().len() == 0,
        None => true,
    }) == (match signal_index(b, peers[x]) {
        Some(j) => b[j].trains_spec().len() == 0,
        None => true,
    }) by {
        lemma_same_signal_view(a, b, peers[x]);
        lemma_signal_index_valid(a, peers[x]);
    }
}

proof fn lemma_signal_index_valid(s: Seq<Signal>, a: Address)
    ensures
        signal_index(s, a) matches Some(i) ==> 0 <= i < s.len() && s[i].address_spec() == a,
    decreases s.len(),
{
    if s.len() > 0 && s[0].address_spec() != a {
        lemma_signal_index_valid(s.drop_first(), a);
    }
}

/// Whether two trains agree in everything but possibly their position and route.
pub open spec fn same_train_but_route(a: Train, b: Train) -> bool {
    &&& a.address_spec() == b.address_spec()
    &&& a.ramp_spec() == b.ramp_spec()
    &&& a.speed_spec() == b.speed_spec()
    &&& a.live_speed_spec() == b.live_speed_spec()
}

/// Whether two train lists agree on every train's state.
pub open spec fn trains_agree(a: Seq<Train>, b: Seq<Train>) -> bool {
    &&& a.len() == b.len()
    &&& forall|j: int| 0 <= j < a.len() ==> same_train_but_route(#[trigger] a[j], b[j])
        && a[j].position_spec() == b[j].position_spec() && a[j].route_spec() == b[j].route_spec()
}

/// The signal that a train with route `q` asks for next (see `Train::request_next_block`): the
/// first signal not granted yet, when fewer than `LOOKAHEAD` granted ones lie before it.
pub open spec fn lookahead_signal(q: Seq<(usize, bool)>, nodes: Seq<Node>) -> Option<Address> {
    let (count, next) = crate::train::lookahead_scan(q, nodes);
    if q.len() > 0 && count < crate::train::LOOKAHEAD {
        match next {
            Some(n) => if n < nodes.len() {
                match nodes[n as int] {
                    Node::Signal(a, _) => Some(a),
                    _ => None,
                }
            } else {
                None
            },
            None => None,
        }
    } else {
        None
    }
}

/// Whether node `n` is the sensor or station `adr` at `pos`.
pub open spec fn sensor_node_at(nodes: Seq<Node>, adr: Address, pos: Position, n: int) -> bool {
    0 <= n < nodes.len() && (nodes[n] == Node::Sensor(adr, pos) || nodes[n] == Node::Station(adr, pos))
}

/// Whether node `n` is the switch `adr` at `pos`.
pub open spec fn switch_node_at(nodes: Seq<Node>, adr: Address, pos: Position, n: int) -> bool {
    0 <= n < nodes.len() && (nodes[n] matches Node::Switch(a, p, ..) && a == adr && p == pos)
}

/// The speed a `TrainSpeed` message sends, `Stop` for any other message.
pub open spec fn speed_sent(m: Message) -> Speed {
    match m {
        Message::TrainSpeed(_, s) => s,
        _ => Speed::Stop,
    }
}

proof fn lemma_first_signal_node(order: Seq<usize>, nodes: Seq<Node>)
    ensures
        first_signal_node(order, nodes) matches Some(n) ==> n < nodes.len() && nodes[n as int] is Signal,
    decreases order.len(),
{
    if order.len() > 0 {
        lemma_first_signal_node(order.drop_first(), nodes);
    }
}

/// The messages of `msgs`, one list after another.
pub open spec fn concat(msgs: Seq<Seq<Message>>) -> Seq<Message>
    decreases msgs.len(),
{
    if msgs.len() == 0 { seq![] } else { concat(msgs.drop_last()) + msgs.last() }
}

/// Whether some known sensor among `addrs` is held by `train`.
pub open spec fn holds_some(sensors: Seq<Sensor>, addrs: Seq<Address>, train: Address) -> bool {
    exists|k: int| 0 <= k < addrs.len() && match #[trigger] sensor_index(sensors, addrs[k]) {
        Some(i) => sensors[i].train_spec() == Some(train),
        None => false,
    }
}

/// Whether the signal `s` lets go of `train` once the sensor `sensor` was freed: the train
/// waits for or holds its block, the block contains the sensor, and the train holds none of
/// the block's sensors any more.
pub open spec fn releases(s: Signal, sensors: Seq<Sensor>, sensor: Address, train: Address) -> bool {
    &&& (s.requesters_spec().contains(train) || s.trains_spec().contains(train))
    &&& s.block_sensors_spec().contains(sensor)
    &&& !holds_some(sensors, s.block_sensors_spec(), train)
}

/// `after` is `before` with `train` taken off the granted trains (see `Signal::release_train`).
pub open spec fn released(before: Signal, after: Signal, train: Address) -> bool {
    &&& after.trains_spec() == crate::signal::without(before.trains_spec(), train)
    &&& after.status_spec() == (if after.trains_spec().len() == 0 { Status::Free } else { before.status_spec() })
    &&& after.requesters_spec() == before.requesters_spec()
    &&& after.address_spec() == before.address_spec()
    &&& after.node_spec() == before.node_spec()
    &&& after.sig_type_spec() == before.sig_type_spec()
    &&& after.block_sensors_spec() == before.block_sensors_spec()
    &&& after.peers_spec() == before.peers_spec()
    &&& after.leader_spec() == before.leader_spec()
}

/// A railroad whose topology is frozen.
pub struct Railroad {
    pub(crate) road: RoadGraph,
    pub(crate) sensors: Vec<Sensor>,
    pub(crate) sensor_nodes: Vec<Vec<usize>>,
    pub(crate) signals: Vec<Signal>,
    pub(crate) crossings: Vec<Cross>,
    pub(crate) switches: Vec<Switch>,
    pub(crate) switch_nodes: Vec<Vec<usize>>,
    pub(crate) trains: Vec<Train>,
}

impl Railroad {
    /// Assembles a railroad from the parts of a builder.
    pub(crate) fn from_parts(
        road: RoadGraph,
        sensors: Vec<Sensor>,
        sensor_nodes: Vec<Vec<usize>>,
        signals: Vec<Signal>,
        crossings: Vec<Cross>,
        switches: Vec<Switch>,
        switch_nodes: Vec<Vec<usize>>,
        trains: Vec<Train>,
    ) -> (r: Railroad)
        requires
            road.wf(),
            degrees_ok(road.nodes(), road.edges()),
            sensors@.len() == sensor_nodes@.len(),
            switches@.len() == switch_nodes@.len(),
            forall|i: int| 0 <= i < sensors@.len() ==> (#[trigger] sensors@[i]).wf(),
            forall|i: int, j: int| 0 <= i < j < sensors@.len()
                ==> (#[trigger] sensors@[i]).address_spec() != (#[trigger] sensors@[j]).address_spec(),
            forall|i: int, j: int| 0 <= i < j < signals@.len()
                ==> (#[trigger] signals@[i]).address_spec() != (#[trigger] signals@[j]).address_spec(),
            forall|i: int, j: int| 0 <= i < j < switches@.len()
                ==> (#[trigger] switches@[i]).address_spec() != (#[trigger] switches@[j]).address_spec(),
            forall|i: int, j: int| 0 <= i < j < trains@.len()
                ==> (#[trigger] trains@[i]).address_spec() != (#[trigger] trains@[j]).address_spec(),
            forall|i: int, j: int| 0 <= i < j < crossings@.len()
                ==> (#[trigger] crossings@[i]).address != (#[trigger] crossings@[j]).address,
        ensures
            r.wf(),
            r.nodes() == road.nodes(),
            r.edges() == road.edges(),
            r.signals_spec() == signals@,
    {
        Railroad { road, sensors, sensor_nodes, signals, crossings, switches, switch_nodes, trains }
    }

    /// Takes the railroad apart into a builder; trains keep address and position only.
    pub(crate) fn into_builder(self) -> (r: crate::builder::Builder)
        requires
            self.wf(),
        ensures
            r.wf(),
            r.nodes() == self.nodes(),
            r.edges() == self.edges(),
    {
        let Railroad { road, sensors, sensor_nodes, signals, crossings, switches, switch_nodes, trains } = self;
        let mut fresh: Vec<Train> = Vec::new();
        let mut i: usize = 0;
        while i < trains.len()
            invariant
                i <= trains@.len(),
                fresh@.len() == i,
                forall|k: int| 0 <= k < i ==> (#[trigger] fresh@[k]).address_spec() == trains@[k].address_spec(),
            decreases trains@.len() - i,
        {
            fresh.push(Train::new(trains[i].address(), trains[i].position()));
            i = i + 1;
        }
        assert forall|x: int, y: int| 0 <= x < y < fresh@.len() implies
            (#[trigger] fresh@[x]).address_spec() != (#[trigger] fresh@[y]).address_spec() by {
            assert(fresh@[x].address_spec() == trains@[x].address_spec());
            assert(fresh@[y].address_spec() == trains@[y].address_spec());
        }
        crate::builder::Builder::from_parts(road, sensors, sensor_nodes, signals, crossings, switches, switch_nodes, fresh)
    }

    /// The graph is well formed and keeps the neighbour limits, sensors are consistent, and no
    /// two elements of one kind share an address.
    pub closed spec fn wf(&self) -> bool {
        &&& self.road.wf()
        &&& degrees_ok(self.road.nodes(), self.road.edges())
        &&& self.sensors@.len() == self.sensor_nodes@.len()
        &&& self.switches@.len() == self.switch_nodes@.len()
        &&& forall|i: int| 0 <= i < self.sensors@.len() ==> (#[trigger] self.sensors@[i]).wf()
        &&& forall|i: int, j: int| 0 <= i < j < self.sensors@.len()
            ==> (#[trigger] self.sensors@[i]).address_spec() != (#[trigger] self.sensors@[j]).address_spec()
        &&& forall|i: int, j: int| 0 <= i < j < self.signals@.len()
            ==> (#[trigger] self.signals@[i]).address_spec() != (#[trigger] self.signals@[j]).address_spec()
        &&& forall|i: int, j: int| 0 <= i < j < self.switches@.len()
            ==> (#[trigger] self.switches@[i]).address_spec() != (#[trigger] self.switches@[j]).address_spec()
        &&& forall|i: int, j: int| 0 <= i < j < self.trains@.len()
            ==> (#[trigger] self.trains@[i]).address_spec() != (#[trigger] self.trains@[j]).address_spec()
        &&& forall|i: int, j: int| 0 <= i < j < self.crossings@.len()
            ==> (#[trigger] self.crossings@[i]).address != (#[trigger] self.crossings@[j]).address
    }

    /// The node weights of the graph.
    pub closed spec fn nodes(&self) -> Seq<Node> {
        self.road.nodes()
    }

    /// The edges of the graph.
    pub closed spec fn edges(&self) -> Seq<(usize, usize)> {
        self.road.edges()
    }

    /// The sensors, one per address.
    pub closed spec fn sensors_spec(&self) -> Seq<Sensor> {
        self.sensors@
    }

    /// The signals, one per address.
    pub closed spec fn signals_spec(&self) -> Seq<Signal> {
        self.signals@
    }

    /// The switches, one per address.
    pub closed spec fn switches_spec(&self) -> Seq<Switch> {
        self.switches@
    }

    /// The trains, one per address.
    pub closed spec fn trains_spec(&self) -> Seq<Train> {
        self.trains@
    }

    /// The number of nodes.
    pub fn node_count(&self) -> (r: usize)
        ensures
            r == self.nodes().len(),
    {
        self.road.node_count()
    }

    /// The weight of node `i`.
    pub fn node(&self, i: usize) -> (r: Option<Node>)
        ensures
            r == (if i < self.nodes().len() { Some(self.nodes()[i as int]) } else { None }),
    {
        self.road.node_weight(i)
    }

    /// The track graph.
    pub fn road(&self) -> (r: &RoadGraph)
        ensures
            r.nodes() == self.nodes(),
            r.edges() == self.edges(),
    {
        &self.road
    }

    /// The position in the sensor list of the sensor `a`.
    pub(crate) fn sensor_slot(&self, a: Address) -> (r: Option<usize>)
        requires
            self.wf(),
        ensures
            match r {
                Some(i) => i < self.sensors_spec().len() && self.sensors_spec()[i as int].address_spec() == a
                    && sensor_index(self.sensors_spec(), a) == Some(i as int),
                None => sensor_index(self.sensors_spec(), a).is_none(),
            },
    {
        let mut i: usize = 0;
        while i < self.sensors.len()
            invariant
                i <= self.sensors_spec().len(),
                forall|k: int| 0 <= k < i ==> (#[trigger] self.sensors_spec()[k]).address_spec() != a,
            decreases self.sensors_spec().len() - i,
        {
            if self.sensors[i].address() == a {
                proof {
                    lemma_sensor_index_at(self.sensors@, a, i as int);
                }
                return Some(i);
            }
            i = i + 1;
        }
        proof {
            lemma_sensor_index_none(self.sensors@, a);
        }
        None
    }

    /// The sensor with address `a`.
    pub fn sensor(&self, a: Address) -> (r: Option<Sensor>)
        requires
            self.wf(),
        ensures
            r == (match sensor_index(self.sensors_spec(), a) {
                Some(i) => Some(self.sensors_spec()[i]),
                None => None,
            }),
    {
        match self.sensor_slot(a) {
            Some(i) => Some(self.sensors[i]),
            None => None,
        }
    }

    /// The position in the signal list of the signal `a`.
    pub(crate) fn signal_slot(&self, a: Address) -> (r: Option<usize>)
        ensures
            match r {
                Some(i) => i < self.signals_spec().len() && self.signals_spec()[i as int].address_spec() == a
                    && signal_index(self.signals@, a) == Some(i as int),
                None => forall|k: int| 0 <= k < self.signals_spec().len() ==> (#[trigger] self.signals_spec()[k]).address_spec() != a,
            },
            r.is_none() == signal_index(self.signals@, a).is_none(),
    {
        let mut i: usize = 0;
        while i < self.signals.len()
            invariant
                i <= self.signals_spec().len(),
                forall|k: int| 0 <= k < i ==> (#[trigger] self.signals_spec()[k]).address_spec() != a,
            decreases self.signals_spec().len() - i,
        {
            if self.signals[i].address() == a {
                proof {
                    lemma_signal_index_at(self.signals@, a, i as int);
                }
                return Some(i);
            }
            i = i + 1;
        }
        proof {
            lemma_signal_index_none(self.signals@, a);
        }
        None
    }

    /// The signal with address `a`.
    pub fn signal(&self, a: Address) -> (r: Option<&Signal>)
        ensures
            r.is_some() == signal_index(self.signals_spec(), a).is_some(),
            r matches Some(sig) ==> *sig == self.signals_spec()[signal_index(self.signals_spec(), a).unwrap()],
    {
        match self.signal_slot(a) {
            Some(i) => Some(&self.signals[i]),
            None => None,
        }
    }

    /// The position in the switch list of the switch `a`.
    pub(crate) fn switch_slot(&self, a: Address) -> (r: Option<usize>)
        ensures
            match r {
                Some(i) => i < self.switches_spec().len() && self.switches_spec()[i as int].address_spec() == a
                    && switch_index(self.switches@, a) == Some(i as int),
                None => forall|k: int| 0 <= k < self.switches_spec().len() ==> (#[trigger] self.switches_spec()[k]).address_spec() != a,
            },
            r.is_none() == switch_index(self.switches@, a).is_none(),
    {
        let mut i: usize = 0;
        while i < self.switches.len()
            invariant
                i <= self.switches_spec().len(),
                forall|k: int| 0 <= k < i ==> (#[trigger] self.switches_spec()[k]).address_spec() != a,
            decreases self.switches_spec().len() - i,
        {
            if self.switches[i].address() == a {
                proof {
                    lemma_switch_index_at(self.switches@, a, i as int);
                }
                return Some(i);
            }
            i = i + 1;
        }
        proof {
            lemma_switch_index_none(self.switches@, a);
        }
        None
    }

    /// The switch with address `a`.
    pub fn switch(&self, a: Address) -> (r: Option<Switch>)
        ensures
            r == (match switch_index(self.switches_spec(), a) {
                Some(i) => Some(self.switches_spec()[i]),
                None => None,
            }),
    {
        match self.switch_slot(a) {
            Some(i) => Some(self.switches[i]),
            None => None,
        }
    }

    /// The position in the train list of the train `a`.
    pub(crate) fn train_slot(&self, a: Address) -> (r: Option<usize>)
        ensures
            match r {
                Some(i) => i < self.trains_spec().len() && self.trains_spec()[i as int].address_spec() == a
                    && train_index(self.trains@, a) == Some(i as int),
                None => forall|k: int| 0 <= k < self.trains_spec().len() ==> (#[trigger] self.trains_spec()[k]).address_spec() != a,
            },
            r.is_none() == train_index(self.trains@, a).is_none(),
    {
        let mut i: usize = 0;
        while i < self.trains.len()
            invariant
                i <= self.trains_spec().len(),
                forall|k: int| 0 <= k < i ==> (#[trigger] self.trains_spec()[k]).address_spec() != a,
            decreases self.trains_spec().len() - i,
        {
            if self.trains[i].address() == a {
                proof {
                    lemma_train_index_at(self.trains@, a, i as int);
                }
                return Some(i);
            }
            i = i + 1;
        }
        proof {
            lemma_train_index_none(self.trains@, a);
        }
        None
    }

    /// The train with address `a`.
    pub fn get_train(&self, a: Address) -> (r: Option<&Train>)
        ensures
            r.is_some() == train_index(self.trains_spec(), a).is_some(),
            r matches Some(t) ==> *t == self.trains_spec()[train_index(self.trains_spec(), a).unwrap()],
    {
        match self.train_slot(a) {
            Some(i) => Some(&self.trains[i]),
            None => None,
        }
    }

    /// Places a new train on the sensor or station node `position`. It fails, changing
    /// nothing, when a train with that address exists, when the node is no sensor or station
    /// of a known sensor, or when the sensor holds another train.
    pub fn create_train(&mut self, address: Address, position: usize) -> (r: bool)
        requires
            old(self).wf(),
        ensures
            final(self).wf(),
            final(self).nodes() == old(self).nodes(),
            final(self).edges() == old(self).edges(),
            r == ({
                &&& forall|k: int| 0 <= k < old(self).trains_spec().len() ==> (#[trigger] old(self).trains_spec()[k]).address_spec() != address
                &&& position < old(self).nodes().len()
                &&& sensor_address(old(self).nodes()[position as int]) matches Some(a)
                &&& sensor_index(old(self).sensors_spec(), a) matches Some(i)
                &&& (old(self).sensors_spec()[i].train_spec().is_none() || old(self).sensors_spec()[i].train_spec() == Some(address))
            }),
            r ==> final(self).trains_spec() == old(self).trains_spec().push(Train::new_spec(address, position)),
            !r ==> final(self).trains_spec() == old(self).trains_spec() && final(self).sensors_spec() == old(self).sensors_spec(),
    {
        if self.train_slot(address).is_some() {
            return false;
        }
        let a = match self.road.node_weight(position) {
            Some(Node::Sensor(a, _)) | Some(Node::Station(a, _)) => a,
            _ => return false,
        };
        let i = match self.sensor_slot(a) {
            Some(i) => i,
            None => return false,
        };
        let mut s = self.sensors[i];
        if !s.block(address) {
            return false;
        }
        self.sensors.set(i, s);
        let t = Train::new(address, position);
        self.trains.push(t);
        proof {
            assert forall|x: int, y: int| 0 <= x < y < self.trains_spec().len() implies
                (#[trigger] self.trains_spec()[x]).address_spec() != (#[trigger] self.trains_spec()[y]).address_spec() by {
                if y == self.trains_spec().len() - 1 {
                    assert(self.trains_spec()[y].address_spec() == address);
                }
            }
        }
        true
    }

    /// The road segment of train `t` after the signal node `node` (see `Train::request_route`).
    pub closed spec fn segment_of(&self, t: Address, node: usize) -> Option<Seq<usize>> {
        match train_index(self.trains@, t) {
            Some(i) => match self.trains@[i].route_spec() {
                Some(q) => match crate::train::index_of_node(q, node) {
                    Some(j) => Some(crate::train::segment_after(crate::train::entry_nodes(q), j, self.road.nodes())),
                    None => None,
                },
                None => None,
            },
            None => None,
        }
    }

    /// The sensors a grant of the signal at position `slot` would reserve, if it may grant now:
    /// it needs a waiting train and the status `Free`, and every known sensor of its block must
    /// be `Free`, `PathFree` or held by that train already (see `block_free`). A block signal
    /// then reserves its block; a path signal needs, besides, the first waiting train's road up to the next
    /// signal free (other signals ignored) and reserves that road's sensors; an intelligent
    /// path signal reserves that road when it is free (signals counting), else its block.
    pub closed spec fn grant_road_spec(&self, slot: int) -> Option<Seq<Address>> {
        self.grant_road_for(slot, self.signals@[slot].requesters_spec())
    }

    /// `grant_road_spec` for the signal at `slot` with the request queue `queue`. Besides the
    /// conditions there, no other signal leading into the block may hold a grant.
    pub closed spec fn grant_road_for(&self, slot: int, queue: Seq<Address>) -> Option<Seq<Address>> {
        let sig = self.signals@[slot];
        let nodes = self.road.nodes();
        if queue.len() == 0 || sig.status_spec() != Status::Free {
            None
        } else if !peers_idle(self.signals@, sig.peers_spec()) {
            None
        } else if !block_free(self.sensors@, sig.block_sensors_spec(), queue[0]) {
            None
        } else {
            let seg = self.segment_of(queue[0], sig.node_spec());
            match sig.sig_type_spec() {
                SignalType::Block => Some(sig.block_sensors_spec()),
                SignalType::Path => match seg {
                    Some(p) => if path_free(p, nodes, self.sensors@, self.signals@, true) {
                        Some(road_sensors(p, nodes))
                    } else {
                        None
                    },
                    None => None,
                },
                SignalType::IntelligentPath => match seg {
                    Some(p) => if path_free(p, nodes, self.sensors@, self.signals@, false) {
                        Some(road_sensors(p, nodes))
                    } else {
                        Some(sig.block_sensors_spec())
                    },
                    None => Some(sig.block_sensors_spec()),
                },
            }
        }
    }

    /// Whether no known signal among `peers` holds a grant.
    fn peers_idle_check(&self, peers: &Vec<Address>) -> (r: bool)
        ensures
            r == peers_idle(self.signals@, peers@),
    {
        let mut k: usize = 0;
        while k < peers.len()
            invariant
                k <= peers@.len(),
                forall|x: int| 0 <= x < k ==> match #[trigger] signal_index(self.signals@, peers@[x]) {
                    Some(j) => self.signals@[j].trains_spec().len() == 0,
                    None => true,
                },
            decreases peers@.len() - k,
        {
            if let Some(j) = self.signal_slot(peers[k]) {
                if self.signals[j].trains().len() != 0 {
                    return false;
                }
            }
            k = k + 1;
        }
        true
    }

    /// Whether `after` differs from this railroad at most in the train at `i`.
    pub closed spec fn only_train_changed(self, after: Railroad, i: int) -> bool {
        &&& after.road == self.road
        &&& after.sensors@ == self.sensors@
        &&& after.signals@ == self.signals@
        &&& after.switches@ == self.switches@
        &&& after.crossings@ == self.crossings@
        &&& after.trains@.len() == self.trains@.len()
        &&& forall|j: int| 0 <= j < self.trains@.len() && j != i ==> #[trigger] after.trains@[j] == self.trains@[j]
        &&& same_train_but_route(after.trains@[i], self.trains@[i])
    }

    /// What asking for the next block ahead of `train` does (see `request_next_block`): an
    /// unknown train or one without a route changes nothing; an empty route is dropped; then
    /// the signal of `lookahead_signal`, if any, is asked as in `request_outcome`.
    pub closed spec fn next_block_outcome(self, after: Railroad, train: Address, r: Seq<Message>) -> bool {
        match train_index(self.trains@, train) {
            None => r.len() == 0 && after == self,
            Some(i) => match self.trains@[i].route_spec() {
                None => r.len() == 0 && after == self,
                Some(q) => exists|mid: Railroad| {
                    &&& #[trigger] self.only_train_changed(mid, i)
                    &&& mid.trains@[i].position_spec() == self.trains@[i].position_spec()
                    &&& mid.trains@[i].route_spec() == (if q.len() == 0 { None } else { Some(q) })
                    &&& match lookahead_signal(q, self.road.nodes()) {
                        Some(a) => mid.request_outcome(after, a, train, r),
                        None => r.len() == 0 && after == mid,
                    }
                },
            },
        }
    }

    /// What the train `train` entering the sensor node `node` does (see `sensor_entered`):
    /// unless `node` is the next sensor of its route, nothing; otherwise the route is popped up
    /// to and including it, the train stands there, and it asks for its next block as in
    /// `next_block_outcome`.
    pub closed spec fn entered_outcome(self, after: Railroad, train: Address, node: usize, r: Seq<Message>) -> bool {
        match train_index(self.trains@, train) {
            None => r.len() == 0 && after == self,
            Some(i) => {
                let t = self.trains@[i];
                let next = match t.route_spec() {
                    Some(q) => match crate::train::first_driveable(q, self.road.nodes(), t.position_spec()) {
                        Some(k) => if q[k].0 == node { Some(k) } else { None },
                        None => None,
                    },
                    None => None,
                };
                match next {
                    None => r.len() == 0 && after.road == self.road && after.sensors@ == self.sensors@
                        && after.signals@ == self.signals@ && after.switches@ == self.switches@
                        && trains_agree(after.trains@, self.trains@),
                    Some(k) => exists|mid: Railroad| {
                        let q = t.route_spec().unwrap();
                        &&& #[trigger] self.only_train_changed(mid, i)
                        &&& mid.trains@[i].position_spec() == node
                        &&& mid.trains@[i].route_spec() == Some(q.subrange(k + 1, q.len() as int))
                        &&& mid.next_block_outcome(after, train, r)
                    },
                }
            },
        }
    }

    /// What seeing the train `t` on the sensor `sensor` does: when the next sensor or station
    /// of its route (see `first_driveable`) carries that address, the train enters it as in
    /// `entered_outcome`; otherwise nothing.
    pub closed spec fn on_sensor_outcome(self, after: Railroad, t: Address, sensor: Address, r: Seq<Message>) -> bool {
        let nodes = self.road.nodes();
        let target = match train_index(self.trains@, t) {
            Some(i) => match self.trains@[i].route_spec() {
                Some(q) => match crate::train::first_driveable(q, nodes, self.trains@[i].position_spec()) {
                    Some(k) => if q[k].0 < nodes.len() && sensor_address(nodes[q[k].0 as int]) == Some(sensor) {
                        Some(q[k].0)
                    } else {
                        None
                    },
                    None => None,
                },
                None => None,
            },
            None => None,
        };
        match target {
            Some(n) => self.entered_outcome(after, t, n, r),
            None => r.len() == 0 && after == self,
        }
    }

    /// What a level report of the sensor `sensor` does (see `handle_sensor_level`): the sensor
    /// takes the report as in `Sensor::handle_sensor_level`; when that announces a train on it,
    /// the announcement comes first and the train advances as in `on_sensor_outcome`.
    pub closed spec fn level_outcome(self, after: Railroad, sensor: Address, level: SLevel, r: Seq<Message>) -> bool {
        match sensor_index(self.sensors@, sensor) {
            None => r.len() == 0 && after == self,
            Some(i) => exists|mid: Railroad| {
                &&& mid.road == self.road
                &&& mid.signals@ == self.signals@
                &&& mid.trains@ == self.trains@
                &&& mid.switches@ == self.switches@
                &&& #[trigger] mid.sensors@ == self.sensors@.update(i, self.sensors@[i].level_next(level))
                &&& match (level, self.sensors@[i].train_spec()) {
                    (SLevel::Occupied, Some(t)) => r.len() > 0 && r[0] == Message::TrainOnSensor(sensor, t)
                        && mid.on_sensor_outcome(after, t, sensor, r.drop_first()),
                    _ => r.len() == 0 && after == mid,
                }
            },
        }
    }

    /// What a report that the switch `switch` stands in `dir` does (see `ack_switch_state`):
    /// the switch takes it as in `Switch::ack_switch_state`, and a report of the other branch
    /// sends the command again.
    pub closed spec fn ack_outcome(self, after: Railroad, switch: Address, dir: SwDir, r: Seq<Message>) -> bool {
        match switch_index(self.switches@, switch) {
            Some(k) => {
                let before = self.switches@[k];
                &&& after.road == self.road
                &&& after.sensors@ == self.sensors@
                &&& after.signals@ == self.signals@
                &&& after.trains@ == self.trains@
                &&& after.switches@ == self.switches@.update(k, before.ack_next(dir))
                &&& after.switches@[k].dir_spec() == before.dir_spec()
                &&& after.switches@[k].acknowledged_spec() == (dir == before.dir_spec())
                &&& r == (if dir == before.dir_spec() {
                    Seq::<Message>::empty()
                } else {
                    seq![Message::Switch(switch, before.dir_spec())]
                })
            },
            None => r.len() == 0 && after == self,
        }
    }

    /// What `reset_position` does: nothing for an unknown train; otherwise the steps of
    /// `reset_steps`.
    pub closed spec fn reset_result(self, after: Railroad, train: Address, node: usize, r: Seq<Message>) -> bool {
        if train_index(self.trains@, train).is_none() {
            r.len() == 0 && after == self
        } else {
            exists|m1: Railroad| #[trigger] self.reset_steps(m1, after, train_index(self.trains@, train).unwrap(), node, train, r)
        }
    }

    /// The steps of `reset_position` for the train at `i`: `m1` is the railroad with the train
    /// placed on `node`; the signal behind `node` is then asked as in `reset_outcome`.
    pub closed spec fn reset_steps(self, m1: Railroad, after: Railroad, i: int, node: usize, train: Address, r: Seq<Message>) -> bool {
        &&& self.only_train_changed(m1, i)
        &&& m1.trains@[i].position_spec() == node
        &&& m1.trains@[i].route_spec() == self.trains@[i].route_spec()
        &&& match (if node < self.road.nodes().len() {
            first_signal_node(reverse_bfs_order(self.road.edges(), node), self.road.nodes())
        } else {
            None
        }) {
            Some(n) => n < self.road.nodes().len() && match self.road.nodes()[n as int] {
                Node::Signal(a, _) => m1.reset_outcome(after, a, train, r),
                _ => false,
            },
            None => r.len() == 0 && after == m1,
        }
    }

    /// What asking the signal `signal` for the block around a newly placed `train` does: the
    /// request as in `request_outcome`, and, when that grants the block to the train, its
    /// next block request as in `next_block_outcome`, whose messages follow.
    pub closed spec fn reset_outcome(self, after: Railroad, signal: Address, train: Address, r: Seq<Message>) -> bool {
        exists|m2: Railroad, r1: Seq<Message>| {
            &&& #[trigger] self.request_outcome(m2, signal, train, r1)
            &&& if r1.len() > 0 && r1.last() == Message::TrainGranted(signal, train) {
                &&& r1.len() <= r.len()
                &&& r.subrange(0, r1.len() as int) == r1
                &&& m2.next_block_outcome(after, train, r.subrange(r1.len() as int, r.len() as int))
            } else {
                after == m2 && r == r1
            }
        }
    }

    /// Serving every signal once in order: `states` runs from this railroad to `after`, each
    /// step serving one signal as in `grant_outcome`, and `r` holds their messages in order.
    pub closed spec fn serve_chain(self, states: Seq<Railroad>, msgs: Seq<Seq<Message>>, after: Railroad, r: Seq<Message>) -> bool {
        &&& msgs.len() == self.signals@.len()
        &&& states.len() == msgs.len() + 1
        &&& states[0] == self
        &&& states.last() == after
        &&& forall|k: int| 0 <= k < msgs.len() ==> #[trigger] states[k].grant_outcome(states[k + 1], k, msgs[k])
        &&& r == concat(msgs)
    }

    /// What `serve_all` does: every signal is served once, in order.
    pub closed spec fn serve_outcome(self, after: Railroad, r: Seq<Message>) -> bool {
        exists|states: Seq<Railroad>, msgs: Seq<Seq<Message>>| #[trigger] self.serve_chain(states, msgs, after, r)
    }

    /// The release step of `release_blocks`: every signal that `releases` the train lets go of
    /// it; nothing else changes.
    pub closed spec fn release_step(self, mid: Railroad, sensor: Address, train: Address) -> bool {
        &&& mid.road == self.road
        &&& mid.sensors@ == self.sensors@
        &&& mid.trains@ == self.trains@
        &&& mid.switches@ == self.switches@
        &&& mid.signals@.len() == self.signals@.len()
        &&& forall|k: int| 0 <= k < self.signals@.len() ==> if releases(self.signals@[k], self.sensors@, sensor, train) {
            released(self.signals@[k], #[trigger] mid.signals@[k], train)
        } else {
            mid.signals@[k] == self.signals@[k]
        }
    }

    /// What `release_blocks` does: the release step, then every signal is served.
    pub closed spec fn release_outcome(self, after: Railroad, sensor: Address, train: Address, r: Seq<Message>) -> bool {
        exists|mid: Railroad| #[trigger] self.release_step(mid, sensor, train) && mid.serve_outcome(after, r)
    }

    /// What the end of the grace period of the sensor `sensor` does (see
    /// `sensor_grace_elapsed`): with no period pending, nothing; otherwise the sensor becomes
    /// `Free` and lets go of its train as in `Sensor::grace_elapsed`, and the blocks that
    /// train has left are released and every signal is served as in `release_outcome`.
    pub closed spec fn grace_outcome(self, after: Railroad, sensor: Address, r: Seq<Message>) -> bool {
        match sensor_index(self.sensors@, sensor) {
            None => r.len() == 0 && after == self,
            Some(i) => if !self.sensors@[i].grace_pending_spec() {
                r.len() == 0 && after == self
            } else {
                exists|mid: Railroad| {
                    &&& mid.road == self.road
                    &&& mid.signals@ == self.signals@
                    &&& mid.trains@ == self.trains@
                    &&& mid.switches@ == self.switches@
                    &&& #[trigger] mid.sensors@ == self.sensors@.update(i, self.sensors@[i].grace_next())
                    &&& mid.release_outcome(after, sensor, self.sensors@[i].train_spec().unwrap(), r)
                }
            },
        }
    }

    /// What planning the route of `train` to `dest` does (see `trigger_drive_to`): it
    /// succeeds exactly when the train exists, both nodes exist, the costs fit and A* finds a
    /// route; the train then stores that route cut after its last sensor or station, and
    /// nothing else changes. On failure nothing changes.
    pub closed spec fn drive_to_outcome(self, after: Railroad, train: Address, dest: usize, r: bool) -> bool {
        match train_index(self.trains@, train) {
            None => !r && after == self,
            Some(i) => {
                let start = self.trains@[i].position_spec();
                let found = start < self.road.nodes().len() && dest < self.road.nodes().len() && self.planner_fits(dest)
                    && astar_route(self.road.edges(), self.planner_costs(), self.planner_estimates(dest), start, dest).is_some();
                &&& r == found
                &&& !r ==> after == self
                &&& r ==> {
                    let path = astar_route(self.road.edges(), self.planner_costs(), self.planner_estimates(dest), start, dest).unwrap().1;
                    &&& self.only_train_changed(after, i)
                    &&& after.trains@[i].position_spec() == start
                    &&& after.trains@[i].route_spec() == Some(crate::train::fresh_entries(
                        crate::train::truncated(path, self.road.nodes()),
                    ))
                }
            },
        }
    }

    /// What serving the signal at `slot` does (see `try_grant`): nothing when it may not grant;
    /// otherwise the first waiting train leaves the queue and joins the granted trains, the
    /// signal is `Reserved`, no other signal changes, the granted road's sensors that were
    /// free or the train's own are held by it, and the messages are switch commands followed
    /// by the grant.
    pub closed spec fn grant_outcome(self, after: Railroad, slot: int, r: Seq<Message>) -> bool {
        &&& after.road == self.road
        &&& after.switches@.len() == self.switches@.len()
        &&& match self.grant_road_spec(slot) {
            None => r.len() == 0 && after == self,
            Some(road) => {
                let before = self.signals@[slot];
                let now = after.signals@[slot];
                let t = before.requesters_spec()[0];
                &&& r.len() > 0
                &&& r.last() == Message::TrainGranted(before.address_spec(), t)
                &&& forall|k: int| 0 <= k < r.len() - 1 ==> (#[trigger] r[k]) is Switch
                &&& after.signals@ == self.signals@.update(slot, now)
                &&& now.requesters_spec() == before.requesters_spec().drop_first()
                &&& now.trains_spec() == before.trains_spec().push(t)
                &&& now.status_spec() == Status::Reserved
                &&& held_for(self.sensors@, after.sensors@, road, t)
                &&& after.trains@.len() == self.trains@.len()
            },
        }
    }

    /// What asking the signal `signal` for its block on behalf of `train` does (see
    /// `request_block`). An unknown signal, or a train that already waits for or holds the
    /// block, changes nothing. Otherwise the train joins the end of the queue `q`, and the
    /// signal is served with that queue (see `grant_road_for`): without a grant only the queue
    /// changes; with one, its first train is granted as in `grant_outcome`.
    pub closed spec fn request_outcome(self, after: Railroad, signal: Address, train: Address, r: Seq<Message>) -> bool {
        match signal_index(self.signals@, signal) {
            None => r.len() == 0 && after == self,
            Some(k) => {
                let sig = self.signals@[k];
                if sig.requesters_spec().contains(train) || sig.trains_spec().contains(train) {
                    r.len() == 0 && after == self
                } else {
                    let q = sig.requesters_spec().push(train);
                    let now = after.signals@[k];
                    &&& after.road == self.road
                    &&& after.signals@.len() == self.signals@.len()
                    &&& forall|j: int| 0 <= j < self.signals@.len() && j != k ==> #[trigger] after.signals@[j] == self.signals@[j]
                    &&& match self.grant_road_for(k, q) {
                        None => {
                            &&& r.len() == 0
                            &&& after.sensors@ == self.sensors@
                            &&& after.trains@ == self.trains@
                            &&& after.switches@ == self.switches@
                            &&& now.requesters_spec() == q
                            &&& now.trains_spec() == sig.trains_spec()
                            &&& now.status_spec() == sig.status_spec()
                        },
                        Some(road) => {
                            &&& r.len() > 0
                            &&& r.last() == Message::TrainGranted(signal, q[0])
                            &&& forall|m: int| 0 <= m < r.len() - 1 ==> (#[trigger] r[m]) is Switch
                            &&& now.requesters_spec() == q.drop_first()
                            &&& now.trains_spec() == sig.trains_spec().push(q[0])
                            &&& now.status_spec() == Status::Reserved
                            &&& held_for(self.sensors@, after.sensors@, road, q[0])
                        },
                    }
                }
            },
        }
    }

    /// Whether every known sensor among `addrs` lets the block be granted to `train`.
    fn block_free_check(&self, addrs: &Vec<Address>, train: Address) -> (r: bool)
        requires
            self.wf(),
        ensures
            r == block_free(self.sensors@, addrs@, train),
    {
        let mut k: usize = 0;
        while k < addrs.len()
            invariant
                self.wf(),
                k <= addrs@.len(),
                forall|x: int| 0 <= x < k ==> match #[trigger] sensor_index(self.sensors@, addrs@[x]) {
                    Some(i) => grantable(self.sensors@[i], train),
                    None => true,
                },
            decreases addrs@.len() - k,
        {
            match self.sensor_slot(addrs[k]) {
                Some(i) => {
                    let st = self.sensors[i].status();
                    if !(st == Status::Free || st == Status::PathFree || self.sensors[i].train() == Some(train)) {
                        return false;
                    }
                },
                None => {},
            }
            k = k + 1;
        }
        true
    }

    /// The status of the signal `a`.
    fn signal_status(&self, a: Address) -> (r: Option<Status>)
        ensures
            r == signal_status_of(self.signals@, a),
    {
        let mut i: usize = 0;
        assert(self.signals@.subrange(0, self.signals@.len() as int) =~= self.signals@);
        while i < self.signals.len()
            invariant
                i <= self.signals@.len(),
                signal_status_of(self.signals@, a) == signal_status_of(self.signals@.subrange(i as int, self.signals@.len() as int), a),
            decreases self.signals@.len() - i,
        {
            let ghost sub = self.signals@.subrange(i as int, self.signals@.len() as int);
            assert(sub.drop_first() =~= self.signals@.subrange(i + 1, self.signals@.len() as int));
            if self.signals[i].address() == a {
                return Some(self.signals[i].status());
            }
            i = i + 1;
        }
        None
    }

    /// Decides whether the road `seg` is free (see `path_free`).
    fn path_free_check(&self, seg: &Vec<usize>, ignore_signal: bool) -> (r: bool)
        requires
            self.wf(),
        ensures
            r == path_free(seg@, self.road.nodes(), self.sensors@, self.signals@, ignore_signal),
    {
        let mut i: usize = 0;
        assert(seg@.subrange(0, seg@.len() as int) =~= seg@);
        while i < seg.len()
            invariant
                self.wf(),
                i <= seg@.len(),
                path_free(seg@, self.road.nodes(), self.sensors@, self.signals@, ignore_signal)
                    == path_free(seg@.subrange(i as int, seg@.len() as int), self.road.nodes(), self.sensors@, self.signals@, ignore_signal),
            decreases seg@.len() - i,
        {
            let ghost sub = seg@.subrange(i as int, seg@.len() as int);
            assert(sub.drop_first() =~= seg@.subrange(i + 1, seg@.len() as int));
            assert(sub[0] == seg@[i as int]);
            match self.road.node_weight(seg[i]) {
                Some(Node::Signal(a, _)) => {
                    if let Some(st) = self.signal_status(a) {
                        return st == Status::Free || ignore_signal;
                    }
                },
                Some(Node::Sensor(a, _)) | Some(Node::Station(a, _)) => {
                    if let Some(k) = self.sensor_slot(a) {
                        if self.sensors[k].status() != Status::Free {
                            return false;
                        }
                    }
                },
                _ => {},
            }
            i = i + 1;
        }
        true
    }

    /// The addresses of the sensors and stations of `seg`.
    fn road_sensor_addresses(&self, seg: &Vec<usize>) -> (r: Vec<Address>)
        ensures
            r@ == road_sensors(seg@, self.road.nodes()),
    {
        let mut out: Vec<Address> = Vec::new();
        let mut i: usize = seg.len();
        while i > 0
            invariant
                i <= seg@.len(),
                out@ == road_sensors(seg@.subrange(i as int, seg@.len() as int), self.road.nodes()),
            decreases i,
        {
            let ghost sub = seg@.subrange(i - 1, seg@.len() as int);
            assert(sub.drop_first() =~= seg@.subrange(i as int, seg@.len() as int));
            assert(sub[0] == seg@[i - 1]);
            match self.road.node_weight(seg[i - 1]) {
                Some(Node::Sensor(a, _)) | Some(Node::Station(a, _)) => {
                    out.insert(0, a);
                    assert(out@ =~= seq![a] + road_sensors(seg@.subrange(i as int, seg@.len() as int), self.road.nodes()));
                },
                _ => {},
            }
            i = i - 1;
        }
        assert(seg@.subrange(0, seg@.len() as int) =~= seg@);
        out
    }

    /// The road of train `t` after the signal node `node`.
    fn train_segment(&self, t: Address, node: usize) -> (r: Option<Vec<usize>>)
        requires
            self.wf(),
        ensures
            match r {
                Some(v) => self.segment_of(t, node) == Some(v@),
                None => self.segment_of(t, node).is_none(),
            },
    {
        let mut i: usize = 0;
        while i < self.trains.len()
            invariant
                i <= self.trains@.len(),
                forall|k: int| 0 <= k < i ==> (#[trigger] self.trains@[k]).address_spec() != t,
            decreases self.trains@.len() - i,
        {
            if self.trains[i].address() == t {
                proof {
                    lemma_train_index_at(self.trains@, t, i as int);
                }
                return self.trains[i].request_route(node, &self.road);
            }
            i = i + 1;
        }
        proof {
            lemma_train_index_none(self.trains@, t);
        }
        None
    }

    /// A copy of a list of addresses.
    fn copy_addresses(v: &Vec<Address>) -> (r: Vec<Address>)
        ensures
            r@ == v@,
    {
        let mut out: Vec<Address> = Vec::new();
        let mut i: usize = 0;
        while i < v.len()
            invariant
                i <= v@.len(),
                out@ == v@.subrange(0, i as int),
            decreases v@.len() - i,
        {
            out.push(v[i]);
            i = i + 1;
            assert(out@ =~= v@.subrange(0, i as int));
        }
        assert(out@ =~= v@);
        out
    }

    /// The sensors a grant of the signal at `slot` would reserve now, if it may grant.
    pub(crate) fn grant_road(&self, slot: usize) -> (r: Option<Vec<Address>>)
        requires
            self.wf(),
            slot < self.signals@.len(),
        ensures
            match r {
                Some(v) => self.grant_road_spec(slot as int) == Some(v@),
                None => self.grant_road_spec(slot as int).is_none(),
            },
    {
        let sig = &self.signals[slot];
        let t = match sig.first_requester() {
            Some(t) => t,
            None => return None,
        };
        if sig.status() != Status::Free {
            return None;
        }
        if !self.peers_idle_check(sig.other_input_signals()) {
            return None;
        }
        if !self.block_free_check(sig.block_sensors(), t) {
            return None;
        }
        let seg = self.train_segment(t, sig.representing_node());
        match sig.sig_type() {
            SignalType::Block => Some(Self::copy_addresses(sig.block_sensors())),
            SignalType::Path => match seg {
                Some(p) => if self.path_free_check(&p, true) {
                    Some(self.road_sensor_addresses(&p))
                } else {
                    None
                },
                None => None,
            },
            SignalType::IntelligentPath => match seg {
                Some(p) => if self.path_free_check(&p, false) {
                    Some(self.road_sensor_addresses(&p))
                } else {
                    Some(Self::copy_addresses(sig.block_sensors()))
                },
                None => Some(Self::copy_addresses(sig.block_sensors())),
            },
        }
    }

    /// Reserves the sensor `a` for `train`, if it is known.
    fn block_sensor(&mut self, a: Address, train: Address)
        requires
            old(self).wf(),
        ensures
            final(self).wf(),
            final(self).road == old(self).road,
            final(self).signals@ == old(self).signals@,
            final(self).trains@ == old(self).trains@,
            final(self).switches@ == old(self).switches@,
            final(self).sensors@.len() == old(self).sensors@.len(),
            forall|j: int| 0 <= j < old(self).sensors@.len() ==> (#[trigger] final(self).sensors@[j]).address_spec()
                == old(self).sensors@[j].address_spec(),
            forall|j: int| 0 <= j < old(self).sensors@.len() && old(self).sensors@[j].train_spec().is_some()
                ==> (#[trigger] final(self).sensors@[j]).train_spec() == old(self).sensors@[j].train_spec(),
            forall|j: int| 0 <= j < old(self).sensors@.len() && (#[trigger] final(self).sensors@[j]).train_spec().is_some()
                ==> final(self).sensors@[j].train_spec() == old(self).sensors@[j].train_spec()
                || final(self).sensors@[j].train_spec() == Some(train),
            match sensor_index(old(self).sensors@, a) {
                Some(i) => old(self).sensors@[i].train_spec().is_none() ==> final(self).sensors@[i].train_spec() == Some(train),
                None => final(self).sensors@ == old(self).sensors@,
            },
    {
        if let Some(i) = self.sensor_slot(a) {
            let mut s = self.sensors[i];
            let _ = s.block(train);
            self.sensors.set(i, s);
        }
    }

    /// Commands every switch on the route of `train` after the signal node `signal` and up to
    /// the next signal to the branch the route takes through it; returns the commands sent.
    fn command_switches(&mut self, train: Address, signal: usize) -> (r: Vec<Message>)
        requires
            old(self).wf(),
        ensures
            final(self).wf(),
            final(self).road == old(self).road,
            final(self).sensors@ == old(self).sensors@,
            final(self).signals@ == old(self).signals@,
            final(self).trains@ == old(self).trains@,
            final(self).switches@.len() == old(self).switches@.len(),
            forall|k: int| 0 <= k < r@.len() ==> (#[trigger] r@[k]) is Switch,
    {
        let mut out: Vec<Message> = Vec::new();
        let t = match self.train_slot(train) {
            Some(t) => t,
            None => return out,
        };
        let route = match self.trains[t].route() {
            Some(q) => q,
            None => return out,
        };
        let mut j: usize = 0;
        while j < route.len()
            invariant
                j <= route@.len(),
            decreases route@.len() - j,
        {
            if route[j].0 == signal {
                break;
            }
            j = j + 1;
        }
        if j >= route.len() {
            return out;
        }
        let mut x: usize = j + 1;
        while x < route.len() && x + 1 < route.len()
            invariant
                x <= route@.len(),
                self.wf(),
                self.road == old(self).road,
                self.sensors@ == old(self).sensors@,
                self.signals@ == old(self).signals@,
                self.trains@ == old(self).trains@,
                self.switches@.len() == old(self).switches@.len(),
                x >= 1,
                forall|k: int| 0 <= k < out@.len() ==> (#[trigger] out@[k]) is Switch,
            decreases route@.len() - x,
        {
            match self.road.node_weight(route[x].0) {
                Some(Node::Signal(..)) => {
                    break;
                },
                Some(Node::Switch(a, _, _, default_branch, _)) => {
                    if let Some(k) = self.switch_slot(a) {
                        let mut sw = self.switches[k];
                        let cmd = sw.request_path(route[x - 1].0, route[x + 1].0, default_branch);
                        self.switches.set(k, sw);
                        if let Some(m) = cmd {
                            out.push(m);
                        }
                        proof {
                            assert forall|a: int, b: int| 0 <= a < b < self.switches@.len() implies
                                (#[trigger] self.switches@[a]).address_spec() != (#[trigger] self.switches@[b]).address_spec() by {
                                if a == k as int || b == k as int {
                                    assert(self.switches@[k as int].address_spec() == sw.address_spec());
                                }
                            }
                        }
                    }
                },
                _ => {},
            }
            x = x + 1;
        }
        out
    }

    /// Serves the signal at `slot`: when it may grant (see `grant_road_spec`), the first
    /// waiting train gets the block, each sensor of the granted road is reserved for it, the
    /// switches on its road are commanded, its route marks the signal granted, and the grant
    /// is announced last.
    pub(crate) fn try_grant(&mut self, slot: usize) -> (r: Vec<Message>)
        requires
            old(self).wf(),
            slot < old(self).signals@.len(),
        ensures
            final(self).wf(),
            final(self).road == old(self).road,
            final(self).signals@.len() == old(self).signals@.len(),
            final(self).trains@.len() == old(self).trains@.len(),
            old(self).grant_outcome(*final(self), slot as int, r@),
    {
        let road = match self.grant_road(slot) {
            Some(v) => v,
            None => return Vec::new(),
        };
        let ghost before = self.signals@[slot as int];
        let ghost old_len = self.signals@.len();
        let t = self.signals[slot].grant_first();
        let sig_adr = self.signals[slot].address();
        let sig_node = self.signals[slot].representing_node();
        proof {
            assert forall|a: int, b: int| 0 <= a < b < self.signals@.len() implies
                (#[trigger] self.signals@[a]).address_spec() != (#[trigger] self.signals@[b]).address_spec() by {
                if a == slot as int {
                    assert(self.signals@[a].address_spec() == old(self).signals@[a].address_spec());
                } else if b == slot as int {
                    assert(self.signals@[b].address_spec() == old(self).signals@[b].address_spec());
                }
            }
        }
        let ghost granted = self.signals@[slot as int];
        let ghost granted_all = self.signals@;
        assert(granted_all == old(self).signals@.update(slot as int, granted));
        let ghost s0 = self.sensors@;
        let mut k: usize = 0;
        while k < road.len()
            invariant
                self.wf(),
                self.road == old(self).road,
                self.signals@.len() == old_len,
                slot < old_len,
                self.signals@[slot as int] == granted,
                self.signals@ == granted_all,
                self.switches@.len() == old(self).switches@.len(),
                self.trains@.len() == old(self).trains@.len(),
                k <= road@.len(),
                self.sensors@.len() == s0.len(),
                forall|j: int| 0 <= j < s0.len() ==> (#[trigger] self.sensors@[j]).address_spec() == s0[j].address_spec(),
                forall|j: int| 0 <= j < s0.len() && s0[j].train_spec().is_some()
                    ==> (#[trigger] self.sensors@[j]).train_spec() == s0[j].train_spec(),
                forall|j: int| 0 <= j < s0.len() && (#[trigger] self.sensors@[j]).train_spec().is_some()
                    ==> self.sensors@[j].train_spec() == s0[j].train_spec() || self.sensors@[j].train_spec() == Some(t),
                held_for(s0, self.sensors@, road@.subrange(0, k as int), t),
            decreases road@.len() - k,
        {
            let ghost before = self.sensors@;
            self.block_sensor(road[k], t);
            proof {
                lemma_sensor_index_addresses(before, s0, road@[k as int]);
                let sub = road@.subrange(0, k + 1);
                let prefix = road@.subrange(0, k as int);
                assert forall|j: int| 0 <= j < s0.len() && (#[trigger] self.sensors@[j]).train_spec().is_some()
                    implies self.sensors@[j].train_spec() == s0[j].train_spec() || self.sensors@[j].train_spec() == Some(t) by {
                    if before[j].train_spec().is_some() {
                        assert(self.sensors@[j].train_spec() == before[j].train_spec());
                    }
                }
                assert forall|x: int| 0 <= x < sub.len() implies match #[trigger] sensor_index(s0, sub[x]) {
                    Some(i) => (s0[i].train_spec().is_none() || s0[i].train_spec() == Some(t)) ==> self.sensors@[i].train_spec() == Some(t),
                    None => true,
                } by {
                    lemma_sensor_index_valid(s0, sub[x]);
                    if x < k {
                        assert(sub[x] == prefix[x]);
                        if let Some(i) = sensor_index(s0, sub[x]) {
                            if s0[i].train_spec().is_none() || s0[i].train_spec() == Some(t) {
                                assert(before[i].train_spec() == Some(t));
                                assert(self.sensors@[i].train_spec() == Some(t));
                            }
                        }
                    } else {
                        assert(sub[x] == road@[k as int]);
                        if let Some(i) = sensor_index(s0, sub[x]) {
                            if before[i].train_spec().is_some() {
                                assert(self.sensors@[i].train_spec() == before[i].train_spec());
                            }
                        }
                    }
                }
            }
            k = k + 1;
        }
        assert(road@.subrange(0, k as int) =~= road@);
        let mut out = self.command_switches(t, sig_node);
        if let Some(i) = self.train_slot(t) {
            let ghost trains_before = self.trains@;
            self.trains[i].drive_ok(sig_node);
            proof {
                assert forall|a: int, b: int| 0 <= a < b < self.trains@.len() implies
                    (#[trigger] self.trains@[a]).address_spec() != (#[trigger] self.trains@[b]).address_spec() by {
                    assert(self.trains@[a].address_spec() == trains_before[a].address_spec());
                    assert(self.trains@[b].address_spec() == trains_before[b].address_spec());
                }
            }
        }
        out.push(Message::TrainGranted(sig_adr, t));
        out
    }

    /// The grant decision for a queue depends on the railroad only through the signal's own
    /// settings, the addresses, statuses and granted trains of all signals, the sensors, the
    /// trains and the graph.
    proof fn lemma_grant_road_for_frame(a: Railroad, b: Railroad, slot: int, q: Seq<Address>)
        requires
            0 <= slot < a.signals@.len(),
            a.road == b.road,
            a.sensors@ == b.sensors@,
            a.trains@ == b.trains@,
            same_signal_view(a.signals@, b.signals@),
            a.signals@[slot].status_spec() == b.signals@[slot].status_spec(),
            a.signals@[slot].peers_spec() == b.signals@[slot].peers_spec(),
            a.signals@[slot].block_sensors_spec() == b.signals@[slot].block_sensors_spec(),
            a.signals@[slot].node_spec() == b.signals@[slot].node_spec(),
            a.signals@[slot].sig_type_spec() == b.signals@[slot].sig_type_spec(),
        ensures
            a.grant_road_for(slot, q) == b.grant_road_for(slot, q),
    {
        lemma_peers_idle_view(a.signals@, b.signals@, a.signals@[slot].peers_spec());
        if q.len() > 0 {
            if let Some(p) = a.segment_of(q[0], a.signals@[slot].node_spec()) {
                lemma_path_free_view(p, a.road.nodes(), a.sensors@, a.signals@, b.signals@, true);
                lemma_path_free_view(p, a.road.nodes(), a.sensors@, a.signals@, b.signals@, false);
            }
        }
    }

    /// Asks the signal `signal` for its block on behalf of `train` and serves the signal (see
    /// `request_outcome`): a train already waiting for or holding the block changes nothing;
    /// otherwise it is queued, and a grant, if the signal may grant now, goes to the first of
    /// the queue and is announced last. Nothing happens for an unknown signal.
    pub fn request_block(&mut self, signal: Address, train: Address) -> (r: Vec<Message>)
        requires
            old(self).wf(),
        ensures
            final(self).wf(),
            final(self).nodes() == old(self).nodes(),
            final(self).edges() == old(self).edges(),
            old(self).request_outcome(*final(self), signal, train, r@),
    {
        let slot = match self.signal_slot(signal) {
            Some(s) => s,
            None => return Vec::new(),
        };
        if self.signals[slot].knows_train(train) {
            return Vec::new();
        }
        let _ = self.signals[slot].request_block(train);
        assert forall|a: int, b: int| 0 <= a < b < self.signals@.len() implies
            (#[trigger] self.signals@[a]).address_spec() != (#[trigger] self.signals@[b]).address_spec() by {
            if a == slot as int {
                assert(self.signals@[a].address_spec() == old(self).signals@[a].address_spec());
            } else if b == slot as int {
                assert(self.signals@[b].address_spec() == old(self).signals@[b].address_spec());
            }
        }
        let ghost mid = *self;
        proof {
            let q = old(self).signals@[slot as int].requesters_spec().push(train);
            assert(same_signal_view(mid.signals@, old(self).signals@));
            Self::lemma_grant_road_for_frame(mid, *old(self), slot as int, q);
            assert(mid.grant_road_spec(slot as int) == old(self).grant_road_for(slot as int, q));
        }
        let r = self.try_grant(slot);
        proof {
            assert forall|j: int| 0 <= j < old(self).signals@.len() && j != slot implies #[trigger] self.signals@[j] == old(self).signals@[j] by {
                if mid.grant_road_spec(slot as int).is_some() {
                    assert(self.signals@[j] == mid.signals@[j]);
                }
            }
        }
        r
    }

    /// Whether `train` still holds one of the known sensors `addrs`.
    fn holds_any(&self, addrs: &Vec<Address>, train: Address) -> (r: bool)
        requires
            self.wf(),
        ensures
            r == exists|k: int| 0 <= k < addrs@.len() && match #[trigger] sensor_index(self.sensors@, addrs@[k]) {
                Some(i) => self.sensors@[i].train_spec() == Some(train),
                None => false,
            },
    {
        let mut k: usize = 0;
        while k < addrs.len()
            invariant
                self.wf(),
                k <= addrs@.len(),
                forall|x: int| 0 <= x < k ==> !match #[trigger] sensor_index(self.sensors@, addrs@[x]) {
                    Some(i) => self.sensors@[i].train_spec() == Some(train),
                    None => false,
                },
            decreases addrs@.len() - k,
        {
            if let Some(i) = self.sensor_slot(addrs[k]) {
                if self.sensors[i].train() == Some(train) {
                    return true;
                }
            }
            k = k + 1;
        }
        false
    }

    /// Frees the blocks that `train` has left: every signal that granted its block to `train`
    /// and whose block holds the sensor `sensor` but no sensor of `train` any more lets go of
    /// the train and serves its queue.
    fn release_blocks(&mut self, sensor: Address, train: Address) -> (r: Vec<Message>)
        requires
            old(self).wf(),
        ensures
            final(self).wf(),
            final(self).road == old(self).road,
            old(self).release_outcome(*final(self), sensor, train, r@),
    {
        let mut k: usize = 0;
        let ghost count = self.signals@.len();
        while k < self.signals.len()
            invariant
                self.wf(),
                self.road == old(self).road,
                self.sensors@ == old(self).sensors@,
                self.trains@ == old(self).trains@,
                self.switches@ == old(self).switches@,
                self.signals@.len() == count,
                count == old(self).signals@.len(),
                k <= count,
                forall|x: int| 0 <= x < k ==> if releases(old(self).signals@[x], old(self).sensors@, sensor, train) {
                    released(old(self).signals@[x], #[trigger] self.signals@[x], train)
                } else {
                    self.signals@[x] == old(self).signals@[x]
                },
                forall|x: int| k <= x < count ==> #[trigger] self.signals@[x] == old(self).signals@[x],
            decreases count - k,
        {
            let concerned = self.signals[k].knows_train(train)
                && Self::contains_address(self.signals[k].block_sensors(), sensor)
                && !self.holds_any(self.signals[k].block_sensors(), train);
            proof {
                assert(concerned == releases(old(self).signals@[k as int], old(self).sensors@, sensor, train));
            }
            let ghost before = self.signals@;
            if concerned {
                self.signals[k].release_train(train);

                proof {
                    assert forall|a: int, b: int| 0 <= a < b < self.signals@.len() implies
                        (#[trigger] self.signals@[a]).address_spec() != (#[trigger] self.signals@[b]).address_spec() by {
                        assert(self.signals@[a].address_spec() == before[a].address_spec());
                        assert(self.signals@[b].address_spec() == before[b].address_spec());
                    }
                }
            }
            proof {
                assert forall|x: int| 0 <= x < k + 1 implies if releases(old(self).signals@[x], old(self).sensors@, sensor, train) {
                    released(old(self).signals@[x], #[trigger] self.signals@[x], train)
                } else {
                    self.signals@[x] == old(self).signals@[x]
                } by {
                    if x < k {
                        assert(self.signals@[x] == before[x]);
                    } else {
                        assert(before[x] == old(self).signals@[x]);
                    }
                }
                assert forall|x: int| k + 1 <= x < count implies #[trigger] self.signals@[x] == old(self).signals@[x] by {
                    assert(self.signals@[x] == before[x]);
                }
            }
            k = k + 1;
        }
        let ghost mid = *self;
        assert(old(self).release_step(mid, sensor, train));
        self.serve_all()
    }

    /// Serves every signal once, in order (see `try_grant`).
    pub(crate) fn serve_all(&mut self) -> (r: Vec<Message>)
        requires
            old(self).wf(),
        ensures
            final(self).wf(),
            final(self).road == old(self).road,
            old(self).serve_outcome(*final(self), r@),
    {
        let mut out: Vec<Message> = Vec::new();
        let mut k: usize = 0;
        let ghost count = self.signals@.len();
        let ghost mut states: Seq<Railroad> = seq![*self];
        let ghost mut msgs: Seq<Seq<Message>> = seq![];
        while k < self.signals.len()
            invariant
                self.wf(),
                self.road == old(self).road,
                self.signals@.len() == count,
                count == old(self).signals@.len(),
                k <= count,
                states.len() == k + 1,
                msgs.len() == k,
                states[0] == *old(self),
                states.last() == *self,
                forall|x: int| 0 <= x < k ==> #[trigger] states[x].grant_outcome(states[x + 1], x, msgs[x]),
                out@ == concat(msgs),
            decreases count - k,
        {
            let ghost before = *self;
            let mut more = self.try_grant(k);
            let ghost m = more@;
            out.append(&mut more);
            proof {
                let old_states = states;
                let old_msgs = msgs;
                states = states.push(*self);
                msgs = msgs.push(m);
                assert(msgs.drop_last() =~= old_msgs);
                assert forall|x: int| 0 <= x < k + 1 implies #[trigger] states[x].grant_outcome(states[x + 1], x, msgs[x]) by {
                    if x < k {
                        assert(states[x] == old_states[x] && states[x + 1] == old_states[x + 1] && msgs[x] == old_msgs[x]);
                    }
                }
            }
            k = k + 1;
        }
        assert(old(self).serve_chain(states, msgs, *self, out@));
        out
    }

    /// Whether `a` is among `addrs`.
    fn contains_address(addrs: &Vec<Address>, a: Address) -> (r: bool)
        ensures
            r == addrs@.contains(a),
    {
        let mut k: usize = 0;
        while k < addrs.len()
            invariant
                k <= addrs@.len(),
                forall|x: int| 0 <= x < k ==> addrs@[x] != a,
            decreases addrs@.len() - k,
        {
            if addrs[k] == a {
                return true;
            }
            k = k + 1;
        }
        false
    }

    /// Takes a level report of the sensor `sensor` (see `Sensor::handle_sensor_level`). When
    /// it announces a train on the sensor, that train advances along its route.
    pub fn handle_sensor_level(&mut self, sensor: Address, level: SLevel) -> (r: Vec<Message>)
        requires
            old(self).wf(),
        ensures
            final(self).wf(),
            final(self).nodes() == old(self).nodes(),
            final(self).edges() == old(self).edges(),
            old(self).level_outcome(*final(self), sensor, level, r@),
    {
        let i = match self.sensor_slot(sensor) {
            Some(i) => i,
            None => return Vec::new(),
        };
        let mut s = self.sensors[i];
        let notice = s.handle_sensor_level(level);
        self.sensors.set(i, s);
        let ghost mid = *self;
        let mut out: Vec<Message> = Vec::new();
        if let Some(Message::TrainOnSensor(_, t)) = notice {
            out.push(Message::TrainOnSensor(sensor, t));
            let mut more = self.train_on_sensor(t, sensor);
            let ghost rest = more@;
            out.append(&mut more);
            assert(out@.drop_first() =~= rest);
        }
        out
    }

    /// The train `t` was seen on the sensor `sensor`: if the next sensor or station of its
    /// route carries that address, the train advances to it and asks for its next block.
    fn train_on_sensor(&mut self, t: Address, sensor: Address) -> (r: Vec<Message>)
        requires
            old(self).wf(),
        ensures
            final(self).wf(),
            final(self).nodes() == old(self).nodes(),
            final(self).edges() == old(self).edges(),
            old(self).on_sensor_outcome(*final(self), t, sensor, r@),
    {
        let i = match self.train_slot(t) {
            Some(i) => i,
            None => return Vec::new(),
        };
        let route = match self.trains[i].route() {
            Some(q) => q,
            None => return Vec::new(),
        };
        let pos = self.trains[i].position();
        let ghost before = route@;
        let ghost nodes = self.road.nodes();
        let mut k: usize = 0;
        assert(before.subrange(0, before.len() as int) =~= before);
        while k < route.len()
            invariant
                route@ == before,
                nodes == self.road.nodes(),
                k <= route@.len(),
                crate::train::first_driveable(before, nodes, pos) == (match crate::train::first_driveable(before.subrange(k as int, before.len() as int), nodes, pos) {
                    Some(j) => Some(j + k),
                    None => None,
                }),
            ensures
                k <= route@.len(),
                crate::train::first_driveable(before, nodes, pos) == (if k < route@.len() { Some(k as int) } else { None }),
            decreases route@.len() - k,
        {
            let ghost sub = before.subrange(k as int, before.len() as int);
            assert(sub.drop_first() =~= before.subrange(k + 1, before.len() as int));
            assert(sub[0] == route@[k as int]);
            let driveable = match self.road.node_weight(route[k].0) {
                Some(n) => n.is_driveable() && route[k].0 != pos,
                None => false,
            };
            if driveable {
                break;
            }
            k = k + 1;
        }
        proof {
            if k == route@.len() {
                assert(before.subrange(k as int, before.len() as int).len() == 0);
            }
        }
        if k >= route.len() {
            return Vec::new();
        }
        let node = route[k].0;
        match self.road.node_weight(node) {
            Some(Node::Sensor(a, _)) | Some(Node::Station(a, _)) => {
                if a != sensor {
                    return Vec::new();
                }
            },
            _ => return Vec::new(),
        }
        self.sensor_entered(t, node)
    }

    /// The train `train` entered the sensor node `node` (see `Train::sensor_entered`); if it
    /// advanced, it asks for its next block.
    pub fn sensor_entered(&mut self, train: Address, node: usize) -> (r: Vec<Message>)
        requires
            old(self).wf(),
        ensures
            final(self).wf(),
            final(self).nodes() == old(self).nodes(),
            final(self).edges() == old(self).edges(),
            old(self).entered_outcome(*final(self), train, node, r@),
    {
        let i = match self.train_slot(train) {
            Some(i) => i,
            None => return Vec::new(),
        };
        let ghost before = self.trains@;
        let advanced = self.trains[i].sensor_entered(node, &self.road);
        proof {
            assert forall|a: int, b: int| 0 <= a < b < self.trains@.len() implies
                (#[trigger] self.trains@[a]).address_spec() != (#[trigger] self.trains@[b]).address_spec() by {
                assert(self.trains@[a].address_spec() == before[a].address_spec());
                assert(self.trains@[b].address_spec() == before[b].address_spec());
            }
            assert(old(self).only_train_changed(*self, i as int));
        }
        if advanced {
            let ghost mid = *self;
            let r = self.request_next_block(train);
            proof {
                assert(old(self).only_train_changed(mid, i as int));
            }
            r
        } else {
            proof {
                assert forall|j: int| 0 <= j < self.trains@.len() implies same_train_but_route(#[trigger] self.trains@[j], old(self).trains@[j])
                    && self.trains@[j].position_spec() == old(self).trains@[j].position_spec()
                    && self.trains@[j].route_spec() == old(self).trains@[j].route_spec() by {
                    if j != i {
                        assert(self.trains@[j] == old(self).trains@[j]);
                    }
                }
            }
            Vec::new()
        }
    }

    /// Asks for the next block ahead of `train` (see `next_block_outcome`): the first signal
    /// of its route not granted yet is asked, unless `LOOKAHEAD` granted signals lie before it.
    pub fn request_next_block(&mut self, train: Address) -> (r: Vec<Message>)
        requires
            old(self).wf(),
        ensures
            final(self).wf(),
            final(self).nodes() == old(self).nodes(),
            final(self).edges() == old(self).edges(),
            old(self).next_block_outcome(*final(self), train, r@),
    {
        let i = match self.train_slot(train) {
            Some(i) => i,
            None => return Vec::new(),
        };
        let ghost before = self.trains@;
        if self.trains[i].route().is_none() {
            return Vec::new();
        }
        let next = self.trains[i].request_next_block(&self.road);
        proof {
            assert forall|a: int, b: int| 0 <= a < b < self.trains@.len() implies
                (#[trigger] self.trains@[a]).address_spec() != (#[trigger] self.trains@[b]).address_spec() by {
                assert(self.trains@[a].address_spec() == before[a].address_spec());
                assert(self.trains@[b].address_spec() == before[b].address_spec());
            }
            assert(old(self).only_train_changed(*self, i as int));
        }
        let ghost mid = *self;
        match next {
            Some(node) => match self.road.node_weight(node) {
                Some(Node::Signal(a, _)) => self.request_block(a, train),
                _ => Vec::new(),
            },
            None => Vec::new(),
        }
    }

    /// The planner's cost of entering node `v`: 500 for a station, 100 for a sensor holding a
    /// standing train, 27 for one holding a moving train, 2 otherwise.
    pub closed spec fn node_cost_spec(&self, v: usize) -> int {
        if v >= self.road.nodes().len() {
            2
        } else {
            match self.road.nodes()[v as int] {
                Node::Station(..) => 500,
                Node::Sensor(a, _) => match sensor_index(self.sensors@, a) {
                    Some(i) => match self.sensors@[i].train_spec() {
                        Some(t) => match train_index(self.trains@, t) {
                            Some(j) => if self.trains@[j].speed_spec() == Speed::Stop
                                || self.trains@[j].speed_spec() == Speed::EmergencyStop {
                                100
                            } else {
                                27
                            },
                            None => 2,
                        },
                        None => 2,
                    },
                    None => 2,
                },
                _ => 2,
            }
        }
    }

    /// The grid coordinate of node `v`; a crossing track takes its crossing's position.
    pub closed spec fn node_coord(&self, v: usize) -> Coord {
        match self.road.nodes()[v as int] {
            Node::Cross(a) => crossing_coord(self.crossings@, a),
            n => node_position(n).unwrap().coord,
        }
    }

    /// The planner's cost of edge `e`: the grid distance of its rails plus the cost of entering
    /// its target.
    pub closed spec fn edge_cost_spec(&self, e: int) -> int {
        rails_cost(self.road.rails()[e]) + self.node_cost_spec(self.road.edges()[e].1)
    }

    /// The edge costs, by edge index.
    pub closed spec fn planner_costs(&self) -> Seq<usize> {
        Seq::new(self.road.edges().len(), |e: int| self.edge_cost_spec(e) as usize)
    }

    /// The remaining-cost estimate of each node towards `dest`: the Manhattan distance of the
    /// two positions.
    pub closed spec fn planner_estimates(&self, dest: usize) -> Seq<usize> {
        Seq::new(self.road.nodes().len(), |v: int| manhattan(self.node_coord(v as usize), self.node_coord(dest)) as usize)
    }

    /// Whether all costs and estimates towards `dest`, and every estimate added to the sum of
    /// all edge costs, fit in `usize`.
    pub closed spec fn planner_fits(&self, dest: usize) -> bool {
        &&& forall|e: int| 0 <= e < self.road.edges().len() ==> #[trigger] self.edge_cost_spec(e) <= usize::MAX
        &&& forall|v: int| 0 <= v < self.road.nodes().len() ==> manhattan(
            #[trigger] self.node_coord(v as usize),
            self.node_coord(dest),
        ) <= usize::MAX
        &&& forall|v: int| 0 <= v < self.road.nodes().len() ==> cost_sum(self.planner_costs())
            + #[trigger] self.planner_estimates(dest)[v] <= usize::MAX
    }

    /// The planner's cost of entering node `v`.
    pub fn node_cost(&self, v: usize) -> (r: usize)
        requires
            self.wf(),
        ensures
            r == self.node_cost_spec(v),
    {
        match self.road.node_weight(v) {
            Some(Node::Station(..)) => 500,
            Some(Node::Sensor(a, _)) => match self.sensor_slot(a) {
                Some(i) => match self.sensors[i].train() {
                    Some(t) => match self.train_stands(t) {
                        Some(true) => 100,
                        Some(false) => 27,
                        None => 2,
                    },
                    None => 2,
                },
                None => 2,
            },
            _ => 2,
        }
    }

    /// Whether the train `t` stands, if it exists.
    fn train_stands(&self, t: Address) -> (r: Option<bool>)
        ensures
            r == (match train_index(self.trains@, t) {
                Some(j) => Some(self.trains@[j].speed_spec() == Speed::Stop || self.trains@[j].speed_spec() == Speed::EmergencyStop),
                None => None,
            }),
    {
        let mut j: usize = 0;
        while j < self.trains.len()
            invariant
                j <= self.trains@.len(),
                forall|k: int| 0 <= k < j ==> (#[trigger] self.trains@[k]).address_spec() != t,
            decreases self.trains@.len() - j,
        {
            if self.trains[j].address() == t {
                proof {
                    lemma_train_index_at(self.trains@, t, j as int);
                }
                return Some(self.trains[j].stands());
            }
            j = j + 1;
        }
        proof {
            lemma_train_index_none(self.trains@, t);
        }
        None
    }

    /// The grid coordinate of node `v`.
    fn coord_of(&self, v: usize) -> (r: Coord)
        requires
            v < self.road.nodes().len(),
        ensures
            r == self.node_coord(v),
    {
        match self.road.node_weight(v) {
            Some(Node::Cross(a)) => {
                let mut i: usize = 0;
                assert(self.crossings@.subrange(0, self.crossings@.len() as int) =~= self.crossings@);
                while i < self.crossings.len()
                    invariant
                        v < self.road.nodes().len(),
                        self.road.nodes()[v as int] == Node::Cross(a),
                        i <= self.crossings@.len(),
                        crossing_coord(self.crossings@, a) == crossing_coord(self.crossings@.subrange(i as int, self.crossings@.len() as int), a),
                    decreases self.crossings@.len() - i,
                {
                    let ghost sub = self.crossings@.subrange(i as int, self.crossings@.len() as int);
                    assert(sub.drop_first() =~= self.crossings@.subrange(i + 1, self.crossings@.len() as int));
                    if self.crossings[i].address == a {
                        return self.crossings[i].pos.coord;
                    }
                    i = i + 1;
                }
                Coord(0, 0, 0)
            },
            Some(n) => n.position().unwrap().coord,
            None => Coord(0, 0, 0),
        }
    }

    /// The shortest route from `start` to `dest` by A* (see `planner_costs` and
    /// `planner_estimates`), with its cost. `None` when a node is missing, a cost does not fit
    /// (see `planner_fits`), or no route is found.
    pub fn shortest_path(&self, start: usize, dest: usize) -> (r: Option<(usize, Vec<usize>)>)
        requires
            self.wf(),
        ensures
            !(start < self.nodes().len() && dest < self.nodes().len() && self.planner_fits(dest)) ==> r.is_none(),
            (start < self.nodes().len() && dest < self.nodes().len() && self.planner_fits(dest)) ==> match r {
                Some((c, p)) => astar_route(self.edges(), self.planner_costs(), self.planner_estimates(dest), start, dest)
                    == Some((c, p@)),
                None => astar_route(self.edges(), self.planner_costs(), self.planner_estimates(dest), start, dest).is_none(),
            },
            r matches Some((c, p)) ==> is_walk(self.edges(), p@, start, dest),
            (start < self.nodes().len() && dest < self.nodes().len() && self.planner_fits(dest)) ==> (
                r.is_none() <==> !reachable(self.edges(), start, dest)),
            r matches Some((c, p)) ==> c as int == walk_cost(self.edges(), self.planner_costs(), p@),
            r.is_some() && admissible(self.edges(), self.planner_costs(), self.planner_estimates(dest), dest)
                ==> forall|q: Seq<usize>| #[trigger] is_walk(self.edges(), q, start, dest)
                ==> r.unwrap().0 as int <= walk_cost(self.edges(), self.planner_costs(), q),
    {
        let n = self.road.node_count();
        if start >= n || dest >= n {
            return None;
        }
        let m = self.road.edge_count();
        let mut costs: Vec<usize> = Vec::new();
        let mut total: usize = 0;
        let mut e: usize = 0;
        while e < m
            invariant
                self.wf(),
                m == self.road.edges().len(),
                e <= m,
                costs@.len() == e,
                forall|k: int| 0 <= k < e ==> #[trigger] costs@[k] as int == self.edge_cost_spec(k),
                forall|k: int| 0 <= k < e ==> self.edge_cost_spec(k) <= usize::MAX,
                total == cost_sum(costs@),
            decreases m - e,
        {
            let rails = self.road.edge_rails(e);
            let (_, target) = self.road.edge_endpoints(e);
            assert(rails@ == self.road.rails()[e as int]);
            assert(target == self.road.edges()[e as int].1);
            let nc = self.node_cost(target);
            let step = match rails_cost_checked(&rails) {
                Some(rc) => {
                    assert(rc as int == rails_cost(self.road.rails()[e as int]));
                    if rc <= usize::MAX - nc {
                        Some(rc + nc)
                    } else {
                        None
                    }
                },
                None => None,
            };
            let step = match step {
                Some(v) => v,
                None => {
                    assert(!(self.edge_cost_spec(e as int) <= usize::MAX));
                    return None;
                },
            };
            assert(step as int == self.edge_cost_spec(e as int));
            let ghost before = costs@;
            costs.push(step);
            assert(costs@.drop_last() =~= before);
            match total.checked_add(step) {
                Some(t) => total = t,
                None => {
                    proof {
                        assert forall|k: int| 0 <= k < costs@.len() implies #[trigger] costs@[k] == self.planner_costs()[k] by {}
                        let pc = self.planner_costs();
                        assert(pc.subrange(0, costs@.len() as int) =~= costs@);
                        lemma_cost_sum_prefix(pc, costs@.len() as int);
                        assert(!(cost_sum(pc) + self.planner_estimates(dest)[0] <= usize::MAX));
                    }
                    return None;
                },
            }
            e = e + 1;
        }
        assert(costs@ =~= self.planner_costs());
        let goal = self.coord_of(dest);
        let mut estimates: Vec<usize> = Vec::new();
        let mut v: usize = 0;
        while v < n
            invariant
                self.wf(),
                n == self.road.nodes().len(),
                dest < n,
                goal == self.node_coord(dest),
                v <= n,
                estimates@.len() == v,
                total == cost_sum(self.planner_costs()),
                forall|k: int| 0 <= k < v ==> #[trigger] estimates@[k] == self.planner_estimates(dest)[k],
                forall|k: int| 0 <= k < v ==> manhattan(#[trigger] self.node_coord(k as usize), self.node_coord(dest)) <= usize::MAX,
                forall|k: int| 0 <= k < v ==> total + #[trigger] self.planner_estimates(dest)[k] <= usize::MAX,
            decreases n - v,
        {
            let here = self.coord_of(v);
            let est = match here.checked_manhattan_distance(&goal) {
                Some(d) => d,
                None => {
                    assert(!(manhattan(self.node_coord(v), self.node_coord(dest)) <= usize::MAX));
                    return None;
                },
            };
            assert(self.planner_estimates(dest)[v as int] == est);
            if total.checked_add(est).is_none() {
                assert(!(cost_sum(self.planner_costs()) + self.planner_estimates(dest)[v as int] <= usize::MAX));
                return None;
            }
            estimates.push(est);
            v = v + 1;
        }
        assert(estimates@ =~= self.planner_estimates(dest));
        self.road.astar(start, dest, &costs, &estimates)
    }

    /// The grace period of the sensor `sensor` ran out (see `Sensor::grace_elapsed`). When it
    /// lets go of a train, the blocks that train has left are freed and served.
    pub fn sensor_grace_elapsed(&mut self, sensor: Address) -> (r: Vec<Message>)
        requires
            old(self).wf(),
        ensures
            final(self).wf(),
            final(self).nodes() == old(self).nodes(),
            final(self).edges() == old(self).edges(),
            old(self).grace_outcome(*final(self), sensor, r@),
    {
        let i = match self.sensor_slot(sensor) {
            Some(i) => i,
            None => return Vec::new(),
        };
        if !self.sensors[i].grace_pending() {
            return Vec::new();
        }
        let mut s = self.sensors[i];
        let freed = s.grace_elapsed();
        self.sensors.set(i, s);
        let ghost mid = *self;
        match freed {
            Some(t) => self.release_blocks(sensor, t),
            None => Vec::new(),
        }
    }

    /// The command station reports that the switch `switch` stands in `dir` (see
    /// `Switch::ack_switch_state`).
    pub fn ack_switch_state(&mut self, switch: Address, dir: SwDir) -> (r: Vec<Message>)
        requires
            old(self).wf(),
        ensures
            final(self).wf(),
            final(self).nodes() == old(self).nodes(),
            final(self).edges() == old(self).edges(),
            old(self).ack_outcome(*final(self), switch, dir, r@),
    {
        let k = match self.switch_slot(switch) {
            Some(k) => k,
            None => return Vec::new(),
        };
        let mut sw = self.switches[k];
        let cmd = sw.ack_switch_state(dir);
        self.switches.set(k, sw);
        proof {
            assert forall|a: int, b: int| 0 <= a < b < self.switches@.len() implies
                (#[trigger] self.switches@[a]).address_spec() != (#[trigger] self.switches@[b]).address_spec() by {
                if a == k as int || b == k as int {
                    assert(self.switches@[k as int].address_spec() == sw.address_spec());
                }
            }
        }
        match cmd {
            Some(m) => {
                let v = vec![m];
                assert(v@ =~= seq![m]);
                v
            },
            None => Vec::new(),
        }
    }

    /// The nearest signal behind node `node`: the first signal that a breadth-first search
    /// from `node` against the edge directions meets.
    pub fn get_signal_of_block(&self, node: usize) -> (r: Option<usize>)
        requires
            self.wf(),
        ensures
            node >= self.nodes().len() ==> r.is_none(),
            node < self.nodes().len() ==> r == first_signal_node(reverse_bfs_order(self.edges(), node), self.nodes()),
    {
        if node >= self.road.node_count() {
            return None;
        }
        let order = self.road.reverse_bfs(node);
        let mut k: usize = 0;
        assert(order@.subrange(0, order@.len() as int) =~= order@);
        while k < order.len()
            invariant
                node < self.road.nodes().len(),
                k <= order@.len(),
                order@ == reverse_bfs_order(self.road.edges(), node),
                first_signal_node(order@, self.road.nodes()) == first_signal_node(order@.subrange(k as int, order@.len() as int), self.road.nodes()),
            decreases order@.len() - k,
        {
            let ghost sub = order@.subrange(k as int, order@.len() as int);
            assert(sub.drop_first() =~= order@.subrange(k + 1, order@.len() as int));
            if let Some(Node::Signal(..)) = self.road.node_weight(order[k]) {
                return Some(order[k]);
            }
            k = k + 1;
        }
        None
    }

    /// Plans a route for `train` from its position to `dest` and stores it, cut after its last
    /// sensor or station (see `shortest_path` and `Train::store_route`). Returns whether a
    /// route was found.
    pub fn trigger_drive_to(&mut self, train: Address, dest: usize) -> (r: bool)
        requires
            old(self).wf(),
        ensures
            final(self).wf(),
            final(self).nodes() == old(self).nodes(),
            final(self).edges() == old(self).edges(),
            old(self).drive_to_outcome(*final(self), train, dest, r),
    {
        let i = match self.train_slot(train) {
            Some(i) => i,
            None => return false,
        };
        let start = self.trains[i].position();
        let path = match self.shortest_path(start, dest) {
            Some((_, p)) => p,
            None => return false,
        };
        let ghost before = self.trains@;
        self.trains[i].store_route(&path, &self.road);
        proof {
            assert forall|a: int, b: int| 0 <= a < b < self.trains@.len() implies
                (#[trigger] self.trains@[a]).address_spec() != (#[trigger] self.trains@[b]).address_spec() by {
                assert(self.trains@[a].address_spec() == before[a].address_spec());
                assert(self.trains@[b].address_spec() == before[b].address_spec());
            }
            assert(old(self).only_train_changed(*self, i as int));
        }
        true
    }

    /// Places `train` anew at node `node` and asks the signal behind it (see
    /// `get_signal_of_block`) for that block; when that grants the block to the train at once,
    /// the train also asks for its next block (see `reset_outcome`).
    pub fn reset_position(&mut self, train: Address, node: usize) -> (r: Vec<Message>)
        requires
            old(self).wf(),
        ensures
            final(self).wf(),
            final(self).nodes() == old(self).nodes(),
            final(self).edges() == old(self).edges(),
            old(self).reset_result(*final(self), train, node, r@),
    {
        let i = match self.train_slot(train) {
            Some(i) => i,
            None => return Vec::new(),
        };
        let ghost before = self.trains@;
        self.trains[i].set_position(node);
        proof {
            assert forall|a: int, b: int| 0 <= a < b < self.trains@.len() implies
                (#[trigger] self.trains@[a]).address_spec() != (#[trigger] self.trains@[b]).address_spec() by {
                assert(self.trains@[a].address_spec() == before[a].address_spec());
                assert(self.trains@[b].address_spec() == before[b].address_spec());
            }
            assert(old(self).only_train_changed(*self, i as int));
        }
        let ghost m1 = *self;
        proof {
            if node < self.road.nodes().len() {
                lemma_first_signal_node(reverse_bfs_order(self.road.edges(), node), self.road.nodes());
            }
        }
        let sig_node = match self.get_signal_of_block(node) {
            Some(n) => n,
            None => {
                assert(old(self).reset_steps(m1, *self, i as int, node, train, Seq::<Message>::empty()));
                assert(train_index(old(self).trains@, train).unwrap() == i as int);
                return Vec::new();
            },
        };
        let sig = match self.road.node_weight(sig_node) {
            Some(Node::Signal(a, _)) => a,
            _ => {
                assert(false);
                return Vec::new();
            },
        };
        let mut out = self.request_block(sig, train);
        let ghost m2 = *self;
        let ghost r1 = out@;
        if out.len() > 0 && out[out.len() - 1] == Message::TrainGranted(sig, train) {
            let mut more = self.request_next_block(train);
            let ghost r2 = more@;
            out.append(&mut more);
            assert(out@.subrange(0, r1.len() as int) =~= r1);
            assert(out@.subrange(r1.len() as int, out@.len() as int) =~= r2);
        }
        assert(old(self).reset_steps(m1, *self, i as int, node, train, out@));
        assert(train_index(old(self).trains@, train).unwrap() == i as int);
        out
    }

    /// Commands `train` to `speed` (see `Train::set_speed`); returns the speed messages to
    /// send, one per ramp tick.
    pub fn set_speed(&mut self, train: Address, speed: Speed) -> (r: Vec<Message>)
        requires
            old(self).wf(),
        ensures
            final(self).wf(),
            final(self).nodes() == old(self).nodes(),
            final(self).edges() == old(self).edges(),
            speed == Speed::EmergencyStop && r@.len() > 0 ==> r@ == seq![Message::TrainSpeed(train, Speed::EmergencyStop)],
            forall|k: int| 0 <= k < r@.len() ==> (#[trigger] r@[k]) is TrainSpeed,
            match train_index(old(self).trains_spec(), train) {
                None => r@.len() == 0 && *final(self) == *old(self),
                Some(i) => {
                    let live = old(self).trains_spec()[i].live_speed_spec();
                    &&& final(self).trains_spec()[i].speed_spec() == speed
                    &&& final(self).trains_spec()[i].ramp_spec() == crate::train::next_ramp(old(self).trains_spec()[i].ramp_spec())
                    &&& r@.len() > 0
                    &&& r@.last() == Message::TrainSpeed(train, speed)
                    &&& speed == Speed::EmergencyStop ==> r@.len() == 1
                    &&& speed != Speed::EmergencyStop ==> {
                        &&& r@[0] == Message::TrainSpeed(train, ramp_step_spec(live, speed).0)
                        &&& forall|k: int| 0 <= k < r@.len() - 1 ==> (#[trigger] r@[k + 1]) == Message::TrainSpeed(
                            train,
                            ramp_step_spec(speed_sent(r@[k]), speed).0,
                        )
                        &&& forall|k: int| 0 <= k < r@.len() ==> #[trigger] between(speed_sent(r@[k]), live, speed)
                    }
                },
            },
    {
        let i = match self.train_slot(train) {
            Some(i) => i,
            None => return Vec::new(),
        };
        let ghost before = self.trains@;
        let speeds = self.trains[i].set_speed(speed);
        proof {
            assert forall|a: int, b: int| 0 <= a < b < self.trains@.len() implies
                (#[trigger] self.trains@[a]).address_spec() != (#[trigger] self.trains@[b]).address_spec() by {
                assert(self.trains@[a].address_spec() == before[a].address_spec());
                assert(self.trains@[b].address_spec() == before[b].address_spec());
            }
        }
        let mut out: Vec<Message> = Vec::new();
        let mut k: usize = 0;
        while k < speeds.len()
            invariant
                k <= speeds@.len(),
                out@.len() == k,
                forall|x: int| 0 <= x < k ==> #[trigger] out@[x] == Message::TrainSpeed(train, speeds@[x]),
            decreases speeds@.len() - k,
        {
            out.push(Message::TrainSpeed(train, speeds[k]));
            k = k + 1;
        }
        proof {
            if speed == Speed::EmergencyStop {
                assert(out@ =~= seq![Message::TrainSpeed(train, Speed::EmergencyStop)]);
            }
        }
        out
    }

    /// Records the speed last sent for `train`.
    pub fn speed_published(&mut self, train: Address, speed: Speed)
        requires
            old(self).wf(),
        ensures
            final(self).wf(),
            final(self).nodes() == old(self).nodes(),
            final(self).edges() == old(self).edges(),
            match train_index(old(self).trains_spec(), train) {
                None => *final(self) == *old(self),
                Some(i) => {
                    &&& final(self).nodes() == old(self).nodes()
                    &&& final(self).sensors_spec() == old(self).sensors_spec()
                    &&& final(self).signals_spec() == old(self).signals_spec()
                    &&& final(self).switches_spec() == old(self).switches_spec()
                    &&& final(self).trains_spec().len() == old(self).trains_spec().len()
                    &&& forall|j: int| 0 <= j < old(self).trains_spec().len() && j != i
                        ==> #[trigger] final(self).trains_spec()[j] == old(self).trains_spec()[j]
                    &&& final(self).trains_spec()[i].address_spec() == train
                    &&& final(self).trains_spec()[i].live_speed_spec() == speed
                    &&& final(self).trains_spec()[i].ramp_spec() == old(self).trains_spec()[i].ramp_spec()
                    &&& final(self).trains_spec()[i].speed_spec() == old(self).trains_spec()[i].speed_spec()
                    &&& final(self).trains_spec()[i].position_spec() == old(self).trains_spec()[i].position_spec()
                    &&& final(self).trains_spec()[i].route_spec() == old(self).trains_spec()[i].route_spec()
                },
            },
    {
        if let Some(i) = self.train_slot(train) {
            let ghost before = self.trains@;
            self.trains[i].speed_published(speed);
            proof {
                assert forall|a: int, b: int| 0 <= a < b < self.trains@.len() implies
                    (#[trigger] self.trains@[a]).address_spec() != (#[trigger] self.trains@[b]).address_spec() by {
                    assert(self.trains@[a].address_spec() == before[a].address_spec());
                    assert(self.trains@[b].address_spec() == before[b].address_spec());
                }
            }
        }
    }

    /// Records that a ramp step of `train` with generation `ramp` is sent, if that ramp is
    /// still the one in force; returns whether it is. A step of a ramp that a later
    /// `set_speed` replaced, an emergency stop among them, is refused and changes nothing.
    pub fn publish_ramp_step(&mut self, train: Address, ramp: u64, speed: Speed) -> (r: bool)
        requires
            old(self).wf(),
        ensures
            final(self).wf(),
            final(self).nodes() == old(self).nodes(),
            final(self).edges() == old(self).edges(),
            r == (train_index(old(self).trains_spec(), train) matches Some(i) && old(self).trains_spec()[i].ramp_spec() == ramp),
            !r ==> *final(self) == *old(self),
            r ==> (train_index(old(self).trains_spec(), train) matches Some(i)
                && final(self).trains_spec()[i].live_speed_spec() == speed
                && final(self).trains_spec()[i].ramp_spec() == ramp),
    {
        let i = match self.train_slot(train) {
            Some(i) => i,
            None => return false,
        };
        if self.trains[i].ramp() != ramp {
            return false;
        }
        self.speed_published(train, speed);
        true
    }

    /// Handles a message from the bus: a sensor level goes to `handle_sensor_level`, a switch
    /// acknowledgement to `ack_switch_state`; the others need nothing here. Returns the
    /// messages this publishes.
    pub fn handle_message(&mut self, msg: Message) -> (r: Vec<Message>)
        requires
            old(self).wf(),
        ensures
            final(self).wf(),
            final(self).nodes() == old(self).nodes(),
            final(self).edges() == old(self).edges(),
            match msg {
                Message::UpdateSensor(a, level) => old(self).level_outcome(*final(self), a, level, r@),
                Message::SwitchAck(a, dir) => old(self).ack_outcome(*final(self), a, dir, r@),
                _ => r@.len() == 0 && *final(self) == *old(self),
            },
    {
        match msg {
            Message::UpdateSensor(a, level) => self.handle_sensor_level(a, level),
            Message::SwitchAck(a, dir) => self.ack_switch_state(a, dir),
            _ => Vec::new(),
        }
    }

    /// Whether a timetable condition holds now.
    pub fn reason_fulfilled(&self, r: crate::timetable::WaitingReasons) -> (res: bool)
        requires
            self.wf(),
        ensures
            res == crate::timetable::reason_holds(r, *self),
    {
        match r {
            crate::timetable::WaitingReasons::Time(d) => d == 0,
            crate::timetable::WaitingReasons::TrainOnSensor(t, s) => match self.sensor_slot(s) {
                Some(i) => self.sensors[i].train() == Some(t),
                None => false,
            },
            crate::timetable::WaitingReasons::TrainHoldInStation(t, s) => match self.sensor_slot(s) {
                Some(i) => self.sensors[i].train() == Some(t) && self.train_stands(t) == Some(true),
                None => false,
            },
        }
    }

    /// The first node that is the sensor or station `adr` at `pos`.
    pub fn get_sensor_index(&self, adr: Address, pos: Position) -> (r: Option<usize>)
        requires
            self.wf(),
        ensures
            r matches Some(n) ==> sensor_node_at(self.nodes(), adr, pos, n as int)
                && forall|m: int| 0 <= m < n ==> !#[trigger] sensor_node_at(self.nodes(), adr, pos, m),
            r is None ==> forall|m: int| !#[trigger] sensor_node_at(self.nodes(), adr, pos, m),
    {
        let n = self.road.node_count();
        let mut k: usize = 0;
        while k < n
            invariant
                n == self.road.nodes().len(),
                k <= n,
                forall|m: int| 0 <= m < k ==> !#[trigger] sensor_node_at(self.road.nodes(), adr, pos, m),
            decreases n - k,
        {
            match self.road.node_weight(k) {
                Some(Node::Sensor(a, p)) => {
                    if a == adr && p == pos {
                        return Some(k);
                    }
                },
                Some(Node::Station(a, p)) => {
                    if a == adr && p == pos {
                        return Some(k);
                    }
                },
                _ => {},
            }
            k = k + 1;
        }
        None
    }

    /// The first node that is the switch `adr` at `pos`.
    pub fn get_switch_index(&self, adr: Address, pos: Position) -> (r: Option<usize>)
        requires
            self.wf(),
        ensures
            r matches Some(n) ==> switch_node_at(self.nodes(), adr, pos, n as int)
                && forall|m: int| 0 <= m < n ==> !#[trigger] switch_node_at(self.nodes(), adr, pos, m),
            r is None ==> forall|m: int| !#[trigger] switch_node_at(self.nodes(), adr, pos, m),
    {
        let n = self.road.node_count();
        let mut k: usize = 0;
        while k < n
            invariant
                n == self.road.nodes().len(),
                k <= n,
                forall|m: int| 0 <= m < k ==> !#[trigger] switch_node_at(self.road.nodes(), adr, pos, m),
            decreases n - k,
        {
            if let Some(Node::Switch(a, p, ..)) = self.road.node_weight(k) {
                if a == adr && p == pos {
                    return Some(k);
                }
            }
            k = k + 1;
        }
        None
    }

    /// Plans the route of `train` to the node of sensor `dest` at `pos` (see
    /// `trigger_drive_to`); `false` when there is no such node or no route.
    pub fn trigger_drive_to_sensor(&mut self, train: Address, dest: Address, pos: Position) -> (r: bool)
        requires
            old(self).wf(),
        ensures
            final(self).wf(),
            final(self).nodes() == old(self).nodes(),
            final(self).edges() == old(self).edges(),
            (forall|m: int| !#[trigger] sensor_node_at(old(self).nodes(), dest, pos, m)) ==> !r && *final(self) == *old(self),
            forall|n: int| #[trigger] sensor_node_at(old(self).nodes(), dest, pos, n)
                && (forall|m: int| 0 <= m < n ==> !#[trigger] sensor_node_at(old(self).nodes(), dest, pos, m))
                ==> old(self).drive_to_outcome(*final(self), train, n as usize, r),
    {
        match self.get_sensor_index(dest, pos) {
            Some(n) => self.trigger_drive_to(train, n),
            None => false,
        }
    }

    /// Serves the signal `signal` again once no train holds its block.
    pub fn update(&mut self, signal: Address) -> (r: Vec<Message>)
        requires
            old(self).wf(),
        ensures
            final(self).wf(),
            final(self).nodes() == old(self).nodes(),
            final(self).edges() == old(self).edges(),
            match signal_index(old(self).signals_spec(), signal) {
                Some(k) => if old(self).signals_spec()[k].trains_spec().len() == 0 {
                    old(self).grant_outcome(*final(self), k, r@)
                } else {
                    r@.len() == 0 && *final(self) == *old(self)
                },
                None => r@.len() == 0 && *final(self) == *old(self),
            },
    {
        match self.signal_slot(signal) {
            Some(k) => if self.signals[k].trains().len() == 0 {
                self.try_grant(k)
            } else {
                Vec::new()
            },
            None => Vec::new(),
        }
    }
}

/// At most one grant per block: while a sensor of a signal's block is held by some train,
/// the signal grants its block to no other train, whatever its kind. A peer signal into the
/// same block, whose grant reserved that sensor, thus excludes it.
pub proof fn lemma_held_block_refused(rr: Railroad, slot: int, k: int)
    requires
        0 <= slot < rr.signals_spec().len(),
        0 <= k < rr.signals_spec()[slot].block_sensors_spec().len(),
        rr.signals_spec()[slot].requesters_spec().len() > 0,
        sensor_index(rr.sensors_spec(), rr.signals_spec()[slot].block_sensors_spec()[k]) matches Some(i)
            && rr.sensors_spec()[i].train_spec() matches Some(holder)
            && holder != rr.signals_spec()[slot].requesters_spec()[0]
            && rr.sensors_spec()[i].wf(),
    ensures
        rr.grant_road_spec(slot).is_none(),
{
    let sig = rr.signals@[slot];
    assert(!block_free(rr.sensors@, sig.block_sensors_spec(), sig.requesters_spec()[0])) by {
        let a = sig.block_sensors_spec()[k];
        assert(sensor_index(rr.sensors@, a) == sensor_index(rr.sensors@, sig.block_sensors_spec()[k]));
    }
}

/// At most one grant per block, from the side of the peers: a signal grants only while no
/// other signal leading into its block holds a grant.
pub proof fn lemma_grant_needs_idle_peers(rr: Railroad, slot: int, queue: Seq<Address>)
    requires
        0 <= slot < rr.signals_spec().len(),
        rr.grant_road_for(slot, queue).is_some(),
    ensures
        peers_idle(rr.signals_spec(), rr.signals_spec()[slot].peers_spec()),
        rr.signals_spec()[slot].status_spec() == Status::Free,
{
}

} // verus!
