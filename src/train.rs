//! The train controller: speed commands, the stored route and its progression.
use vstd::prelude::*;
use std::collections::VecDeque;
use crate::speed::{between, ramp_step_spec, speed_ramp, Address, Speed};
use crate::topology::{driveable, is_signal, Node, RoadGraph};

verus! {

/// How many granted signals a train keeps reserved ahead of itself.
pub const LOOKAHEAD: usize = 1;

/// Whether node index `i` is a sensor or station of `nodes`.
pub open spec fn driveable_at(nodes: Seq<Node>, i: usize) -> bool {
    i < nodes.len() && driveable(nodes[i as int])
}

/// Whether node index `i` is a signal of `nodes`.
pub open spec fn signal_at(nodes: Seq<Node>, i: usize) -> bool {
    i < nodes.len() && is_signal(nodes[i as int])
}

/// How many leading entries of `path` to keep so that it ends at its last sensor or station:
/// that entry's position plus one, or zero when the path has none.
pub open spec fn driveable_prefix_len(path: Seq<usize>, nodes: Seq<Node>) -> nat
    decreases path.len(),
{
    if path.len() == 0 {
        0
    } else if driveable_at(nodes, path.last()) {
        path.len()
    } else {
        driveable_prefix_len(path.drop_last(), nodes)
    }
}

/// `path` cut after its last sensor or station.
pub open spec fn truncated(path: Seq<usize>, nodes: Seq<Node>) -> Seq<usize> {
    path.subrange(0, driveable_prefix_len(path, nodes) as int)
}

proof fn lemma_prefix_len(path: Seq<usize>, nodes: Seq<Node>)
    ensures
        driveable_prefix_len(path, nodes) <= path.len(),
        driveable_prefix_len(path, nodes) > 0 ==> driveable_at(
            nodes,
            path[driveable_prefix_len(path, nodes) - 1],
        ),
    decreases path.len(),
{
    if path.len() > 0 && !driveable_at(nodes, path.last()) {
        lemma_prefix_len(path.drop_last(), nodes);
    }
}

/// Cuts a planned path after its last sensor or station, since a train can stop only there.
pub fn truncate_route(path: &Vec<usize>, road: &RoadGraph) -> (r: Vec<usize>)
    ensures
        r@ == truncated(path@, road.nodes()),
        r@.len() > 0 ==> driveable_at(road.nodes(), r@.last()),
{
    proof {
        lemma_prefix_len(path@, road.nodes());
    }
    let mut k: usize = path.len();
    assert(path@.subrange(0, k as int) =~= path@);
    loop
        invariant
            k <= path@.len(),
            driveable_prefix_len(path@, road.nodes()) == driveable_prefix_len(path@.subrange(0, k as int), road.nodes()),
        ensures
            k == driveable_prefix_len(path@, road.nodes()),
        decreases k,
    {
        if k == 0 {
            break;
        }
        let node = path[k - 1];
        let keep = match road.node_weight(node) {
            Some(n) => n.is_driveable(),
            None => false,
        };
        assert(path@.subrange(0, k as int).last() == node);
        if keep {
            break;
        }
        assert(path@.subrange(0, k as int).drop_last() =~= path@.subrange(0, k - 1));
        k = k - 1;
    }
    let mut out: Vec<usize> = Vec::new();
    let mut i: usize = 0;
    while i < k
        invariant
            k <= path@.len(),
            i <= k,
            out@ == path@.subrange(0, i as int),
        decreases k - i,
    {
        out.push(path[i]);
        i = i + 1;
        assert(out@ =~= path@.subrange(0, i as int));
    }
    proof {
        if k > 0 {
            assert(path@.subrange(0, k as int).drop_last() =~= path@.subrange(0, k - 1));
        }
    }
    out
}

/// A train: its commanded speed, the speed last sent to the track, the node of the sensor it
/// last entered, and its route as `(node, granted)` entries.
#[derive(Debug)]
pub struct Train {
    address: Address,
    speed: Speed,
    live_speed: Speed,
    ramp: u64,
    position: usize,
    route: Option<VecDeque<(usize, bool)>>,
}

/// A stored route ends at a sensor or station: the path cut after its last one is empty or
/// ends at a sensor or station.
pub proof fn lemma_route_ends_driveable(path: Seq<usize>, nodes: Seq<Node>)
    ensures
        truncated(path, nodes).len() > 0 ==> driveable_at(nodes, truncated(path, nodes).last()),
{
    lemma_prefix_len(path, nodes);
    let t = truncated(path, nodes);
    if t.len() > 0 {
        assert(t.last() == path[driveable_prefix_len(path, nodes) - 1]);
    }
}

/// The generation after `g`; it differs from `g`.
pub open spec fn next_ramp(g: u64) -> u64 {
    if g == u64::MAX { 0 } else { (g + 1) as u64 }
}

/// Emergency stop preempts a ramp: every `set_speed` moves the train to a generation other
/// than the one before, so a step of the replaced ramp no longer matches it and
/// `Railroad::publish_ramp_step` refuses it.
pub proof fn lemma_new_ramp_differs(g: u64)
    ensures
        next_ramp(g) != g,
{
}

/// The route entries for a path, none granted yet.
pub open spec fn fresh_entries(path: Seq<usize>) -> Seq<(usize, bool)> {
    path.map_values(|i: usize| (i, false))
}

/// The index of the first entry of `route` whose node is a sensor or station other than the
/// train's `position`: the next sensor ahead of the train.
pub open spec fn first_driveable(route: Seq<(usize, bool)>, nodes: Seq<Node>, position: usize) -> Option<int>
    decreases route.len(),
{
    if route.len() == 0 {
        None
    } else if driveable_at(nodes, route[0].0) && route[0].0 != position {
        Some(0)
    } else {
        match first_driveable(route.drop_first(), nodes, position) {
            Some(k) => Some(k + 1),
            None => None,
        }
    }
}

/// The signal entries of `route` that `request_next_block` looks at: how many granted signals
/// come before the first signal not granted yet, and that signal's node.
pub open spec fn lookahead_scan(route: Seq<(usize, bool)>, nodes: Seq<Node>) -> (nat, Option<usize>)
    decreases route.len(),
{
    if route.len() == 0 {
        (0, None)
    } else if signal_at(nodes, route[0].0) {
        if route[0].1 {
            let rest = lookahead_scan(route.drop_first(), nodes);
            (rest.0 + 1, rest.1)
        } else {
            (0, Some(route[0].0))
        }
    } else {
        lookahead_scan(route.drop_first(), nodes)
    }
}

/// The index of the first node of `path` that is a signal.
pub open spec fn first_signal(path: Seq<usize>, nodes: Seq<Node>) -> Option<int>
    decreases path.len(),
{
    if path.len() == 0 {
        None
    } else if signal_at(nodes, path[0]) {
        Some(0)
    } else {
        match first_signal(path.drop_first(), nodes) {
            Some(k) => Some(k + 1),
            None => None,
        }
    }
}

/// The part of `path` after index `j` up to and including the next signal, or to the end.
pub open spec fn segment_after(path: Seq<usize>, j: int, nodes: Seq<Node>) -> Seq<usize> {
    let rest = path.subrange(j + 1, path.len() as int);
    match first_signal(rest, nodes) {
        Some(e) => rest.subrange(0, e + 1),
        None => rest,
    }
}

/// The node indices of route entries.
pub open spec fn entry_nodes(route: Seq<(usize, bool)>) -> Seq<usize> {
    route.map_values(|e: (usize, bool)| e.0)
}

/// The first index of `route` whose node is `node`.
pub open spec fn index_of_node(route: Seq<(usize, bool)>, node: usize) -> Option<int>
    decreases route.len(),
{
    if route.len() == 0 {
        None
    } else if route[0].0 == node {
        Some(0)
    } else {
        match index_of_node(route.drop_first(), node) {
            Some(k) => Some(k + 1),
            None => None,
        }
    }
}

impl Train {
    pub closed spec fn address_spec(&self) -> Address {
        self.address
    }

    /// The speed last commanded.
    pub closed spec fn speed_spec(&self) -> Speed {
        self.speed
    }

    /// The speed last sent to the track.
    /// The generation of the speed command in force; each `set_speed` starts a new one.
    pub closed spec fn ramp_spec(&self) -> u64 {
        self.ramp
    }

    pub closed spec fn live_speed_spec(&self) -> Speed {
        self.live_speed
    }

    pub closed spec fn position_spec(&self) -> usize {
        self.position
    }

    pub closed spec fn route_spec(&self) -> Option<Seq<(usize, bool)>> {
        match self.route {
            Some(r) => Some(r@),
            None => None,
        }
    }

    /// A standing train at `position`, without a route.
    pub closed spec fn new_spec(address: Address, position: usize) -> Train {
        Train { address, speed: Speed::Stop, live_speed: Speed::Stop, ramp: 0, position, route: None }
    }

    /// A standing train at the sensor node `position`, without a route.
    pub fn new(address: Address, position: usize) -> (r: Train)
        ensures
            r == Train::new_spec(address, position),
            r.address_spec() == address,
            r.position_spec() == position,
            r.speed_spec() == Speed::Stop,
            r.live_speed_spec() == Speed::Stop,
            r.route_spec().is_none(),
    {
        Train { address, speed: Speed::Stop, live_speed: Speed::Stop, ramp: 0, position, route: None }
    }

    pub fn address(&self) -> (r: Address)
        ensures
            r == self.address_spec(),
    {
        self.address
    }

    pub fn position(&self) -> (r: usize)
        ensures
            r == self.position_spec(),
    {
        self.position
    }

    pub fn speed(&self) -> (r: Speed)
        ensures
            r == self.speed_spec(),
    {
        self.speed
    }

    pub fn live_speed(&self) -> (r: Speed)
        ensures
            r == self.live_speed_spec(),
    {
        self.live_speed
    }

    /// Whether the train was told to stop.
    pub fn stands(&self) -> (r: bool)
        ensures
            r == (self.speed_spec() == Speed::Stop || self.speed_spec() == Speed::EmergencyStop),
    {
        self.speed == Speed::Stop || self.speed == Speed::EmergencyStop
    }

    /// The route entries, if the train has a route.
    pub fn route(&self) -> (r: Option<Vec<(usize, bool)>>)
        ensures
            r.is_some() == self.route_spec().is_some(),
            r.is_some() ==> r.unwrap()@ == self.route_spec().unwrap(),
    {
        match &self.route {
            Some(q) => {
                let mut out: Vec<(usize, bool)> = Vec::new();
                let mut i: usize = 0;
                while i < q.len()
                    invariant
                        i <= q@.len(),
                        out@ == q@.subrange(0, i as int),
                    decreases q@.len() - i,
                {
                    out.push(q[i]);
                    i = i + 1;
                    assert(out@ =~= q@.subrange(0, i as int));
                }
                assert(out@ =~= q@);
                Some(out)
            },
            None => None,
        }
    }

    /// Commands a new speed and returns the speeds to send, in order. An emergency stop is
    /// sent at once and alone; any other target is reached by a ramp from the speed last sent,
    /// whose every step lies between that speed and the target and whose last step is the
    /// target.
    pub fn set_speed(&mut self, target: Speed) -> (r: Vec<Speed>)
        ensures
            final(self).speed_spec() == target,
            final(self).live_speed_spec() == old(self).live_speed_spec(),
            final(self).address_spec() == old(self).address_spec(),
            final(self).ramp_spec() == next_ramp(old(self).ramp_spec()),
            final(self).position_spec() == old(self).position_spec(),
            final(self).route_spec() == old(self).route_spec(),
            target == Speed::EmergencyStop ==> r@ == seq![Speed::EmergencyStop],
            target != Speed::EmergencyStop ==> {
                &&& r@.len() > 0
                &&& r@.last() == target
                &&& forall|i: int| 0 <= i < r@.len() ==> #[trigger] between(r@[i], old(self).live_speed_spec(), target)
                &&& r@[0] == ramp_step_spec(old(self).live_speed_spec(), target).0
                &&& forall|i: int| 0 <= i < r@.len() - 1 ==> #[trigger] r@[i + 1] == ramp_step_spec(r@[i], target).0
                &&& forall|i: int| 0 <= i < r@.len() - 1 ==> #[trigger] between(r@[i + 1], r@[i], target)
            },
    {
        self.speed = target;
        self.ramp = if self.ramp == u64::MAX { 0 } else { self.ramp + 1 };
        if target == Speed::EmergencyStop {
            return vec![Speed::EmergencyStop];
        }
        speed_ramp(self.live_speed, target)
    }

    /// The generation of the speed command in force.
    pub fn ramp(&self) -> (r: u64)
        ensures
            r == self.ramp_spec(),
    {
        self.ramp
    }

    /// Places the train on the node `position`.
    pub fn set_position(&mut self, position: usize)
        ensures
            final(self).position_spec() == position,
            final(self).address_spec() == old(self).address_spec(),
            final(self).ramp_spec() == old(self).ramp_spec(),
            final(self).speed_spec() == old(self).speed_spec(),
            final(self).live_speed_spec() == old(self).live_speed_spec(),
            final(self).route_spec() == old(self).route_spec(),
    {
        self.position = position;
    }

    /// Records the speed last sent to the track.
    pub fn speed_published(&mut self, speed: Speed)
        ensures
            final(self).live_speed_spec() == speed,
            final(self).speed_spec() == old(self).speed_spec(),
            final(self).address_spec() == old(self).address_spec(),
            final(self).ramp_spec() == old(self).ramp_spec(),
            final(self).position_spec() == old(self).position_spec(),
            final(self).route_spec() == old(self).route_spec(),
    {
        self.live_speed = speed;
    }

    /// Stores a planned path as the route, cut after its last sensor or station, each entry not
    /// granted yet.
    pub fn store_route(&mut self, path: &Vec<usize>, road: &RoadGraph)
        ensures
            final(self).route_spec() == Some(fresh_entries(truncated(path@, road.nodes()))),
            final(self).address_spec() == old(self).address_spec(),
            final(self).ramp_spec() == old(self).ramp_spec(),
            final(self).position_spec() == old(self).position_spec(),
            final(self).speed_spec() == old(self).speed_spec(),
            final(self).live_speed_spec() == old(self).live_speed_spec(),
    {
        let cut = truncate_route(path, road);
        let mut q: VecDeque<(usize, bool)> = VecDeque::new();
        let mut i: usize = 0;
        while i < cut.len()
            invariant
                i <= cut@.len(),
                q@ == fresh_entries(cut@.subrange(0, i as int)),
            decreases cut@.len() - i,
        {
            q.push_back((cut[i], false));
            i = i + 1;
            assert(q@ =~= fresh_entries(cut@.subrange(0, i as int)));
        }
        assert(cut@.subrange(0, i as int) =~= cut@);
        self.route = Some(q);
    }

    /// Marks the first route entry at `node` as granted.
    pub fn drive_ok(&mut self, node: usize)
        ensures
            final(self).address_spec() == old(self).address_spec(),
            final(self).ramp_spec() == old(self).ramp_spec(),
            final(self).position_spec() == old(self).position_spec(),
            final(self).speed_spec() == old(self).speed_spec(),
            final(self).live_speed_spec() == old(self).live_speed_spec(),
            final(self).route_spec().is_some() == old(self).route_spec().is_some(),
            old(self).route_spec().is_some() ==> ({
                let before = old(self).route_spec().unwrap();
                let after = final(self).route_spec().unwrap();
                &&& after.len() == before.len()
                &&& forall|k: int| 0 <= k < before.len() ==> (#[trigger] after[k]).0 == before[k].0
                &&& forall|k: int| 0 <= k < before.len() && after[k] != before[k] ==> before[k].0 == node
                &&& forall|k: int|
                    0 <= k < before.len() && #[trigger] before[k].0 == node && (forall|j: int| 0 <= j < k ==> before[j].0 != node)
                        ==> after[k] == (node, true)
            }),
    {
        if self.route.is_none() {
            return;
        }
        let mut q = self.route.take().unwrap();
        let ghost before = q@;
        let mut i: usize = 0;
        while i < q.len()
            invariant
                q@ == before,
                i <= q@.len(),
                forall|k: int| 0 <= k < i ==> (#[trigger] q@[k]).0 != node,
            ensures
                i <= q@.len(),
                forall|k: int| 0 <= k < i ==> (#[trigger] q@[k]).0 != node,
                i < q@.len() ==> q@[i as int].0 == node,
            decreases q@.len() - i,
        {
            if q[i].0 == node {
                break;
            }
            i = i + 1;
        }
        if i < q.len() {
            let _ = q.remove(i);
            q.insert(i, (node, true));
            assert(q@ =~= before.update(i as int, (node, true)));
        }
        self.route = Some(q);
    }

    /// The train entered the sensor node `sensor`. When that is the next sensor or station of
    /// the route (see `first_driveable`), the route is popped up to and including it and it
    /// becomes the new position;
    /// returns whether that happened.
    pub fn sensor_entered(&mut self, sensor: usize, road: &RoadGraph) -> (r: bool)
        ensures
            final(self).address_spec() == old(self).address_spec(),
            final(self).ramp_spec() == old(self).ramp_spec(),
            final(self).speed_spec() == old(self).speed_spec(),
            final(self).live_speed_spec() == old(self).live_speed_spec(),
            r == (match old(self).route_spec() {
                Some(q) => match first_driveable(q, road.nodes(), old(self).position_spec()) {
                    Some(k) => q[k].0 == sensor,
                    None => false,
                },
                None => false,
            }),
            r ==> final(self).position_spec() == sensor && final(self).route_spec() == Some(
                old(self).route_spec().unwrap().subrange(
                    first_driveable(old(self).route_spec().unwrap(), road.nodes(), old(self).position_spec()).unwrap() + 1,
                    old(self).route_spec().unwrap().len() as int,
                ),
            ),
            !r ==> final(self).position_spec() == old(self).position_spec() && final(self).route_spec()
                == old(self).route_spec(),
    {
        if self.route.is_none() {
            return false;
        }
        let pos = self.position;
        let mut q = self.route.take().unwrap();
        let ghost before = q@;
        let mut k: usize = 0;
        assert(before.subrange(0, before.len() as int) =~= before);
        while k < q.len()
            invariant
                q@ == before,
                k <= q@.len(),
                first_driveable(before, road.nodes(), pos) == (match first_driveable(before.subrange(k as int, before.len() as int), road.nodes(), pos) {
                    Some(j) => Some(j + k),
                    None => None,
                }),
            ensures
                k <= q@.len(),
                first_driveable(before, road.nodes(), pos) == (if k < q@.len() { Some(k as int) } else { None }),
            decreases q@.len() - k,
        {
            let sub = Ghost(before.subrange(k as int, before.len() as int));
            assert(sub@.drop_first() =~= before.subrange(k + 1, before.len() as int));
            assert(sub@[0] == q@[k as int]);
            let driveable_here = match road.node_weight(q[k].0) {
                Some(n) => n.is_driveable() && q[k].0 != pos,
                None => false,
            };
            if driveable_here {
                break;
            }
            k = k + 1;
        }
        proof {
            if k == q@.len() {
                assert(before.subrange(k as int, before.len() as int).len() == 0);
            }
        }
        if k == q.len() || q[k].0 != sensor {
            self.route = Some(q);
            return false;
        }
        let mut popped: usize = 0;
        assert(before.subrange(0, before.len() as int) =~= before);
        while popped <= k
            invariant
                popped <= k + 1,
                k < before.len(),
                k < usize::MAX,
                q@ == before.subrange(popped as int, before.len() as int),
            decreases k + 1 - popped,
        {
            let _ = q.pop_front();
            assert(q@ =~= before.subrange(popped + 1, before.len() as int));
            popped = popped + 1;
        }
        self.route = Some(q);
        self.position = sensor;
        true
    }

    /// Which signal to ask for next. Without a route there is none, and an empty route is
    /// dropped. Otherwise the route is scanned for signals: while fewer than `LOOKAHEAD`
    /// granted ones lie before the first signal not granted yet, that signal's node is
    /// returned.
    pub fn request_next_block(&mut self, road: &RoadGraph) -> (r: Option<usize>)
        ensures
            final(self).address_spec() == old(self).address_spec(),
            final(self).ramp_spec() == old(self).ramp_spec(),
            final(self).speed_spec() == old(self).speed_spec(),
            final(self).live_speed_spec() == old(self).live_speed_spec(),
            final(self).position_spec() == old(self).position_spec(),
            final(self).route_spec() == (match old(self).route_spec() {
                Some(q) => if q.len() == 0 { None } else { Some(q) },
                None => None,
            }),
            r == (match old(self).route_spec() {
                Some(q) => {
                    let (count, next) = lookahead_scan(q, road.nodes());
                    if q.len() > 0 && count < LOOKAHEAD { next } else { None }
                },
                None => None,
            }),
    {
        if self.route.is_none() {
            return None;
        }
        let q = self.route.take().unwrap();
        if q.len() == 0 {
            return None;
        }
        let ghost before = q@;
        let mut count: usize = 0;
        let mut next: Option<usize> = None;
        let mut i: usize = 0;
        assert(before.subrange(0, before.len() as int) =~= before);
        while i < q.len()
            invariant_except_break
                next.is_none(),
                lookahead_scan(before, road.nodes()) == ({
                    let rest = lookahead_scan(before.subrange(i as int, before.len() as int), road.nodes());
                    ((rest.0 + count) as nat, rest.1)
                }),
            invariant
                q@ == before,
                i <= q@.len(),
                count <= i,
            ensures
                lookahead_scan(before, road.nodes()) == (count as nat, next),
            decreases q@.len() - i,
        {
            let sub = Ghost(before.subrange(i as int, before.len() as int));
            assert(sub@.drop_first() =~= before.subrange(i + 1, before.len() as int));
            assert(sub@[0] == q@[i as int]);
            let (node, granted) = q[i];
            let here_signal = match road.node_weight(node) {
                Some(Node::Signal(..)) => true,
                _ => false,
            };
            if here_signal {
                if granted {
                    count = count + 1;
                } else {
                    next = Some(node);
                    break;
                }
            }
            i = i + 1;
        }
        proof {
            if i == q@.len() && next.is_none() {
                assert(before.subrange(i as int, before.len() as int).len() == 0);
            }
        }
        self.route = Some(q);
        if count < LOOKAHEAD { next } else { None }
    }

    /// The part of the route after the signal node `signal`, up to and including the next
    /// signal or to the route's end; `None` without a route or when the route does not pass
    /// that signal.
    pub fn request_route(&self, signal: usize, road: &RoadGraph) -> (r: Option<Vec<usize>>)
        ensures
            r.is_some() == (self.route_spec().is_some() && index_of_node(self.route_spec().unwrap(), signal).is_some()),
            r.is_some() ==> r.unwrap()@ == segment_after(
                entry_nodes(self.route_spec().unwrap()),
                index_of_node(self.route_spec().unwrap(), signal).unwrap(),
                road.nodes(),
            ),
    {
        let q = match &self.route {
            Some(q) => q,
            None => return None,
        };
        let ghost route = q@;
        let ghost path = entry_nodes(route);
        let mut j: usize = 0;
        assert(route.subrange(0, route.len() as int) =~= route);
        while j < q.len()
            invariant
                j <= q@.len(),
                q@ == route,
                index_of_node(route, signal) == (match index_of_node(route.subrange(j as int, route.len() as int), signal) {
                    Some(x) => Some(x + j),
                    None => None,
                }),
            ensures
                j <= q@.len(),
                index_of_node(route, signal) == (if j < q@.len() { Some(j as int) } else { None }),
            decreases q@.len() - j,
        {
            let sub = Ghost(route.subrange(j as int, route.len() as int));
            assert(sub@.drop_first() =~= route.subrange(j + 1, route.len() as int));
            assert(sub@[0] == q@[j as int]);
            if q[j].0 == signal {
                break;
            }
            j = j + 1;
        }
        proof {
            if j == q@.len() {
                assert(route.subrange(j as int, route.len() as int).len() == 0);
            }
        }
        if j == q.len() {
            return None;
        }
        let mut out: Vec<usize> = Vec::new();
        let mut i: usize = j + 1;
        let ghost rest = path.subrange(j + 1, path.len() as int);
        assert(rest.subrange(0, rest.len() as int) =~= rest);
        assert(path.len() == route.len());
        loop
            invariant_except_break
                first_signal(rest, road.nodes()) == (match first_signal(rest.subrange(i - j - 1, rest.len() as int), road.nodes()) {
                    Some(x) => Some(x + (i - j - 1)),
                    None => None,
                }),
            invariant
                j < q@.len(),
                j + 1 <= i <= q@.len(),
                q@ == route,
                path == entry_nodes(route),
                path.len() == route.len(),
                rest == path.subrange(j + 1, path.len() as int),
                out@ == rest.subrange(0, i - j - 1),
            ensures
                out@ == segment_after(path, j as int, road.nodes()),
            decreases q@.len() - i,
        {
            if i == q.len() {
                assert(rest.subrange(i - j - 1, rest.len() as int).len() == 0);
                assert(out@ =~= rest);
                break;
            }
            let node = q[i].0;
            let ghost off = i - j - 1;
            let sub = Ghost(rest.subrange(off, rest.len() as int));
            assert(sub@.drop_first() =~= rest.subrange(off + 1, rest.len() as int));
            assert(sub@[0] == node);
            let here_signal = match road.node_weight(node) {
                Some(Node::Signal(..)) => true,
                _ => false,
            };
            out.push(node);
            i = i + 1;
            assert(out@ =~= rest.subrange(0, i - j - 1));
            if here_signal {
                assert(first_signal(sub@, road.nodes()) == Some(0int));
                assert(first_signal(rest, road.nodes()) == Some(off));
                break;
            }
        }
        Some(out)
    }
}

} // verus!
