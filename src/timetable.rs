//! Station stops of a timetable and the conditions a train waits for there.
use vstd::prelude::*;
use crate::railroad::{sensor_index, train_index, Railroad};
use crate::speed::{Address, Speed};

verus! {

/// How the conditions of a decision node combine.
#[derive(Debug, Copy, Clone, PartialEq, Eq, Structural, Hash, PartialOrd, Ord)]
pub enum WaitingReasonOperator {
    AND,
    OR,
    XOR,
    XNOR,
}

/// A condition a train waits for.
#[derive(Debug, Copy, Clone, PartialEq, Eq, Structural, Hash)]
pub enum WaitingReasons {
    /// A waiting time in milliseconds; fulfilled once it is zero.
    Time(u64),
    /// Fulfilled while the train holds the sensor.
    TrainOnSensor(Address, Address),
    /// Fulfilled while the train holds the sensor and stands.
    TrainHoldInStation(Address, Address),
}

/// A node of a decision tree: its own conditions and its child nodes, combined by one
/// operator.
#[derive(Debug)]
pub struct WaitingNode {
    pub connector: WaitingReasonOperator,
    pub waiters: Vec<WaitingReasons>,
    pub childs: Vec<WaitingNode>,
}

/// Whether train `t` holds sensor `s` on the railroad.
pub open spec fn holds(rr: Railroad, t: Address, s: Address) -> bool {
    match sensor_index(rr.sensors_spec(), s) {
        Some(i) => rr.sensors_spec()[i].train_spec() == Some(t),
        None => false,
    }
}

/// Whether train `t` stands on the railroad.
pub open spec fn stands(rr: Railroad, t: Address) -> bool {
    match train_index(rr.trains_spec(), t) {
        Some(j) => rr.trains_spec()[j].speed_spec() == Speed::Stop || rr.trains_spec()[j].speed_spec()
            == Speed::EmergencyStop,
        None => false,
    }
}

/// Whether a condition holds.
pub open spec fn reason_holds(r: WaitingReasons, rr: Railroad) -> bool {
    match r {
        WaitingReasons::Time(d) => d == 0,
        WaitingReasons::TrainOnSensor(t, s) => holds(rr, t, s),
        WaitingReasons::TrainHoldInStation(t, s) => holds(rr, t, s) && stands(rr, t),
    }
}

/// The operator applied to a sequence of values: `AND` all, `OR` any, `XOR` an odd number,
/// `XNOR` all equal (true when empty).
pub open spec fn combine(op: WaitingReasonOperator, vals: Seq<bool>) -> bool {
    match op {
        WaitingReasonOperator::AND => forall|i: int| 0 <= i < vals.len() ==> vals[i],
        WaitingReasonOperator::OR => exists|i: int| 0 <= i < vals.len() && vals[i],
        WaitingReasonOperator::XOR => parity(vals),
        WaitingReasonOperator::XNOR => forall|i: int, j: int| 0 <= i < vals.len() && 0 <= j < vals.len() ==> vals[i] == vals[j],
    }
}

/// Whether an odd number of values is true.
pub open spec fn parity(vals: Seq<bool>) -> bool
    decreases vals.len(),
{
    if vals.len() == 0 { false } else { parity(vals.drop_last()) != vals.last() }
}

/// The result of the node's conditions and the result of its children, joined by the
/// node's operator.
pub open spec fn join_results(op: WaitingReasonOperator, own: bool, kids: bool) -> bool {
    match op {
        WaitingReasonOperator::AND => own && kids,
        WaitingReasonOperator::OR => own || kids,
        WaitingReasonOperator::XOR => own != kids,
        WaitingReasonOperator::XNOR => own == kids,
    }
}

/// The value of a decision node: its conditions combined by its operator, its children's
/// values combined likewise (folded in order, see `children_running`), and the two results
/// joined by the operator once more.
pub open spec fn node_holds(n: WaitingNode, rr: Railroad) -> bool
    decreases n, n.childs@.len() + 1,
{
    let own = combine(n.connector, n.waiters@.map_values(|r: WaitingReasons| reason_holds(r, rr)));
    join_results(n.connector, own, children_running(n, n.childs@.len(), rr).0)
}

/// The running result of `combine` over the values of the first `k` children of `n`.
pub open spec fn children_running(n: WaitingNode, k: nat, rr: Railroad) -> (bool, Option<bool>)
    decreases n, k,
{
    if k == 0 || k > n.childs@.len() {
        running(n.connector, Seq::<bool>::empty())
    } else {
        let before = children_running(n, (k - 1) as nat, rr);
        step_spec(n.connector, before.0, before.1, node_holds(n.childs@[k - 1], rr))
    }
}

/// The running state of `combine` after `vals`: the result, and for `XNOR` the first value.
pub open spec fn running(op: WaitingReasonOperator, vals: Seq<bool>) -> (bool, Option<bool>) {
    (combine(op, vals), if op == WaitingReasonOperator::XNOR && vals.len() > 0 { Some(vals[0]) } else { None })
}

/// Folds one more value into the running result of `combine`: the result so far, and for
/// `XNOR` the first value seen.
fn step(op: WaitingReasonOperator, acc: bool, first: Option<bool>, v: bool) -> (r: (bool, Option<bool>))
    ensures
        r == step_spec(op, acc, first, v),
        forall|vals: Seq<bool>| #[trigger] running(op, vals) == (acc, first) ==> running(op, vals.push(v)) == r,
{
    proof {
        assert forall|vals: Seq<bool>| #[trigger] running(op, vals) == (acc, first) implies running(op, vals.push(v))
            == step_spec(op, acc, first, v) by {
            let w = vals.push(v);
            assert(w.drop_last() =~= vals);
            match op {
                WaitingReasonOperator::AND => {
                    if acc && v {
                        assert forall|i: int| 0 <= i < w.len() implies w[i] by {
                            if i < vals.len() {
                                assert(w[i] == vals[i]);
                            }
                        }
                    } else if !v {
                        assert(!w[vals.len() as int]);
                    } else {
                        let k = choose|k: int| 0 <= k < vals.len() && !vals[k];
                        assert(!w[k]);
                    }
                },
                WaitingReasonOperator::OR => {
                    if acc {
                        let k = choose|k: int| 0 <= k < vals.len() && vals[k];
                        assert(w[k]);
                    } else if v {
                        assert(w[vals.len() as int]);
                    } else {
                        assert forall|i: int| 0 <= i < w.len() implies !w[i] by {
                            if i < vals.len() {
                                assert(w[i] == vals[i]);
                            }
                        }
                    }
                },
                WaitingReasonOperator::XOR => {},
                WaitingReasonOperator::XNOR => {
                    match first {
                        Some(f) => {
                            if acc && f == v {
                                assert forall|i: int, j: int| 0 <= i < w.len() && 0 <= j < w.len() implies w[i] == w[j] by {
                                    if i < vals.len() {
                                        assert(w[i] == vals[i]);
                                    }
                                    if j < vals.len() {
                                        assert(w[j] == vals[j]);
                                    }
                                    assert(vals[0] == f);
                                }
                            } else if !acc {
                                let (a, b) = choose|a: int, b: int| 0 <= a < vals.len() && 0 <= b < vals.len() && vals[a] != vals[b];
                                assert(w[a] != w[b]);
                            } else {
                                assert(w[0] != w[vals.len() as int]);
                            }
                        },
                        None => {
                            assert forall|i: int, j: int| 0 <= i < w.len() && 0 <= j < w.len() implies w[i] == w[j] by {}
                        },
                    }
                },
            }
        }
    }
    match op {
        WaitingReasonOperator::AND => (acc && v, first),
        WaitingReasonOperator::OR => (acc || v, first),
        WaitingReasonOperator::XOR => (acc != v, first),
        WaitingReasonOperator::XNOR => match first {
            Some(f) => (acc && f == v, first),
            None => (true, Some(v)),
        },
    }
}

/// One fold step of `combine`.
pub open spec fn step_spec(op: WaitingReasonOperator, acc: bool, first: Option<bool>, v: bool) -> (bool, Option<bool>) {
    match op {
        WaitingReasonOperator::AND => (acc && v, first),
        WaitingReasonOperator::OR => (acc || v, first),
        WaitingReasonOperator::XOR => (acc != v, first),
        WaitingReasonOperator::XNOR => match first {
            Some(f) => (acc && f == v, first),
            None => (true, Some(v)),
        },
    }
}

/// The starting value of the running result of `combine`.
fn start(op: WaitingReasonOperator) -> (r: bool)
    ensures
        running(op, Seq::<bool>::empty()) == (r, None::<bool>),
{
    match op {
        WaitingReasonOperator::OR | WaitingReasonOperator::XOR => false,
        _ => true,
    }
}

impl WaitingNode {
    /// Evaluates the tree on the railroad's current state.
    pub fn fulfills(&self, rr: &Railroad) -> (r: bool)
        requires
            rr.wf(),
        ensures
            r == node_holds(*self, *rr),
        decreases self,
    {
        let op = self.connector;
        let ghost leaves = self.waiters@.map_values(|x: WaitingReasons| reason_holds(x, *rr));
        let mut own = start(op);
        let mut first: Option<bool> = None;
        let mut i: usize = 0;
        while i < self.waiters.len()
            invariant
                rr.wf(),
                i <= self.waiters@.len(),
                leaves == self.waiters@.map_values(|x: WaitingReasons| reason_holds(x, *rr)),
                running(op, leaves.subrange(0, i as int)) == (own, first),
            decreases self.waiters@.len() - i,
        {
            let v = rr.reason_fulfilled(self.waiters[i]);
            assert(leaves.subrange(0, i + 1) =~= leaves.subrange(0, i as int).push(v));
            let (a, f) = step(op, own, first, v);
            own = a;
            first = f;
            i = i + 1;
        }
        assert(leaves.subrange(0, i as int) =~= leaves);
        let mut kids = start(op);
        let mut kid_first: Option<bool> = None;
        let mut j: usize = 0;
        while j < self.childs.len()
            invariant
                rr.wf(),
                op == self.connector,
                j <= self.childs@.len(),
                children_running(*self, j as nat, *rr) == (kids, kid_first),
            decreases self.childs@.len() - j,
        {
            proof {
                assert(decreases_to!(self => self.childs));
                assert(decreases_to!(self.childs => self.childs[j as int]));
            }
            let v = self.childs[j].fulfills(rr);
            assert(v == node_holds(self.childs@[j as int], *rr));
            assert(children_running(*self, (j + 1) as nat, *rr) == step_spec(op, kids, kid_first, v));
            let (a, f) = step(op, kids, kid_first, v);
            kids = a;
            kid_first = f;
            j = j + 1;
        }
        match op {
            WaitingReasonOperator::AND => own && kids,
            WaitingReasonOperator::OR => own || kids,
            WaitingReasonOperator::XOR => own != kids,
            WaitingReasonOperator::XNOR => own == kids,
        }
    }
}

/// One stop of a timetable: the node to drive to, the conditions for entering it and those
/// for leaving it.
#[derive(Debug)]
pub struct Station {
    pub arrive: WaitingNode,
    pub depart: WaitingNode,
    pub destination: usize,
}

impl Station {
    /// Whether the train may enter the station now.
    pub fn could_arrive(&self, rr: &Railroad) -> (r: bool)
        requires
            rr.wf(),
        ensures
            r == node_holds(self.arrive, *rr),
    {
        self.arrive.fulfills(rr)
    }

    /// Whether the train may leave the station now.
    pub fn could_depart(&self, rr: &Railroad) -> (r: bool)
        requires
            rr.wf(),
        ensures
            r == node_holds(self.depart, *rr),
    {
        self.depart.fulfills(rr)
    }
}

} // verus!
