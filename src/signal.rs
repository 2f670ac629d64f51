//! Signals: the request queue, the granted trains and the block a signal guards.
use vstd::prelude::*;
use std::collections::VecDeque;
use crate::speed::Address;
use crate::status::{join, Status};

verus! {

/// How a signal decides a grant.
#[derive(Debug, Copy, Clone, PartialEq, Eq, Structural, Hash)]
pub enum SignalType {
    /// Guards its own block.
    Block,
    /// Also needs the train's road up to the next signal to be free.
    Path,
    /// Tries `Path`, and falls back to `Block`.
    IntelligentPath,
}

/// A signal with its request queue and the block it guards.
#[derive(Debug)]
pub struct Signal {
    address: Address,
    representing_node: usize,
    sig_type: SignalType,
    status: Status,
    trains: Vec<Address>,
    requesters: VecDeque<Address>,
    other_input_signals: Vec<Address>,
    block_sensors: Vec<Address>,
    group_leader: Address,
}

/// The queue `q` after `train` asked for a block that `granted` hold: appended unless it
/// already waits or holds the block.
pub open spec fn queue_after_request(q: Seq<Address>, granted: Seq<Address>, train: Address) -> Seq<
    Address,
> {
    if q.contains(train) || granted.contains(train) {
        q
    } else {
        q.push(train)
    }
}

/// `s` without the entries equal to `t`.
pub open spec fn without(s: Seq<Address>, t: Address) -> Seq<Address> {
    s.filter(|x: Address| x != t)
}

/// The smallest address of a non-empty sequence.
pub open spec fn min_address(s: Seq<Address>) -> Address
    recommends
        s.len() > 0,
    decreases s.len(),
{
    if s.len() <= 1 {
        s[0]
    } else {
        let m = min_address(s.drop_last());
        if s.last().0 < m.0 { s.last() } else { m }
    }
}

impl Signal {
    pub closed spec fn address_spec(&self) -> Address {
        self.address
    }

    pub closed spec fn node_spec(&self) -> usize {
        self.representing_node
    }

    pub closed spec fn sig_type_spec(&self) -> SignalType {
        self.sig_type
    }

    pub closed spec fn status_spec(&self) -> Status {
        self.status
    }

    /// The trains this signal granted its block to.
    pub closed spec fn trains_spec(&self) -> Seq<Address> {
        self.trains@
    }

    /// The trains waiting for a grant, first come first.
    pub closed spec fn requesters_spec(&self) -> Seq<Address> {
        self.requesters@
    }

    /// The other signals that lead into the same block.
    pub closed spec fn peers_spec(&self) -> Seq<Address> {
        self.other_input_signals@
    }

    /// The sensors of the guarded block.
    pub closed spec fn block_sensors_spec(&self) -> Seq<Address> {
        self.block_sensors@
    }

    /// The signal whose lock serialises grant decisions for the block.
    pub closed spec fn leader_spec(&self) -> Address {
        self.group_leader
    }

    /// The queue after `train` asked for the block: appended unless it already waits or holds
    /// the block.
    pub open spec fn request_next(self, train: Address) -> Seq<Address> {
        queue_after_request(self.requesters_spec(), self.trains_spec(), train)
    }

    pub fn new(address: Address, sig_type: SignalType, representing_node: usize) -> (r: Signal)
        ensures
            r.address_spec() == address,
            r.sig_type_spec() == sig_type,
            r.node_spec() == representing_node,
            r.status_spec() == Status::Free,
            r.trains_spec().len() == 0,
            r.requesters_spec().len() == 0,
            r.peers_spec().len() == 0,
            r.block_sensors_spec().len() == 0,
            r.leader_spec() == address,
    {
        Signal {
            address,
            representing_node,
            sig_type,
            status: Status::Free,
            trains: Vec::new(),
            requesters: VecDeque::new(),
            other_input_signals: Vec::new(),
            block_sensors: Vec::new(),
            group_leader: address,
        }
    }

    pub fn address(&self) -> (r: Address)
        ensures
            r == self.address_spec(),
    {
        self.address
    }

    pub fn representing_node(&self) -> (r: usize)
        ensures
            r == self.node_spec(),
    {
        self.representing_node
    }

    pub fn sig_type(&self) -> (r: SignalType)
        ensures
            r == self.sig_type_spec(),
    {
        self.sig_type
    }

    pub fn status(&self) -> (r: Status)
        ensures
            r == self.status_spec(),
    {
        self.status
    }

    pub fn trains(&self) -> (r: &Vec<Address>)
        ensures
            r@ == self.trains_spec(),
    {
        &self.trains
    }

    pub fn block_sensors(&self) -> (r: &Vec<Address>)
        ensures
            r@ == self.block_sensors_spec(),
    {
        &self.block_sensors
    }

    pub fn other_input_signals(&self) -> (r: &Vec<Address>)
        ensures
            r@ == self.peers_spec(),
    {
        &self.other_input_signals
    }

    pub fn group_leader(&self) -> (r: Address)
        ensures
            r == self.leader_spec(),
    {
        self.group_leader
    }

    /// The first waiting train.
    pub fn first_requester(&self) -> (r: Option<Address>)
        ensures
            r == (if self.requesters_spec().len() > 0 {
                Some(self.requesters_spec()[0])
            } else {
                None
            }),
    {
        if self.requesters.len() > 0 {
            Some(self.requesters[0])
        } else {
            None
        }
    }

    /// The waiting trains, first come first.
    pub fn requesters(&self) -> (r: Vec<Address>)
        ensures
            r@ == self.requesters_spec(),
    {
        let mut out: Vec<Address> = Vec::new();
        let mut i: usize = 0;
        while i < self.requesters.len()
            invariant
                i <= self.requesters@.len(),
                out@ == self.requesters@.subrange(0, i as int),
            decreases self.requesters@.len() - i,
        {
            out.push(self.requesters[i]);
            i = i + 1;
            assert(out@ =~= self.requesters@.subrange(0, i as int));
        }
        assert(out@ =~= self.requesters@);
        out
    }

    /// Records the block found from this signal: its sensors and the other signals leading into
    /// it. The fairness-group leader becomes the lowest address among them and this signal.
    pub fn set_block(&mut self, peers: Vec<Address>, sensors: Vec<Address>)
        ensures
            final(self).block_sensors_spec() == sensors@,
            final(self).peers_spec() == peers@,
            final(self).leader_spec() == min_address(seq![old(self).address_spec()] + peers@),
            final(self).address_spec() == old(self).address_spec(),
            final(self).node_spec() == old(self).node_spec(),
            final(self).sig_type_spec() == old(self).sig_type_spec(),
            final(self).status_spec() == old(self).status_spec(),
            final(self).trains_spec() == old(self).trains_spec(),
            final(self).requesters_spec() == old(self).requesters_spec(),
    {
        let mut leader = self.address;
        let mut i: usize = 0;
        let ghost all = seq![self.address] + peers@;
        while i < peers.len()
            invariant
                i <= peers@.len(),
                all == seq![self.address] + peers@,
                leader == min_address(all.subrange(0, i + 1)),
            decreases peers@.len() - i,
        {
            assert(all.subrange(0, i + 2).drop_last() =~= all.subrange(0, i + 1));
            if peers[i].0 < leader.0 {
                leader = peers[i];
            }
            i = i + 1;
        }
        assert(all.subrange(0, i + 1) =~= all);
        self.group_leader = leader;
        self.block_sensors = sensors;
        self.other_input_signals = peers;
    }

    /// Whether `train` waits for or holds this block.
    pub fn knows_train(&self, train: Address) -> (r: bool)
        ensures
            r == (self.requesters_spec().contains(train) || self.trains_spec().contains(train)),
    {
        let mut i: usize = 0;
        while i < self.requesters.len()
            invariant
                i <= self.requesters@.len(),
                forall|k: int| 0 <= k < i ==> self.requesters@[k] != train,
            decreases self.requesters@.len() - i,
        {
            if self.requesters[i] == train {
                return true;
            }
            i = i + 1;
        }
        let mut j: usize = 0;
        while j < self.trains.len()
            invariant
                j <= self.trains@.len(),
                forall|k: int| 0 <= k < j ==> self.trains@[k] != train,
                !self.requesters@.contains(train),
            decreases self.trains@.len() - j,
        {
            if self.trains[j] == train {
                return true;
            }
            j = j + 1;
        }
        false
    }

    /// Queues `train` for the block, unless it already waits for it or holds it. Returns
    /// whether it was queued.
    pub fn request_block(&mut self, train: Address) -> (r: bool)
        ensures
            final(self).requesters_spec() == old(self).request_next(train),
            r == !(old(self).requesters_spec().contains(train) || old(self).trains_spec().contains(train)),
            old(self).requesters_spec().no_duplicates() ==> final(self).requesters_spec().no_duplicates(),
            final(self).trains_spec() == old(self).trains_spec(),
            final(self).status_spec() == old(self).status_spec(),
            final(self).address_spec() == old(self).address_spec(),
            final(self).node_spec() == old(self).node_spec(),
            final(self).sig_type_spec() == old(self).sig_type_spec(),
            final(self).block_sensors_spec() == old(self).block_sensors_spec(),
            final(self).peers_spec() == old(self).peers_spec(),
            final(self).leader_spec() == old(self).leader_spec(),
    {
        if self.knows_train(train) {
            return false;
        }
        let ghost before = self.requesters@;
        self.requesters.push_back(train);
        proof {
            if before.no_duplicates() {
                let q = self.requesters@;
                assert forall|x: int, y: int| 0 <= x < q.len() && 0 <= y < q.len() && x != y implies q[x] != q[y] by {
                    if x == before.len() as int {
                        assert(q[y] == before[y]);
                    } else if y == before.len() as int {
                        assert(q[x] == before[x]);
                    } else {
                        assert(q[x] == before[x] && q[y] == before[y]);
                    }
                }
            }
        }
        true
    }

    /// Hands the block to the first waiting train: it leaves the queue, joins the granted
    /// trains, and the signal becomes `Reserved`.
    pub fn grant_first(&mut self) -> (r: Address)
        requires
            old(self).requesters_spec().len() > 0,
        ensures
            r == old(self).requesters_spec()[0],
            final(self).requesters_spec() == old(self).requesters_spec().drop_first(),
            old(self).requesters_spec().no_duplicates() ==> final(self).requesters_spec().no_duplicates(),
            final(self).trains_spec() == old(self).trains_spec().push(r),
            final(self).status_spec() == Status::Reserved,
            final(self).address_spec() == old(self).address_spec(),
            final(self).node_spec() == old(self).node_spec(),
            final(self).sig_type_spec() == old(self).sig_type_spec(),
            final(self).block_sensors_spec() == old(self).block_sensors_spec(),
            final(self).peers_spec() == old(self).peers_spec(),
            final(self).leader_spec() == old(self).leader_spec(),
    {
        let ghost before = self.requesters@;
        let t = self.requesters.pop_front().unwrap();
        proof {
            if before.no_duplicates() {
                let q = self.requesters@;
                assert forall|x: int, y: int| 0 <= x < q.len() && 0 <= y < q.len() && x != y implies q[x] != q[y] by {
                    assert(q[x] == before[x + 1] && q[y] == before[y + 1]);
                }
            }
        }
        self.trains.push(t);
        self.status = Status::Reserved;
        t
    }

    /// Raises the status by a cascade from the block: the new status is the join of both.
    pub fn trigger_update(&mut self, trigger: &Status)
        ensures
            final(self).status_spec() == join(old(self).status_spec(), *trigger),
            final(self).trains_spec() == old(self).trains_spec(),
            final(self).requesters_spec() == old(self).requesters_spec(),
            final(self).address_spec() == old(self).address_spec(),
            final(self).node_spec() == old(self).node_spec(),
            final(self).sig_type_spec() == old(self).sig_type_spec(),
            final(self).block_sensors_spec() == old(self).block_sensors_spec(),
            final(self).peers_spec() == old(self).peers_spec(),
            final(self).leader_spec() == old(self).leader_spec(),
    {
        self.status = self.status.join(*trigger);
    }

    /// Takes `train` off the granted trains once it has left the block; with none left the
    /// signal is `Free` again.
    pub fn release_train(&mut self, train: Address)
        ensures
            final(self).trains_spec() == without(old(self).trains_spec(), train),
            final(self).status_spec() == (if final(self).trains_spec().len() == 0 {
                Status::Free
            } else {
                old(self).status_spec()
            }),
            final(self).requesters_spec() == old(self).requesters_spec(),
            final(self).address_spec() == old(self).address_spec(),
            final(self).node_spec() == old(self).node_spec(),
            final(self).sig_type_spec() == old(self).sig_type_spec(),
            final(self).block_sensors_spec() == old(self).block_sensors_spec(),
            final(self).peers_spec() == old(self).peers_spec(),
            final(self).leader_spec() == old(self).leader_spec(),
    {
        let mut kept: Vec<Address> = Vec::new();
        let mut i: usize = 0;
        while i < self.trains.len()
            invariant
                i <= self.trains@.len(),
                kept@ == without(self.trains@.subrange(0, i as int), train),
            decreases self.trains@.len() - i,
        {
            proof {
                let s = self.trains@.subrange(0, i + 1);
                assert(s.drop_last() =~= self.trains@.subrange(0, i as int));
                reveal(Seq::filter);
            }
            if self.trains[i] != train {
                kept.push(self.trains[i]);
            }
            i = i + 1;
        }
        assert(self.trains@.subrange(0, i as int) =~= self.trains@);
        self.trains = kept;
        if self.trains.len() == 0 {
            self.status = Status::Free;
        }
    }
}

/// Asking for a block a second time changes nothing.
pub proof fn lemma_request_idempotent(q: Seq<Address>, granted: Seq<Address>, train: Address)
    ensures
        queue_after_request(queue_after_request(q, granted, train), granted, train)
            == queue_after_request(q, granted, train),
{
    if !(q.contains(train) || granted.contains(train)) {
        assert(q.push(train)[q.len() as int] == train);
    }
}

/// First come, first served. A queue never holds a train twice, and a request only appends,
/// so a train that waits before another keeps its place before it; a grant serves only the
/// first of the queue, so the later of two waiting trains is never served before the earlier,
/// and the order of those left waiting stays.
pub proof fn lemma_fifo(q: Seq<Address>, granted: Seq<Address>, t: Address, i: int, j: int)
    requires
        q.no_duplicates(),
        0 <= i < j < q.len(),
    ensures
        queue_after_request(q, granted, t).no_duplicates(),
        queue_after_request(q, granted, t)[i] == q[i],
        queue_after_request(q, granted, t)[j] == q[j],
        q[0] != q[j],
        i > 0 ==> q.drop_first()[i - 1] == q[i] && q.drop_first()[j - 1] == q[j],
{
    let r = queue_after_request(q, granted, t);
    if !(q.contains(t) || granted.contains(t)) {
        assert forall|x: int, y: int| 0 <= x < r.len() && 0 <= y < r.len() && x != y implies r[x] != r[y] by {
            if x == q.len() as int {
                assert(r[y] == q[y]);
            } else if y == q.len() as int {
                assert(r[x] == q[x]);
            }
        }
    }
}

} // verus!
