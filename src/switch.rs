//! Switches (movable points) and crossings.
use vstd::prelude::*;
use crate::geometry::Position;
use crate::messages::Message;
use crate::speed::Address;

verus! {

/// The shape of a switch.
#[derive(Debug, Copy, Clone, PartialEq, Eq, Structural, Hash, PartialOrd, Ord)]
pub enum SwitchType {
    StraightRight90,
    StraightRight180,
    StraightLeft90,
    StraightLeft180,
    RightStraight90,
    RightStraight180,
    LeftStraight90,
    LeftStraight180,
    LeftRight90,
    LeftRight180,
    RightLeft90,
    RightLeft180,
}

/// The branch a switch is set to.
#[derive(Debug, Copy, Clone, PartialEq, Eq, Structural, Hash)]
pub enum SwDir {
    Straight,
    Curved,
}

/// The other branch.
pub open spec fn flip_dir(d: SwDir) -> SwDir {
    match d {
        SwDir::Straight => SwDir::Curved,
        SwDir::Curved => SwDir::Straight,
    }
}

impl std::ops::Not for SwDir {
    type Output = SwDir;

    fn not(self) -> (r: SwDir)
        ensures
            r == flip_dir(self),
    {
        match self {
            SwDir::Straight => SwDir::Curved,
            SwDir::Curved => SwDir::Straight,
        }
    }
}

impl vstd::std_specs::ops::NotSpecImpl for SwDir {
    open spec fn obeys_not_spec() -> bool {
        true
    }

    open spec fn not_req(self) -> bool {
        true
    }

    open spec fn not_spec(self) -> SwDir {
        flip_dir(self)
    }
}

impl From<bool> for SwDir {
    /// `true` selects the straight branch.
    fn from(straight: bool) -> (r: SwDir)
        ensures
            r == (if straight { SwDir::Straight } else { SwDir::Curved }),
    {
        if straight { SwDir::Straight } else { SwDir::Curved }
    }
}

impl vstd::std_specs::convert::FromSpecImpl<bool> for SwDir {
    open spec fn obeys_from_spec() -> bool {
        true
    }

    open spec fn from_spec(straight: bool) -> SwDir {
        if straight { SwDir::Straight } else { SwDir::Curved }
    }
}

/// The branch a road from `from` to `to` through a switch needs: straight when it enters or
/// leaves by the default neighbour, curved otherwise or when no default is known.
pub open spec fn required_dir(from: usize, to: usize, default_branch: Option<usize>) -> SwDir {
    match default_branch {
        Some(n) => if from == n || to == n { SwDir::Straight } else { SwDir::Curved },
        None => SwDir::Curved,
    }
}

/// The branch a road from `from` to `to` through a switch needs.
pub fn required_branch(from: usize, to: usize, default_branch: Option<usize>) -> (r: SwDir)
    ensures
        r == required_dir(from, to, default_branch),
{
    match default_branch {
        Some(n) => SwDir::from(from == n || to == n),
        None => SwDir::Curved,
    }
}

/// A movable point: the branch last commanded and whether the command station acknowledged it.
#[derive(Debug, Copy, Clone, PartialEq, Eq, Structural, Hash)]
pub struct Switch {
    address: Address,
    dir: SwDir,
    updated: bool,
}

impl Switch {
    pub closed spec fn address_spec(&self) -> Address {
        self.address
    }

    /// The branch last commanded.
    pub closed spec fn dir_spec(&self) -> SwDir {
        self.dir
    }

    /// Whether the commanded branch was acknowledged.
    pub closed spec fn acknowledged_spec(&self) -> bool {
        self.updated
    }

    /// The state after commanding `dir`.
    pub closed spec fn switch_next(self, dir: SwDir) -> Switch {
        if self.dir == dir && self.updated {
            self
        } else {
            Switch { address: self.address, dir, updated: false }
        }
    }

    /// The state after the command station acknowledged `dir`.
    pub closed spec fn ack_next(self, dir: SwDir) -> Switch {
        Switch { address: self.address, dir: self.dir, updated: dir == self.dir }
    }

    pub fn new(address: Address) -> (r: Switch)
        ensures
            r.address_spec() == address,
            r.dir_spec() == SwDir::Straight,
            !r.acknowledged_spec(),
    {
        Switch { address, dir: SwDir::Straight, updated: false }
    }

    pub fn address(&self) -> (r: Address)
        ensures
            r == self.address_spec(),
    {
        self.address
    }

    pub fn dir(&self) -> (r: SwDir)
        ensures
            r == self.dir_spec(),
    {
        self.dir
    }

    pub fn acknowledged(&self) -> (r: bool)
        ensures
            r == self.acknowledged_spec(),
    {
        self.updated
    }

    /// Commands the switch to `dir`. Nothing happens when it already stands acknowledged in
    /// that branch; otherwise the acknowledgement is cleared and the command is returned for
    /// the bus.
    pub fn switch(&mut self, dir: SwDir) -> (r: Option<Message>)
        ensures
            *final(self) == old(self).switch_next(dir),
            final(self).address_spec() == old(self).address_spec(),
            final(self).dir_spec() == dir,
            final(self).acknowledged_spec() == (old(self).dir_spec() == dir && old(self).acknowledged_spec()),
            r == (if old(self).dir_spec() == dir && old(self).acknowledged_spec() {
                None
            } else {
                Some(Message::Switch(old(self).address_spec(), dir))
            }),
    {
        if self.dir == dir && self.updated {
            return None;
        }
        self.updated = false;
        self.dir = dir;
        Some(Message::Switch(self.address, dir))
    }

    /// Records the command station's report that the switch stands in `dir`. A report of the
    /// commanded branch marks it acknowledged; any other report clears the acknowledgement and
    /// returns the command again.
    pub fn ack_switch_state(&mut self, dir: SwDir) -> (r: Option<Message>)
        ensures
            *final(self) == old(self).ack_next(dir),
            final(self).address_spec() == old(self).address_spec(),
            final(self).dir_spec() == old(self).dir_spec(),
            final(self).acknowledged_spec() == (dir == old(self).dir_spec()),
            r == (if dir == old(self).dir_spec() {
                None
            } else {
                Some(Message::Switch(old(self).address_spec(), old(self).dir_spec()))
            }),
    {
        if dir == self.dir {
            self.updated = true;
            None
        } else {
            self.updated = false;
            self.switch(self.dir)
        }
    }

    /// Commands the branch that a road from `from` to `to` needs.
    pub fn request_path(&mut self, from: usize, to: usize, default_branch: Option<usize>) -> (r:
        Option<Message>)
        ensures
            *final(self) == old(self).switch_next(required_dir(from, to, default_branch)),
            final(self).address_spec() == old(self).address_spec(),
            final(self).dir_spec() == required_dir(from, to, default_branch),
            r == (if old(self).dir_spec() == required_dir(from, to, default_branch)
                && old(self).acknowledged_spec() {
                None
            } else {
                Some(Message::Switch(old(self).address_spec(), required_dir(from, to, default_branch)))
            }),
    {
        let dir = required_branch(from, to, default_branch);
        self.switch(dir)
    }

    /// Whether the switch stands, acknowledged, in the branch that a road from `from` to `to`
    /// needs.
    pub fn switch_in_correct_state(&self, from: usize, to: usize, default_branch: Option<usize>) -> (r:
        bool)
        ensures
            r == (self.dir_spec() == required_dir(from, to, default_branch)
                && self.acknowledged_spec()),
    {
        let dir = required_branch(from, to, default_branch);
        self.dir == dir && self.updated
    }
}

/// Commanding a branch and having it acknowledged, done twice, leaves the switch as doing it
/// once does.
pub proof fn lemma_switch_ack_twice(s: Switch, dir: SwDir)
    ensures
        s.switch_next(dir).ack_next(dir).switch_next(dir).ack_next(dir)
            == s.switch_next(dir).ack_next(dir),
        s.switch_next(dir).ack_next(dir).dir_spec() == dir,
        s.switch_next(dir).ack_next(dir).acknowledged_spec(),
{
}

/// A physical crossing of two tracks; each track is its own graph node.
#[derive(Debug, Copy, Clone, PartialEq, Eq, Hash)]
pub struct Cross {
    pub address: Address,
    pub nodes: (usize, usize),
    pub pos: Position,
}

impl Cross {
    pub fn new(address: Address, pos: Position, nodes: (usize, usize)) -> (r: Cross)
        ensures
            r.address == address,
            r.pos == pos,
            r.nodes == nodes,
    {
        Cross { address, nodes, pos }
    }

    pub fn address(&self) -> (r: Address)
        ensures
            r == self.address,
    {
        self.address
    }

    /// The node of the other track, seen from `node`.
    pub fn other_node(&self, node: usize) -> (r: usize)
        ensures
            r == (if self.nodes.0 == node { self.nodes.1 } else { self.nodes.0 }),
    {
        if self.nodes.0 == node { self.nodes.1 } else { self.nodes.0 }
    }
}

} // verus!
