//! Occupancy status lattice and the physical sensor level.
use vstd::prelude::*;

verus! {

/// The interlocking view of a track element, ordered
/// `Free < Reserved < PathFree < Occupied`.
#[derive(Debug, Copy, Clone, PartialEq, Eq, Structural, Hash, PartialOrd, Ord)]
pub enum Status {
    Free,
    Reserved,
    PathFree,
    Occupied,
}

/// The height of a status in the lattice.
pub open spec fn status_rank(s: Status) -> nat {
    match s {
        Status::Free => 0,
        Status::Reserved => 1,
        Status::PathFree => 2,
        Status::Occupied => 3,
    }
}

/// The least upper bound of two statuses.
pub open spec fn join(a: Status, b: Status) -> Status {
    if status_rank(a) >= status_rank(b) { a } else { b }
}

impl Status {
    /// The least upper bound of `self` and `other`.
    pub fn join(self, other: Status) -> (r: Status)
        ensures
            r == join(self, other),
    {
        if self.rank() >= other.rank() { self } else { other }
    }

    /// The height of this status in the lattice.
    pub fn rank(self) -> (r: u8)
        ensures
            r as nat == status_rank(self),
    {
        match self {
            Status::Free => 0,
            Status::Reserved => 1,
            Status::PathFree => 2,
            Status::Occupied => 3,
        }
    }
}

impl std::ops::BitOr for Status {
    type Output = Status;

    fn bitor(self, rhs: Status) -> (r: Status)
        ensures
            r == join(self, rhs),
    {
        self.join(rhs)
    }
}

impl vstd::std_specs::ops::BitOrSpecImpl for Status {
    open spec fn obeys_bitor_spec() -> bool {
        true
    }

    open spec fn bitor_req(self, rhs: Status) -> bool {
        true
    }

    open spec fn bitor_spec(self, rhs: Status) -> Status {
        join(self, rhs)
    }
}

/// The join of statuses is associative, commutative and idempotent; `Occupied` absorbs
/// everything and `Free` changes nothing.
pub proof fn lemma_join_lattice(a: Status, b: Status, c: Status)
    ensures
        join(join(a, b), c) == join(a, join(b, c)),
        join(a, b) == join(b, a),
        join(a, a) == a,
        join(a, Status::Occupied) == Status::Occupied,
        join(a, Status::Free) == a,
{
}

/// The physical level that a sensor reports.
#[derive(Debug, Copy, Clone, PartialEq, Eq, Structural, Hash)]
pub enum SLevel {
    Occupied,
    Free,
}

impl std::ops::Not for SLevel {
    type Output = SLevel;

    fn not(self) -> (r: SLevel)
        ensures
            r == flip_level(self),
    {
        match self {
            SLevel::Occupied => SLevel::Free,
            SLevel::Free => SLevel::Occupied,
        }
    }
}

/// The other level.
pub open spec fn flip_level(l: SLevel) -> SLevel {
    match l {
        SLevel::Occupied => SLevel::Free,
        SLevel::Free => SLevel::Occupied,
    }
}

impl vstd::std_specs::ops::NotSpecImpl for SLevel {
    open spec fn obeys_not_spec() -> bool {
        true
    }

    open spec fn not_req(self) -> bool {
        true
    }

    open spec fn not_spec(self) -> SLevel {
        flip_level(self)
    }
}

} // verus!
