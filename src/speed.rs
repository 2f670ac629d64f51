//! Element addresses, the speed lattice and the acceleration ramp.
use vstd::prelude::*;

verus! {

/// The identifier of a controllable element: a train, sensor, switch, signal or crossing.
#[derive(Debug, Copy, Clone, Default, PartialEq, Eq, Structural, Ord, Hash)]
pub struct Address(pub u16);

/// Addresses are ordered by their raw value.
pub open spec fn address_cmp(a: Address, b: Address) -> std::cmp::Ordering {
    if a.0 < b.0 {
        std::cmp::Ordering::Less
    } else if a.0 == b.0 {
        std::cmp::Ordering::Equal
    } else {
        std::cmp::Ordering::Greater
    }
}

impl PartialOrd for Address {
    fn partial_cmp(&self, other: &Address) -> (r: Option<std::cmp::Ordering>)
        ensures
            r == Some(address_cmp(*self, *other)),
    {
        if self.0 < other.0 {
            Some(std::cmp::Ordering::Less)
        } else if self.0 == other.0 {
            Some(std::cmp::Ordering::Equal)
        } else {
            Some(std::cmp::Ordering::Greater)
        }
    }
}

impl vstd::std_specs::cmp::PartialOrdSpecImpl for Address {
    open spec fn obeys_partial_cmp_spec() -> bool {
        true
    }

    open spec fn partial_cmp_spec(&self, other: &Address) -> Option<std::cmp::Ordering> {
        Some(address_cmp(*self, *other))
    }
}

impl Address {
    pub fn new(address: u16) -> (r: Address)
        ensures
            r.0 == address,
    {
        Address(address)
    }

    pub fn address(&self) -> (r: u16)
        ensures
            r == self.0,
    {
        self.0
    }
}

/// Integer types usable as a speed step.
pub trait SpeedType: Sized {
    /// The speed change of one ramp step.
    fn default_acceleration() -> Self;
}

impl SpeedType for u8 {
    fn default_acceleration() -> (r: u8)
        ensures
            r == 5,
    {
        5
    }
}

/// Integer types usable as an element address.
pub trait AddressType {
    /// The raw address value.
    fn raw(&self) -> u16;
}

impl AddressType for u16 {
    fn raw(&self) -> (r: u16)
        ensures
            r == *self,
    {
        *self
    }
}

/// The speed step that one ramp tick applies.
pub const ACCELERATION: u8 = 5;

/// A commanded train speed. The variants are listed in the lattice order
/// `EmergencyStop < Stop < Drive(0) < Drive(1) < ...`.
#[derive(Debug, Copy, Clone, PartialEq, Eq, Structural, Hash, Ord)]
pub enum Speed {
    /// An immediate stop.
    EmergencyStop,
    /// A normal, smooth stop.
    Stop,
    /// Driving at the given speed step.
    Drive(u8),
}

/// The place of a speed on the lattice, as an integer.
pub open spec fn rank(s: Speed) -> int {
    match s {
        Speed::EmergencyStop => -2,
        Speed::Stop => -1,
        Speed::Drive(v) => v as int,
    }
}

/// The saturating sum: stops add nothing, and a stop plus a drive is that drive.
pub open spec fn speed_add(a: Speed, b: Speed) -> Speed {
    match b {
        Speed::Drive(y) => match a {
            Speed::Drive(x) => Speed::Drive(
                if x + y > u8::MAX { u8::MAX } else { (x + y) as u8 },
            ),
            _ => Speed::Drive(y),
        },
        _ => a,
    }
}

/// The clamped difference: subtracting a stop changes nothing, a stop minus a drive stays
/// that stop, and a drive that would go below zero becomes `Stop`.
pub open spec fn speed_sub(a: Speed, b: Speed) -> Speed {
    match b {
        Speed::Drive(y) => match a {
            Speed::Drive(x) => if x >= y {
                Speed::Drive((x - y) as u8)
            } else {
                Speed::Stop
            },
            _ => a,
        },
        _ => a,
    }
}

impl Speed {
    /// `Drive` by the default acceleration step.
    pub fn default_acceleration() -> (r: Speed)
        ensures
            r == Speed::Drive(ACCELERATION),
    {
        Speed::Drive(u8::default_acceleration())
    }

    /// Whether `self` is below `other` on the lattice.
    pub fn less_than(&self, other: &Speed) -> (r: bool)
        ensures
            r == (rank(*self) < rank(*other)),
    {
        match (*self, *other) {
            (Speed::Drive(x), Speed::Drive(y)) => x < y,
            (Speed::Drive(_), _) => false,
            (Speed::Stop, Speed::EmergencyStop) => false,
            (Speed::Stop, Speed::Stop) => false,
            (Speed::Stop, Speed::Drive(_)) => true,
            (Speed::EmergencyStop, Speed::EmergencyStop) => false,
            (Speed::EmergencyStop, _) => true,
        }
    }
}

/// The lattice comparison of two speeds.
pub open spec fn speed_cmp(a: Speed, b: Speed) -> std::cmp::Ordering {
    if rank(a) < rank(b) {
        std::cmp::Ordering::Less
    } else if rank(a) == rank(b) {
        std::cmp::Ordering::Equal
    } else {
        std::cmp::Ordering::Greater
    }
}

impl PartialOrd for Speed {
    fn partial_cmp(&self, other: &Speed) -> (r: Option<std::cmp::Ordering>)
        ensures
            r == Some(speed_cmp(*self, *other)),
    {
        if self.less_than(other) {
            Some(std::cmp::Ordering::Less)
        } else if other.less_than(self) {
            Some(std::cmp::Ordering::Greater)
        } else {
            Some(std::cmp::Ordering::Equal)
        }
    }
}

impl vstd::std_specs::cmp::PartialOrdSpecImpl for Speed {
    open spec fn obeys_partial_cmp_spec() -> bool {
        true
    }

    open spec fn partial_cmp_spec(&self, other: &Speed) -> Option<std::cmp::Ordering> {
        Some(speed_cmp(*self, *other))
    }
}

impl std::ops::Add for Speed {
    type Output = Speed;

    fn add(self, rhs: Speed) -> (r: Speed)
        ensures
            r == speed_add(self, rhs),
    {
        match rhs {
            Speed::Drive(y) => match self {
                Speed::Drive(x) => Speed::Drive(
                    if x as u16 + y as u16 > 255 { 255 } else { x + y },
                ),
                _ => Speed::Drive(y),
            },
            _ => self,
        }
    }
}

impl vstd::std_specs::ops::AddSpecImpl for Speed {
    open spec fn obeys_add_spec() -> bool {
        true
    }

    open spec fn add_req(self, rhs: Speed) -> bool {
        true
    }

    open spec fn add_spec(self, rhs: Speed) -> Speed {
        speed_add(self, rhs)
    }
}

impl std::ops::Sub for Speed {
    type Output = Speed;

    fn sub(self, rhs: Speed) -> (r: Speed)
        ensures
            r == speed_sub(self, rhs),
    {
        match rhs {
            Speed::Drive(y) => match self {
                Speed::Drive(x) => if x >= y {
                    Speed::Drive(x - y)
                } else {
                    Speed::Stop
                },
                _ => self,
            },
            _ => self,
        }
    }
}

impl vstd::std_specs::ops::SubSpecImpl for Speed {
    open spec fn obeys_sub_spec() -> bool {
        true
    }

    open spec fn sub_req(self, rhs: Speed) -> bool {
        true
    }

    open spec fn sub_spec(self, rhs: Speed) -> Speed {
        speed_sub(self, rhs)
    }
}

/// The next published speed of a ramp from `current` towards `target`, and whether the ramp
/// has arrived: one acceleration step towards the target, clamped so that it never passes it.
pub open spec fn ramp_step_spec(current: Speed, target: Speed) -> (Speed, bool) {
    if current == target {
        (target, true)
    } else if rank(current) < rank(target) {
        let n = speed_add(current, Speed::Drive(ACCELERATION));
        if rank(n) >= rank(target) {
            (target, true)
        } else {
            (n, false)
        }
    } else {
        match current {
            Speed::Drive(_) => {
                let n = speed_sub(current, Speed::Drive(ACCELERATION));
                if rank(n) <= rank(target) {
                    (target, true)
                } else {
                    (n, false)
                }
            },
            _ => (target, true),
        }
    }
}

/// Whether `s` lies between `a` and `b` (in either order) on the lattice.
pub open spec fn between(s: Speed, a: Speed, b: Speed) -> bool {
    (rank(a) <= rank(s) <= rank(b)) || (rank(b) <= rank(s) <= rank(a))
}

/// One tick of the acceleration ramp.
pub fn ramp_step(current: Speed, target: Speed) -> (r: (Speed, bool))
    ensures
        r == ramp_step_spec(current, target),
{
    if current == target {
        (target, true)
    } else if current.less_than(&target) {
        let n = current + Speed::default_acceleration();
        if !n.less_than(&target) {
            (target, true)
        } else {
            (n, false)
        }
    } else {
        match current {
            Speed::Drive(_) => {
                let n = current - Speed::default_acceleration();
                if !target.less_than(&n) {
                    (target, true)
                } else {
                    (n, false)
                }
            },
            _ => (target, true),
        }
    }
}

/// A ramp step stays between its start and its target, gets strictly closer to the target,
/// and reports arrival exactly when it lands on the target.
pub proof fn lemma_ramp_step_between(start: Speed, current: Speed, target: Speed)
    requires
        between(current, start, target),
    ensures
        between(ramp_step_spec(current, target).0, start, target),
        ramp_step_spec(current, target).1 <==> ramp_step_spec(current, target).0 == target,
        !ramp_step_spec(current, target).1 ==> abs_int(rank(ramp_step_spec(current, target).0) - rank(target))
            < abs_int(rank(current) - rank(target)),
{
}

/// The absolute value of an integer.
pub open spec fn abs_int(v: int) -> int {
    if v < 0 { -v } else { v }
}

/// Every speed that a ramp from `from` to `to` publishes, one per tick, in order.
/// The last one is `to`; all lie between `from` and `to`.
pub fn speed_ramp(from: Speed, to: Speed) -> (r: Vec<Speed>)
    ensures
        r@.len() > 0,
        r@.last() == to,
        forall|i: int| 0 <= i < r@.len() ==> #[trigger] between(r@[i], from, to),
        forall|i: int| 0 <= i < r@.len() - 1 ==> #[trigger] r@[i] != to,
        r@[0] == ramp_step_spec(from, to).0,
        forall|i: int| 0 <= i < r@.len() - 1 ==> #[trigger] r@[i + 1] == ramp_step_spec(r@[i], to).0,
        between(r@[0], from, to),
        forall|i: int| 0 <= i < r@.len() - 1 ==> #[trigger] between(r@[i + 1], r@[i], to),
{
    let mut out: Vec<Speed> = Vec::new();
    let mut current = from;
    loop
        invariant
            between(current, from, to),
            out@.len() == 0 ==> current == from,
            out@.len() > 0 ==> current == out@.last(),
            out@.len() > 0 ==> out@[0] == ramp_step_spec(from, to).0 && between(out@[0], from, to),
            forall|i: int| 0 <= i < out@.len() ==> #[trigger] between(out@[i], from, to),
            forall|i: int| 0 <= i < out@.len() ==> #[trigger] out@[i] != to,
            forall|i: int| 0 <= i < out@.len() - 1 ==> #[trigger] out@[i + 1] == ramp_step_spec(out@[i], to).0,
            forall|i: int| 0 <= i < out@.len() - 1 ==> #[trigger] between(out@[i + 1], out@[i], to),
        decreases abs_int(rank(current) - rank(to)),
    {
        proof {
            lemma_ramp_step_between(from, current, to);
            lemma_ramp_step_between(current, current, to);
        }
        let (next, done) = ramp_step(current, to);
        let ghost before = out@;
        out.push(next);
        proof {
            assert forall|i: int| 0 <= i < out@.len() - 1 implies #[trigger] out@[i + 1] == ramp_step_spec(out@[i], to).0 by {
                if i + 1 < before.len() {
                    assert(out@[i + 1] == before[i + 1] && out@[i] == before[i]);
                }
            }
            assert forall|i: int| 0 <= i < out@.len() - 1 implies #[trigger] between(out@[i + 1], out@[i], to) by {
                if i + 1 < before.len() {
                    assert(out@[i + 1] == before[i + 1] && out@[i] == before[i]);
                }
            }
        }
        if done {
            return out;
        }
        current = next;
    }
}

} // verus!
