//! The occupancy sensor state machine.
use vstd::prelude::*;
use crate::messages::Message;
use crate::speed::{Address, Speed};
use crate::status::{SLevel, Status};

verus! {

/// How long a sensor waits, in milliseconds, after reporting `Free` before it gives up its
/// train, so that short glitches of the level do not release a block.
pub const FREE_GRACE_MS: u64 = 2000;

/// An occupancy detector. `status` is the interlocking view, `level` the last physical report,
/// `train` the train that holds the sensor; `grace_pending` is set while the sensor waits out
/// its grace period after a `Free` report.
#[derive(Debug, Copy, Clone, PartialEq, Eq, Structural)]
pub struct Sensor {
    address: Address,
    status: Status,
    level: SLevel,
    train: Option<Address>,
    max_speed: Speed,
    free_grace_ms: u64,
    grace_pending: bool,
}

impl Sensor {
    pub closed spec fn address_spec(&self) -> Address {
        self.address
    }

    pub closed spec fn status_spec(&self) -> Status {
        self.status
    }

    pub closed spec fn level_spec(&self) -> SLevel {
        self.level
    }

    pub closed spec fn train_spec(&self) -> Option<Address> {
        self.train
    }

    pub closed spec fn grace_pending_spec(&self) -> bool {
        self.grace_pending
    }

    /// The grace period in milliseconds.
    pub closed spec fn free_grace_spec(&self) -> u64 {
        self.free_grace_ms
    }

    pub closed spec fn max_speed_spec(&self) -> Speed {
        self.max_speed
    }

    /// A sensor holds a train exactly when it is `Reserved` or `Occupied`, and waits out a
    /// grace period only while it holds one and is not `Occupied`.
    pub open spec fn wf(&self) -> bool {
        &&& (self.train_spec().is_some() <==> (self.status_spec() == Status::Reserved
            || self.status_spec() == Status::Occupied))
        &&& (self.grace_pending_spec() ==> self.status_spec() == Status::Reserved)
    }

    /// The state after `block(train)`.
    pub closed spec fn block_next(self, train: Address) -> Sensor {
        match self.train {
            Some(_) => self,
            None => Sensor { train: Some(train), status: Status::Reserved, ..self },
        }
    }

    /// The state after a level report.
    pub closed spec fn level_next(self, level: SLevel) -> Sensor {
        match level {
            SLevel::Occupied => Sensor {
                level,
                grace_pending: false,
                status: if self.train.is_some() { Status::Occupied } else { self.status },
                ..self
            },
            SLevel::Free => if self.train.is_some() {
                Sensor { level, grace_pending: true, status: Status::Reserved, ..self }
            } else {
                Sensor { level, grace_pending: false, status: Status::Free, ..self }
            },
        }
    }

    /// The state after the grace period ran out.
    pub closed spec fn grace_next(self) -> Sensor {
        if self.grace_pending {
            Sensor { status: Status::Free, train: None, grace_pending: false, ..self }
        } else {
            self
        }
    }

    /// The state after `free(train)`.
    pub closed spec fn free_next(self, train: Address) -> Sensor {
        if self.train == Some(train) {
            Sensor { status: Status::Free, train: None, grace_pending: false, ..self }
        } else {
            self
        }
    }

    /// A new sensor: free, reporting free, holding no train.
    pub fn new(adr: Address, max_speed: Speed) -> (r: Sensor)
        ensures
            r.wf(),
            r.address_spec() == adr,
            r.max_speed_spec() == max_speed,
            r.free_grace_spec() == FREE_GRACE_MS,
            r.status_spec() == Status::Free,
            r.level_spec() == SLevel::Free,
            r.train_spec().is_none(),
            !r.grace_pending_spec(),
    {
        Sensor {
            address: adr,
            status: Status::Free,
            level: SLevel::Free,
            train: None,
            max_speed,
            free_grace_ms: FREE_GRACE_MS,
            grace_pending: false,
        }
    }

    pub fn address(&self) -> (r: Address)
        ensures
            r == self.address_spec(),
    {
        self.address
    }

    pub fn max_speed(&self) -> (r: Speed)
        ensures
            r == self.max_speed_spec(),
    {
        self.max_speed
    }

    /// The train that holds this sensor.
    pub fn train(&self) -> (r: Option<Address>)
        ensures
            r == self.train_spec(),
    {
        self.train
    }

    pub fn status(&self) -> (r: Status)
        ensures
            r == self.status_spec(),
    {
        self.status
    }

    pub fn level(&self) -> (r: SLevel)
        ensures
            r == self.level_spec(),
    {
        self.level
    }

    /// Whether the sensor waits out its grace period.
    pub fn grace_pending(&self) -> (r: bool)
        ensures
            r == self.grace_pending_spec(),
    {
        self.grace_pending
    }

    /// The grace period in milliseconds.
    pub fn free_grace_ms(&self) -> (r: u64)
        ensures
            r == self.free_grace_spec(),
    {
        self.free_grace_ms
    }

    /// Reserves the sensor for `train`. A free sensor takes the train and becomes `Reserved`;
    /// one that holds a train already accepts only that same train, and stays as it is.
    pub fn block(&mut self, train: Address) -> (r: bool)
        requires
            old(self).wf(),
        ensures
            final(self).wf(),
            *final(self) == old(self).block_next(train),
            final(self).address_spec() == old(self).address_spec(),
            r == (old(self).train_spec().is_none() || old(self).train_spec() == Some(train)),
            final(self).train_spec() == (if old(self).train_spec().is_none() {
                Some(train)
            } else {
                old(self).train_spec()
            }),
            final(self).status_spec() == (if old(self).train_spec().is_none() {
                Status::Reserved
            } else {
                old(self).status_spec()
            }),
            final(self).level_spec() == old(self).level_spec(),
            final(self).grace_pending_spec() == old(self).grace_pending_spec(),
    {
        match self.train {
            Some(t) => t == train,
            None => {
                self.train = Some(train);
                self.status = Status::Reserved;
                true
            },
        }
    }

    /// Takes a level report. `Occupied` ends any grace period and, if a train holds the sensor,
    /// makes it `Occupied` and returns the notice that this train is on the sensor. `Free`
    /// starts the grace period when a train holds the sensor (it stays `Reserved` meanwhile),
    /// and frees it at once otherwise.
    pub fn handle_sensor_level(&mut self, level: SLevel) -> (r: Option<Message>)
        requires
            old(self).wf(),
        ensures
            final(self).wf(),
            *final(self) == old(self).level_next(level),
            final(self).address_spec() == old(self).address_spec(),
            r == (match (level, old(self).train_spec()) {
                (SLevel::Occupied, Some(t)) => Some(Message::TrainOnSensor(old(self).address_spec(), t)),
                _ => None,
            }),
            final(self).level_spec() == level,
            final(self).train_spec() == old(self).train_spec(),
            final(self).status_spec() == (match (level, old(self).train_spec()) {
                (SLevel::Occupied, Some(_)) => Status::Occupied,
                (SLevel::Occupied, None) => old(self).status_spec(),
                (SLevel::Free, Some(_)) => Status::Reserved,
                (SLevel::Free, None) => Status::Free,
            }),
            final(self).grace_pending_spec() == (level == SLevel::Free && old(self).train_spec().is_some()),
    {
        match level {
            SLevel::Occupied => {
                self.level = level;
                self.grace_pending = false;
                match self.train {
                    Some(t) => {
                        self.status = Status::Occupied;
                        Some(Message::TrainOnSensor(self.address, t))
                    },
                    None => None,
                }
            },
            SLevel::Free => {
                self.level = level;
                if self.train.is_some() {
                    self.grace_pending = true;
                    self.status = Status::Reserved;
                } else {
                    self.grace_pending = false;
                    self.status = Status::Free;
                }
                None
            },
        }
    }

    /// Ends the grace period: if it was not cancelled by a new `Occupied` report, the sensor
    /// becomes `Free` and lets go of its train, which is returned.
    pub fn grace_elapsed(&mut self) -> (r: Option<Address>)
        requires
            old(self).wf(),
        ensures
            final(self).wf(),
            *final(self) == old(self).grace_next(),
            final(self).address_spec() == old(self).address_spec(),
            !old(self).grace_pending_spec() ==> *final(self) == *old(self),
            old(self).grace_pending_spec() ==> final(self).status_spec() == Status::Free
                && final(self).train_spec().is_none() && !final(self).grace_pending_spec(),
            r == (if old(self).grace_pending_spec() { old(self).train_spec() } else { None }),
    {
        if self.grace_pending {
            let t = self.train;
            self.status = Status::Free;
            self.train = None;
            self.grace_pending = false;
            t
        } else {
            None
        }
    }

    /// Lets go of `train`, if it holds the sensor.
    pub fn free(&mut self, train: Address)
        requires
            old(self).wf(),
        ensures
            final(self).wf(),
            *final(self) == old(self).free_next(train),
            final(self).address_spec() == old(self).address_spec(),
            old(self).train_spec() == Some(train) ==> final(self).train_spec().is_none()
                && final(self).status_spec() == Status::Free && !final(self).grace_pending_spec(),
            old(self).train_spec() != Some(train) ==> *final(self) == *old(self),
    {
        if self.train == Some(train) {
            self.train = None;
            self.status = Status::Free;
            self.grace_pending = false;
        }
    }
}

/// A sensor held by one train refuses every other train and stays as it is, so two trains
/// never hold it at once.
pub proof fn lemma_sensor_exclusive(s: Sensor, holder: Address, other: Address)
    requires
        s.wf(),
        s.train_spec() == Some(holder),
        other != holder,
    ensures
        s.block_next(other) == s,
        s.block_next(holder) == s,
        s.status_spec() == Status::Reserved || s.status_spec() == Status::Occupied,
{
}

/// A free sensor that is reserved, entered, left and then waits out its grace period ends
/// exactly as it started.
pub proof fn lemma_sensor_cycle(s: Sensor, train: Address)
    requires
        s.wf(),
        s.status_spec() == Status::Free,
        s.level_spec() == SLevel::Free,
        !s.grace_pending_spec(),
    ensures
        s.block_next(train).level_next(SLevel::Occupied).level_next(SLevel::Free).grace_next() == s,
{
}

/// A sensor that reports `Occupied` again during its grace period stays `Occupied` with its
/// train, and the running out of the period changes nothing.
pub proof fn lemma_grace_cancelled(s: Sensor)
    requires
        s.wf(),
        s.train_spec().is_some(),
    ensures
        s.level_next(SLevel::Occupied).level_next(SLevel::Free).level_next(SLevel::Occupied).grace_next()
            == s.level_next(SLevel::Occupied),
        s.level_next(SLevel::Occupied).status_spec() == Status::Occupied,
{
}

} // verus!
