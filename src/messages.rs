//! The messages carried by the railroad's event bus.
use vstd::prelude::*;
use crate::speed::{Address, Speed};
use crate::status::SLevel;
use crate::switch::SwDir;

verus! {

/// One message of the event bus. Outbound to the command station: `RailOn`, `RailOff`,
/// `TrainSpeed` and `Switch`; inbound from it: `UpdateSensor` and `SwitchAck`; the others
/// notify the controller's own components.
#[derive(Debug, Copy, Clone, PartialEq, Eq, Structural, Hash)]
pub enum Message {
    RailOn,
    RailOff,
    TrainSpeed(Address, Speed),
    Switch(Address, SwDir),
    SwitchAck(Address, SwDir),
    UpdateSensor(Address, SLevel),
    UpdateSignal(Address, SwDir),
    TrainGranted(Address, Address),
    TrainOnSensor(Address, Address),
}

} // verus!
