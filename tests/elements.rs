use locologic::messages::Message;
use locologic::sensor::Sensor;
use locologic::signal::{Signal, SignalType};
use locologic::speed::{ramp_step, speed_ramp, Address, Speed};
use locologic::status::{SLevel, Status};
use locologic::switch::{required_branch, SwDir, Switch};
use locologic::train::Train;

#[test]
fn speed_lattice_order() {
    assert!(Speed::EmergencyStop < Speed::Stop);
    assert!(Speed::Stop < Speed::Drive(0));
    assert!(Speed::Drive(3) < Speed::Drive(4));
    assert_eq!(Speed::default_acceleration(), Speed::Drive(5));
}

#[test]
fn speed_arithmetic() {
    assert_eq!(Speed::Drive(250) + Speed::Drive(10), Speed::Drive(255));
    assert_eq!(Speed::Stop + Speed::Drive(5), Speed::Drive(5));
    assert_eq!(Speed::Drive(7) + Speed::Stop, Speed::Drive(7));
    assert_eq!(Speed::Drive(10) - Speed::Drive(3), Speed::Drive(7));
    assert_eq!(Speed::Drive(3) - Speed::Drive(10), Speed::Stop);
    assert_eq!(Speed::EmergencyStop - Speed::Drive(1), Speed::EmergencyStop);
}

#[test]
fn ramp_up_and_down() {
    assert_eq!(
        speed_ramp(Speed::Stop, Speed::Drive(12)),
        vec![Speed::Drive(5), Speed::Drive(10), Speed::Drive(12)]
    );
    assert_eq!(
        speed_ramp(Speed::Drive(12), Speed::Stop),
        vec![Speed::Drive(7), Speed::Drive(2), Speed::Stop]
    );
    assert_eq!(speed_ramp(Speed::Drive(4), Speed::Drive(4)), vec![Speed::Drive(4)]);
    assert_eq!(ramp_step(Speed::Drive(20), Speed::Drive(30)), (Speed::Drive(25), false));
}

#[test]
fn ramp_stays_between() {
    let ramp = speed_ramp(Speed::Drive(3), Speed::Drive(100));
    assert_eq!(*ramp.last().unwrap(), Speed::Drive(100));
    for s in &ramp {
        assert!(Speed::Drive(3) <= *s && *s <= Speed::Drive(100));
    }
}

#[test]
fn emergency_stop_preempts_ramp() {
    let mut train = Train::new(Address::new(7), 0);
    let ramp = train.set_speed(Speed::Drive(100));
    assert!(ramp.len() > 1);
    assert!(ramp.iter().all(|s| matches!(s, Speed::Drive(k) if *k <= 100)));
    train.speed_published(ramp[1]);
    let stop = train.set_speed(Speed::EmergencyStop);
    assert_eq!(stop, vec![Speed::EmergencyStop]);
    assert!(train.stands());
}

#[test]
fn status_join_laws() {
    let all = [Status::Free, Status::Reserved, Status::PathFree, Status::Occupied];
    for a in all {
        assert_eq!(a | a, a);
        assert_eq!(a | Status::Occupied, Status::Occupied);
        assert_eq!(a | Status::Free, a);
        for b in all {
            assert_eq!(a | b, b | a);
            for c in all {
                assert_eq!((a | b) | c, a | (b | c));
            }
        }
    }
    assert_eq!(Status::Reserved | Status::PathFree, Status::PathFree);
    assert_eq!(!SLevel::Free, SLevel::Occupied);
}

#[test]
fn sensor_cycle_returns_to_start() {
    let start = Sensor::new(Address::new(1), Speed::Drive(50));
    let mut s = start;
    assert!(s.block(Address::new(9)));
    assert_eq!(s.status(), Status::Reserved);
    assert_eq!(
        s.handle_sensor_level(SLevel::Occupied),
        Some(Message::TrainOnSensor(Address::new(1), Address::new(9)))
    );
    assert_eq!(s.status(), Status::Occupied);
    assert_eq!(s.handle_sensor_level(SLevel::Free), None);
    assert_eq!(s.status(), Status::Reserved);
    assert!(s.grace_pending());
    assert_eq!(s.grace_elapsed(), Some(Address::new(9)));
    assert_eq!(s, start);
}

#[test]
fn grace_timer_cancelled() {
    let mut s = Sensor::new(Address::new(1), Speed::Drive(50));
    assert!(s.block(Address::new(9)));
    let _ = s.handle_sensor_level(SLevel::Occupied);
    let _ = s.handle_sensor_level(SLevel::Free);
    let _ = s.handle_sensor_level(SLevel::Occupied);
    assert_eq!(s.grace_elapsed(), None);
    assert_eq!(s.status(), Status::Occupied);
    assert_eq!(s.train(), Some(Address::new(9)));
}

#[test]
fn sensor_exclusive_to_one_train() {
    let mut s = Sensor::new(Address::new(1), Speed::Stop);
    assert!(s.block(Address::new(2)));
    assert!(s.block(Address::new(2)));
    assert!(!s.block(Address::new(3)));
    assert_eq!(s.train(), Some(Address::new(2)));
    s.free(Address::new(3));
    assert_eq!(s.train(), Some(Address::new(2)));
    s.free(Address::new(2));
    assert_eq!(s.train(), None);
    assert_eq!(s.status(), Status::Free);
    assert_eq!(s.handle_sensor_level(SLevel::Occupied), None);
}

#[test]
fn switch_and_ack_twice() {
    let mut once = Switch::new(Address::new(4));
    assert_eq!(once.switch(SwDir::Curved), Some(Message::Switch(Address::new(4), SwDir::Curved)));
    assert_eq!(once.ack_switch_state(SwDir::Curved), None);
    let mut twice = once;
    assert_eq!(twice.switch(SwDir::Curved), None);
    assert_eq!(twice.ack_switch_state(SwDir::Curved), None);
    assert_eq!(twice, once);
    assert!(once.acknowledged());
}

#[test]
fn wrong_ack_repeats_command() {
    let mut sw = Switch::new(Address::new(4));
    let _ = sw.switch(SwDir::Curved);
    assert_eq!(
        sw.ack_switch_state(SwDir::Straight),
        Some(Message::Switch(Address::new(4), SwDir::Curved))
    );
    assert!(!sw.acknowledged());
    assert_eq!(required_branch(1, 2, Some(2)), SwDir::Straight);
    assert_eq!(required_branch(1, 3, Some(2)), SwDir::Curved);
    assert_eq!(required_branch(1, 3, None), SwDir::Curved);
    assert!(!sw.switch_in_correct_state(1, 3, Some(2)));
    let _ = sw.ack_switch_state(SwDir::Curved);
    assert!(sw.switch_in_correct_state(1, 3, Some(2)));
}

#[test]
fn request_is_idempotent() {
    let mut sig = Signal::new(Address::new(81), SignalType::Block, 0);
    assert!(sig.request_block(Address::new(1)));
    assert!(!sig.request_block(Address::new(1)));
    assert!(sig.request_block(Address::new(2)));
    assert_eq!(sig.requesters(), vec![Address::new(1), Address::new(2)]);
    assert_eq!(sig.grant_first(), Address::new(1));
    assert!(!sig.request_block(Address::new(1)));
    assert_eq!(sig.requesters(), vec![Address::new(2)]);
    assert_eq!(sig.status(), Status::Reserved);
    sig.release_train(Address::new(1));
    assert_eq!(sig.status(), Status::Free);
}

#[test]
fn signal_status_cascade() {
    let mut sig = Signal::new(Address::new(81), SignalType::Block, 0);
    sig.trigger_update(&Status::Reserved);
    assert_eq!(sig.status(), Status::Reserved);
    sig.trigger_update(&Status::Free);
    assert_eq!(sig.status(), Status::Reserved);
    sig.trigger_update(&Status::Occupied);
    sig.trigger_update(&Status::Reserved);
    assert_eq!(sig.status(), Status::Occupied);
    sig.set_block(vec![Address::new(90), Address::new(12)], vec![Address::new(1)]);
    assert_eq!(sig.group_leader(), Address::new(12));
}
