use locologic::builder::Builder;
use locologic::geometry::{Coord, Direction, Position, Rail};
use locologic::messages::Message;
use locologic::railroad::Railroad;
use locologic::signal::SignalType;
use locologic::speed::{Address, Speed};
use locologic::status::{SLevel, Status};
use locologic::switch::{SwDir, SwitchType};
use locologic::timetable::{Station, WaitingNode, WaitingReasonOperator, WaitingReasons};
use locologic::topology::{EdgeSide, Node};

fn pos(x: usize, y: usize) -> Position {
    Position::new(Coord(x, y, 0), Direction::East)
}

fn rails(x: usize, y: usize) -> Vec<Rail> {
    vec![Rail::new(pos(x, y), 0, Direction::West)]
}

fn adr(a: u16) -> Address {
    Address::new(a)
}

/// `Sig_80 -> Sen_1 -> Sig_81 -> Sen_2 -> Sig_82`, with the node indices in that order.
fn linear() -> (Railroad, [usize; 5]) {
    let mut b = Builder::new();
    let s80 = b.add_signal(adr(80), SignalType::Block, pos(0, 0)).unwrap();
    let n1 = b.add_sensor(adr(1), Speed::Drive(50), pos(0, 2));
    let s81 = b.add_signal(adr(81), SignalType::Block, pos(0, 4)).unwrap();
    let n2 = b.add_sensor(adr(2), Speed::Drive(50), pos(0, 6));
    let s82 = b.add_signal(adr(82), SignalType::Block, pos(0, 8)).unwrap();
    assert!(b.connect(s80, n1, rails(0, 1)).is_some());
    assert!(b.connect(n1, s81, rails(0, 3)).is_some());
    assert!(b.connect(s81, n2, rails(0, 5)).is_some());
    assert!(b.connect(n2, s82, rails(0, 7)).is_some());
    (b.build(), [s80, n1, s81, n2, s82])
}

fn granted(msgs: &[Message], signal: u16, train: u16) -> bool {
    msgs.contains(&Message::TrainGranted(adr(signal), adr(train)))
}

#[test]
fn builder_refuses_full_slots() {
    let mut b = Builder::new();
    let a = b.add_sensor(adr(1), Speed::Stop, pos(0, 0));
    let c = b.add_sensor(adr(2), Speed::Stop, pos(0, 2));
    let d = b.add_sensor(adr(3), Speed::Stop, pos(0, 4));
    assert!(b.connect(a, c, rails(0, 1)).is_some());
    assert_eq!(b.connect(a, d, rails(0, 1)), None);
    assert_eq!(b.connect(d, c, rails(0, 3)), None);
    assert_eq!(b.connect(a, 99, rails(0, 1)), None);
    assert_eq!(b.can_add_neighbour(c, EdgeSide::Outgoing), Some(true));
    assert_eq!(b.can_add_neighbour(c, EdgeSide::Incoming), Some(false));
    assert_eq!(b.add_signal(adr(5), SignalType::Block, pos(1, 1)).is_some(), true);
    assert_eq!(b.add_signal(adr(5), SignalType::Block, pos(1, 1)), None);
    assert!(b.add_crossing(adr(6), pos(2, 2)).is_some());
    assert_eq!(b.add_crossing(adr(6), pos(2, 2)), None);
}

#[test]
fn switch_takes_two_on_one_side() {
    let mut b = Builder::new();
    let sw = b.add_switch(adr(10), pos(0, 0), SwitchType::StraightRight90);
    let x = b.add_sensor(adr(1), Speed::Stop, pos(0, 2));
    let y = b.add_sensor(adr(2), Speed::Stop, pos(0, 4));
    let z = b.add_sensor(adr(3), Speed::Stop, pos(0, 6));
    let w = b.add_sensor(adr(4), Speed::Stop, pos(0, 8));
    assert!(b.connect(sw, x, rails(0, 1)).is_some());
    assert!(b.connect(sw, y, rails(0, 1)).is_some());
    assert!(b.connect(z, sw, rails(0, 5)).is_some());
    assert_eq!(b.connect(w, sw, rails(0, 7)), None);
    assert_eq!(b.connect(sw, w, rails(0, 1)), None);
    let rr = b.build();
    match rr.node(sw) {
        Some(Node::Switch(_, _, _, Some(default_branch), EdgeSide::Outgoing)) => assert_eq!(default_branch, y),
        other => panic!("unexpected {:?}", other),
    }
}

#[test]
fn bidirectional_join() {
    let mut b = Builder::new();
    let (a0, a1) = b.add_bidirectional_sensor(adr(1), Speed::Stop, pos(0, 0));
    let (c0, c1) = b.add_bidirectional_sensor(adr(2), Speed::Stop, pos(0, 2));
    assert!(b.connect_bidirectional((a0, a1), (c0, c1), rails(0, 1)).is_some());
    assert_eq!(b.connect_bidirectional((a0, a1), (c0, c1), rails(0, 1)), None);
    assert_eq!(b.connect_bidirectional((a0, a0), (c0, c1), rails(0, 1)), None);
}

#[test]
fn blocks_are_discovered() {
    let (rr, [_, _, s81, n2, _]) = linear();
    let sig = rr.signal(adr(81)).unwrap();
    assert_eq!(sig.block_sensors(), &vec![adr(2)]);
    assert!(sig.other_input_signals().is_empty());
    assert_eq!(sig.representing_node(), s81);
    assert_eq!(rr.get_signal_of_block(n2), Some(s81));
}

#[test]
fn single_train_pass() {
    let (mut rr, [s80, n1, _, n2, _]) = linear();
    assert!(rr.create_train(adr(7), n1));
    assert!(!rr.create_train(adr(8), n1));
    assert!(rr.trigger_drive_to(adr(7), n2));
    assert_eq!(rr.get_signal_of_block(n1), Some(s80));
    let msgs = rr.reset_position(adr(7), n1);
    assert!(granted(&msgs, 80, 7));
    assert!(granted(&msgs, 81, 7));
    let msgs = rr.handle_message(Message::UpdateSensor(adr(2), SLevel::Occupied));
    assert_eq!(msgs[0], Message::TrainOnSensor(adr(2), adr(7)));
    assert_eq!(rr.get_train(adr(7)).unwrap().position(), n2);
    assert_eq!(rr.get_train(adr(7)).unwrap().route(), None);
    let _ = rr.handle_message(Message::UpdateSensor(adr(1), SLevel::Free));
    assert_eq!(rr.signal(adr(80)).unwrap().status(), Status::Reserved);
    let _ = rr.sensor_grace_elapsed(adr(1));
    assert_eq!(rr.signal(adr(80)).unwrap().status(), Status::Free);
    assert_eq!(rr.sensor(adr(1)).unwrap().status(), Status::Free);
}

#[test]
fn fifo_contention() {
    let (mut rr, _) = linear();
    let first = rr.request_block(adr(81), adr(1));
    assert!(granted(&first, 81, 1));
    let second = rr.request_block(adr(81), adr(2));
    assert!(second.is_empty());
    assert_eq!(rr.signal(adr(81)).unwrap().requesters(), vec![adr(2)]);
    assert!(rr.request_block(adr(81), adr(2)).is_empty());
    let _ = rr.handle_message(Message::UpdateSensor(adr(2), SLevel::Occupied));
    let _ = rr.handle_message(Message::UpdateSensor(adr(2), SLevel::Free));
    let released = rr.sensor_grace_elapsed(adr(2));
    assert!(granted(&released, 81, 2));
    assert_eq!(rr.sensor(adr(2)).unwrap().train(), Some(adr(2)));
}

#[test]
fn peer_exclusivity() {
    let mut b = Builder::new();
    let a = b.add_signal(adr(811), SignalType::Block, pos(0, 0)).unwrap();
    let c = b.add_signal(adr(812), SignalType::Block, pos(2, 0)).unwrap();
    let sw = b.add_switch(adr(20), pos(1, 1), SwitchType::LeftRight90);
    let n2 = b.add_sensor(adr(2), Speed::Stop, pos(1, 3));
    let s82 = b.add_signal(adr(82), SignalType::Block, pos(1, 5)).unwrap();
    assert!(b.connect(a, sw, rails(0, 1)).is_some());
    assert!(b.connect(c, sw, rails(2, 1)).is_some());
    assert!(b.connect(sw, n2, rails(1, 2)).is_some());
    assert!(b.connect(n2, s82, rails(1, 4)).is_some());
    let mut rr = b.build();
    assert_eq!(rr.signal(adr(811)).unwrap().other_input_signals(), &vec![adr(812)]);
    assert_eq!(rr.signal(adr(812)).unwrap().group_leader(), adr(811));
    let one = rr.request_block(adr(811), adr(1));
    let two = rr.request_block(adr(812), adr(2));
    assert!(granted(&one, 811, 1));
    assert!(two.is_empty());
    let _ = rr.handle_message(Message::UpdateSensor(adr(2), SLevel::Occupied));
    let _ = rr.handle_message(Message::UpdateSensor(adr(2), SLevel::Free));
    let later = rr.sensor_grace_elapsed(adr(2));
    assert!(granted(&later, 812, 2));
}

#[test]
fn switch_commanded_on_grant() {
    let mut b = Builder::new();
    let n0 = b.add_sensor(adr(1), Speed::Stop, pos(0, 0));
    let sig = b.add_signal(adr(50), SignalType::Block, pos(0, 2)).unwrap();
    let sw = b.add_switch(adr(30), pos(0, 4), SwitchType::StraightRight90);
    let straight = b.add_sensor(adr(2), Speed::Stop, pos(0, 6));
    let curved = b.add_sensor(adr(3), Speed::Stop, pos(1, 6));
    assert!(b.connect(n0, sig, rails(0, 1)).is_some());
    assert!(b.connect(sig, sw, rails(0, 3)).is_some());
    assert!(b.connect(sw, straight, rails(0, 5)).is_some());
    assert!(b.connect(sw, curved, rails(0, 5)).is_some());
    b.set_switch_default_dir(sw, straight);
    let mut rr = b.build();
    assert!(rr.create_train(adr(9), n0));
    assert!(rr.trigger_drive_to(adr(9), curved));
    let msgs = rr.request_next_block(adr(9));
    let commands: Vec<&Message> = msgs.iter().filter(|m| matches!(m, Message::Switch(..))).collect();
    assert_eq!(commands, vec![&Message::Switch(adr(30), SwDir::Curved)]);
    assert!(granted(&msgs, 50, 9));
    assert!(!rr.switch(adr(30)).unwrap().switch_in_correct_state(sig, curved, Some(straight)));
    let _ = rr.handle_message(Message::SwitchAck(adr(30), SwDir::Curved));
    assert!(rr.switch(adr(30)).unwrap().switch_in_correct_state(sig, curved, Some(straight)));
}

#[test]
fn planner_prefers_stopped_train_over_station() {
    let mut b = Builder::new();
    let start = b.add_sensor(adr(1), Speed::Stop, Position::new(Coord(2, 0, 0), Direction::East));
    let fork = b.add_switch(adr(10), Position::new(Coord(2, 1, 0), Direction::East), SwitchType::StraightRight90);
    let station = b.add_station(adr(2), Speed::Stop, Position::new(Coord(1, 2, 0), Direction::East));
    let busy = b.add_sensor(adr(3), Speed::Stop, Position::new(Coord(3, 2, 0), Direction::East));
    let join = b.add_switch(adr(11), Position::new(Coord(2, 3, 0), Direction::East), SwitchType::StraightRight90);
    let dest = b.add_sensor(adr(4), Speed::Stop, Position::new(Coord(2, 4, 0), Direction::East));
    assert!(b.connect(start, fork, rails(2, 0)).is_some());
    assert!(b.connect(fork, station, rails(2, 1)).is_some());
    assert!(b.connect(fork, busy, rails(2, 1)).is_some());
    assert!(b.connect(station, join, rails(1, 2)).is_some());
    assert!(b.connect(busy, join, rails(3, 2)).is_some());
    assert!(b.connect(join, dest, rails(2, 3)).is_some());
    let mut rr = b.build();
    assert!(rr.create_train(adr(20), busy));
    assert_eq!(rr.node_cost(busy), 100);
    assert_eq!(rr.node_cost(station), 500);
    assert_eq!(rr.node_cost(fork), 2);
    let (cost, path) = rr.shortest_path(start, dest).unwrap();
    assert_eq!(path, vec![start, fork, busy, join, dest]);
    assert_eq!(cost, 3 + 101 + 3 + 3);
    assert!(rr.create_train(adr(21), start));
    assert!(rr.trigger_drive_to(adr(21), dest));
    let route = rr.get_train(adr(21)).unwrap().route().unwrap();
    assert_eq!(route, vec![(start, false), (fork, false), (busy, false), (join, false), (dest, false)]);
}

#[test]
fn route_ends_on_sensor() {
    let (mut rr, [_, n1, s81, n2, s82]) = linear();
    assert!(rr.create_train(adr(7), n1));
    assert!(rr.trigger_drive_to(adr(7), s82));
    let route = rr.get_train(adr(7)).unwrap().route().unwrap();
    let last = route.last().unwrap().0;
    assert!(rr.node(last).unwrap().is_driveable());
    assert_eq!(route, vec![(n1, false), (s81, false), (n2, false)]);
    assert_eq!(route.len(), 3);
    assert_eq!(rr.shortest_path(n1, 99), None);
}

#[test]
fn speed_commands_for_train() {
    let (mut rr, [_, n1, _, _, _]) = linear();
    assert!(rr.create_train(adr(7), n1));
    let msgs = rr.set_speed(adr(7), Speed::Drive(10));
    assert_eq!(
        msgs,
        vec![Message::TrainSpeed(adr(7), Speed::Drive(5)), Message::TrainSpeed(adr(7), Speed::Drive(10))]
    );
    rr.speed_published(adr(7), Speed::Drive(10));
    assert_eq!(rr.set_speed(adr(7), Speed::EmergencyStop), vec![Message::TrainSpeed(adr(7), Speed::EmergencyStop)]);
    assert!(rr.set_speed(adr(99), Speed::Stop).is_empty());
}

#[test]
fn rebuild_from_railroad() {
    let (mut rr, [_, n1, _, n2, _]) = linear();
    assert!(rr.create_train(adr(7), n1));
    assert!(rr.trigger_drive_to(adr(7), n2));
    let mut b = Builder::from_railroad(rr);
    assert_eq!(b.node_count(), 5);
    b.remove_train(adr(7));
    b.remove_sensor(adr(2));
    b.remove_switch(adr(99));
    b.remove_crossing(adr(99));
    let rr = b.build();
    assert!(rr.get_train(adr(7)).is_none());
    assert!(rr.sensor(adr(2)).is_none());
    assert!(rr.sensor(adr(1)).is_some());
    assert!(rr.signal(adr(81)).unwrap().block_sensors().contains(&adr(2)));
}

#[test]
fn batch_additions() {
    let mut b = Builder::default();
    let sensors = b.add_sensors(&[(adr(1), Speed::Stop, pos(0, 0)), (adr(2), Speed::Stop, pos(0, 2))]);
    assert_eq!(sensors, vec![(0, adr(1)), (1, adr(2))]);
    let stations = b.add_bidirectional_stations(&[(adr(3), Speed::Stop, pos(0, 4))]);
    assert_eq!(stations, vec![((2, 3), adr(3))]);
    let signals = b.add_signals(&[
        (adr(80), SignalType::Block, pos(1, 0)),
        (adr(80), SignalType::Path, pos(1, 1)),
    ]);
    assert_eq!(signals, vec![(adr(80), 4)]);
    let switches = b.add_switches(&[(adr(5), pos(2, 0), SwitchType::LeftRight180)]);
    assert_eq!(switches, vec![(5, adr(5))]);
    assert_eq!(b.add_bidirectional_switches(&[(adr(6), pos(3, 0), SwitchType::RightLeft90)]).len(), 1);
    assert_eq!(b.add_stations(&[(adr(7), Speed::Stop, pos(4, 0))]), vec![(8, adr(7))]);
    assert_eq!(b.add_bidirectional_sensors(&[(adr(8), Speed::Stop, pos(5, 0))]), vec![((9, 10), adr(8))]);
    assert_eq!(b.node_count(), 11);
}

#[test]
fn lookup_by_position() {
    let (mut rr, [_, n1, _, n2, _]) = linear();
    assert_eq!(rr.get_sensor_index(adr(2), pos(0, 6)), Some(n2));
    assert_eq!(rr.get_sensor_index(adr(2), pos(0, 7)), None);
    assert_eq!(rr.get_switch_index(adr(2), pos(0, 6)), None);
    assert!(rr.create_train(adr(7), n1));
    assert!(rr.trigger_drive_to_sensor(adr(7), adr(2), pos(0, 6)));
    assert!(!rr.trigger_drive_to_sensor(adr(7), adr(9), pos(0, 6)));
    assert!(rr.update(adr(81)).is_empty());
}

#[test]
fn timetable_conditions() {
    let (mut rr, [_, n1, _, _, _]) = linear();
    assert!(rr.create_train(adr(7), n1));
    let leaf = |op, waiters| WaitingNode { connector: op, waiters, childs: vec![] };
    let on_sensor = WaitingReasons::TrainOnSensor(adr(7), adr(1));
    let elsewhere = WaitingReasons::TrainOnSensor(adr(7), adr(2));
    let station = Station {
        arrive: WaitingNode {
            connector: WaitingReasonOperator::AND,
            waiters: vec![on_sensor, WaitingReasons::Time(0)],
            childs: vec![leaf(WaitingReasonOperator::OR, vec![elsewhere, WaitingReasons::TrainHoldInStation(adr(7), adr(1))])],
        },
        depart: leaf(WaitingReasonOperator::XOR, vec![on_sensor, WaitingReasons::Time(0)]),
        destination: n1,
    };
    assert!(station.could_arrive(&rr));
    assert!(!station.could_depart(&rr));
    assert!(leaf(WaitingReasonOperator::XNOR, vec![]).fulfills(&rr));
    assert!(leaf(WaitingReasonOperator::XNOR, vec![elsewhere, WaitingReasons::Time(5)]).fulfills(&rr));
    assert!(!leaf(WaitingReasonOperator::XNOR, vec![on_sensor, WaitingReasons::Time(5)]).fulfills(&rr));
    let _ = rr.set_speed(adr(7), Speed::Drive(20));
    assert!(!leaf(WaitingReasonOperator::AND, vec![WaitingReasons::TrainHoldInStation(adr(7), adr(1))]).fulfills(&rr));
}

/// `Sen_1 -> Sig_81 -> Sen_2 -> Sig_82 -> Sen_3`, with `Sig_81` of the given kind.
fn path_line(kind: SignalType) -> (Railroad, [usize; 5]) {
    let mut b = Builder::new();
    let n1 = b.add_sensor(adr(1), Speed::Drive(50), pos(0, 0));
    let s81 = b.add_signal(adr(81), kind, pos(0, 2)).unwrap();
    let n2 = b.add_sensor(adr(2), Speed::Drive(50), pos(0, 4));
    let s82 = b.add_signal(adr(82), SignalType::Block, pos(0, 6)).unwrap();
    let n3 = b.add_sensor(adr(3), Speed::Drive(50), pos(0, 8));
    assert!(b.connect(n1, s81, rails(0, 1)).is_some());
    assert!(b.connect(s81, n2, rails(0, 3)).is_some());
    assert!(b.connect(n2, s82, rails(0, 5)).is_some());
    assert!(b.connect(s82, n3, rails(0, 7)).is_some());
    (b.build(), [n1, s81, n2, s82, n3])
}

#[test]
fn path_signal_reserves_the_road() {
    let (mut rr, [n1, _, _, _, n3]) = path_line(SignalType::Path);
    assert!(rr.create_train(adr(7), n1));
    assert!(rr.trigger_drive_to(adr(7), n3));
    let granted_82 = rr.request_block(adr(82), adr(9));
    assert!(granted(&granted_82, 82, 9));
    let msgs = rr.request_next_block(adr(7));
    assert!(granted(&msgs, 81, 7));
    assert_eq!(rr.sensor(adr(2)).unwrap().train(), Some(adr(7)));
}

#[test]
fn intelligent_path_falls_back_to_block() {
    let (mut rr, [n1, _, _, _, n3]) = path_line(SignalType::IntelligentPath);
    assert!(rr.create_train(adr(7), n1));
    assert!(rr.trigger_drive_to(adr(7), n3));
    assert!(granted(&rr.request_block(adr(82), adr(9)), 82, 9));
    let msgs = rr.request_next_block(adr(7));
    assert!(granted(&msgs, 81, 7));
    assert_eq!(rr.sensor(adr(2)).unwrap().train(), Some(adr(7)));
}

#[test]
fn path_signal_waits_for_occupied_road() {
    let (mut rr, [n1, _, n2, _, n3]) = path_line(SignalType::Path);
    assert!(rr.create_train(adr(7), n1));
    assert!(rr.create_train(adr(8), n2));
    assert!(rr.trigger_drive_to(adr(7), n3));
    assert!(rr.request_next_block(adr(7)).is_empty());
    assert_eq!(rr.signal(adr(81)).unwrap().requesters(), vec![adr(7)]);
}

#[test]
fn repeated_request_and_reset_position() {
    let (mut rr, [_, n1, _, n2, _]) = linear();
    assert!(granted(&rr.request_block(adr(81), adr(1)), 81, 1));
    assert!(rr.request_block(adr(81), adr(1)).is_empty());
    assert_eq!(rr.signal(adr(81)).unwrap().trains(), &vec![adr(1)]);
    assert!(rr.signal(adr(81)).unwrap().requesters().is_empty());
    assert!(rr.create_train(adr(7), n1));
    let _ = rr.reset_position(adr(7), n2);
    assert_eq!(rr.get_train(adr(7)).unwrap().position(), n2);
    assert_eq!(rr.signal(adr(81)).unwrap().requesters(), vec![adr(7)]);
}

#[test]
fn stale_ramp_steps_are_refused() {
    let (mut rr, [_, n1, _, _, _]) = linear();
    assert!(rr.create_train(adr(7), n1));
    let _ = rr.set_speed(adr(7), Speed::Drive(100));
    let ramp = rr.get_train(adr(7)).unwrap().ramp();
    assert!(rr.publish_ramp_step(adr(7), ramp, Speed::Drive(5)));
    let _ = rr.set_speed(adr(7), Speed::EmergencyStop);
    let stop = rr.get_train(adr(7)).unwrap().ramp();
    assert_ne!(stop, ramp);
    assert!(!rr.publish_ramp_step(adr(7), ramp, Speed::Drive(10)));
    assert_eq!(rr.get_train(adr(7)).unwrap().live_speed(), Speed::Drive(5));
    assert!(rr.publish_ramp_step(adr(7), stop, Speed::EmergencyStop));
    assert_eq!(rr.get_train(adr(7)).unwrap().live_speed(), Speed::EmergencyStop);
    assert!(adr(3) < adr(12));
    assert_eq!(rr.get_sensor_index(adr(1), pos(0, 2)), Some(n1));
}
