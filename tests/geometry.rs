use locologic::geometry::{Coord, Direction, Position, Rail};

#[test]
fn on_line_examples() {
    assert!(Coord(0, 0, 0).is_on_line(&Coord(0, 3, 0), Direction::East));
    assert!(!Coord(0, 0, 0).is_on_line(&Coord(1, 0, 0), Direction::East));
    assert!(Coord(0, 0, 0).is_on_line(&Coord(5, 5, 0), Direction::Northeast));
    assert!(!Coord(0, 0, 0).is_on_line(&Coord(5, 4, 0), Direction::Northeast));
    assert!(!Coord(4, 4, 0).is_on_line(&Coord(0, 0, 0), Direction::Northeast));
}

#[test]
fn distance_along_line() {
    assert_eq!(Coord(0, 0, 0).distance(&Coord(0, 3, 0), Direction::East), Some(3));
    assert_eq!(Coord(0, 0, 0).distance(&Coord(3, 0, 0), Direction::East), None);
    assert_eq!(Coord(1, 5, 0).distance(&Coord(4, 2, 0), Direction::Northwest), Some(3));
}

#[test]
fn step_and_back() {
    let c = Coord(5, 5, 5);
    for dir in [
        Direction::North,
        Direction::Northeast,
        Direction::East,
        Direction::Southeast,
        Direction::South,
        Direction::Southwest,
        Direction::West,
        Direction::Northwest,
        Direction::Up,
        Direction::Down,
    ] {
        let there = c.step(dir, 3).unwrap();
        assert_ne!(there, c);
        assert_eq!(there.step(!dir, 3), Some(c));
    }
}

#[test]
fn step_off_grid() {
    assert_eq!(Coord(0, 0, 0).step(Direction::North, 1), None);
    assert_eq!(Coord(0, usize::MAX, 0).step(Direction::East, 1), None);
    assert_eq!(Coord(2, 0, 0).step(Direction::North, 2), Some(Coord(0, 0, 0)));
}

#[test]
fn rotations() {
    assert_eq!(Direction::North.rotate_right(), Direction::Northeast);
    assert_eq!(Direction::North.rotate_left(), Direction::Northwest);
    assert_eq!(Direction::West.rotate_by(3), Direction::Northeast);
    assert_eq!(Direction::from(12u8), Direction::East);
    let mut p = Position::new(Coord(1, 2, 3), Direction::South);
    p.rotate_right();
    assert_eq!(p.dir(), Direction::Southwest);
    p.rotate_left();
    p.rotate_left();
    assert_eq!(p.dir(), Direction::Southeast);
    assert_eq!((p.x(), p.y(), p.z()), (1, 2, 3));
}

#[test]
fn perform_step_example() {
    let from = Position::new(Coord(0, 0, 0), Direction::East);
    let right = Rail::perform_step(&from, &Coord(0, 3, 0), Direction::South);
    let wrong = Rail::perform_step(&from, &Coord(3, 0, 0), Direction::South);
    assert_eq!(right, Some(Rail::new(from, 2, Direction::South)));
    assert_eq!(wrong, None);
}

#[test]
fn connection_vec_example() {
    let connection = Rail::new_connection_vec(
        &[
            Position::new(Coord(0, 0, 0), Direction::East),
            Position::new(Coord(0, 4, 0), Direction::North),
            Position::new(Coord(1, 4, 0), Direction::Northeast),
            Position::new(Coord(4, 7, 0), Direction::East),
        ],
        Direction::North,
    );
    let expected = vec![
        Rail::new(Position::new(Coord(0, 0, 0), Direction::East), 3, Direction::North),
        Rail::new(Position::new(Coord(0, 4, 0), Direction::North), 0, Direction::West),
        Rail::new(Position::new(Coord(1, 4, 0), Direction::Northeast), 2, Direction::South),
    ];
    assert_eq!(connection, Some(expected));
    assert_eq!(Rail::new_connection_vec(&[], Direction::North), None);
}

#[test]
fn connection_by_length_example() {
    let steps = [(0, Direction::East), (3, Direction::Southeast), (2, Direction::North)];
    let calculated = Rail::connection_by_length(&steps, Direction::North, Coord(0, 0, 0));
    let expected = Some(vec![
        Rail::new(Position::new(Coord(0, 0, 0), Direction::East), 0, Direction::North),
        Rail::new(Position::new(Coord(0, 1, 0), Direction::Southeast), 3, Direction::West),
        Rail::new(Position::new(Coord(4, 5, 0), Direction::North), 2, Direction::Northwest),
    ]);
    assert_eq!(calculated, expected);
}

#[test]
fn rail_distances() {
    let straight = Rail::new(Position::new(Coord(0, 0, 0), Direction::East), 3, Direction::West);
    let diagonal = Rail::new(Position::new(Coord(0, 0, 0), Direction::Southeast), 3, Direction::West);
    assert_eq!(straight.manhattan_distance(), 4);
    assert_eq!(diagonal.manhattan_distance(), 8);
    assert_eq!(Coord(1, 5, 2).manhattan_distance(&Coord(4, 1, 2)), 7);
    assert_eq!(Coord(1, 5, 2).fold(), 8);
}
