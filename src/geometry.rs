//! Positions, compass directions, rails and distance arithmetic.
use vstd::prelude::*;

verus! {

/// One of the eight compass directions, or a vertical one.
#[derive(Debug, Copy, Clone, PartialEq, Eq, Structural, Hash, PartialOrd, Ord)]
pub enum Direction {
    North,
    Northeast,
    East,
    Southeast,
    South,
    Southwest,
    West,
    Northwest,
    Up,
    Down,
}

/// The index of a direction in clockwise order, `North` being 0, then `Up` 8 and `Down` 9.
pub open spec fn dir_index(d: Direction) -> nat {
    match d {
        Direction::North => 0,
        Direction::Northeast => 1,
        Direction::East => 2,
        Direction::Southeast => 3,
        Direction::South => 4,
        Direction::Southwest => 5,
        Direction::West => 6,
        Direction::Northwest => 7,
        Direction::Up => 8,
        Direction::Down => 9,
    }
}

/// The direction with the given index (taken modulo ten).
pub open spec fn dir_of_index(i: nat) -> Direction {
    let k = i % 10;
    if k == 0 {
        Direction::North
    } else if k == 1 {
        Direction::Northeast
    } else if k == 2 {
        Direction::East
    } else if k == 3 {
        Direction::Southeast
    } else if k == 4 {
        Direction::South
    } else if k == 5 {
        Direction::Southwest
    } else if k == 6 {
        Direction::West
    } else if k == 7 {
        Direction::Northwest
    } else if k == 8 {
        Direction::Up
    } else {
        Direction::Down
    }
}

/// The direction pointing the other way.
pub open spec fn opposite(d: Direction) -> Direction {
    match d {
        Direction::North => Direction::South,
        Direction::Northeast => Direction::Southwest,
        Direction::East => Direction::West,
        Direction::Southeast => Direction::Northwest,
        Direction::South => Direction::North,
        Direction::Southwest => Direction::Northeast,
        Direction::West => Direction::East,
        Direction::Northwest => Direction::Southeast,
        Direction::Up => Direction::Down,
        Direction::Down => Direction::Up,
    }
}

/// Whether a direction is one of the four diagonals.
pub open spec fn is_diagonal(d: Direction) -> bool {
    matches!(d, Direction::Northeast | Direction::Southeast | Direction::Southwest | Direction::Northwest)
}

impl Direction {
    /// The direction turned clockwise by `rotation` eighths of a turn. Vertical directions
    /// count as indices 8 and 9 and so land on a compass direction.
    pub fn rotate_by(self, rotation: u8) -> (r: Direction)
        ensures
            r == dir_of_index(((dir_index(self) + rotation) % 8) as nat),
    {
        let sum: u16 = self.index() as u16 + rotation as u16;
        Direction::from_index((sum % 8) as u8)
    }

    /// Turned clockwise by one eighth.
    pub fn rotate_right(self) -> (r: Direction)
        ensures
            r == dir_of_index(((dir_index(self) + 1) % 8) as nat),
    {
        self.rotate_by(1)
    }

    /// Turned counter-clockwise by one eighth.
    pub fn rotate_left(self) -> (r: Direction)
        ensures
            r == dir_of_index(((dir_index(self) + 7) % 8) as nat),
    {
        self.rotate_by(7)
    }

    /// The index of this direction.
    pub fn index(self) -> (r: u8)
        ensures
            r as nat == dir_index(self),
    {
        match self {
            Direction::North => 0,
            Direction::Northeast => 1,
            Direction::East => 2,
            Direction::Southeast => 3,
            Direction::South => 4,
            Direction::Southwest => 5,
            Direction::West => 6,
            Direction::Northwest => 7,
            Direction::Up => 8,
            Direction::Down => 9,
        }
    }

    /// The direction whose index is `i` modulo ten.
    pub fn from_index(i: u8) -> (r: Direction)
        ensures
            r == dir_of_index(i as nat),
    {
        let k = i % 10;
        if k == 0 {
            Direction::North
        } else if k == 1 {
            Direction::Northeast
        } else if k == 2 {
            Direction::East
        } else if k == 3 {
            Direction::Southeast
        } else if k == 4 {
            Direction::South
        } else if k == 5 {
            Direction::Southwest
        } else if k == 6 {
            Direction::West
        } else if k == 7 {
            Direction::Northwest
        } else if k == 8 {
            Direction::Up
        } else {
            Direction::Down
        }
    }

    /// The direction pointing the other way.
    pub fn opposite(self) -> (r: Direction)
        ensures
            r == opposite(self),
    {
        match self {
            Direction::North => Direction::South,
            Direction::Northeast => Direction::Southwest,
            Direction::East => Direction::West,
            Direction::Southeast => Direction::Northwest,
            Direction::South => Direction::North,
            Direction::Southwest => Direction::Northeast,
            Direction::West => Direction::East,
            Direction::Northwest => Direction::Southeast,
            Direction::Up => Direction::Down,
            Direction::Down => Direction::Up,
        }
    }
}

impl std::ops::Not for Direction {
    type Output = Direction;

    fn not(self) -> (r: Direction)
        ensures
            r == opposite(self),
    {
        self.opposite()
    }
}

impl vstd::std_specs::ops::NotSpecImpl for Direction {
    open spec fn obeys_not_spec() -> bool {
        true
    }

    open spec fn not_req(self) -> bool {
        true
    }

    open spec fn not_spec(self) -> Direction {
        opposite(self)
    }
}

impl From<u8> for Direction {
    fn from(i: u8) -> (r: Direction)
        ensures
            r == dir_of_index(i as nat),
    {
        Direction::from_index(i)
    }
}

impl vstd::std_specs::convert::FromSpecImpl<u8> for Direction {
    open spec fn obeys_from_spec() -> bool {
        true
    }

    open spec fn from_spec(i: u8) -> Direction {
        dir_of_index(i as nat)
    }
}

/// A point of the layout grid: `0` is the x, `1` the y and `2` the z coordinate.
#[derive(Debug, Copy, Clone, PartialEq, Eq, Structural, Hash, PartialOrd, Ord)]
pub struct Coord(pub usize, pub usize, pub usize);

/// The absolute difference of two naturals.
pub open spec fn abs_diff(a: int, b: int) -> int {
    if a >= b { a - b } else { b - a }
}

/// Whether `b` lies on the ray that starts at `a` and heads in `dir`. North grows x, east grows y
/// and up grows z; a diagonal moves x and y by the same amount.
pub open spec fn on_line(a: Coord, b: Coord, dir: Direction) -> bool {
    let diagonal = a.2 == b.2 && abs_diff(a.0 as int, b.0 as int) == abs_diff(a.1 as int, b.1 as int);
    match dir {
        Direction::North => a.1 == b.1 && a.2 == b.2 && a.0 <= b.0,
        Direction::Northeast => diagonal && a.0 <= b.0 && a.1 <= b.1,
        Direction::East => a.0 == b.0 && a.2 == b.2 && a.1 <= b.1,
        Direction::Southeast => diagonal && a.0 >= b.0 && a.1 <= b.1,
        Direction::South => a.1 == b.1 && a.2 == b.2 && a.0 >= b.0,
        Direction::Southwest => diagonal && a.0 >= b.0 && a.1 >= b.1,
        Direction::West => a.0 == b.0 && a.2 == b.2 && a.1 >= b.1,
        Direction::Northwest => diagonal && a.0 <= b.0 && a.1 >= b.1,
        Direction::Up => a.0 == b.0 && a.1 == b.1 && a.2 <= b.2,
        Direction::Down => a.0 == b.0 && a.1 == b.1 && a.2 >= b.2,
    }
}

/// How many grid steps along `dir` lead from `a` to `b`, when `b` is on that line.
pub open spec fn line_distance(a: Coord, b: Coord, dir: Direction) -> int {
    match dir {
        Direction::North | Direction::Northeast | Direction::Northwest => b.0 - a.0,
        Direction::East => b.1 - a.1,
        Direction::Southeast | Direction::South | Direction::Southwest => a.0 - b.0,
        Direction::West => a.1 - b.1,
        Direction::Up => b.2 - a.2,
        Direction::Down => a.2 - b.2,
    }
}

/// The signed change of (x, y, z) for one grid step in `dir`.
pub open spec fn unit(dir: Direction) -> (int, int, int) {
    match dir {
        Direction::North => (-1, 0, 0),
        Direction::Northeast => (-1, 1, 0),
        Direction::East => (0, 1, 0),
        Direction::Southeast => (1, 1, 0),
        Direction::South => (1, 0, 0),
        Direction::Southwest => (1, -1, 0),
        Direction::West => (0, -1, 0),
        Direction::Northwest => (-1, -1, 0),
        Direction::Up => (0, 0, 1),
        Direction::Down => (0, 0, -1),
    }
}

/// Whether an integer is a valid coordinate value.
pub open spec fn in_usize(v: int) -> bool {
    0 <= v <= usize::MAX
}

/// The coordinate `n` steps from `c` in `dir`, or `None` when it leaves the grid.
pub open spec fn step_spec(c: Coord, dir: Direction, n: int) -> Option<Coord> {
    let u = unit(dir);
    let x = c.0 + u.0 * n;
    let y = c.1 + u.1 * n;
    let z = c.2 + u.2 * n;
    if in_usize(x) && in_usize(y) && in_usize(z) {
        Some(Coord(x as usize, y as usize, z as usize))
    } else {
        None
    }
}

/// The absolute difference of two `usize` values.
fn usize_abs_diff(a: usize, b: usize) -> (r: usize)
    ensures
        r as int == abs_diff(a as int, b as int),
{
    if a >= b { a - b } else { b - a }
}

/// The Manhattan distance of two coordinates.
pub open spec fn manhattan(a: Coord, b: Coord) -> int {
    abs_diff(a.0 as int, b.0 as int) + abs_diff(a.1 as int, b.1 as int) + abs_diff(a.2 as int, b.2 as int)
}

impl Coord {
    pub fn x(&self) -> (r: usize)
        ensures
            r == self.0,
    {
        self.0
    }

    pub fn y(&self) -> (r: usize)
        ensures
            r == self.1,
    {
        self.1
    }

    pub fn z(&self) -> (r: usize)
        ensures
            r == self.2,
    {
        self.2
    }

    /// Checks whether `coord` lies in the direction `dir` of this coordinate.
    pub fn is_on_line(&self, coord: &Coord, dir: Direction) -> (r: bool)
        ensures
            r == on_line(*self, *coord, dir),
    {
        let diagonal = self.2 == coord.2 && usize_abs_diff(self.0, coord.0) == usize_abs_diff(self.1, coord.1);
        match dir {
            Direction::North => self.1 == coord.1 && self.2 == coord.2 && self.0 <= coord.0,
            Direction::Northeast => diagonal && self.0 <= coord.0 && self.1 <= coord.1,
            Direction::East => self.0 == coord.0 && self.2 == coord.2 && self.1 <= coord.1,
            Direction::Southeast => diagonal && self.0 >= coord.0 && self.1 <= coord.1,
            Direction::South => self.1 == coord.1 && self.2 == coord.2 && self.0 >= coord.0,
            Direction::Southwest => diagonal && self.0 >= coord.0 && self.1 >= coord.1,
            Direction::West => self.0 == coord.0 && self.2 == coord.2 && self.1 >= coord.1,
            Direction::Northwest => diagonal && self.0 <= coord.0 && self.1 >= coord.1,
            Direction::Up => self.0 == coord.0 && self.1 == coord.1 && self.2 <= coord.2,
            Direction::Down => self.0 == coord.0 && self.1 == coord.1 && self.2 >= coord.2,
        }
    }

    /// The number of steps along `dir` from this coordinate to `coord`, if `coord` is on that line.
    pub fn distance(&self, coord: &Coord, dir: Direction) -> (r: Option<usize>)
        ensures
            r.is_some() == on_line(*self, *coord, dir),
            r.is_some() ==> r.unwrap() as int == line_distance(*self, *coord, dir),
    {
        if !self.is_on_line(coord, dir) {
            return None;
        }
        Some(
            match dir {
                Direction::North | Direction::Northeast | Direction::Northwest => coord.0 - self.0,
                Direction::East => coord.1 - self.1,
                Direction::Southeast | Direction::South | Direction::Southwest => self.0 - coord.0,
                Direction::West => self.1 - coord.1,
                Direction::Up => coord.2 - self.2,
                Direction::Down => self.2 - coord.2,
            },
        )
    }

    /// The Manhattan distance to `coord`.
    pub fn manhattan_distance(&self, coord: &Coord) -> (r: usize)
        requires
            manhattan(*self, *coord) <= usize::MAX,
        ensures
            r as int == manhattan(*self, *coord),
    {
        usize_abs_diff(self.0, coord.0) + usize_abs_diff(self.1, coord.1) + usize_abs_diff(self.2, coord.2)
    }

    /// The Manhattan distance to `coord`, or `None` when it exceeds `usize`.
    pub fn checked_manhattan_distance(&self, coord: &Coord) -> (r: Option<usize>)
        ensures
            r == (if manhattan(*self, *coord) <= usize::MAX {
                Some(manhattan(*self, *coord) as usize)
            } else {
                None
            }),
    {
        let dx = usize_abs_diff(self.0, coord.0);
        let dy = usize_abs_diff(self.1, coord.1);
        let dz = usize_abs_diff(self.2, coord.2);
        match dx.checked_add(dy) {
            Some(xy) => match xy.checked_add(dz) {
                Some(d) => Some(d),
                None => None,
            },
            None => None,
        }
    }

    /// The sum of the three coordinates.
    pub fn fold(&self) -> (r: usize)
        requires
            self.0 + self.1 + self.2 <= usize::MAX,
        ensures
            r == self.0 + self.1 + self.2,
    {
        self.0 + self.1 + self.2
    }

    /// The coordinate `amount` steps ahead in `dir`, or `None` where that leaves the grid.
    pub fn step(&self, dir: Direction, amount: usize) -> (r: Option<Coord>)
        ensures
            r == step_spec(*self, dir, amount as int),
    {
        match dir {
            Direction::North => match self.0.checked_sub(amount) {
                Some(x) => Some(Coord(x, self.1, self.2)),
                None => None,
            },
            Direction::Northeast => match (self.0.checked_sub(amount), self.1.checked_add(amount)) {
                (Some(x), Some(y)) => Some(Coord(x, y, self.2)),
                _ => None,
            },
            Direction::East => match self.1.checked_add(amount) {
                Some(y) => Some(Coord(self.0, y, self.2)),
                None => None,
            },
            Direction::Southeast => match (self.0.checked_add(amount), self.1.checked_add(amount)) {
                (Some(x), Some(y)) => Some(Coord(x, y, self.2)),
                _ => None,
            },
            Direction::South => match self.0.checked_add(amount) {
                Some(x) => Some(Coord(x, self.1, self.2)),
                None => None,
            },
            Direction::Southwest => match (self.0.checked_add(amount), self.1.checked_sub(amount)) {
                (Some(x), Some(y)) => Some(Coord(x, y, self.2)),
                _ => None,
            },
            Direction::West => match self.1.checked_sub(amount) {
                Some(y) => Some(Coord(self.0, y, self.2)),
                None => None,
            },
            Direction::Northwest => match (self.0.checked_sub(amount), self.1.checked_sub(amount)) {
                (Some(x), Some(y)) => Some(Coord(x, y, self.2)),
                _ => None,
            },
            Direction::Up => match self.2.checked_add(amount) {
                Some(z) => Some(Coord(self.0, self.1, z)),
                None => None,
            },
            Direction::Down => match self.2.checked_sub(amount) {
                Some(z) => Some(Coord(self.0, self.1, z)),
                None => None,
            },
        }
    }
}

/// Stepping `n` cells in one direction and then `n` cells the opposite way returns to the
/// starting coordinate, wherever the first step stays on the grid.
pub proof fn lemma_step_inverse(c: Coord, dir: Direction, n: nat)
    requires
        step_spec(c, dir, n as int).is_some(),
    ensures
        step_spec(step_spec(c, dir, n as int).unwrap(), opposite(dir), n as int) == Some(c),
{
    match dir {
        Direction::North => {},
        Direction::Northeast => {},
        Direction::East => {},
        Direction::Southeast => {},
        Direction::South => {},
        Direction::Southwest => {},
        Direction::West => {},
        Direction::Northwest => {},
        Direction::Up => {},
        Direction::Down => {},
    }
}

/// No walk longer than the largest coordinate stays on the grid.
proof fn lemma_step_too_far(c: Coord, dir: Direction, n: int)
    requires
        n > usize::MAX,
    ensures
        step_spec(c, dir, n).is_none(),
{
    match dir {
        Direction::North => {},
        Direction::Northeast => {},
        Direction::East => {},
        Direction::Southeast => {},
        Direction::South => {},
        Direction::Southwest => {},
        Direction::West => {},
        Direction::Northwest => {},
        Direction::Up => {},
        Direction::Down => {},
    }
}

/// A coordinate with the direction it faces.
#[derive(Debug, Copy, Clone, PartialEq, Eq, Structural, Hash, PartialOrd, Ord)]
pub struct Position {
    pub coord: Coord,
    pub dir: Direction,
}

impl Position {

    pub fn new(coord: Coord, dir: Direction) -> (r: Position)
        ensures
            r.coord == coord,
            r.dir == dir,
    {
        Position { coord, dir }
    }

    /// Turns the facing direction clockwise by one eighth.
    pub fn rotate_right(&mut self)
        ensures
            final(self).coord == old(self).coord,
            final(self).dir == dir_of_index(((dir_index(old(self).dir) + 1) % 8) as nat),
    {
        self.rotate_by(1);
    }

    /// Turns the facing direction counter-clockwise by one eighth.
    pub fn rotate_left(&mut self)
        ensures
            final(self).coord == old(self).coord,
            final(self).dir == dir_of_index(((dir_index(old(self).dir) + 7) % 8) as nat),
    {
        self.rotate_by(7);
    }

    /// Turns the facing direction clockwise by `rotation` eighths.
    pub fn rotate_by(&mut self, rotation: u8)
        ensures
            final(self).coord == old(self).coord,
            final(self).dir == dir_of_index(
                ((dir_index(old(self).dir) + rotation) % 8) as nat,
            ),
    {
        self.dir = self.dir.rotate_by(rotation);
    }

    pub fn coord(&self) -> (r: Coord)
        ensures
            r == self.coord,
    {
        self.coord
    }

    pub fn dir(&self) -> (r: Direction)
        ensures
            r == self.dir,
    {
        self.dir
    }

    pub fn x(&self) -> (r: usize)
        ensures
            r == self.coord.0,
    {
        self.coord.0
    }

    pub fn y(&self) -> (r: usize)
        ensures
            r == self.coord.1,
    {
        self.coord.1
    }

    pub fn z(&self) -> (r: usize)
        ensures
            r == self.coord.2,
    {
        self.coord.2
    }

    /// The position `amount` cells ahead in the facing direction, or `None` off the grid.
    pub fn step(&self, amount: usize) -> (r: Option<Position>)
        ensures
            r.is_some() == step_spec(self.coord, self.dir, amount as int).is_some(),
            r.is_some() ==> r.unwrap().coord == step_spec(
                self.coord,
                self.dir,
                amount as int,
            ).unwrap() && r.unwrap().dir == self.dir,
    {
        match self.coord.step(self.dir, amount) {
            Some(coord) => Some(Position { coord, dir: self.dir }),
            None => None,
        }
    }
}

/// A straight run of track: it starts at `pos`, heads in the direction of `pos`, spans
/// `length` cells beyond its first one, and is entered from `start_dir`.
#[derive(Debug, Copy, Clone, PartialEq, Eq, Structural, Hash, PartialOrd, Ord)]
pub struct Rail {
    pub length: usize,
    pub pos: Position,
    pub start_dir: Direction,
}

/// The rail that runs from `start` up to (not including) `end`, entered from `in_dir`, when
/// `end` differs from the start and lies ahead of it.
pub open spec fn step_rail(start: Position, end: Coord, in_dir: Direction) -> Option<Rail> {
    if start.coord != end && on_line(start.coord, end, start.dir) {
        Some(
            Rail {
                length: (line_distance(start.coord, end, start.dir) - 1) as usize,
                pos: start,
                start_dir: in_dir,
            },
        )
    } else {
        None
    }
}

/// The rails joining each position of `steps` to the next, the first one entered from `in_dir`
/// and each later one from the opposite of the facing direction of the position before.
pub open spec fn connection_rails(steps: Seq<Position>, in_dir: Direction) -> Option<Seq<Rail>>
    decreases steps.len(),
{
    if steps.len() < 2 {
        Some(seq![])
    } else {
        match step_rail(steps[0], steps[1].coord, in_dir) {
            Some(rail) => match connection_rails(steps.drop_first(), opposite(steps[0].dir)) {
                Some(rest) => Some(seq![rail] + rest),
                None => None,
            },
            None => None,
        }
    }
}

/// The rails laid by walking `steps`, each a run of the given length in the given direction;
/// every run moves the start one cell further than its length, and the walk must stay on the
/// grid.
pub open spec fn rails_by_length(steps: Seq<(usize, Direction)>, in_dir: Direction, start: Coord)
    -> Option<Seq<Rail>>
    decreases steps.len(),
{
    if steps.len() == 0 {
        Some(seq![])
    } else {
        let (len, dir) = steps[0];
        let rail = Rail { length: len, pos: Position { coord: start, dir }, start_dir: in_dir };
        match step_spec(start, dir, len + 1) {
            Some(next) => match rails_by_length(steps.drop_first(), opposite(dir), next) {
                Some(rest) => Some(seq![rail] + rest),
                None => None,
            },
            None => None,
        }
    }
}

/// The grid distance a rail covers: one more than its length, twice that on a diagonal.
pub open spec fn rail_manhattan(r: Rail) -> int {
    if is_diagonal(r.pos.dir) {
        (r.length + 1) * 2
    } else {
        r.length + 1
    }
}

impl Rail {


    /// The rail from `start` to `end` (exclusive), entered from `in_dir`; `None` where `end` is
    /// the start or does not lie ahead of it.
    pub fn perform_step(start: &Position, end: &Coord, in_dir: Direction) -> (r: Option<Rail>)
        ensures
            r == step_rail(*start, *end, in_dir),
    {
        if start.coord == *end {
            return None;
        }
        match start.coord.distance(end, start.dir) {
            Some(d) => {
                assert(d >= 1);
                Some(Rail { length: d - 1, pos: *start, start_dir: in_dir })
            },
            None => None,
        }
    }

    /// The rails between consecutive positions of `steps`; `None` if `steps` is empty or two
    /// consecutive positions are not in line.
    pub fn new_connection_vec(steps: &[Position], in_dir: Direction) -> (r: Option<Vec<Rail>>)
        ensures
            steps@.len() == 0 ==> r.is_none(),
            steps@.len() > 0 ==> match r {
                Some(v) => connection_rails(steps@, in_dir) == Some(v@),
                None => connection_rails(steps@, in_dir).is_none(),
            },
    {
        if steps.len() == 0 {
            return None;
        }
        let mut rails: Vec<Rail> = Vec::new();
        let mut dir = in_dir;
        let mut i: usize = 0;
        assert(steps@.subrange(0, steps@.len() as int) =~= steps@);
        while i < steps.len() - 1
            invariant
                steps@.len() > 0,
                0 <= i < steps@.len(),
                dir == (if i == 0 { in_dir } else { opposite(steps@[i - 1].dir) }),
                match connection_rails(steps@.subrange(i as int, steps@.len() as int), dir) {
                    Some(rest) => connection_rails(steps@, in_dir) == Some(rails@ + rest),
                    None => connection_rails(steps@, in_dir).is_none(),
                },
            decreases steps@.len() - i,
        {
            proof {
                let sub = steps@.subrange(i as int, steps@.len() as int);
                assert(sub.drop_first() =~= steps@.subrange(i + 1, steps@.len() as int));
            }
            match Rail::perform_step(&steps[i], &steps[i + 1].coord, dir) {
                Some(rail) => {
                    proof {
                        let tail = steps@.subrange(i + 1, steps@.len() as int);
                        match connection_rails(tail, opposite(steps@[i as int].dir)) {
                            Some(rest) => {
                                assert(rails@.push(rail) + rest =~= rails@ + (seq![rail] + rest));
                            },
                            None => {},
                        }
                    }
                    rails.push(rail);
                    dir = steps[i].dir.opposite();
                    i = i + 1;
                },
                None => {
                    return None;
                },
            }
        }
        assert(steps@.subrange(i as int, steps@.len() as int).len() == 1);
        assert(rails@ + seq![] =~= rails@);
        Some(rails)
    }

    /// Lays a rail for every `(length, direction)` step, starting at `start_pos`. A step of
    /// length `n` moves the next start `n + 1` cells on, so two rails never share a start.
    /// `None` where the walk leaves the grid.
    pub fn connection_by_length(
        steps: &[(usize, Direction)],
        in_dir: Direction,
        start_pos: Coord,
    ) -> (r: Option<Vec<Rail>>)
        ensures
            match r {
                Some(v) => rails_by_length(steps@, in_dir, start_pos) == Some(v@),
                None => rails_by_length(steps@, in_dir, start_pos).is_none(),
            },
    {
        let mut rails: Vec<Rail> = Vec::new();
        let mut dir = in_dir;
        let mut pos = start_pos;
        let mut i: usize = 0;
        assert(steps@.subrange(0, steps@.len() as int) =~= steps@);
        while i < steps.len()
            invariant
                0 <= i <= steps@.len(),
                match rails_by_length(steps@.subrange(i as int, steps@.len() as int), dir, pos) {
                    Some(rest) => rails_by_length(steps@, in_dir, start_pos) == Some(rails@ + rest),
                    None => rails_by_length(steps@, in_dir, start_pos).is_none(),
                },
            decreases steps@.len() - i,
        {
            proof {
                let sub = steps@.subrange(i as int, steps@.len() as int);
                assert(sub.drop_first() =~= steps@.subrange(i + 1, steps@.len() as int));
            }
            let (len, step_dir) = steps[i];
            let rail = Rail { length: len, pos: Position { coord: pos, dir: step_dir }, start_dir: dir };
            if len == usize::MAX {
                proof {
                    lemma_step_too_far(pos, step_dir, len + 1);
                }
                return None;
            }
            match pos.step(step_dir, len + 1) {
                Some(next) => {
                    proof {
                        let tail = steps@.subrange(i + 1, steps@.len() as int);
                        match rails_by_length(tail, opposite(step_dir), next) {
                            Some(rest) => {
                                assert(rails@.push(rail) + rest =~= rails@ + (seq![rail] + rest));
                            },
                            None => {},
                        }
                    }
                    rails.push(rail);
                    pos = next;
                    dir = step_dir.opposite();
                    i = i + 1;
                },
                None => {
                    return None;
                },
            }
        }
        assert(rails@ + seq![] =~= rails@);
        Some(rails)
    }

    pub fn new(from: Position, length: usize, start_dir: Direction) -> (r: Rail)
        ensures
            r.pos == from,
            r.length == length,
            r.start_dir == start_dir,
    {
        Rail { length, pos: from, start_dir }
    }

    pub fn length(&self) -> (r: usize)
        ensures
            r == self.length,
    {
        self.length
    }

    /// The grid distance this rail covers.
    pub fn manhattan_distance(&self) -> (r: usize)
        requires
            rail_manhattan(*self) <= usize::MAX,
        ensures
            r as int == rail_manhattan(*self),
    {
        if self.pos.dir == Direction::Northeast || self.pos.dir == Direction::Southeast
            || self.pos.dir == Direction::Southwest || self.pos.dir == Direction::Northwest {
            (self.length + 1) * 2
        } else {
            self.length + 1
        }
    }

    pub fn pos(&self) -> (r: Position)
        ensures
            r == self.pos,
    {
        self.pos
    }

    pub fn start_dir(&self) -> (r: Direction)
        ensures
            r == self.start_dir,
    {
        self.start_dir
    }
}

} // verus!
