use vstd::prelude::*;

verus! {

/// Direction along the three axes.
#[derive(Clone, Copy, Debug, PartialEq, Eq, Structural, Hash)]
pub enum Direction {
    Down,
    Up,
    North,
    South,
    West,
    East,
}

/// The unit vector that points in `d`.
pub open spec fn unit_of(d: Direction) -> (i32, i32, i32) {
    match d {
        Direction::Down => (0, -1i32, 0),
        Direction::Up => (0, 1, 0),
        Direction::North => (0, 0, -1i32),
        Direction::South => (0, 0, 1),
        Direction::West => (-1i32, 0, 0),
        Direction::East => (1, 0, 0),
    }
}

impl Direction {
    /// Returns the unit vector pointing in this direction.
    pub fn to_unit_vec(self) -> (r: (i32, i32, i32))
        ensures
            r == unit_of(self),
    {
        match self {
            Direction::Down => (0, -1i32, 0),
            Direction::Up => (0, 1, 0),
            Direction::North => (0, 0, -1i32),
            Direction::South => (0, 0, 1),
            Direction::West => (-1i32, 0, 0),
            Direction::East => (1, 0, 0),
        }
    }
}


/// The direction whose unit vector is `v`, if any.
pub open spec fn from_unit(v: (i32, i32, i32)) -> Option<Direction> {
    if v == (0i32, -1i32, 0i32) {
        Some(Direction::Down)
    } else if v == (0i32, 1i32, 0i32) {
        Some(Direction::Up)
    } else if v == (0i32, 0i32, -1i32) {
        Some(Direction::North)
    } else if v == (0i32, 0i32, 1i32) {
        Some(Direction::South)
    } else if v == (-1i32, 0i32, 0i32) {
        Some(Direction::West)
    } else if v == (1i32, 0i32, 0i32) {
        Some(Direction::East)
    } else {
        None
    }
}

impl Direction {
    /// Returns the unit vector in the horizontal plane, `(x, z)`, for the four horizontal
    /// directions.
    pub fn to_cardinal_unit_vec(self) -> (r: Option<(i32, i32)>)
        ensures
            r == match self {
                Direction::Down | Direction::Up => None,
                _ => Some((unit_of(self).0, unit_of(self).2)),
            },
    {
        match self {
            Direction::Down => None,
            Direction::Up => None,
            Direction::North => Some((0, -1)),
            Direction::South => Some((0, 1)),
            Direction::West => Some((-1, 0)),
            Direction::East => Some((1, 0)),
        }
    }

    /// Returns the direction whose unit vector is `v`, if any.
    pub fn from_unit_vec(v: (i32, i32, i32)) -> (r: Option<Direction>)
        ensures
            r == from_unit(v),
            r matches Some(d) ==> unit_of(d) == v,
    {
        let (x, y, z) = v;
        if x == 0 && y == -1 && z == 0 {
            Some(Direction::Down)
        } else if x == 0 && y == 1 && z == 0 {
            Some(Direction::Up)
        } else if x == 0 && y == 0 && z == -1 {
            Some(Direction::North)
        } else if x == 0 && y == 0 && z == 1 {
            Some(Direction::South)
        } else if x == -1 && y == 0 && z == 0 {
            Some(Direction::West)
        } else if x == 1 && y == 0 && z == 0 {
            Some(Direction::East)
        } else {
            None
        }
    }
}

} // verus!
