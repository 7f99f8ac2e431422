//! The playing grid: directions, players, and integer coordinates.
//!
//! The board lives on an integer grid. Coordinates are `i32`; a step off the
//! representable range has no destination cell, which the rest of the engine
//! treats as a blocked cell (the edge of the machine-representable grid).
use vstd::prelude::*;

verus! {

/// One of the four orthogonal directions. North is negative `y`,
/// south positive `y`, east positive `x`, west negative `x`.
#[derive(Debug, Clone, Copy, PartialEq, Eq, Structural)]
pub enum Direction {
    North,
    East,
    South,
    West,
}

/// One of the two players.
#[derive(Debug, PartialEq, Eq, Clone, Copy, Structural)]
pub enum Player {
    A,
    B,
}

/// A cell of the grid.
#[derive(Debug, PartialEq, Eq, Clone, Copy, Structural)]
pub struct Position {
    pub x: i32,
    pub y: i32,
}

pub open spec fn spec_other_player(p: Player) -> Player {
    match p {
        Player::A => Player::B,
        Player::B => Player::A,
    }
}

impl Player {
    /// The opponent of this player.
    pub fn other(self) -> (r: Player)
        ensures
            r == spec_other_player(self),
    {
        match self {
            Player::A => Player::B,
            Player::B => Player::A,
        }
    }
}

pub open spec fn spec_clockwise(d: Direction) -> Direction {
    match d {
        Direction::North => Direction::East,
        Direction::East => Direction::South,
        Direction::South => Direction::West,
        Direction::West => Direction::North,
    }
}

pub open spec fn spec_anticlockwise(d: Direction) -> Direction {
    match d {
        Direction::North => Direction::West,
        Direction::East => Direction::North,
        Direction::South => Direction::East,
        Direction::West => Direction::South,
    }
}

pub open spec fn spec_opposite(d: Direction) -> Direction {
    match d {
        Direction::North => Direction::South,
        Direction::East => Direction::West,
        Direction::South => Direction::North,
        Direction::West => Direction::East,
    }
}

/// The unit vector of a direction, as unbounded integers.
pub open spec fn spec_unit_vector(d: Direction) -> (int, int) {
    match d {
        Direction::North => (0int, -1int),
        Direction::East => (1int, 0int),
        Direction::South => (0int, 1int),
        Direction::West => (-1int, 0int),
    }
}

impl Direction {
    pub fn clockwise(self) -> (r: Self)
        ensures
            r == spec_clockwise(self),
    {
        match self {
            Direction::North => Direction::East,
            Direction::East => Direction::South,
            Direction::South => Direction::West,
            Direction::West => Direction::North,
        }
    }

    pub fn anticlockwise(self) -> (r: Self)
        ensures
            r == spec_anticlockwise(self),
    {
        match self {
            Direction::North => Direction::West,
            Direction::East => Direction::North,
            Direction::South => Direction::East,
            Direction::West => Direction::South,
        }
    }

    /// The direction that points the opposite way.
    pub fn opposite(self) -> (r: Self)
        ensures
            r == spec_opposite(self),
    {
        match self {
            Direction::North => Direction::South,
            Direction::East => Direction::West,
            Direction::South => Direction::North,
            Direction::West => Direction::East,
        }
    }

    /// The unit vector of this direction as an `(x, y)` pair.
    pub fn to_unit_vector(self) -> (r: (i32, i32))
        ensures
            r.0 as int == spec_unit_vector(self).0,
            r.1 as int == spec_unit_vector(self).1,
    {
        match self {
            Direction::North => (0i32, -1i32),
            Direction::East => (1i32, 0i32),
            Direction::South => (0i32, 1i32),
            Direction::West => (-1i32, 0i32),
        }
    }

    /// The direction whose unit vector is `v`, if `v` is a unit vector.
    pub fn from_vector(v: (i32, i32)) -> (r: Option<Self>)
        ensures
            r matches Some(d) ==> spec_unit_vector(d) == (v.0 as int, v.1 as int),
            r is None ==> forall|d: Direction| spec_unit_vector(d) != (v.0 as int, v.1 as int),
    {
        let r = match (v.0, v.1) {
            (0i32, -1i32) => Some(Direction::North),
            (1i32, 0i32) => Some(Direction::East),
            (0i32, 1i32) => Some(Direction::South),
            (-1i32, 0i32) => Some(Direction::West),
            _ => None,
        };
        proof {
            if r is None {
                assert forall|d: Direction| spec_unit_vector(d) != (v.0 as int, v.1 as int) by {
                    match d {
                        Direction::North => {},
                        Direction::East => {},
                        Direction::South => {},
                        Direction::West => {},
                    }
                }
            }
        }
        r
    }
}

/// The cell one step from `p` in direction `d`, or `None` where that step
/// leaves the representable grid.
pub open spec fn spec_step(p: Position, d: Direction) -> Option<Position> {
    let nx = p.x + spec_unit_vector(d).0;
    let ny = p.y + spec_unit_vector(d).1;
    if i32::MIN <= nx <= i32::MAX && i32::MIN <= ny <= i32::MAX {
        Some(Position { x: nx as i32, y: ny as i32 })
    } else {
        None
    }
}

impl Position {
    /// The neighbouring cell in direction `d`, or `None` at the grid edge.
    pub fn step(self, d: Direction) -> (r: Option<Position>)
        ensures
            r == spec_step(self, d),
    {
        match d {
            Direction::North => if self.y > i32::MIN {
                Some(Position { x: self.x, y: self.y - 1 })
            } else {
                None
            },
            Direction::East => if self.x < i32::MAX {
                Some(Position { x: self.x + 1, y: self.y })
            } else {
                None
            },
            Direction::South => if self.y < i32::MAX {
                Some(Position { x: self.x, y: self.y + 1 })
            } else {
                None
            },
            Direction::West => if self.x > i32::MIN {
                Some(Position { x: self.x - 1, y: self.y })
            } else {
                None
            },
        }
    }
}

/// Stepping from `p` to `q` along `d` and stepping back along the opposite
/// direction are inverse moves.
pub proof fn lemma_step_symmetric(p: Position, d: Direction)
    ensures
        spec_step(p, d) matches Some(q) ==> spec_step(q, spec_opposite(d)) == Some(p),
{
}

} // verus!
