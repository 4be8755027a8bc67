//! The closed nine-direction move vocabulary and its unit-vector mapping.

use vstd::prelude::*;

verus! {

/// One discrete directional input: eight compass directions plus standing still.
#[derive(Debug, Clone, Copy, PartialEq, Eq, Structural)]
pub enum Move {
    Up,
    UpRight,
    Right,
    DownRight,
    Down,
    DownLeft,
    Left,
    UpLeft,
    Stay,
}

/// Sign of an integer: -1, 0 or 1.
pub open spec fn sign(v: int) -> int {
    if v > 0 {
        1
    } else if v < 0 {
        -1
    } else {
        0
    }
}

/// The unit delta a move stands for, as (dx, dy); y grows downwards.
pub open spec fn move_dx(m: Move) -> int {
    match m {
        Move::Up => 0,
        Move::UpRight => 1,
        Move::Right => 1,
        Move::DownRight => 1,
        Move::Down => 0,
        Move::DownLeft => -1,
        Move::Left => -1,
        Move::UpLeft => -1,
        Move::Stay => 0,
    }
}

/// The unit delta a move stands for, as (dx, dy); y grows downwards.
pub open spec fn move_dy(m: Move) -> int {
    match m {
        Move::Up => -1,
        Move::UpRight => -1,
        Move::Right => 0,
        Move::DownRight => 1,
        Move::Down => 1,
        Move::DownLeft => 1,
        Move::Left => 0,
        Move::UpLeft => -1,
        Move::Stay => 0,
    }
}

/// The move whose unit delta is (sign(dx), sign(dy)).
pub open spec fn move_of_delta(dx: int, dy: int) -> Move {
    if sign(dx) == 0 && sign(dy) == -1 {
        Move::Up
    } else if sign(dx) == 1 && sign(dy) == -1 {
        Move::UpRight
    } else if sign(dx) == 1 && sign(dy) == 0 {
        Move::Right
    } else if sign(dx) == 1 && sign(dy) == 1 {
        Move::DownRight
    } else if sign(dx) == 0 && sign(dy) == 1 {
        Move::Down
    } else if sign(dx) == -1 && sign(dy) == 1 {
        Move::DownLeft
    } else if sign(dx) == -1 && sign(dy) == 0 {
        Move::Left
    } else if sign(dx) == -1 && sign(dy) == -1 {
        Move::UpLeft
    } else {
        Move::Stay
    }
}

impl Move {
    /// Normalizes an arbitrary client delta to the nearest of the nine
    /// directions by taking the sign of each component.
    pub fn new(dx: i32, dy: i32) -> (r: Move)
        ensures
            r == move_of_delta(dx as int, dy as int),
    {
        let sx: i32 = if dx > 0 {
            1
        } else if dx < 0 {
            -1
        } else {
            0
        };
        let sy: i32 = if dy > 0 {
            1
        } else if dy < 0 {
            -1
        } else {
            0
        };
        match (sx, sy) {
            (0, -1) => Move::Up,
            (1, -1) => Move::UpRight,
            (1, 0) => Move::Right,
            (1, 1) => Move::DownRight,
            (0, 1) => Move::Down,
            (-1, 1) => Move::DownLeft,
            (-1, 0) => Move::Left,
            (-1, -1) => Move::UpLeft,
            _ => Move::Stay,
        }
    }

    /// The unit delta of this move.
    pub fn to_coords(self) -> (r: (i32, i32))
        ensures
            r.0 as int == move_dx(self),
            r.1 as int == move_dy(self),
    {
        match self {
            Move::Up => (0, -1),
            Move::UpRight => (1, -1),
            Move::Right => (1, 0),
            Move::DownRight => (1, 1),
            Move::Down => (0, 1),
            Move::DownLeft => (-1, 1),
            Move::Left => (-1, 0),
            Move::UpLeft => (-1, -1),
            Move::Stay => (0, 0),
        }
    }
}

/// Normalizing a delta and reading the coordinates back gives the
/// component signs of the request.
pub proof fn lemma_new_to_coords_signs(dx: int, dy: int)
    ensures
        move_dx(move_of_delta(dx, dy)) == sign(dx),
        move_dy(move_of_delta(dx, dy)) == sign(dy),
{
}

} // verus!
