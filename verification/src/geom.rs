use vstd::prelude::*;

verus! {

/// A position in grid units. The origin is the grid's center and `y`
/// increases upward. Pixel coordinates are a separate unit system (rows
/// increase downward); see `crate::frame` and the mapping in
/// `crate::world`.
#[derive(Copy, Clone, Debug, PartialEq, Eq, Structural)]
pub struct Pos {
    pub x: i32,
    pub y: i32,
}

/// A movement direction in grid units.
#[derive(Copy, Clone, Debug, PartialEq, Eq, Structural)]
pub enum Direction {
    Up,
    Down,
    Left,
    Right,
}

/// The 180-degree reversal of a direction.
pub open spec fn opposite(d: Direction) -> Direction {
    match d {
        Direction::Up => Direction::Down,
        Direction::Down => Direction::Up,
        Direction::Left => Direction::Right,
        Direction::Right => Direction::Left,
    }
}

/// The direction a tick actually takes: a request for the exact opposite
/// of the current direction is silently ignored, and no request keeps the
/// current direction.
pub open spec fn effective_dir(cur: Direction, req: Option<Direction>) -> Direction {
    match req {
        Option::None => cur,
        Option::Some(d) => if d == opposite(cur) {
            cur
        } else {
            d
        },
    }
}

/// The cell one step away from `p` in direction `d`. The casts are exact
/// whenever the coordinates stay inside `i32` range, which callers ensure.
pub open spec fn step_pos(p: Pos, d: Direction) -> Pos {
    match d {
        Direction::Up => Pos { x: p.x, y: (p.y + 1) as i32 },
        Direction::Down => Pos { x: p.x, y: (p.y - 1) as i32 },
        Direction::Left => Pos { x: (p.x - 1) as i32, y: p.y },
        Direction::Right => Pos { x: (p.x + 1) as i32, y: p.y },
    }
}

/// Requesting the exact opposite of the current direction never changes
/// the direction taken.
pub proof fn lemma_opposite_request_ignored(cur: Direction)
    ensures
        effective_dir(cur, Some(opposite(cur))) == cur,
{
}

} // verus!
