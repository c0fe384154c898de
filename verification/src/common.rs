use vstd::prelude::*;

use crate::traits::HasDimensions;

verus! {

/// One of the four cardinal movements the agent can make each tick.
#[derive(Clone, Copy, Debug, PartialEq, Eq, Hash, Structural)]
pub enum Direction {
    Up,
    Down,
    Left,
    Right,
}

impl Direction {
    /// The direction that undoes this one.
    pub open spec fn opposite(self) -> Direction {
        match self {
            Direction::Up => Direction::Down,
            Direction::Down => Direction::Up,
            Direction::Left => Direction::Right,
            Direction::Right => Direction::Left,
        }
    }

    pub fn is_opposite_to(&self, other: &Direction) -> (r: bool)
        ensures
            r == (*other == self.opposite()),
    {
        match (*self, *other) {
            (Direction::Up, Direction::Down) => true,
            (Direction::Down, Direction::Up) => true,
            (Direction::Left, Direction::Right) => true,
            (Direction::Right, Direction::Left) => true,
            _ => false,
        }
    }

    /// All four directions, in the fixed priority order used everywhere:
    /// Up, Down, Left, Right.
    pub fn hash_set_all() -> (r: Vec<Direction>)
        ensures
            r@ == all_directions(),
    {
        let mut v: Vec<Direction> = Vec::new();
        v.push(Direction::Up);
        v.push(Direction::Down);
        v.push(Direction::Left);
        v.push(Direction::Right);
        proof {
            assert(v@ =~= all_directions());
        }
        v
    }
}

/// The fixed priority order of the four directions.
pub open spec fn all_directions() -> Seq<Direction> {
    seq![Direction::Up, Direction::Down, Direction::Left, Direction::Right]
}

/// A tile coordinate on the toroidal grid: `0 <= x < width`, `0 <= y < height`.
#[derive(Clone, Copy, Debug, PartialEq, Eq, Hash, Structural)]
pub struct Position {
    pub x: u32,
    pub y: u32,
}

/// Where a single step in direction `d` from `p` lands, on a `w` by `h`
/// toroidal grid: coordinates wrap at the edges.
pub open spec fn step(p: Position, w: u32, h: u32, d: Direction) -> Position
    recommends
        w >= 1,
        h >= 1,
{
    match d {
        Direction::Up => Position {
            x: p.x,
            y: if p.y == 0 {
                (h - 1) as u32
            } else {
                (p.y - 1) as u32
            },
        },
        Direction::Down => Position {
            x: p.x,
            y: if p.y == h - 1 {
                0u32
            } else {
                (p.y + 1) as u32
            },
        },
        Direction::Left => Position {
            x: if p.x == 0 {
                (w - 1) as u32
            } else {
                (p.x - 1) as u32
            },
            y: p.y,
        },
        Direction::Right => Position {
            x: if p.x == w - 1 {
                0u32
            } else {
                (p.x + 1) as u32
            },
            y: p.y,
        },
    }
}

/// `p` is a coordinate of the `w` by `h` grid.
pub open spec fn in_bounds(p: Position, w: u32, h: u32) -> bool {
    p.x < w && p.y < h
}

/// The direction one would name when asked "where is `other`, seen from
/// `self`?", comparing raw coordinates (no wraparound): the x axis is
/// checked first, and equal positions have no direction.
pub open spec fn direction_to_spec(from: Position, to: Position) -> Option<Direction> {
    if to.x < from.x {
        Some(Direction::Left)
    } else if to.x > from.x {
        Some(Direction::Right)
    } else if to.y < from.y {
        Some(Direction::Up)
    } else if to.y > from.y {
        Some(Direction::Down)
    } else {
        None
    }
}

/// One axis of the wraparound distance: how far apart two coordinates with
/// difference `d` are on a cycle of length `m`, clamped below at zero so the
/// term is total even when `d` exceeds `m`.
pub open spec fn wrap_term(d: int, m: int) -> int {
    if d > m {
        0
    } else if d <= m - d {
        d
    } else {
        m - d
    }
}

/// The toroidal Manhattan distance: the x difference wraps with the grid
/// width and the y difference with the grid height, each term clamped
/// below at zero so the distance is total on any pair of coordinates.
pub open spec fn manhattan_spec(a: Position, b: Position, w: u32, h: u32) -> int {
    wrap_term(abs(a.x - b.x), w as int) + wrap_term(abs(a.y - b.y), h as int)
}

/// The absolute difference of two integers.
pub open spec fn abs(d: int) -> int {
    if d >= 0 {
        d
    } else {
        -d
    }
}

impl Position {
    pub fn new(x: u32, y: u32) -> (p: Position)
        ensures
            p == (Position { x, y }),
    {
        Position { x, y }
    }

    /// The toroidal Manhattan distance to `other` within `limits`.
    pub fn manhattan_distance_to<T: HasDimensions>(&self, other: &Position, limits: &T) -> (r: u32)
        requires
            limits.dims_wf(),
            limits.spec_width() as int + limits.spec_height() as int <= u32::MAX as int,
        ensures
            r == manhattan_spec(*self, *other, limits.spec_width(), limits.spec_height()),
    {
        let w = limits.width();
        let h = limits.height();
        let dx: u32 = if self.x >= other.x {
            self.x - other.x
        } else {
            other.x - self.x
        };
        let dy: u32 = if self.y >= other.y {
            self.y - other.y
        } else {
            other.y - self.y
        };
        let tx: u32 = if dx > w {
            0
        } else if dx <= w - dx {
            dx
        } else {
            w - dx
        };
        let ty: u32 = if dy > h {
            0
        } else if dy <= h - dy {
            dy
        } else {
            h - dy
        };
        tx + ty
    }

    pub fn direction_to(&self, other: &Position) -> (r: Option<Direction>)
        ensures
            r == direction_to_spec(*self, *other),
    {
        if other.x < self.x {
            Some(Direction::Left)
        } else if other.x > self.x {
            Some(Direction::Right)
        } else if other.y < self.y {
            Some(Direction::Up)
        } else if other.y > self.y {
            Some(Direction::Down)
        } else {
            None
        }
    }

    /// The adjacent position in the given direction, wrapping at the limits.
    pub fn adjacent<T: HasDimensions>(&self, limits: &T, direction: &Direction) -> (r: Position)
        requires
            limits.dims_wf(),
            limits.spec_width() >= 1,
            limits.spec_height() >= 1,
            in_bounds(*self, limits.spec_width(), limits.spec_height()),
        ensures
            r == step(*self, limits.spec_width(), limits.spec_height(), *direction),
            in_bounds(r, limits.spec_width(), limits.spec_height()),
    {
        let width = limits.width() - 1;
        let height = limits.height() - 1;
        match *direction {
            Direction::Up => Position {
                x: self.x,
                y: if self.y == 0 {
                    height
                } else {
                    self.y - 1
                },
            },
            Direction::Down => Position {
                x: self.x,
                y: if self.y == height {
                    0
                } else {
                    self.y + 1
                },
            },
            Direction::Left => Position {
                x: if self.x == 0 {
                    width
                } else {
                    self.x - 1
                },
                y: self.y,
            },
            Direction::Right => Position {
                x: if self.x == width {
                    0
                } else {
                    self.x + 1
                },
                y: self.y,
            },
        }
    }

    /// The four neighbouring positions, in the fixed direction order.
    pub fn neighbours<T: HasDimensions>(&self, limits: &T) -> (r: Vec<Position>)
        requires
            limits.dims_wf(),
            limits.spec_width() >= 1,
            limits.spec_height() >= 1,
            in_bounds(*self, limits.spec_width(), limits.spec_height()),
        ensures
            r@.len() == 4,
            forall|i: int|
                0 <= i < 4 ==> r@[i] == step(
                    *self,
                    limits.spec_width(),
                    limits.spec_height(),
                    all_directions()[i],
                ),
    {
        let mut v: Vec<Position> = Vec::new();
        v.push(self.adjacent(limits, &Direction::Up));
        v.push(self.adjacent(limits, &Direction::Down));
        v.push(self.adjacent(limits, &Direction::Left));
        v.push(self.adjacent(limits, &Direction::Right));
        v
    }
}

/// Wraparound round trip: one step in a direction followed by one step in
/// the opposite direction returns to the starting tile, for every grid
/// position and every direction.
pub proof fn lemma_step_round_trip(p: Position, w: u32, h: u32, d: Direction)
    requires
        w >= 1,
        h >= 1,
        in_bounds(p, w, h),
    ensures
        step(step(p, w, h, d), w, h, d.opposite()) == p,
{
}

} // verus!
