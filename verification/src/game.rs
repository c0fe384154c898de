use vstd::prelude::*;
use vstd::arithmetic::div_mod::lemma_fundamental_div_mod;
use vstd::arithmetic::div_mod::lemma_div_nonincreasing;
use vstd::string::StrSliceExecFns;

use crate::common::{all_directions, in_bounds, step, Direction, Position};
use crate::traits::HasDimensions;

verus! {

broadcast use vstd::seq_lib::lemma_seq_contains_after_push;

/// What a single tile of the arena holds.
#[derive(Clone, Copy, Debug, PartialEq, Eq, Hash, Structural)]
pub enum TileType {
    Floor,
    Wall,
    Door,
    Pellet,
    SuperPellet,
}

/// Everything but a wall can be stepped on.
pub open spec fn walkable_tile(t: TileType) -> bool {
    t != TileType::Wall
}

/// Tiles worth collecting.
pub open spec fn pellet_tile(t: TileType) -> bool {
    t == TileType::Pellet || t == TileType::SuperPellet
}

impl TileType {
    pub fn is_walkable(&self) -> (r: bool)
        ensures
            r == walkable_tile(*self),
    {
        match *self {
            TileType::Floor | TileType::Door | TileType::Pellet | TileType::SuperPellet => true,
            _ => false,
        }
    }

    pub fn is_pellet(&self) -> (r: bool)
        ensures
            r == pellet_tile(*self),
    {
        match *self {
            TileType::Pellet | TileType::SuperPellet => true,
            _ => false,
        }
    }

    pub fn is_super_pellet(&self) -> (r: bool)
        ensures
            r == (*self == TileType::SuperPellet),
    {
        match *self {
            TileType::SuperPellet => true,
            _ => false,
        }
    }
}

/// The tile a character of the wire encoding stands for; anything unknown
/// is coerced to a wall.
pub open spec fn tile_of_char(c: char) -> TileType {
    if c == '_' {
        TileType::Floor
    } else if c == '|' {
        TileType::Wall
    } else if c == '-' {
        TileType::Door
    } else if c == '.' {
        TileType::Pellet
    } else if c == 'o' {
        TileType::SuperPellet
    } else {
        TileType::Wall
    }
}

/// Exec mirror of [`tile_of_char`].
pub fn char_to_tile(c: char) -> (t: TileType)
    ensures
        t == tile_of_char(c),
{
    if c == '_' {
        TileType::Floor
    } else if c == '|' {
        TileType::Wall
    } else if c == '-' {
        TileType::Door
    } else if c == '.' {
        TileType::Pellet
    } else if c == 'o' {
        TileType::SuperPellet
    } else {
        TileType::Wall
    }
}

/// The immutable arena: a row-major grid of tiles. The height is derived
/// from the tile count and the width.
#[derive(Debug, Clone, PartialEq, Eq, Hash)]
pub struct GameMap {
    pub tiles: Vec<TileType>,
    pub width: u32,
}

impl GameMap {
    /// A usable map: at least one row and one column, whole rows only, and
    /// small enough that every index fits in a `u32`.
    pub open spec fn wf(&self) -> bool {
        &&& self.width >= 1
        &&& self.tiles@.len() >= self.width
        &&& self.tiles@.len() as int % (self.width as int) == 0
        &&& self.tiles@.len() <= u32::MAX
        &&& self.width + self.spec_height() <= u32::MAX
    }

    pub open spec fn spec_tiles(&self) -> Seq<TileType> {
        self.tiles@
    }

    /// The flat index of a grid position.
    pub open spec fn spec_index_of(&self, p: Position) -> int {
        p.y * self.width + p.x
    }

    /// The tile at a grid position.
    pub open spec fn spec_tile_at(&self, p: Position) -> TileType {
        self.tiles@[self.spec_index_of(p)]
    }

    /// `p` lies on the grid and its tile can be stepped on.
    pub open spec fn walkable_at(&self, p: Position) -> bool {
        in_bounds(p, self.spec_width(), self.spec_height()) && walkable_tile(self.spec_tile_at(p))
    }

    /// `p` lies on the grid and its tile holds a pellet.
    pub open spec fn pellet_at(&self, p: Position) -> bool {
        in_bounds(p, self.spec_width(), self.spec_height()) && pellet_tile(self.spec_tile_at(p))
    }

    /// `p` lies on the grid and its tile holds a super pellet.
    pub open spec fn super_pellet_at(&self, p: Position) -> bool {
        in_bounds(p, self.spec_width(), self.spec_height()) && self.spec_tile_at(p)
            == TileType::SuperPellet
    }

    /// The dimensions multiply out to the tile count, and in-bounds
    /// positions index into the tile vector.
    pub proof fn lemma_dims(&self)
        requires
            self.wf(),
        ensures
            self.spec_width() * self.spec_height() == self.spec_tiles().len(),
            self.spec_height() >= 1,
            forall|p: Position|
                in_bounds(p, self.spec_width(), self.spec_height()) ==> 0 <= #[trigger] self.spec_index_of(p)
                    < self.spec_tiles().len(),
    {
        let w = self.width as int;
        let len = self.tiles@.len() as int;
        lemma_fundamental_div_mod(len, w);
        lemma_div_nonincreasing(len, w);
        assert(w * (len / w) == len);
        assert(len / w >= 1) by (nonlinear_arith)
            requires
                w >= 1,
                len >= w,
                w * (len / w) == len,
        ;
        assert forall|p: Position|
            in_bounds(p, self.spec_width(), self.spec_height()) implies 0 <= #[trigger] self.spec_index_of(p)
            < self.spec_tiles().len() by {
            let h = len / w;
            assert(p.y * w + p.x < w * h) by (nonlinear_arith)
                requires
                    0 <= p.x < w,
                    0 <= p.y < h,
            ;
        }
    }

    /// Distinct grid positions have distinct flat indices.
    pub proof fn lemma_index_injective(&self)
        requires
            self.wf(),
        ensures
            forall|p1: Position, p2: Position|
                in_bounds(p1, self.spec_width(), self.spec_height()) && in_bounds(
                    p2,
                    self.spec_width(),
                    self.spec_height(),
                ) && #[trigger] self.spec_index_of(p1) == #[trigger] self.spec_index_of(p2)
                    ==> p1 == p2,
    {
        assert forall|p1: Position, p2: Position|
            in_bounds(p1, self.spec_width(), self.spec_height()) && in_bounds(
                p2,
                self.spec_width(),
                self.spec_height(),
            ) && #[trigger] self.spec_index_of(p1) == #[trigger] self.spec_index_of(
            p2,
        ) implies p1 == p2 by {
            let w = self.width as int;
            assert(p1.y == p2.y && p1.x == p2.x) by (nonlinear_arith)
                requires
                    w >= 1,
                    0 <= p1.x < w,
                    0 <= p2.x < w,
                    p1.y * w + p1.x == p2.y * w + p2.x,
                    p1.y >= 0,
                    p2.y >= 0,
            ;
        }
    }

    /// Builds a map from the rows of the wire encoding. Fails when the rows
    /// are empty, ragged, wider than declared, or too large to index.
    pub fn from_rows(rows: &Vec<String>, width: u32) -> (r: Option<GameMap>)
        ensures
            match r {
                Some(m) => {
                    &&& m.wf()
                    &&& m.spec_width() == width
                    &&& m.spec_height() == rows@.len()
                    &&& forall|i: int, j: int|
                        0 <= i < rows@.len() && 0 <= j < width ==> m.spec_tile_at(
                            Position { x: j as u32, y: i as u32 },
                        ) == tile_of_char(rows@[i]@[j])
                    &&& width >= 1
                    &&& rows@.len() >= 1
                    &&& forall|i: int| 0 <= i < rows@.len() ==> #[trigger] rows@[i]@.len() == width
                    &&& rows@.len() * width <= u32::MAX
                },
                None => {
                    ||| width == 0
                    ||| rows@.len() == 0
                    ||| rows@.len() * width > u32::MAX
                    ||| rows@.len() + width > u32::MAX
                    ||| exists|i: int| 0 <= i < rows@.len() && #[trigger] rows@[i]@.len() != width
                },
            },
    {
        if width == 0 || rows.len() == 0 {
            return None;
        }
        if rows.len() >= (u32::MAX as usize) || (rows.len() as u32) > u32::MAX - width {
            if rows.len() >= (u32::MAX as usize) {
                proof {
                    assert(rows@.len() * width >= rows@.len()) by (nonlinear_arith)
                        requires
                            width >= 1,
                            rows@.len() >= 0,
                    ;
                }
            }
            return None;
        }
        if rows.len() > (u32::MAX / width) as usize {
            proof {
                let w = width as int;
                let n = rows@.len() as int;
                lemma_fundamental_div_mod(u32::MAX as int, w);
                assert(n * w > u32::MAX) by (nonlinear_arith)
                    requires
                        w >= 1,
                        n > u32::MAX as int / w,
                        w * (u32::MAX as int / w) + u32::MAX as int % w == u32::MAX as int,
                        0 <= u32::MAX as int % w < w,
                ;
            }
            return None;
        }
        proof {
            let w = width as int;
            let n = rows@.len() as int;
            lemma_fundamental_div_mod(u32::MAX as int, w);
            assert(n * w <= u32::MAX) by (nonlinear_arith)
                requires
                    w >= 1,
                    n <= u32::MAX as int / w,
                    w * (u32::MAX as int / w) + u32::MAX as int % w == u32::MAX as int,
                    0 <= u32::MAX as int % w < w,
            ;
        }
        let mut tiles: Vec<TileType> = Vec::new();
        let mut i: usize = 0;
        while i < rows.len()
            invariant
                0 <= i <= rows@.len(),
                width >= 1,
                rows@.len() * width <= u32::MAX,
                tiles@.len() == i * width,
                forall|a: int| 0 <= a < i ==> #[trigger] rows@[a]@.len() == width,
                forall|a: int, b: int|
                    0 <= a < i && 0 <= b < width ==> tiles@[a * width + b] == tile_of_char(
                        rows@[a]@[b],
                    ),
            decreases rows@.len() - i,
        {
            let row: &String = &rows[i];
            let row_len = row.as_str().unicode_len();
            if row_len != width as usize {
                return None;
            }
            proof {
                assert((i + 1) * (width as int) <= rows@.len() * width) by (nonlinear_arith)
                    requires
                        i + 1 <= rows@.len(),
                        width >= 1,
                ;
                assert((i + 1) * (width as int) == i * width + width) by (nonlinear_arith);
            }
            let mut j: usize = 0;
            while j < width as usize
                invariant
                    0 <= j <= width,
                    row@.len() == width,
                    *row == rows@[i as int],
                    0 <= i < rows@.len(),
                    width >= 1,
                    rows@.len() * width <= u32::MAX,
                    i * width + width <= rows@.len() * width,
                    tiles@.len() == i * width + j,
                    forall|a: int| 0 <= a < i ==> #[trigger] rows@[a]@.len() == width,
                    forall|a: int, b: int|
                        0 <= a < i && 0 <= b < width ==> tiles@[a * width + b] == tile_of_char(
                            rows@[a]@[b],
                        ),
                    forall|b: int|
                        0 <= b < j ==> tiles@[i * width + b] == tile_of_char(rows@[i as int]@[b]),
                decreases width - j,
            {
                let c = row.as_str().get_char(j);
                let ghost tiles0 = tiles@;
                tiles.push(char_to_tile(c));
                proof {
                    assert forall|a: int, b: int|
                        0 <= a < i && 0 <= b < width implies tiles@[a * width + b] == tile_of_char(
                        rows@[a]@[b],
                    ) by {
                        assert(a * width + b < i * width) by (nonlinear_arith)
                            requires
                                0 <= a < i,
                                0 <= b < width,
                        ;
                        assert(tiles@[a * width + b] == tiles0[a * width + b]);
                    }
                }
                j += 1;
            }
            i += 1;
        }
        proof {
            assert(tiles@.len() as int % (width as int) == 0) by (nonlinear_arith)
                requires
                    tiles@.len() == rows@.len() * width,
                    width >= 1,
            ;
            assert(tiles@.len() >= width) by (nonlinear_arith)
                requires
                    tiles@.len() == rows@.len() * width,
                    width >= 1,
                    rows@.len() >= 1,
            ;
        }
        let m = GameMap { tiles, width };
        proof {
            let w = width as int;
            let n = rows@.len() as int;
            assert(m.spec_height() == n) by {
                lemma_fundamental_div_mod(m.tiles@.len() as int, w);
                assert(m.tiles@.len() == n * w) by (nonlinear_arith)
                    requires
                        m.tiles@.len() == n * (w as int),
                ;
                assert(n * w / w == n) by (nonlinear_arith)
                    requires
                        w >= 1,
                        n >= 0,
                ;
            }
            assert forall|a: int, b: int|
                0 <= a < n && 0 <= b < w implies m.spec_tile_at(
                Position { x: b as u32, y: a as u32 },
            ) == tile_of_char(rows@[a]@[b]) by {
                assert(m.spec_index_of(Position { x: b as u32, y: a as u32 }) == a * w + b);
            }
        }
        Some(m)
    }

    pub fn tiles(&self) -> (r: &[TileType])
        ensures
            r@ == self.spec_tiles(),
    {
        self.tiles.as_slice()
    }

    pub fn tile_at(&self, position: &Position) -> (t: TileType)
        requires
            self.wf(),
            in_bounds(*position, self.spec_width(), self.spec_height()),
        ensures
            t == self.spec_tile_at(*position),
    {
        proof {
            self.lemma_dims();
            assert(0 <= self.spec_index_of(*position) < self.spec_tiles().len());
            assert(self.width * position.y + position.x == self.spec_index_of(*position)) by (nonlinear_arith);
        }
        self.tiles[(self.width * position.y + position.x) as usize]
    }

    /// Total walkability test: false off the grid.
    pub fn is_walkable_at(&self, position: &Position) -> (r: bool)
        requires
            self.wf(),
        ensures
            r == self.walkable_at(*position),
    {
        if position.x < self.width() && position.y < self.height() {
            self.tile_at(position).is_walkable()
        } else {
            false
        }
    }

    /// Total pellet test: false off the grid.
    pub fn is_pellet_at(&self, position: &Position) -> (r: bool)
        requires
            self.wf(),
        ensures
            r == self.pellet_at(*position),
    {
        if position.x < self.width() && position.y < self.height() {
            self.tile_at(position).is_pellet()
        } else {
            false
        }
    }

    /// The four neighbouring tiles with the direction that reaches each,
    /// in the order Left, Right, Up, Down.
    pub fn neighbours(&self, position: &Position) -> (r: Vec<(Direction, TileType)>)
        requires
            self.wf(),
            in_bounds(*position, self.spec_width(), self.spec_height()),
        ensures
            r@.len() == 4,
            r@[0] == (
                Direction::Left,
                self.spec_tile_at(step(*position, self.spec_width(), self.spec_height(), Direction::Left)),
            ),
            r@[1] == (
                Direction::Right,
                self.spec_tile_at(step(*position, self.spec_width(), self.spec_height(), Direction::Right)),
            ),
            r@[2] == (
                Direction::Up,
                self.spec_tile_at(step(*position, self.spec_width(), self.spec_height(), Direction::Up)),
            ),
            r@[3] == (
                Direction::Down,
                self.spec_tile_at(step(*position, self.spec_width(), self.spec_height(), Direction::Down)),
            ),
    {
        proof {
            self.lemma_dims();
        }
        let mut v: Vec<(Direction, TileType)> = Vec::new();
        v.push((Direction::Left, self.tile_at(&position.adjacent(self, &Direction::Left))));
        v.push((Direction::Right, self.tile_at(&position.adjacent(self, &Direction::Right))));
        v.push((Direction::Up, self.tile_at(&position.adjacent(self, &Direction::Up))));
        v.push((Direction::Down, self.tile_at(&position.adjacent(self, &Direction::Down))));
        v
    }

    /// How many pellets lie on the tiles of `path`.
    pub fn points_in_path(&self, path: &Vec<Position>) -> (n: usize)
        requires
            self.wf(),
        ensures
            n == count_pellets(*self, path@),
    {
        let mut n: usize = 0;
        let mut i: usize = 0;
        while i < path.len()
            invariant
                0 <= i <= path@.len(),
                self.wf(),
                n == count_pellets(*self, path@.take(i as int)),
                n <= i,
            decreases path@.len() - i,
        {
            proof {
                assert(path@.take(i + 1).drop_last() =~= path@.take(i as int));
                assert(path@.take(i + 1).last() == path@[i as int]);
            }
            if self.is_pellet_at(&path[i]) {
                n += 1;
            }
            i += 1;
        }
        proof {
            assert(path@.take(path@.len() as int) =~= path@);
        }
        n
    }

    /// The positions of all pellet tiles, in row-major order.
    pub fn pellets(&self) -> (r: Vec<Position>)
        requires
            self.wf(),
        ensures
            forall|p: Position| #[trigger] r@.contains(p) <==> self.pellet_at(p),
            forall|i: int| 0 <= i < r@.len() ==> self.pellet_at(#[trigger] r@[i]),
            r@.no_duplicates(),
    {
        let mut r: Vec<Position> = Vec::new();
        let h = self.height();
        let w = self.width();
        let mut y: u32 = 0;
        while y < h
            invariant
                self.wf(),
                w == self.spec_width(),
                h == self.spec_height(),
                0 <= y <= h,
                r@.no_duplicates(),
                forall|i: int| 0 <= i < r@.len() ==> self.pellet_at(#[trigger] r@[i]),
                forall|p: Position| #[trigger] r@.contains(p) ==> p.y < y,
                forall|p: Position| self.pellet_at(p) && p.y < y ==> #[trigger] r@.contains(p),
            decreases h - y,
        {
            let mut x: u32 = 0;
            while x < w
                invariant
                    self.wf(),
                    w == self.spec_width(),
                    h == self.spec_height(),
                    0 <= y < h,
                    0 <= x <= w,
                    r@.no_duplicates(),
                    forall|i: int| 0 <= i < r@.len() ==> self.pellet_at(#[trigger] r@[i]),
                    forall|p: Position| #[trigger] r@.contains(p) ==> (p.y < y || (p.y == y && p.x < x)),
                    forall|p: Position|
                        self.pellet_at(p) && (p.y < y || (p.y == y && p.x < x))
                            ==> #[trigger] r@.contains(p),
                decreases w - x,
            {
                let p = Position { x, y };
                if self.is_pellet_at(&p) {
                    proof {
                        lemma_push_no_dup(r@, p);
                    }
                    r.push(p);
                }
                x += 1;
            }
            y += 1;
        }
        r
    }

    /// The positions of all super-pellet tiles, in row-major order.
    pub fn super_pellets(&self) -> (r: Vec<Position>)
        requires
            self.wf(),
        ensures
            forall|p: Position| #[trigger] r@.contains(p) <==> self.super_pellet_at(p),
            forall|i: int| 0 <= i < r@.len() ==> self.super_pellet_at(#[trigger] r@[i]),
            r@.no_duplicates(),
    {
        let mut r: Vec<Position> = Vec::new();
        let h = self.height();
        let w = self.width();
        let mut y: u32 = 0;
        while y < h
            invariant
                self.wf(),
                w == self.spec_width(),
                h == self.spec_height(),
                0 <= y <= h,
                r@.no_duplicates(),
                forall|i: int| 0 <= i < r@.len() ==> self.super_pellet_at(#[trigger] r@[i]),
                forall|p: Position| #[trigger] r@.contains(p) ==> p.y < y,
                forall|p: Position| self.super_pellet_at(p) && p.y < y ==> #[trigger] r@.contains(p),
            decreases h - y,
        {
            let mut x: u32 = 0;
            while x < w
                invariant
                    self.wf(),
                    w == self.spec_width(),
                    h == self.spec_height(),
                    0 <= y < h,
                    0 <= x <= w,
                    r@.no_duplicates(),
                    forall|i: int| 0 <= i < r@.len() ==> self.super_pellet_at(#[trigger] r@[i]),
                    forall|p: Position| #[trigger] r@.contains(p) ==> (p.y < y || (p.y == y && p.x < x)),
                    forall|p: Position|
                        self.super_pellet_at(p) && (p.y < y || (p.y == y && p.x < x))
                            ==> #[trigger] r@.contains(p),
                decreases w - x,
            {
                let p = Position { x, y };
                let t = self.tile_at(&p);
                if t.is_super_pellet() {
                    proof {
                        lemma_push_no_dup(r@, p);
                    }
                    r.push(p);
                }
                x += 1;
            }
            y += 1;
        }
        r
    }
}

/// How many positions of `s` carry a pellet on `m`; positions off the grid
/// count for nothing.
pub open spec fn count_pellets(m: GameMap, s: Seq<Position>) -> nat
    decreases s.len(),
{
    if s.len() == 0 {
        0
    } else {
        count_pellets(m, s.drop_last()) + if m.pellet_at(s.last()) {
            1nat
        } else {
            0nat
        }
    }
}

impl HasDimensions for GameMap {
    open spec fn dims_wf(&self) -> bool {
        self.wf()
    }

    open spec fn spec_width(&self) -> u32 {
        self.width
    }

    open spec fn spec_height(&self) -> u32 {
        (self.tiles@.len() as int / self.width as int) as u32
    }

    fn width(&self) -> u32 {
        self.width
    }

    fn height(&self) -> u32 {
        self.tiles.len() as u32 / self.width
    }
}

/// Walking one step from `p` in direction `d` lands on a walkable tile.
pub open spec fn dir_walkable(m: GameMap, p: Position, d: Direction) -> bool {
    m.walkable_at(step(p, m.spec_width(), m.spec_height(), d))
}

/// How many of the four directions lead from `p` onto a walkable tile.
pub open spec fn wn_count(m: GameMap, p: Position) -> int {
    (if dir_walkable(m, p, Direction::Up) {
        1int
    } else {
        0int
    }) + (if dir_walkable(m, p, Direction::Down) {
        1int
    } else {
        0int
    }) + (if dir_walkable(m, p, Direction::Left) {
        1int
    } else {
        0int
    }) + (if dir_walkable(m, p, Direction::Right) {
        1int
    } else {
        0int
    })
}

/// `p` touches the edge of the grid, where the wraparound seam runs.
pub open spec fn on_boundary(p: Position, w: u32, h: u32) -> bool {
    p.x == 0 || p.x == w - 1 || p.y == 0 || p.y == h - 1
}

/// A walkable tile on the grid boundary.
pub open spec fn is_tunnel_at(m: GameMap, p: Position) -> bool {
    m.walkable_at(p) && on_boundary(p, m.spec_width(), m.spec_height())
}

/// A walkable tile with more than two walkable neighbours.
pub open spec fn is_intersection_at(m: GameMap, p: Position) -> bool {
    m.walkable_at(p) && wn_count(m, p) > 2
}

/// A walkable tile with exactly two walkable neighbours that do not lie
/// opposite each other; boundary tiles are excluded because the wraparound
/// seam fakes such bends.
pub open spec fn is_corner_at(m: GameMap, p: Position) -> bool {
    &&& m.walkable_at(p)
    &&& wn_count(m, p) == 2
    &&& !(dir_walkable(m, p, Direction::Up) && dir_walkable(m, p, Direction::Down))
    &&& !(dir_walkable(m, p, Direction::Left) && dir_walkable(m, p, Direction::Right))
    &&& !on_boundary(p, m.spec_width(), m.spec_height())
}

/// A walkable tile with a single walkable neighbour: the innermost tile of
/// a dead end, from which the dead-end region is grown.
pub open spec fn is_dead_end_seed(m: GameMap, p: Position) -> bool {
    m.walkable_at(p) && wn_count(m, p) == 1
}

/// A tile where continuing straight ahead is not the only sane option.
pub open spec fn is_turning_at(m: GameMap, p: Position) -> bool {
    is_intersection_at(m, p) || is_corner_at(m, p) || is_dead_end_seed(m, p)
}

/// How many of `p`'s walkable neighbours lie outside the set `s`: the exits
/// still open once the tiles of `s` are written off as dead.
pub open spec fn exits_outside(m: GameMap, p: Position, s: Set<Position>) -> int {
    let w = m.spec_width();
    let h = m.spec_height();
    (if dir_walkable(m, p, Direction::Up) && !s.contains(step(p, w, h, Direction::Up)) {
        1int
    } else {
        0int
    }) + (if dir_walkable(m, p, Direction::Down) && !s.contains(step(p, w, h, Direction::Down)) {
        1int
    } else {
        0int
    }) + (if dir_walkable(m, p, Direction::Left) && !s.contains(step(p, w, h, Direction::Left)) {
        1int
    } else {
        0int
    }) + (if dir_walkable(m, p, Direction::Right) && !s.contains(step(p, w, h, Direction::Right)) {
        1int
    } else {
        0int
    })
}

/// `s` absorbs every walkable tile that has fewer than two exits outside
/// `s`. The dead-end region of a map is the least such set (it contains all
/// seeds, since they have at most one exit anywhere).
pub open spec fn dead_end_closed(m: GameMap, s: Set<Position>) -> bool {
    forall|p: Position|
        m.walkable_at(p) && exits_outside(m, p, s) < 2 ==> #[trigger] s.contains(p)
}

/// Topology of one map, derived once: which tiles are intersections,
/// corners, dead ends and tunnels, and which are walkable at all.
/// `turning_points` unions intersections, corners and dead-end seeds.
#[derive(Debug, PartialEq, Eq, Hash)]
pub struct MapInformation {
    pub turning_points: Vec<Position>,
    pub intersections: Vec<Position>,
    pub corners: Vec<Position>,
    pub dead_ends: Vec<Position>,
    pub tunnels: Vec<Position>,
    pub walkable_positions: Vec<Position>,
}

impl MapInformation {
    /// What `from_map` guarantees: each list holds exactly the tiles of its
    /// class, and `dead_ends` is the least closed dead-end region.
    pub open spec fn wf_for(&self, m: GameMap) -> bool {
        &&& forall|p: Position| #[trigger] self.walkable_positions@.contains(p) <==> m.walkable_at(p)
        &&& forall|p: Position| #[trigger] self.tunnels@.contains(p) <==> is_tunnel_at(m, p)
        &&& forall|p: Position| #[trigger] self.intersections@.contains(p) <==> is_intersection_at(m, p)
        &&& forall|p: Position| #[trigger] self.corners@.contains(p) <==> is_corner_at(m, p)
        &&& forall|p: Position| #[trigger] self.turning_points@.contains(p) <==> is_turning_at(m, p)
        &&& forall|p: Position| #[trigger] self.dead_ends@.contains(p) ==> m.walkable_at(p)
        &&& dead_end_closed(m, self.dead_ends@.to_set())
        &&& forall|s: Set<Position>|
            #[trigger] dead_end_closed(m, s) ==> self.dead_ends@.to_set().subset_of(s)
        &&& self.walkable_positions@.no_duplicates()
        &&& self.tunnels@.no_duplicates()
        &&& self.intersections@.no_duplicates()
        &&& self.corners@.no_duplicates()
        &&& self.turning_points@.no_duplicates()
        &&& self.dead_ends@.no_duplicates()
    }

    /// The dead-end region as a set.
    pub open spec fn spec_dead_ends(&self) -> Set<Position> {
        self.dead_ends@.to_set()
    }

    /// Derives the full topology of a map: walkable tiles, tunnels, the
    /// intersection/corner/seed classification, and the dead-end region
    /// grown from the seeds to its least fixpoint.
    pub fn from_map(map: &GameMap) -> (r: MapInformation)
        requires
            map.wf(),
        ensures
            r.wf_for(*map),
    {
        let (walkable, tunnels) = scan_walkable(map);
        let (intersections, corners, mut dead_ends, turning_points) = classify(map, &walkable);
        proof {
            assert forall|s: Set<Position>| #[trigger] dead_end_closed(*map, s)
                implies dead_ends@.to_set().subset_of(s) by {
                assert forall|q: Position| dead_ends@.to_set().contains(q)
                    implies s.contains(q) by {
                    assert(is_dead_end_seed(*map, q));
                    lemma_exits_le_wn(*map, q, s);
                }
            }
        }
        grow_dead_ends(map, &walkable, &mut dead_ends);
        MapInformation {
            turning_points,
            intersections,
            corners,
            dead_ends,
            tunnels,
            walkable_positions: walkable,
        }
    }

    pub fn intersections(&self) -> (r: &Vec<Position>)
        ensures
            r == &self.intersections,
    {
        &self.intersections
    }

    pub fn walkable_positions(&self) -> (r: &Vec<Position>)
        ensures
            r == &self.walkable_positions,
    {
        &self.walkable_positions
    }

    pub fn dead_ends(&self) -> (r: &Vec<Position>)
        ensures
            r == &self.dead_ends,
    {
        &self.dead_ends
    }

    /// Walks straight from `position`, one scan per direction, and collects
    /// the first turning point each scan meets before hitting a non-walkable
    /// tile or running a full lap.
    pub fn closest_turning_points<T: HasDimensions>(&self, limits: &T, position: &Position) -> (r:
        Vec<Position>)
        requires
            limits.dims_wf(),
            limits.spec_width() >= 1,
            limits.spec_height() >= 1,
            in_bounds(*position, limits.spec_width(), limits.spec_height()),
        ensures
            forall|q: Position|
                #[trigger] r@.contains(q) <==> {
                    let w = limits.spec_width();
                    let h = limits.spec_height();
                    ||| scan_straight(*self, w, h, *position, Direction::Up, h as nat) == Some(q)
                    ||| scan_straight(*self, w, h, *position, Direction::Down, h as nat) == Some(q)
                    ||| scan_straight(*self, w, h, *position, Direction::Left, w as nat) == Some(q)
                    ||| scan_straight(*self, w, h, *position, Direction::Right, w as nat) == Some(
                        q,
                    )
                },
            r@.no_duplicates(),
    {
        let w = limits.width();
        let h = limits.height();
        let mut r: Vec<Position> = Vec::new();
        let up = self.scan_straight_from(limits, position, &Direction::Up, h);
        let down = self.scan_straight_from(limits, position, &Direction::Down, h);
        let left = self.scan_straight_from(limits, position, &Direction::Left, w);
        let right = self.scan_straight_from(limits, position, &Direction::Right, w);
        if let Some(q) = up {
            if !contains_position(&r, &q) {
                proof {
                    lemma_push_no_dup(r@, q);
                }
                r.push(q);
            }
        }
        if let Some(q) = down {
            if !contains_position(&r, &q) {
                proof {
                    lemma_push_no_dup(r@, q);
                }
                r.push(q);
            }
        }
        if let Some(q) = left {
            if !contains_position(&r, &q) {
                proof {
                    lemma_push_no_dup(r@, q);
                }
                r.push(q);
            }
        }
        if let Some(q) = right {
            if !contains_position(&r, &q) {
                proof {
                    lemma_push_no_dup(r@, q);
                }
                r.push(q);
            }
        }
        r
    }

    /// One straight scan for [`Self::closest_turning_points`].
    fn scan_straight_from<T: HasDimensions>(
        &self,
        limits: &T,
        position: &Position,
        direction: &Direction,
        fuel: u32,
    ) -> (r: Option<Position>)
        requires
            limits.dims_wf(),
            limits.spec_width() >= 1,
            limits.spec_height() >= 1,
            in_bounds(*position, limits.spec_width(), limits.spec_height()),
        ensures
            r == scan_straight(
                *self,
                limits.spec_width(),
                limits.spec_height(),
                *position,
                *direction,
                fuel as nat,
            ),
    {
        let ghost w = limits.spec_width();
        let ghost h = limits.spec_height();
        let mut cur = *position;
        let mut remaining = fuel;
        while remaining > 0
            invariant
                limits.dims_wf(),
                w == limits.spec_width(),
                h == limits.spec_height(),
                w >= 1,
                h >= 1,
                in_bounds(cur, w, h),
                0 <= remaining <= fuel,
                scan_straight(*self, w, h, *position, *direction, fuel as nat) == scan_straight(
                    *self,
                    w,
                    h,
                    cur,
                    *direction,
                    remaining as nat,
                ),
            decreases remaining,
        {
            let q = cur.adjacent(limits, direction);
            if contains_position(&self.turning_points, &q) {
                return Some(q);
            }
            if !contains_position(&self.walkable_positions, &q) {
                return None;
            }
            cur = q;
            remaining = remaining - 1;
        }
        None
    }

    pub fn is_dead_end(&self, p: &Position) -> (r: bool)
        ensures
            r == self.spec_dead_ends().contains(*p),
    {
        contains_position(&self.dead_ends, p)
    }

    pub fn is_intersection(&self, p: &Position) -> (r: bool)
        ensures
            r == self.intersections@.contains(*p),
    {
        contains_position(&self.intersections, p)
    }

}

/// Where a straight scan from `p` in direction `d` first meets a turning
/// point: `None` when it hits a non-walkable tile first or the fuel (one
/// grid lap) runs out.
pub open spec fn scan_straight(
    info: MapInformation,
    w: u32,
    h: u32,
    p: Position,
    d: Direction,
    fuel: nat,
) -> Option<Position>
    decreases fuel,
{
    if fuel == 0 {
        None
    } else {
        let q = step(p, w, h, d);
        if info.turning_points@.contains(q) {
            Some(q)
        } else if !info.walkable_positions@.contains(q) {
            None
        } else {
            scan_straight(info, w, h, q, d, (fuel - 1) as nat)
        }
    }
}

/// Appending a fresh element keeps a sequence duplicate-free.
proof fn lemma_push_no_dup<A>(s: Seq<A>, x: A)
    requires
        s.no_duplicates(),
        !s.contains(x),
    ensures
        s.push(x).no_duplicates(),
{
    let t = s.push(x);
    assert forall|i: int, j: int| 0 <= i < t.len() && 0 <= j < t.len() && i != j implies t[i]
        != t[j] by {
        if i < s.len() && j < s.len() {
        } else if j == s.len() {
            assert(s.contains(s[i]));
        } else {
            assert(s.contains(s[j]));
        }
    }
}

/// A duplicate-free sequence never holds `s[k]` before index `k`.
proof fn lemma_no_dup_take_excludes<A>(s: Seq<A>, k: int)
    requires
        s.no_duplicates(),
        0 <= k < s.len(),
    ensures
        !s.take(k).contains(s[k]),
{
    if s.take(k).contains(s[k]) {
        let j = choose|j: int| 0 <= j < k && s.take(k)[j] == s[k];
        assert(s[j] == s[k]);
    }
}

/// A duplicate-free sequence whose elements all occur in another
/// duplicate-free sequence is no longer than it.
proof fn lemma_no_dup_subset_len<A>(a: Seq<A>, b: Seq<A>)
    requires
        a.no_duplicates(),
        b.no_duplicates(),
        forall|q: A| a.contains(q) ==> b.contains(q),
    ensures
        a.len() <= b.len(),
{
    broadcast use vstd::seq_lib::seq_to_set_is_finite;

    a.unique_seq_to_set();
    b.unique_seq_to_set();
    assert(a.to_set().subset_of(b.to_set()));
    vstd::set_lib::lemma_len_subset(a.to_set(), b.to_set());
}

/// The topology classification is a partition: no walkable tile is two of
/// intersection, corner and dead-end seed at once, since the three ask for
/// more than two, exactly two, and exactly one walkable neighbour. (The
/// grown dead-end *region* may absorb corner or intersection tiles whose
/// other exits all lead into dead ends; the partition speaks of the
/// classification itself, whose three lists stay pairwise disjoint.)
pub proof fn lemma_classification_disjoint(m: GameMap, p: Position)
    ensures
        !(is_intersection_at(m, p) && is_corner_at(m, p)),
        !(is_intersection_at(m, p) && is_dead_end_seed(m, p)),
        !(is_corner_at(m, p) && is_dead_end_seed(m, p)),
{
}

/// A tile has no more exits outside a set than walkable neighbours.
proof fn lemma_exits_le_wn(m: GameMap, p: Position, s: Set<Position>)
    ensures
        exits_outside(m, p, s) <= wn_count(m, p),
{
}

/// Scans the grid in row-major order and lists the walkable tiles and,
/// among them, the tunnel tiles on the boundary.
fn scan_walkable(map: &GameMap) -> (r: (Vec<Position>, Vec<Position>))
    requires
        map.wf(),
    ensures
        r.0@.no_duplicates(),
        r.1@.no_duplicates(),
        forall|p: Position| #[trigger] r.0@.contains(p) <==> map.walkable_at(p),
        forall|p: Position| #[trigger] r.1@.contains(p) <==> is_tunnel_at(*map, p),
{
    let w = map.width();
    let h = map.height();
    proof {
        map.lemma_dims();
    }
    let mut walkable: Vec<Position> = Vec::new();
    let mut tunnels: Vec<Position> = Vec::new();
    let mut y: u32 = 0;
    while y < h
        invariant
            map.wf(),
            w == map.spec_width(),
            h == map.spec_height(),
            1 <= h,
            0 <= y <= h,
            walkable@.no_duplicates(),
            tunnels@.no_duplicates(),
            forall|p: Position| #[trigger] walkable@.contains(p) ==> p.y < y,
            forall|p: Position| #[trigger] walkable@.contains(p) ==> map.walkable_at(p),
            forall|p: Position| map.walkable_at(p) && p.y < y ==> #[trigger] walkable@.contains(p),
            forall|p: Position| #[trigger] tunnels@.contains(p) ==> (p.y < y && is_tunnel_at(*map, p)),
            forall|p: Position| is_tunnel_at(*map, p) && p.y < y ==> #[trigger] tunnels@.contains(p),
        decreases h - y,
    {
        let mut x: u32 = 0;
        while x < w
            invariant
                map.wf(),
                w == map.spec_width(),
                h == map.spec_height(),
                1 <= h,
                0 <= y < h,
                0 <= x <= w,
                walkable@.no_duplicates(),
                tunnels@.no_duplicates(),
                forall|p: Position| #[trigger] walkable@.contains(p) ==> (p.y < y || (p.y == y && p.x < x)),
                forall|p: Position| #[trigger] walkable@.contains(p) ==> map.walkable_at(p),
                forall|p: Position|
                    map.walkable_at(p) && (p.y < y || (p.y == y && p.x < x))
                        ==> #[trigger] walkable@.contains(p),
                forall|p: Position|
                    #[trigger] tunnels@.contains(p) ==> ((p.y < y || (p.y == y && p.x < x))
                        && is_tunnel_at(*map, p)),
                forall|p: Position|
                    is_tunnel_at(*map, p) && (p.y < y || (p.y == y && p.x < x))
                        ==> #[trigger] tunnels@.contains(p),
            decreases w - x,
        {
            let p = Position { x, y };
            if map.is_walkable_at(&p) {
                if p.x == 0 || p.x == w - 1 || p.y == 0 || p.y == h - 1 {
                    proof {
                        assert(is_tunnel_at(*map, p));
                        lemma_push_no_dup(tunnels@, p);
                    }
                    tunnels.push(p);
                }
                proof {
                    lemma_push_no_dup(walkable@, p);
                }
                walkable.push(p);
            }
            x += 1;
        }
        y += 1;
    }
    (walkable, tunnels)
}

/// Classifies every walkable tile by its walkable-neighbour pattern into
/// intersections, corners and dead-end seeds, and unions the three into the
/// turning points.
#[verifier::rlimit(30)]
fn classify(map: &GameMap, walkable: &Vec<Position>) -> (r: (
    Vec<Position>,
    Vec<Position>,
    Vec<Position>,
    Vec<Position>,
))
    requires
        map.wf(),
        walkable@.no_duplicates(),
        forall|p: Position| #[trigger] walkable@.contains(p) <==> map.walkable_at(p),
    ensures
        forall|q: Position| #[trigger] r.0@.contains(q) <==> is_intersection_at(*map, q),
        forall|q: Position| #[trigger] r.1@.contains(q) <==> is_corner_at(*map, q),
        forall|q: Position| #[trigger] r.2@.contains(q) <==> is_dead_end_seed(*map, q),
        forall|q: Position| #[trigger] r.3@.contains(q) <==> is_turning_at(*map, q),
        r.0@.no_duplicates(),
        r.1@.no_duplicates(),
        r.2@.no_duplicates(),
        r.3@.no_duplicates(),
{
    let w = map.width();
    let h = map.height();
    proof {
        map.lemma_dims();
    }
    let mut intersections: Vec<Position> = Vec::new();
    let mut corners: Vec<Position> = Vec::new();
    let mut dead_ends: Vec<Position> = Vec::new();
    let mut turning_points: Vec<Position> = Vec::new();
    let mut k: usize = 0;
    while k < walkable.len()
        invariant
            map.wf(),
            w == map.spec_width(),
            h == map.spec_height(),
            1 <= h,
            0 <= k <= walkable@.len(),
            walkable@.no_duplicates(),
            forall|p: Position| #[trigger] walkable@.contains(p) <==> map.walkable_at(p),
            intersections@.no_duplicates(),
            corners@.no_duplicates(),
            dead_ends@.no_duplicates(),
            turning_points@.no_duplicates(),
            forall|q: Position|
                #[trigger] intersections@.contains(q) <==> (is_intersection_at(*map, q)
                    && walkable@.take(k as int).contains(q)),
            forall|q: Position|
                #[trigger] corners@.contains(q) <==> (is_corner_at(*map, q) && walkable@.take(
                    k as int,
                ).contains(q)),
            forall|q: Position|
                #[trigger] dead_ends@.contains(q) <==> (is_dead_end_seed(*map, q)
                    && walkable@.take(k as int).contains(q)),
            forall|q: Position|
                #[trigger] turning_points@.contains(q) <==> (is_turning_at(*map, q)
                    && walkable@.take(k as int).contains(q)),
        decreases walkable@.len() - k,
    {
        let p = walkable[k];
        proof {
            assert(walkable@.contains(p)) by {
                assert(walkable@[k as int] == p);
            }
            assert(walkable@.take(k + 1) =~= walkable@.take(k as int).push(p));
            lemma_no_dup_take_excludes(walkable@, k as int);
        }
        let up = map.is_walkable_at(&p.adjacent(map, &Direction::Up));
        let down = map.is_walkable_at(&p.adjacent(map, &Direction::Down));
        let left = map.is_walkable_at(&p.adjacent(map, &Direction::Left));
        let right = map.is_walkable_at(&p.adjacent(map, &Direction::Right));
        let cnt: u32 = (if up {
            1u32
        } else {
            0u32
        }) + (if down {
            1u32
        } else {
            0u32
        }) + (if left {
            1u32
        } else {
            0u32
        }) + (if right {
            1u32
        } else {
            0u32
        });
        proof {
            assert(up == dir_walkable(*map, p, Direction::Up));
            assert(down == dir_walkable(*map, p, Direction::Down));
            assert(left == dir_walkable(*map, p, Direction::Left));
            assert(right == dir_walkable(*map, p, Direction::Right));
            assert(cnt == wn_count(*map, p));
            assert((p.x == 0 || p.x == w - 1 || p.y == 0 || p.y == h - 1) == on_boundary(p, w, h));
        }
        if cnt > 2 {
            proof {
                lemma_push_no_dup(intersections@, p);
                lemma_push_no_dup(turning_points@, p);
            }
            intersections.push(p);
            turning_points.push(p);
        } else if cnt == 2 && !(up && down) && !(left && right) && !(p.x == 0 || p.x == w - 1
            || p.y == 0 || p.y == h - 1) {
            proof {
                lemma_push_no_dup(corners@, p);
                lemma_push_no_dup(turning_points@, p);
            }
            corners.push(p);
            turning_points.push(p);
        } else if cnt == 1 {
            proof {
                lemma_push_no_dup(dead_ends@, p);
                lemma_push_no_dup(turning_points@, p);
            }
            dead_ends.push(p);
            turning_points.push(p);
        }
        k += 1;
    }
    proof {
        assert(walkable@.take(walkable@.len() as int) =~= walkable@);
    }
    (intersections, corners, dead_ends, turning_points)
}

/// Grows `dead_ends` to the least set that is dead-end closed: a pass adds
/// every walkable tile left with fewer than two exits outside the region,
/// and a pass without additions certifies closure.
fn grow_dead_ends(map: &GameMap, walkable: &Vec<Position>, dead_ends: &mut Vec<Position>)
    requires
        map.wf(),
        walkable@.no_duplicates(),
        forall|p: Position| #[trigger] walkable@.contains(p) <==> map.walkable_at(p),
        old(dead_ends)@.no_duplicates(),
        forall|q: Position| #[trigger] old(dead_ends)@.contains(q) ==> map.walkable_at(q),
        forall|q: Position| is_dead_end_seed(*map, q) ==> #[trigger] old(dead_ends)@.contains(q),
        forall|s: Set<Position>|
            #[trigger] dead_end_closed(*map, s) ==> old(dead_ends)@.to_set().subset_of(s),
    ensures
        dead_end_closed(*map, final(dead_ends)@.to_set()),
        final(dead_ends)@.no_duplicates(),
        forall|q: Position| #[trigger] final(dead_ends)@.contains(q) ==> map.walkable_at(q),
        forall|s: Set<Position>|
            #[trigger] dead_end_closed(*map, s) ==> final(dead_ends)@.to_set().subset_of(s),
{
    loop
        invariant
            map.wf(),
            walkable@.no_duplicates(),
            forall|p: Position| #[trigger] walkable@.contains(p) <==> map.walkable_at(p),
            dead_ends@.no_duplicates(),
            forall|q: Position| #[trigger] dead_ends@.contains(q) ==> map.walkable_at(q),
            forall|s: Set<Position>|
                #[trigger] dead_end_closed(*map, s) ==> dead_ends@.to_set().subset_of(s),
        ensures
            dead_end_closed(*map, dead_ends@.to_set()),
            dead_ends@.no_duplicates(),
            forall|q: Position| #[trigger] dead_ends@.contains(q) ==> map.walkable_at(q),
            forall|s: Set<Position>|
                #[trigger] dead_end_closed(*map, s) ==> dead_ends@.to_set().subset_of(s),
        decreases walkable@.len() - dead_ends@.len(),
    {
        proof {
            lemma_no_dup_subset_len(dead_ends@, walkable@);
        }
        let ghost dead_start = dead_ends@;
        let mut changed = false;
        let mut k: usize = 0;
        while k < walkable.len()
            invariant
                map.wf(),
                0 <= k <= walkable@.len(),
                walkable@.no_duplicates(),
                forall|p: Position| #[trigger] walkable@.contains(p) <==> map.walkable_at(p),
                dead_ends@.no_duplicates(),
                forall|q: Position| #[trigger] dead_ends@.contains(q) ==> map.walkable_at(q),
                forall|s: Set<Position>|
                    #[trigger] dead_end_closed(*map, s) ==> dead_ends@.to_set().subset_of(s),
                changed ==> dead_ends@.len() > dead_start.len(),
                !changed ==> dead_ends@ == dead_start,
                !changed ==> forall|j: int|
                    0 <= j < k ==> (dead_ends@.contains(#[trigger] walkable@[j]) || exits_outside(
                        *map,
                        walkable@[j],
                        dead_ends@.to_set(),
                    ) >= 2),
                dead_start.len() <= dead_ends@.len(),
            decreases walkable@.len() - k,
        {
            let p = walkable[k];
            proof {
                assert(walkable@.contains(p)) by {
                    assert(walkable@[k as int] == p);
                }
            }
            if !contains_position(dead_ends, &p) {
                let exits = count_exits_outside(map, dead_ends, &p);
                if exits < 2 {
                    let ghost d0 = dead_ends@;
                    proof {
                        lemma_push_no_dup(dead_ends@, p);
                    }
                    dead_ends.push(p);
                    changed = true;
                    proof {
                        assert forall|s: Set<Position>| #[trigger] dead_end_closed(*map, s)
                            implies dead_ends@.to_set().subset_of(s) by {
                            assert(d0.to_set().subset_of(s));
                            lemma_exits_monotone(*map, p, d0.to_set(), s);
                            assert(s.contains(p));
                            assert forall|q: Position| dead_ends@.to_set().contains(q)
                                implies s.contains(q) by {
                                assert(dead_ends@.contains(q));
                                if q != p {
                                    assert(d0.contains(q));
                                }
                            }
                        }
                    }
                }
            }
            k += 1;
        }
        if !changed {
            proof {
                assert forall|p: Position|
                    map.walkable_at(p) && exits_outside(*map, p, dead_ends@.to_set())
                        < 2 implies #[trigger] dead_ends@.to_set().contains(p) by {
                    assert(walkable@.contains(p));
                    let j = choose|j: int| 0 <= j < walkable@.len() && walkable@[j] == p;
                    assert(dead_ends@.contains(walkable@[j]) || exits_outside(
                        *map,
                        walkable@[j],
                        dead_ends@.to_set(),
                    ) >= 2);
                }
            }
            break;
        }
        proof {
            lemma_no_dup_subset_len(dead_ends@, walkable@);
        }
    }
}

/// Growing the excluded set can only close exits, never open them.
proof fn lemma_exits_monotone(m: GameMap, p: Position, s1: Set<Position>, s2: Set<Position>)
    requires
        s1.subset_of(s2),
    ensures
        exits_outside(m, p, s2) <= exits_outside(m, p, s1),
{
}

/// Counts the walkable neighbours of `p` that lie outside the region
/// listed in `excluded`.
pub fn count_exits_outside(map: &GameMap, excluded: &Vec<Position>, p: &Position) -> (n: u32)
    requires
        map.wf(),
        map.walkable_at(*p),
    ensures
        n == exits_outside(*map, *p, excluded@.to_set()),
{
    let up = p.adjacent(map, &Direction::Up);
    let down = p.adjacent(map, &Direction::Down);
    let left = p.adjacent(map, &Direction::Left);
    let right = p.adjacent(map, &Direction::Right);
    let e_up = map.is_walkable_at(&up) && !contains_position(excluded, &up);
    let e_down = map.is_walkable_at(&down) && !contains_position(excluded, &down);
    let e_left = map.is_walkable_at(&left) && !contains_position(excluded, &left);
    let e_right = map.is_walkable_at(&right) && !contains_position(excluded, &right);
    (if e_up {
        1u32
    } else {
        0u32
    }) + (if e_down {
        1u32
    } else {
        0u32
    }) + (if e_left {
        1u32
    } else {
        0u32
    }) + (if e_right {
        1u32
    } else {
        0u32
    })
}

/// Linear membership test over a position list.
pub fn contains_position(v: &Vec<Position>, p: &Position) -> (r: bool)
    ensures
        r == v@.contains(*p),
{
    let mut i: usize = 0;
    while i < v.len()
        invariant
            0 <= i <= v@.len(),
            forall|j: int| 0 <= j < i ==> v@[j] != *p,
        decreases v@.len() - i,
    {
        if v[i].x == p.x && v[i].y == p.y {
            proof {
                assert(v@[i as int] == *p);
            }
            return true;
        }
        i += 1;
    }
    false
}

} // verus!

