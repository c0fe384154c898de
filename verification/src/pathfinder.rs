use vstd::prelude::*;
use vstd::pervasive::VecAdditionalExecFns;

use std::rc::Rc;

use crate::common::{abs, in_bounds, manhattan_spec, step, wrap_term, Direction, Position};
use crate::game::{contains_position, GameMap, MapInformation};
use crate::traits::HasDimensions;

verus! {

/// One admissible move on the map: `q` is one wraparound step away from `p`
/// and walkable. Nothing is asked of `p` itself, so a search may start from
/// any tile.
pub open spec fn is_step(m: GameMap, p: Position, q: Position) -> bool {
    m.walkable_at(q) && exists|d: Direction|
        #[trigger] step(p, m.spec_width(), m.spec_height(), d) == q
}

/// `s` is a walk: every element follows from its predecessor by one
/// admissible move.
pub open spec fn is_walk(m: GameMap, s: Seq<Position>) -> bool {
    forall|i: int| 0 <= i < s.len() - 1 ==> #[trigger] is_step(m, s[i], s[i + 1])
}

/// There is a walk of exactly `n` moves from `a` to `b`.
pub open spec fn reaches(m: GameMap, a: Position, b: Position, n: nat) -> bool {
    exists|s: Seq<Position>|
        #[trigger] is_walk(m, s) && s.len() == n + 1 && s[0] == a && s.last() == b
}

/// What one move costs the pellet-weighted search: one onto a pellet tile,
/// two otherwise; one everywhere when the weighting is off.
pub open spec fn move_cost(m: GameMap, target: Position, by_points: bool) -> int {
    if by_points {
        if m.pellet_at(target) {
            1
        } else {
            2
        }
    } else {
        1
    }
}

/// The pellet-weighted cost of a walk: the sum of its moves' costs, one per
/// move onto a pellet tile and two otherwise.
pub open spec fn walk_points_cost(m: GameMap, s: Seq<Position>) -> int
    decreases s.len(),
{
    if s.len() <= 1 {
        0
    } else {
        walk_points_cost(m, s.drop_last()) + move_cost(m, s.last(), true)
    }
}

/// `n` is the exact shortest-walk distance from `a` to `b`.
pub open spec fn dist_is(m: GameMap, a: Position, b: Position, n: nat) -> bool {
    reaches(m, a, b, n) && forall|k: nat| k < n ==> !reaches(m, a, b, k)
}

/// The zero-length walk: every tile reaches itself in no moves.
pub proof fn lemma_reaches_self(m: GameMap, a: Position)
    ensures
        reaches(m, a, a, 0),
{
    let s = seq![a];
    assert(is_walk(m, s));
    assert(s[0] == a && s.last() == a && s.len() == 1);
}

/// Extending a walk by one admissible move.
pub proof fn lemma_reaches_step(m: GameMap, a: Position, b: Position, q: Position, n: nat)
    requires
        reaches(m, a, b, n),
        is_step(m, b, q),
    ensures
        reaches(m, a, q, n + 1),
{
    let s = choose|s: Seq<Position>|
        #[trigger] is_walk(m, s) && s.len() == n + 1 && s[0] == a && s.last() == b;
    let t = s.push(q);
    assert forall|i: int| 0 <= i < t.len() - 1 implies #[trigger] is_step(m, t[i], t[i + 1]) by {
        if i < s.len() - 1 {
            assert(is_step(m, s[i], s[i + 1]));
            assert(t[i] == s[i] && t[i + 1] == s[i + 1]);
        } else {
            assert(t[i] == s.last() && t[i + 1] == q);
        }
    }
    assert(is_walk(m, t) && t.len() == n + 2 && t[0] == a && t.last() == q);
}

/// Splitting the last move off a nonempty walk.
pub proof fn lemma_reaches_unstep(m: GameMap, a: Position, b: Position, n: nat)
    requires
        reaches(m, a, b, n),
        n >= 1,
    ensures
        exists|c: Position| #[trigger] reaches(m, a, c, (n - 1) as nat) && is_step(m, c, b),
{
    let s = choose|s: Seq<Position>|
        #[trigger] is_walk(m, s) && s.len() == n + 1 && s[0] == a && s.last() == b;
    let t = s.drop_last();
    let c = t.last();
    assert(0 <= s.len() - 2 < s.len() - 1);
    assert(is_step(m, s[s.len() - 2], s[s.len() - 2 + 1]));
    assert(s[s.len() - 2 + 1] == s.last());
    assert forall|i: int| 0 <= i < t.len() - 1 implies #[trigger] is_step(m, t[i], t[i + 1]) by {
        assert(is_step(m, s[i], s[i + 1]));
    }
    assert(is_walk(m, t) && t.len() == n && t[0] == a && t.last() == c);
    assert(reaches(m, a, c, (n - 1) as nat));
    assert(is_step(m, c, b));
}

/// Every tile a walk visits after its start is walkable, hence on the grid.
pub proof fn lemma_reaches_in_bounds(m: GameMap, a: Position, b: Position, n: nat)
    requires
        reaches(m, a, b, n),
        n >= 1,
    ensures
        m.walkable_at(b),
{
    lemma_reaches_unstep(m, a, b, n);
}

/// Per-tile record of the breadth-first field: the exact distance from the
/// origin and the predecessor tile on one shortest walk.
#[derive(Clone, Copy, Debug, PartialEq, Eq, Structural)]
pub struct PathInfo {
    pub cost: usize,
    pub parent: Position,
}

/// The per-tick breadth-first cost/parent field, rooted at the agent's
/// position. Rebuilt from scratch every tick; the origin itself carries no
/// record.
pub struct LocalPathGraph {
    pub nodes: Vec<Option<PathInfo>>,
    pub width: u32,
    pub height: u32,
    pub origin: Position,
}

/// The record the field holds for tile `p` on map `m`.
pub open spec fn node_at(nodes: Seq<Option<PathInfo>>, m: GameMap, p: Position) -> Option<
    PathInfo,
> {
    nodes[m.spec_index_of(p)]
}

/// Soundness and minimality of every record, and validity of every parent
/// link: a `Some` record stores the exact distance from `origin`, and its
/// parent is one admissible move back that lies on a shortest walk.
pub open spec fn bfs_post(m: GameMap, origin: Position, nodes: Seq<Option<PathInfo>>) -> bool {
    forall|p: Position|
        in_bounds(p, m.spec_width(), m.spec_height()) ==> match #[trigger] node_at(
            nodes,
            m,
            p,
        ) {
            Some(info) => {
                &&& p != origin
                &&& m.walkable_at(p)
                &&& info.cost >= 1
                &&& dist_is(m, origin, p, info.cost as nat)
                &&& is_step(m, info.parent, p)
                &&& if info.parent == origin {
                    info.cost == 1
                } else {
                    &&& in_bounds(info.parent, m.spec_width(), m.spec_height())
                    &&& node_at(nodes, m, info.parent) matches Some(pi) && pi.cost + 1
                        == info.cost
                }
            },
            None => p == origin || (forall|k: nat| !reaches(m, origin, p, k)),
        }
}

/// How many tiles carry a record.
spec fn count_some(s: Seq<Option<PathInfo>>) -> int
    decreases s.len(),
{
    if s.len() == 0 {
        0
    } else {
        count_some(s.drop_last()) + if s.last() is Some {
            1int
        } else {
            0int
        }
    }
}

proof fn lemma_count_some_le(s: Seq<Option<PathInfo>>)
    ensures
        0 <= count_some(s) <= s.len(),
    decreases s.len(),
{
    if s.len() > 0 {
        lemma_count_some_le(s.drop_last());
    }
}

proof fn lemma_count_some_none(s: Seq<Option<PathInfo>>)
    requires
        forall|i: int| 0 <= i < s.len() ==> s[i] is None,
    ensures
        count_some(s) == 0,
    decreases s.len(),
{
    if s.len() > 0 {
        lemma_count_some_none(s.drop_last());
    }
}

proof fn lemma_count_some_update(s: Seq<Option<PathInfo>>, i: int, v: Option<PathInfo>)
    requires
        0 <= i < s.len(),
        s[i] is None,
        v is Some,
    ensures
        count_some(s.update(i, v)) == count_some(s) + 1,
    decreases s.len(),
{
    let t = s.update(i, v);
    if i == s.len() - 1 {
        assert(t.drop_last() =~= s.drop_last());
        assert(t.last() == v);
    } else {
        assert(t.drop_last() =~= s.drop_last().update(i, v));
        assert(t.last() == s.last());
        lemma_count_some_update(s.drop_last(), i, v);
    }
}

/// Per-tile soundness during the search: every record holds the length of
/// some walk from the origin, and a valid parent link one move back.
spec fn sound_at(m: GameMap, origin: Position, nodes: Seq<Option<PathInfo>>, p: Position) -> bool {
    match node_at(nodes, m, p) {
        Some(info) => {
            &&& p != origin
            &&& m.walkable_at(p)
            &&& info.cost >= 1
            &&& reaches(m, origin, p, info.cost as nat)
            &&& is_step(m, info.parent, p)
            &&& if info.parent == origin {
                info.cost == 1
            } else {
                &&& in_bounds(info.parent, m.spec_width(), m.spec_height())
                &&& node_at(nodes, m, info.parent) matches Some(pi) && pi.cost + 1 == info.cost
            }
        },
        None => true,
    }
}

spec fn bfs_sound(m: GameMap, origin: Position, nodes: Seq<Option<PathInfo>>) -> bool {
    forall|p: Position|
        in_bounds(p, m.spec_width(), m.spec_height()) ==> #[trigger] sound_at(m, origin, nodes, p)
}

/// The work queue of the search: entry 0 is the origin at cost zero, later
/// entries are exactly the recorded tiles with their costs, in discovery
/// order; costs never decrease along the queue, entries before the cursor
/// differ from any unprocessed entry by at most one, and each entry's cost
/// is at most its index.
spec fn queue_wf(
    m: GameMap,
    origin: Position,
    nodes: Seq<Option<PathInfo>>,
    q: Seq<(Position, usize)>,
    qi: int,
) -> bool {
    &&& q.len() >= 1
    &&& q[0].0 == origin
    &&& q[0].1 == 0
    &&& forall|j: int| #![trigger q[j]]
        1 <= j < q.len() ==> {
            &&& in_bounds(q[j].0, m.spec_width(), m.spec_height())
            &&& q[j].0 != origin
            &&& node_at(nodes, m, q[j].0) matches Some(i) && i.cost == q[j].1
        }
    &&& forall|j: int| #![trigger q[j]] 0 <= j < q.len() ==> q[j].1 <= j
    &&& forall|j1: int, j2: int|
        #![trigger q[j1], q[j2]]
        0 <= j1 < j2 < q.len() ==> q[j1].0 != q[j2].0 && q[j1].1 <= q[j2].1
    &&& forall|j1: int, j2: int|
        #![trigger q[j1], q[j2]]
        0 <= j1 < q.len() && qi <= j2 < q.len() ==> q[j1].1 <= q[j2].1 + 1
    &&& forall|p: Position|
        in_bounds(p, m.spec_width(), m.spec_height()) && #[trigger] node_at(nodes, m, p) is Some
            ==> exists|j: int|
            #![trigger q[j]]
            0 <= j < q.len() && q[j].0 == p && q[j].1 == node_at(nodes, m, p)->Some_0.cost
}

/// Every processed queue entry has all its walkable neighbours recorded (or
/// equal to the origin) at a cost at most one above its own.
spec fn processed_expanded(
    m: GameMap,
    origin: Position,
    nodes: Seq<Option<PathInfo>>,
    q: Seq<(Position, usize)>,
    qi: int,
) -> bool {
    forall|j: int, d: Direction|
        #![trigger step(q[j].0, m.spec_width(), m.spec_height(), d)]
        0 <= j < qi ==> {
            let t = step(q[j].0, m.spec_width(), m.spec_height(), d);
            m.walkable_at(t) ==> t == origin || (node_at(nodes, m, t) matches Some(i) && i.cost
                <= q[j].1 + 1)
        }
}

/// The finished field seen as a graph closure: the origin and every
/// recorded tile have each walkable neighbour recorded (or the origin) at a
/// cost at most one above their own (zero for the origin).
spec fn bfs_expanded(m: GameMap, origin: Position, nodes: Seq<Option<PathInfo>>) -> bool {
    forall|p: Position, d: Direction|
        #![trigger step(p, m.spec_width(), m.spec_height(), d)]
        in_bounds(p, m.spec_width(), m.spec_height()) && (p == origin || node_at(nodes, m, p)
            is Some) ==> {
            let t = step(p, m.spec_width(), m.spec_height(), d);
            m.walkable_at(t) ==> t == origin || (node_at(nodes, m, t) matches Some(i) && i.cost
                <= (if p == origin {
                    0int
                } else {
                    node_at(nodes, m, p)->Some_0.cost as int
                }) + 1)
        }
}

/// Along any walk that starts at the origin, every tile is either the
/// origin or recorded with a cost bounded by its position in the walk.
proof fn lemma_expanded_complete(
    m: GameMap,
    origin: Position,
    nodes: Seq<Option<PathInfo>>,
    s: Seq<Position>,
)
    requires
        m.wf(),
        in_bounds(origin, m.spec_width(), m.spec_height()),
        bfs_expanded(m, origin, nodes),
        bfs_sound(m, origin, nodes),
        is_walk(m, s),
        s.len() >= 1,
        s[0] == origin,
    ensures
        s.last() == origin || (in_bounds(s.last(), m.spec_width(), m.spec_height()) && (node_at(
            nodes,
            m,
            s.last(),
        ) matches Some(i) && i.cost <= s.len() - 1)),
    decreases s.len(),
{
    if s.len() > 1 {
        let t = s.drop_last();
        lemma_expanded_complete(m, origin, nodes, t);
        let p = t.last();
        let q = s.last();
        assert(0 <= s.len() - 2 < s.len() - 1);
        assert(is_step(m, s[s.len() - 2], s[s.len() - 2 + 1]));
        assert(s[s.len() - 2] == p && s[s.len() - 2 + 1] == q);
        let d = choose|d: Direction|
            #[trigger] step(p, m.spec_width(), m.spec_height(), d) == q;
        assert(m.walkable_at(q));
        if p == origin {
            assert(step(p, m.spec_width(), m.spec_height(), d) == q);
        } else {
            assert(node_at(nodes, m, p) is Some);
            assert(step(p, m.spec_width(), m.spec_height(), d) == q);
        }
    }
}

/// Soundness plus closure pin every record down to the exact distance, and
/// leave unrecorded tiles provably unreachable.
proof fn lemma_bfs_post(m: GameMap, origin: Position, nodes: Seq<Option<PathInfo>>)
    requires
        m.wf(),
        in_bounds(origin, m.spec_width(), m.spec_height()),
        bfs_sound(m, origin, nodes),
        bfs_expanded(m, origin, nodes),
    ensures
        bfs_post(m, origin, nodes),
{
    assert forall|p: Position|
        in_bounds(p, m.spec_width(), m.spec_height()) implies match node_at(nodes, m, p) {
        Some(info) => {
            &&& p != origin
            &&& m.walkable_at(p)
            &&& info.cost >= 1
            &&& dist_is(m, origin, p, info.cost as nat)
            &&& is_step(m, info.parent, p)
            &&& if info.parent == origin {
                info.cost == 1
            } else {
                &&& in_bounds(info.parent, m.spec_width(), m.spec_height())
                &&& node_at(nodes, m, info.parent) matches Some(pi) && pi.cost + 1 == info.cost
            }
        },
        None => p == origin || (forall|k: nat| !reaches(m, origin, p, k)),
    } by {
        assert(sound_at(m, origin, nodes, p));
        match node_at(nodes, m, p) {
            Some(info) => {
                assert forall|k: nat| k < info.cost as nat implies !reaches(m, origin, p, k) by {
                    if reaches(m, origin, p, k) {
                        let s = choose|s: Seq<Position>|
                            #[trigger] is_walk(m, s) && s.len() == k + 1 && s[0] == origin
                                && s.last() == p;
                        lemma_expanded_complete(m, origin, nodes, s);
                    }
                }
            },
            None => {
                if p != origin {
                    assert forall|k: nat| !reaches(m, origin, p, k) by {
                        if reaches(m, origin, p, k) {
                            let s = choose|s: Seq<Position>|
                                #[trigger] is_walk(m, s) && s.len() == k + 1 && s[0] == origin
                                    && s.last() == p;
                            lemma_expanded_complete(m, origin, nodes, s);
                        }
                    }
                }
            },
        }
    }
}

/// The flat index of an in-bounds position, for indexing the node vector.
fn tile_index(map: &GameMap, p: &Position) -> (i: usize)
    requires
        map.wf(),
        in_bounds(*p, map.spec_width(), map.spec_height()),
    ensures
        i == map.spec_index_of(*p),
        i < map.spec_tiles().len(),
{
    proof {
        map.lemma_dims();
        assert(0 <= map.spec_index_of(*p) < map.spec_tiles().len());
        assert((p.y as int) * (map.width as int) + (p.x as int) == map.spec_index_of(*p))
            by (nonlinear_arith);
    }
    (p.y as usize) * (map.width as usize) + (p.x as usize)
}

/// Visits one neighbour of the queue entry at `qi`: records it at one more
/// than the entry's cost if it is walkable, unrecorded and not the origin.
fn bfs_visit(
    map: &GameMap,
    origin: Position,
    nodes: &mut Vec<Option<PathInfo>>,
    queue: &mut Vec<(Position, usize)>,
    qi: usize,
    d: Direction,
)
    requires
        map.wf(),
        in_bounds(origin, map.spec_width(), map.spec_height()),
        old(nodes)@.len() == map.spec_tiles().len(),
        bfs_sound(*map, origin, old(nodes)@),
        queue_wf(*map, origin, old(nodes)@, old(queue)@, qi as int),
        qi < old(queue)@.len(),
        old(queue)@.len() == count_some(old(nodes)@) + 1,
    ensures
        final(nodes)@.len() == map.spec_tiles().len(),
        bfs_sound(*map, origin, final(nodes)@),
        queue_wf(*map, origin, final(nodes)@, final(queue)@, qi as int),
        final(queue)@.len() == count_some(final(nodes)@) + 1,
        old(queue)@.is_prefix_of(final(queue)@),
        forall|p: Position|
            in_bounds(p, map.spec_width(), map.spec_height()) && #[trigger] node_at(
                old(nodes)@,
                *map,
                p,
            ) is Some ==> node_at(final(nodes)@, *map, p) == node_at(old(nodes)@, *map, p),
        ({
            let t = step(
                final(queue)@[qi as int].0,
                map.spec_width(),
                map.spec_height(),
                d,
            );
            m_walkable_implies_recorded(*map, origin, final(nodes)@, t, final(queue)@[qi as int].1)
        }),
{
    let qlen = queue.len();
    let cur = queue[qi].0;
    let ccost = queue[qi].1;
    proof {
        assert(queue@[qi as int].1 <= qi as int);
        assert(queue@[qi as int] == (cur, ccost));
        assert(ccost < qlen);
    }
    proof {
        map.lemma_dims();
        map.lemma_index_injective();
        if qi > 0 {
            assert(in_bounds(cur, map.spec_width(), map.spec_height()));
        }
    }
    let adj = cur.adjacent(map, &d);
    if !map.tile_at(&adj).is_walkable() {
        return ;
    }
    let idx = tile_index(map, &adj);
    if adj.x == origin.x && adj.y == origin.y {
        proof {
            assert(adj == origin);
        }
        return ;
    }
    let already = nodes[idx].is_some();
    if already {
        proof {
            let t = step(cur, map.spec_width(), map.spec_height(), d);
            assert(t == adj);
            assert(node_at(nodes@, *map, t) is Some);
            assert(exists|j: int|
                #![trigger queue@[j]]
                0 <= j < queue@.len() && queue@[j].0 == t && queue@[j].1 == node_at(
                    nodes@,
                    *map,
                    t,
                )->Some_0.cost);
            let j = choose|j: int|
                #![trigger queue@[j]]
                0 <= j < queue@.len() && queue@[j].0 == t && queue@[j].1 == node_at(
                    nodes@,
                    *map,
                    t,
                )->Some_0.cost;
            assert(queue@[j].1 <= queue@[qi as int].1 + 1);
        }
        return ;
    }
    let ghost nodes0 = nodes@;
    let ghost queue0 = queue@;
    proof {
        assert(queue@[qi as int].1 <= qi as int);
        assert(queue@[qi as int] == (cur, ccost));
    }
    nodes.set(idx, Some(PathInfo { cost: ccost + 1, parent: cur }));
    queue.push((adj, ccost + 1));
    proof {
        let w = map.spec_width();
        let h = map.spec_height();
        let t = step(cur, w, h, d);
        assert(t == adj);
        lemma_count_some_update(nodes0, idx as int, Some(PathInfo { cost: (ccost + 1) as usize, parent: cur }));
        // records elsewhere unchanged
        assert forall|p: Position|
            in_bounds(p, w, h) && p != adj implies node_at(nodes@, *map, p) == node_at(
            nodes0,
            *map,
            p,
        ) by {
            assert(map.spec_index_of(p) != map.spec_index_of(adj));
        }
        // the new record reaches the origin in exactly ccost + 1 moves
        assert(is_step(*map, cur, adj));
        if cur == origin {
            lemma_reaches_self(*map, origin);
            lemma_reaches_step(*map, origin, cur, adj, 0);
            assert(qi == 0) by {
                if qi > 0 {
                    assert(queue0[qi as int].0 != origin);
                }
            }
            assert(ccost == 0);
        } else {
            assert(queue0[qi as int] == (cur, ccost));
            assert(in_bounds(cur, w, h));
            assert(node_at(nodes0, *map, cur) matches Some(i) && i.cost == ccost);
            assert(sound_at(*map, origin, nodes0, cur));
            assert(reaches(*map, origin, cur, ccost as nat));
            lemma_reaches_step(*map, origin, cur, adj, ccost as nat);
        }
        assert(sound_at(*map, origin, nodes@, adj));
        assert forall|p: Position|
            in_bounds(p, w, h) implies #[trigger] sound_at(*map, origin, nodes@, p) by {
            if p != adj {
                assert(sound_at(*map, origin, nodes0, p));
                if node_at(nodes0, *map, p) is Some {
                    let pi = node_at(nodes0, *map, p)->Some_0;
                    if pi.parent != origin {
                        assert(node_at(nodes@, *map, pi.parent) == node_at(
                            nodes0,
                            *map,
                            pi.parent,
                        ));
                    }
                }
            }
        }
        // queue well-formedness is preserved
        assert forall|p: Position|
            in_bounds(p, w, h) && #[trigger] node_at(nodes@, *map, p) is Some implies exists|
            j: int,
        |
            #![trigger queue@[j]]
            0 <= j < queue@.len() && queue@[j].0 == p && queue@[j].1 == node_at(
                nodes@,
                *map,
                p,
            )->Some_0.cost by {
            if p == adj {
                assert(queue@[queue@.len() - 1].0 == adj);
            } else {
                assert(node_at(nodes0, *map, p) is Some);
                let j = choose|j: int|
                    #![trigger queue0[j]]
                    0 <= j < queue0.len() && queue0[j].0 == p && queue0[j].1 == node_at(
                        nodes0,
                        *map,
                        p,
                    )->Some_0.cost;
                assert(queue@[j] == queue0[j]);
            }
        }
    }
}

/// `t` is accounted for: the origin, or recorded at cost at most `c + 1`,
/// whenever it is walkable.
spec fn m_walkable_implies_recorded(
    m: GameMap,
    origin: Position,
    nodes: Seq<Option<PathInfo>>,
    t: Position,
    c: usize,
) -> bool {
    m.walkable_at(t) ==> t == origin || (node_at(nodes, m, t) matches Some(i) && i.cost <= c + 1)
}

impl LocalPathGraph {
    /// The field describes map `m` as rebuilt from `origin`.
    pub open spec fn valid_for(&self, m: GameMap, origin: Position) -> bool {
        &&& self.width == m.spec_width()
        &&& self.height == m.spec_height()
        &&& self.nodes@.len() == m.spec_tiles().len()
        &&& self.origin == origin
        &&& bfs_post(m, origin, self.nodes@)
    }

    /// The record stored for `p`, or `None` off the grid or off the field.
    pub open spec fn spec_node(&self, p: Position) -> Option<PathInfo> {
        if in_bounds(p, self.width, self.height) && p.y * self.width + p.x < self.nodes@.len() {
            self.nodes@[p.y * self.width + p.x]
        } else {
            None
        }
    }

    /// An empty field for a map; `update_from_map` fills it.
    pub fn new(map: &GameMap) -> (r: LocalPathGraph)
        requires
            map.wf(),
        ensures
            r.width == map.spec_width(),
            r.height == map.spec_height(),
    {
        LocalPathGraph {
            nodes: Vec::new(),
            width: map.width(),
            height: map.height(),
            origin: Position { x: 0, y: 0 },
        }
    }

    /// Rebuilds the whole field by breadth-first search from `my_position`:
    /// afterwards every record stores the exact shortest-walk distance from
    /// there and a parent one move back along a shortest walk, and tiles
    /// without a record are the origin itself and the unreachable ones.
    /// Identical maps and origins always yield identical cost data.
    pub fn update_from_map(&mut self, map: &GameMap, my_position: &Position)
        requires
            map.wf(),
            in_bounds(*my_position, map.spec_width(), map.spec_height()),
        ensures
            final(self).valid_for(*map, *my_position),
    {
        let origin = *my_position;
        let n = map.tiles().len();
        let mut nodes: Vec<Option<PathInfo>> = Vec::new();
        while nodes.len() < n
            invariant
                nodes@.len() <= n,
                forall|i: int| 0 <= i < nodes@.len() ==> nodes@[i] is None,
            decreases n - nodes@.len(),
        {
            nodes.push(None);
        }
        let mut queue: Vec<(Position, usize)> = Vec::new();
        queue.push((origin, 0));
        let mut qi: usize = 0;
        proof {
            map.lemma_dims();
            lemma_count_some_none(nodes@);
            assert forall|p: Position|
                in_bounds(p, map.spec_width(), map.spec_height()) implies #[trigger] sound_at(
                *map,
                origin,
                nodes@,
                p,
            ) by {
                assert(node_at(nodes@, *map, p) is None);
            }
            assert forall|p: Position|
                in_bounds(p, map.spec_width(), map.spec_height()) && #[trigger] node_at(
                    nodes@,
                    *map,
                    p,
                ) is Some implies false by {}
            assert(queue@[0] == (origin, 0usize));
        }
        while qi < queue.len()
            invariant
                map.wf(),
                in_bounds(origin, map.spec_width(), map.spec_height()),
                nodes@.len() == map.spec_tiles().len(),
                qi <= queue@.len(),
                bfs_sound(*map, origin, nodes@),
                queue_wf(*map, origin, nodes@, queue@, qi as int),
                processed_expanded(*map, origin, nodes@, queue@, qi as int),
                queue@.len() == count_some(nodes@) + 1,
            decreases map.spec_tiles().len() + 1 - queue@.len(), queue@.len() - qi,
        {
            proof {
                lemma_count_some_le(nodes@);
            }
            let ghost w = map.spec_width();
            let ghost h = map.spec_height();
            let ghost n0 = nodes@;
            let ghost q0 = queue@;
            let ghost e = queue@[qi as int];
            bfs_visit(map, origin, &mut nodes, &mut queue, qi, Direction::Up);
            let ghost n1 = nodes@;
            bfs_visit(map, origin, &mut nodes, &mut queue, qi, Direction::Down);
            let ghost n2 = nodes@;
            bfs_visit(map, origin, &mut nodes, &mut queue, qi, Direction::Left);
            let ghost n3 = nodes@;
            bfs_visit(map, origin, &mut nodes, &mut queue, qi, Direction::Right);
            proof {
                assert(queue@[qi as int] == e);
                assert(m_walkable_implies_recorded(*map, origin, nodes@, step(e.0, w, h, Direction::Right), e.1));
                assert(m_walkable_implies_recorded(*map, origin, n3, step(e.0, w, h, Direction::Left), e.1));
                assert(m_walkable_implies_recorded(*map, origin, n2, step(e.0, w, h, Direction::Down), e.1));
                assert(m_walkable_implies_recorded(*map, origin, n1, step(e.0, w, h, Direction::Up), e.1));
                assert forall|dd: Direction| m_walkable_implies_recorded(
                    *map,
                    origin,
                    nodes@,
                    #[trigger] step(e.0, w, h, dd),
                    e.1,
                ) by {
                    let t = step(e.0, w, h, dd);
                    if map.walkable_at(t) && t != origin {
                        match dd {
                            Direction::Up => {
                                assert(node_at(n1, *map, t) is Some);
                                assert(node_at(n2, *map, t) == node_at(n1, *map, t));
                                assert(node_at(n3, *map, t) == node_at(n2, *map, t));
                                assert(node_at(nodes@, *map, t) == node_at(n3, *map, t));
                            },
                            Direction::Down => {
                                assert(node_at(n2, *map, t) is Some);
                                assert(node_at(n3, *map, t) == node_at(n2, *map, t));
                                assert(node_at(nodes@, *map, t) == node_at(n3, *map, t));
                            },
                            Direction::Left => {
                                assert(node_at(n3, *map, t) is Some);
                                assert(node_at(nodes@, *map, t) == node_at(n3, *map, t));
                            },
                            Direction::Right => {},
                        }
                    }
                }
                assert forall|j: int, d: Direction|
                    #![trigger step(queue@[j].0, w, h, d)]
                    0 <= j < qi + 1 implies {
                    let t = step(queue@[j].0, w, h, d);
                    map.walkable_at(t) ==> t == origin || (node_at(nodes@, *map, t) matches Some(i)
                        && i.cost <= queue@[j].1 + 1)
                } by {
                    if 0 <= j < qi {
                        assert(queue@[j] == q0[j]);
                        let t = step(q0[j].0, w, h, d);
                        assert(step(queue@[j].0, w, h, d) == t);
                        if map.walkable_at(t) && t != origin {
                            assert(node_at(n0, *map, t) matches Some(i) && i.cost <= q0[j].1 + 1);
                            assert(node_at(n1, *map, t) == node_at(n0, *map, t));
                            assert(node_at(n2, *map, t) == node_at(n1, *map, t));
                            assert(node_at(n3, *map, t) == node_at(n2, *map, t));
                            assert(node_at(nodes@, *map, t) == node_at(n3, *map, t));
                        }
                    } else if j == qi {
                        assert(queue@[j] == e);
                        assert(m_walkable_implies_recorded(*map, origin, nodes@, step(e.0, w, h, d), e.1));
                    }
                }
            }
            proof {
                lemma_count_some_le(nodes@);
            }
            qi += 1;
        }
        proof {
            assert forall|p: Position, d: Direction|
                #![trigger step(p, map.spec_width(), map.spec_height(), d)]
                in_bounds(p, map.spec_width(), map.spec_height()) && (p == origin || node_at(
                    nodes@,
                    *map,
                    p,
                ) is Some) implies {
                let t = step(p, map.spec_width(), map.spec_height(), d);
                map.walkable_at(t) ==> t == origin || (node_at(nodes@, *map, t) matches Some(i)
                    && i.cost <= (if p == origin {
                        0int
                    } else {
                        node_at(nodes@, *map, p)->Some_0.cost as int
                    }) + 1)
            } by {
                let w = map.spec_width();
                let h = map.spec_height();
                let t = step(p, w, h, d);
                if map.walkable_at(t) {
                    if p == origin {
                        assert(queue@[0] == (origin, 0usize));
                        assert(step(queue@[0].0, w, h, d) == t);
                    } else {
                        let j = choose|j: int|
                            #![trigger queue@[j]]
                            0 <= j < queue@.len() && queue@[j].0 == p && queue@[j].1 == node_at(
                                nodes@,
                                *map,
                                p,
                            )->Some_0.cost;
                        assert(step(queue@[j].0, w, h, d) == t);
                    }
                }
            }
            lemma_bfs_post(*map, origin, nodes@);
        }
        self.nodes = nodes;
        self.width = map.width();
        self.height = map.height();
        self.origin = origin;
    }

    /// Structural soundness of the parent links alone, with no reference to
    /// a map: every record's parent chain steps down in cost by one and
    /// bottoms out at the origin, which itself carries no record.
    pub open spec fn parents_linked(&self) -> bool {
        &&& self.spec_node(self.origin) is None
        &&& forall|p: Position|
            #[trigger] self.spec_node(p) matches Some(i) ==> {
                &&& i.cost >= 1
                &&& if i.parent == self.origin {
                    i.cost == 1
                } else {
                    self.spec_node(i.parent) matches Some(pi) && pi.cost + 1 == i.cost
                }
            }
    }

    /// A field freshly rebuilt for a map has sound parent links.
    pub proof fn lemma_valid_parents_linked(&self, m: &GameMap, origin: Position)
        requires
            m.wf(),
            self.valid_for(*m, origin),
        ensures
            self.parents_linked(),
    {
        m.lemma_dims();
        assert(self.spec_node(self.origin) is None) by {
            if in_bounds(origin, m.spec_width(), m.spec_height()) && origin.y * self.width
                + origin.x < self.nodes@.len() {
                assert(node_at(self.nodes@, *m, origin) == self.spec_node(origin));
            }
        }
        assert forall|p: Position| #[trigger] self.spec_node(p) is Some implies {
            let i = self.spec_node(p)->Some_0;
            &&& i.cost >= 1
            &&& if i.parent == self.origin {
                i.cost == 1
            } else {
                self.spec_node(i.parent) matches Some(pi) && pi.cost + 1 == i.cost
            }
        } by {
            assert(in_bounds(p, m.spec_width(), m.spec_height()));
            assert(0 <= m.spec_index_of(p) < m.spec_tiles().len());
            assert(node_at(self.nodes@, *m, p) == self.spec_node(p));
            let i = self.spec_node(p)->Some_0;
            if i.parent != origin {
                assert(0 <= m.spec_index_of(i.parent) < m.spec_tiles().len());
                assert(node_at(self.nodes@, *m, i.parent) == self.spec_node(i.parent));
            }
        }
    }

    /// The record stored for `position`, looked up in the node vector.
    fn lookup(&self, position: &Position) -> (r: Option<PathInfo>)
        ensures
            r == self.spec_node(*position),
    {
        if position.x < self.width && position.y < self.height {
            proof {
                assert((position.y as int) * (self.width as int) + (position.x as int)
                    < 0x1_0000_0000_0000_0000) by (nonlinear_arith)
                    requires
                        (position.y as int) < 0x1_0000_0000,
                        (self.width as int) < 0x1_0000_0000,
                        (position.x as int) < 0x1_0000_0000,
                ;
            }
            let idx64 = (position.y as u64) * (self.width as u64) + (position.x as u64);
            if idx64 < self.nodes.len() as u64 {
                self.nodes[idx64 as usize]
            } else {
                None
            }
        } else {
            None
        }
    }

    /// The shortest walk back from `position`, in reverse walk order: index
    /// zero is the target and the last element is the first step away from
    /// the origin, which itself is left out. Its length is exactly the
    /// recorded cost; `None` when no record exists for `position`.
    pub fn path_to(&self, position: &Position) -> (r: Option<Vec<Position>>)
        requires
            self.parents_linked(),
        ensures
            match r {
                Some(path) => {
                    &&& self.spec_node(*position) matches Some(info) && path@.len() == info.cost
                    &&& path@.len() >= 1
                    &&& path@[0] == *position
                    &&& forall|k: int|
                        0 <= k < path@.len() ==> (#[trigger] self.spec_node(path@[k]) matches Some(
                            ik,
                        ) && ik.cost == path@.len() - k)
                    &&& forall|k: int|
                        0 <= k < path@.len() - 1 ==> self.spec_node(#[trigger] path@[k])->Some_0.parent
                            == path@[k + 1]
                    &&& self.spec_node(path@.last())->Some_0.parent == self.origin
                },
                None => self.spec_node(*position) is None,
            },
    {
        let first = match self.lookup(position) {
            None => {
                return None;
            },
            Some(i) => i,
        };
        let ghost big = first.cost as int;
        let mut path: Vec<Position> = Vec::new();
        path.push(*position);
        let mut cur = first;
        while !(cur.parent == self.origin)
            invariant
                self.parents_linked(),
                path@.len() >= 1,
                path@[0] == *position,
                self.spec_node(*position) == Some(first),
                big == first.cost,
                self.spec_node(path@.last()) == Some(cur),
                cur.cost >= 1,
                path@.len() + cur.cost == big + 1,
                forall|k: int|
                    0 <= k < path@.len() ==> (#[trigger] self.spec_node(path@[k]) matches Some(ik)
                        && ik.cost == big - k),
                forall|k: int|
                    0 <= k < path@.len() - 1 ==> self.spec_node(#[trigger] path@[k])->Some_0.parent
                        == path@[k + 1],
            decreases cur.cost,
        {
            let par = cur.parent;
            proof {
                assert(self.spec_node(path@.last()) matches Some(i) && i == cur);
            }
            let info = self.lookup(&par).unwrap();
            let ghost path0 = path@;
            path.push(par);
            proof {
                assert(path@.last() == par);
                assert forall|k: int|
                    0 <= k < path@.len() - 1 implies self.spec_node(
                    #[trigger] path@[k],
                )->Some_0.parent == path@[k + 1] by {
                    if k < path0.len() - 1 {
                        assert(path@[k] == path0[k] && path@[k + 1] == path0[k + 1]);
                    } else {
                        assert(path@[k] == path0.last());
                    }
                }
            }
            cur = info;
        }
        proof {
            assert(self.spec_node(path@.last()) matches Some(i) && i == cur);
            assert(cur.cost == 1);
            assert(path@.len() == big);
        }
        Some(path)
    }

    /// The exact shortest-walk cost from the origin of the last rebuild to
    /// `position`, or `None` when the tile is unreachable, off the grid, or
    /// the origin itself.
    pub fn cost_to(&self, position: &Position) -> (r: Option<usize>)
        ensures
            r == match self.spec_node(*position) {
                Some(info) => Some(info.cost),
                None => None::<usize>,
            },
    {
        if position.x < self.width && position.y < self.height {
            proof {
                assert((position.y as int) * (self.width as int) + (position.x as int)
                    < 0x1_0000_0000_0000_0000) by (nonlinear_arith)
                    requires
                        (position.y as int) < 0x1_0000_0000,
                        (self.width as int) < 0x1_0000_0000,
                        (position.x as int) < 0x1_0000_0000,
                ;
            }
            let idx64 = (position.y as u64) * (self.width as u64) + (position.x as u64);
            if idx64 < self.nodes.len() as u64 {
                match &self.nodes[idx64 as usize] {
                    Some(info) => Some(info.cost),
                    None => None,
                }
            } else {
                None
            }
        } else {
            None
        }
    }
}

/// A search node: a position plus shared handles to the map and its
/// topology, so the outside search library can expand it on its own.
#[derive(Clone, PartialEq, Eq, Hash)]
pub struct PathNode {
    pub position: Position,
    pub map_information: Rc<MapInformation>,
    pub current_map_state: Rc<GameMap>,
}

/// Relies on `Rc::clone`: the clone is another handle to the same
/// allocation, so it carries the same value.
#[verifier::external_body]
fn rc_clone<T>(rc: &Rc<T>) -> (r: Rc<T>)
    ensures
        r == *rc,
{
    rc.clone()
}

/// One admissible move in the restricted graph a search runs on: a step
/// onto a walkable tile that no listed opponent occupies and that, when
/// dead ends are barred, does not lie in the dead-end region.
pub open spec fn is_step_avoiding(
    m: GameMap,
    info: MapInformation,
    p: Position,
    q: Position,
    avoid: Seq<Position>,
    skip_dead: bool,
) -> bool {
    &&& is_step(m, p, q)
    &&& !avoid.contains(q)
    &&& (skip_dead ==> !info.spec_dead_ends().contains(q))
}

/// A walk all of whose moves are admissible in the restricted graph.
pub open spec fn is_walk_avoiding(
    m: GameMap,
    info: MapInformation,
    s: Seq<Position>,
    avoid: Seq<Position>,
    skip_dead: bool,
) -> bool {
    forall|i: int|
        0 <= i < s.len() - 1 ==> #[trigger] is_step_avoiding(m, info, s[i], s[i + 1], avoid, skip_dead)
}

/// A restricted walk is in particular a plain walk.
pub proof fn lemma_walk_avoiding_is_walk(
    m: GameMap,
    info: MapInformation,
    s: Seq<Position>,
    avoid: Seq<Position>,
    skip_dead: bool,
)
    requires
        is_walk_avoiding(m, info, s, avoid, skip_dead),
    ensures
        is_walk(m, s),
{
    assert forall|i: int| 0 <= i < s.len() - 1 implies #[trigger] is_step(m, s[i], s[i + 1]) by {
        assert(is_step_avoiding(m, info, s[i], s[i + 1], avoid, skip_dead));
    }
}

/// A plain walk is a restricted walk when nothing is avoided.
pub proof fn lemma_walk_is_walk_avoiding(
    m: GameMap,
    info: MapInformation,
    s: Seq<Position>,
    avoid: Seq<Position>,
)
    requires
        is_walk(m, s),
        avoid.len() == 0,
    ensures
        is_walk_avoiding(m, info, s, avoid, false),
{
    assert forall|i: int|
        0 <= i < s.len() - 1 implies #[trigger] is_step_avoiding(
        m,
        info,
        s[i],
        s[i + 1],
        avoid,
        false,
    ) by {
        assert(is_step(m, s[i], s[i + 1]));
    }
}

/// The heuristic never claims more than the true walking distance, from
/// any grid tile a search can expand. The searches evaluate it only on
/// their in-bounds start and on walkable successors, so quantifying over
/// on-grid sources covers every node a search sees; and it holds of every
/// usable map, by [`lemma_heuristic_admissible`].
pub open spec fn heuristic_admissible(m: GameMap) -> bool {
    forall|a: Position, b: Position, n: nat|
        in_bounds(a, m.spec_width(), m.spec_height()) && #[trigger] reaches(m, a, b, n)
            ==> manhattan_spec(a, b, m.spec_width(), m.spec_height()) <= n
}

/// One cyclic step of the target moves each wraparound-distance term by at
/// most one.
proof fn lemma_wrap_term_step(a: int, b: int, bp: int, m: int)
    requires
        m >= 1,
        0 <= a < m,
        0 <= b < m,
        0 <= bp < m,
        bp == b + 1 || bp == b - 1 || (b == m - 1 && bp == 0) || (b == 0 && bp == m - 1),
    ensures
        wrap_term(abs(a - bp), m) <= wrap_term(abs(a - b), m) + 1,
{
}

/// Extending a walk by one admissible move changes the toroidal Manhattan
/// distance from any fixed source by at most one.
proof fn lemma_manhattan_step(m: GameMap, a: Position, c: Position, b: Position)
    requires
        m.wf(),
        in_bounds(a, m.spec_width(), m.spec_height()),
        in_bounds(c, m.spec_width(), m.spec_height()),
        is_step(m, c, b),
    ensures
        manhattan_spec(a, b, m.spec_width(), m.spec_height()) <= manhattan_spec(
            a,
            c,
            m.spec_width(),
            m.spec_height(),
        ) + 1,
{
    let w = m.spec_width();
    let h = m.spec_height();
    m.lemma_dims();
    let d = choose|d: Direction| #[trigger] step(c, w, h, d) == b;
    match d {
        Direction::Up => {
            lemma_wrap_term_step(a.y as int, c.y as int, b.y as int, h as int);
        },
        Direction::Down => {
            lemma_wrap_term_step(a.y as int, c.y as int, b.y as int, h as int);
        },
        Direction::Left => {
            lemma_wrap_term_step(a.x as int, c.x as int, b.x as int, w as int);
        },
        Direction::Right => {
            lemma_wrap_term_step(a.x as int, c.x as int, b.x as int, w as int);
        },
    }
}

/// Along any walk, the toroidal Manhattan distance from the start never
/// exceeds the number of moves.
proof fn lemma_reaches_manhattan(m: GameMap, a: Position, b: Position, n: nat)
    requires
        m.wf(),
        in_bounds(a, m.spec_width(), m.spec_height()),
        reaches(m, a, b, n),
    ensures
        manhattan_spec(a, b, m.spec_width(), m.spec_height()) <= n,
    decreases n,
{
    let w = m.spec_width();
    let h = m.spec_height();
    if n == 0 {
        let s = choose|s: Seq<Position>|
            #[trigger] is_walk(m, s) && s.len() == 1 && s[0] == a && s.last() == b;
        assert(b == a);
    } else {
        lemma_reaches_unstep(m, a, b, n);
        let c = choose|c: Position|
            #[trigger] reaches(m, a, c, (n - 1) as nat) && is_step(m, c, b);
        lemma_reaches_manhattan(m, a, c, (n - 1) as nat);
        if n - 1 == 0 {
            let t = choose|t: Seq<Position>|
                #[trigger] is_walk(m, t) && t.len() == 1 && t[0] == a && t.last() == c;
            assert(c == a);
        } else {
            lemma_reaches_in_bounds(m, a, c, (n - 1) as nat);
        }
        lemma_manhattan_step(m, a, c, b);
    }
}

/// The toroidal Manhattan distance is an admissible search heuristic on
/// every usable map: it never exceeds the true number of moves.
pub proof fn lemma_heuristic_admissible(m: GameMap)
    requires
        m.wf(),
    ensures
        heuristic_admissible(m),
{
    assert forall|a: Position, b: Position, n: nat|
        in_bounds(a, m.spec_width(), m.spec_height()) && #[trigger] reaches(m, a, b, n)
        implies manhattan_spec(a, b, m.spec_width(), m.spec_height()) <= n by {
        lemma_reaches_manhattan(m, a, b, n);
    }
}

impl PathNode {
    /// The map this node searches on.
    pub open spec fn spec_map(&self) -> GameMap {
        *self.current_map_state
    }

    /// The topology this node searches with.
    pub open spec fn spec_info(&self) -> MapInformation {
        *self.map_information
    }

    /// A node a search can start from: its map is usable and its position
    /// lies on the grid.
    pub open spec fn wf_node(&self) -> bool {
        &&& self.spec_map().wf()
        &&& in_bounds(self.position, self.spec_map().spec_width(), self.spec_map().spec_height())
    }

    /// The wraparound Manhattan distance to another node, used as the
    /// search heuristic.
    pub fn heuristic_to(&self, other: &PathNode) -> (r: usize)
        requires
            self.wf_node(),
        ensures
            r == manhattan_spec(
                self.position,
                other.position,
                self.spec_map().spec_width(),
                self.spec_map().spec_height(),
            ),
    {
        self.position.manhattan_distance_to(&other.position, &*self.current_map_state) as usize
    }

    /// The walkable neighbours of this node, sharing its map handles.
    pub fn walkable_neighbours(&self) -> (r: Vec<PathNode>)
        requires
            self.wf_node(),
        ensures
            forall|i: int|
                0 <= i < r@.len() ==> {
                    &&& is_step(self.spec_map(), self.position, (#[trigger] r@[i]).position)
                    &&& r@[i].current_map_state == self.current_map_state
                    &&& r@[i].map_information == self.map_information
                },
            forall|q: Position|
                is_step(self.spec_map(), self.position, q) ==> exists|i: int|
                    0 <= i < r@.len() && (#[trigger] r@[i]).position == q,
    {
        let m = &*self.current_map_state;
        proof {
            assert(*m == self.spec_map());
        }
        let dirs = Direction::hash_set_all();
        let mut r: Vec<PathNode> = Vec::new();
        let mut di: usize = 0;
        while di < dirs.len()
            invariant
                self.wf_node(),
                *m == self.spec_map(),
                dirs@ == crate::common::all_directions(),
                0 <= di <= 4,
                forall|i: int|
                    0 <= i < r@.len() ==> {
                        &&& is_step(self.spec_map(), self.position, (#[trigger] r@[i]).position)
                        &&& r@[i].current_map_state == self.current_map_state
                        &&& r@[i].map_information == self.map_information
                    },
                forall|dj: int|
                    0 <= dj < di ==> (self.spec_map().walkable_at(
                        step(
                            self.position,
                            self.spec_map().spec_width(),
                            self.spec_map().spec_height(),
                            crate::common::all_directions()[dj],
                        ),
                    ) ==> exists|i: int|
                        0 <= i < r@.len() && (#[trigger] r@[i]).position == step(
                            self.position,
                            self.spec_map().spec_width(),
                            self.spec_map().spec_height(),
                            crate::common::all_directions()[dj],
                        )),
            decreases 4 - di,
        {
            let d = dirs[di];
            let q = self.position.adjacent(m, &d);
            if m.is_walkable_at(&q) {
                let ghost r0 = r@;
                r.push(
                    PathNode {
                        position: q,
                        map_information: rc_clone(&self.map_information),
                        current_map_state: rc_clone(&self.current_map_state),
                    },
                );
                proof {
                    assert(r@[r@.len() - 1].position == q);
                    assert forall|i: int| 0 <= i < r0.len() implies r@[i] == r0[i] by {}
                }
            }
            di += 1;
        }
        proof {
            assert forall|q: Position|
                is_step(self.spec_map(), self.position, q) implies exists|i: int|
                0 <= i < r@.len() && (#[trigger] r@[i]).position == q by {
                let w = self.spec_map().spec_width();
                let h = self.spec_map().spec_height();
                let d = choose|d: Direction| #[trigger] step(self.position, w, h, d) == q;
                assert(crate::common::all_directions()[0] == Direction::Up
                    && crate::common::all_directions()[1] == Direction::Down
                    && crate::common::all_directions()[2] == Direction::Left
                    && crate::common::all_directions()[3] == Direction::Right);
                match d {
                    Direction::Up => assert(crate::common::all_directions()[0] == d),
                    Direction::Down => assert(crate::common::all_directions()[1] == d),
                    Direction::Left => assert(crate::common::all_directions()[2] == d),
                    Direction::Right => assert(crate::common::all_directions()[3] == d),
                }
            }
        }
        r
    }

    /// The successors handed to the search: walkable neighbours, minus the
    /// avoided tiles (and the dead-end region when barred), each paired
    /// with its move cost — one per move, or, when pellet weighting is on,
    /// one for a move onto a pellet and two otherwise.
    pub fn successors(&self, by_points: bool, avoid: &Vec<Position>, skip_dead: bool) -> (r: Vec<
        (PathNode, usize),
    >)
        requires
            self.wf_node(),
        ensures
            forall|i: int|
                0 <= i < r@.len() ==> {
                    &&& is_step_avoiding(
                        self.spec_map(),
                        self.spec_info(),
                        self.position,
                        (#[trigger] r@[i]).0.position,
                        avoid@,
                        skip_dead,
                    )
                    &&& r@[i].0.current_map_state == self.current_map_state
                    &&& r@[i].0.map_information == self.map_information
                    &&& r@[i].1 as int == move_cost(self.spec_map(), r@[i].0.position, by_points)
                },
            forall|q: Position|
                is_step_avoiding(
                    self.spec_map(),
                    self.spec_info(),
                    self.position,
                    q,
                    avoid@,
                    skip_dead,
                ) ==> exists|i: int| 0 <= i < r@.len() && (#[trigger] r@[i]).0.position == q,
    {
        let neighbours = self.walkable_neighbours();
        let mut r: Vec<(PathNode, usize)> = Vec::new();
        let mut i: usize = 0;
        while i < neighbours.len()
            invariant
                self.wf_node(),
                0 <= i <= neighbours@.len(),
                forall|k: int|
                    0 <= k < neighbours@.len() ==> {
                        &&& is_step(
                            self.spec_map(),
                            self.position,
                            (#[trigger] neighbours@[k]).position,
                        )
                        &&& neighbours@[k].current_map_state == self.current_map_state
                        &&& neighbours@[k].map_information == self.map_information
                    },
                forall|k: int|
                    0 <= k < r@.len() ==> {
                        &&& is_step_avoiding(
                            self.spec_map(),
                            self.spec_info(),
                            self.position,
                            (#[trigger] r@[k]).0.position,
                            avoid@,
                            skip_dead,
                        )
                        &&& r@[k].0.current_map_state == self.current_map_state
                        &&& r@[k].0.map_information == self.map_information
                        &&& r@[k].1 as int == move_cost(self.spec_map(), r@[k].0.position, by_points)
                    },
                forall|k: int|
                    0 <= k < i ==> (is_step_avoiding(
                        self.spec_map(),
                        self.spec_info(),
                        self.position,
                        (#[trigger] neighbours@[k]).position,
                        avoid@,
                        skip_dead,
                    ) ==> exists|j: int|
                        0 <= j < r@.len() && (#[trigger] r@[j]).0.position
                            == neighbours@[k].position),
            decreases neighbours@.len() - i,
        {
            let node = &neighbours[i];
            let excluded = contains_position(avoid, &node.position) || (skip_dead
                && (&*self.map_information).is_dead_end(&node.position));
            if !excluded {
                let cost: usize = if by_points {
                    if (&*self.current_map_state).is_pellet_at(&node.position) {
                        1
                    } else {
                        2
                    }
                } else {
                    1
                };
                let ghost r0 = r@;
                r.push(
                    (
                        PathNode {
                            position: node.position,
                            map_information: rc_clone(&node.map_information),
                            current_map_state: rc_clone(&node.current_map_state),
                        },
                        cost,
                    ),
                );
                proof {
                    assert(r@[r@.len() - 1].0.position == neighbours@[i as int].position);
                    assert forall|k: int| 0 <= k < r0.len() implies r@[k] == r0[k] by {}
                }
            }
            i += 1;
        }
        proof {
            assert forall|q: Position|
                is_step_avoiding(
                    self.spec_map(),
                    self.spec_info(),
                    self.position,
                    q,
                    avoid@,
                    skip_dead,
                ) implies exists|j: int| 0 <= j < r@.len() && (#[trigger] r@[j]).0.position
                == q by {
                assert(is_step(self.spec_map(), self.position, q));
                let k = choose|k: int|
                    0 <= k < neighbours@.len() && (#[trigger] neighbours@[k]).position == q;
                assert(is_step_avoiding(
                    self.spec_map(),
                    self.spec_info(),
                    self.position,
                    neighbours@[k].position,
                    avoid@,
                    skip_dead,
                ));
            }
        }
        r
    }
}

/// The tile the parent chain from `p` bottoms out on, one move away from
/// the field's origin; `fuel` bounds the descent and callers pass the
/// stored cost, which the chain decreases in lockstep.
pub open spec fn first_step_via(g: LocalPathGraph, p: Position, fuel: nat) -> Position
    decreases fuel,
{
    if fuel == 0 {
        p
    } else {
        match g.spec_node(p) {
            Some(i) => if i.parent == g.origin {
                p
            } else {
                first_step_via(g, i.parent, (fuel - 1) as nat)
            },
            None => p,
        }
    }
}

/// The first move of the stored shortest walk toward `p`: the tile next to
/// the origin on that walk (or `p` itself when the field has no record).
pub open spec fn first_step_toward(g: LocalPathGraph, p: Position) -> Position {
    match g.spec_node(p) {
        Some(i) => first_step_via(g, p, i.cost as nat),
        None => p,
    }
}

/// Any suffix of a stored path bottoms out on the path's last tile.
proof fn lemma_chain_first_step(g: LocalPathGraph, path: Seq<Position>, k: int)
    requires
        g.parents_linked(),
        path.len() >= 1,
        forall|j: int|
            0 <= j < path.len() ==> (#[trigger] g.spec_node(path[j]) matches Some(ij) && ij.cost
                == path.len() - j),
        forall|j: int|
            0 <= j < path.len() - 1 ==> g.spec_node(#[trigger] path[j])->Some_0.parent == path[j
                + 1],
        g.spec_node(path.last())->Some_0.parent == g.origin,
        0 <= k < path.len(),
    ensures
        first_step_via(g, path[k], (path.len() - k) as nat) == path.last(),
    decreases path.len() - k,
{
    assert(g.spec_node(path[k]) matches Some(i) && i.cost == path.len() - k);
    let i = g.spec_node(path[k])->Some_0;
    if k == path.len() - 1 {
        assert(path[k] == path.last());
    } else {
        assert(i.parent == path[k + 1]);
        assert(g.spec_node(path[k + 1]) is Some);
        assert(g.spec_node(g.origin) is None);
        assert(i.parent != g.origin);
        lemma_chain_first_step(g, path, k + 1);
    }
}

/// The last tile of a path the field returns is exactly the chain's first
/// move toward the target.
pub proof fn lemma_path_to_first_step(g: LocalPathGraph, p: Position, path: Seq<Position>)
    requires
        g.parents_linked(),
        g.spec_node(p) matches Some(info) && path.len() == info.cost,
        path.len() >= 1,
        path[0] == p,
        forall|j: int|
            0 <= j < path.len() ==> (#[trigger] g.spec_node(path[j]) matches Some(ij) && ij.cost
                == path.len() - j),
        forall|j: int|
            0 <= j < path.len() - 1 ==> g.spec_node(#[trigger] path[j])->Some_0.parent == path[j
                + 1],
        g.spec_node(path.last())->Some_0.parent == g.origin,
    ensures
        path.last() == first_step_toward(g, p),
{
    lemma_chain_first_step(g, path, 0);
}

/// Two exact distances between the same tiles agree.
pub proof fn lemma_dist_unique(m: GameMap, a: Position, b: Position, k1: nat, k2: nat)
    requires
        dist_is(m, a, b, k1),
        dist_is(m, a, b, k2),
    ensures
        k1 == k2,
{
}

/// The chain's first move is one admissible step from the field's origin.
proof fn lemma_first_step_via_adjacent(
    g: LocalPathGraph,
    m: GameMap,
    origin: Position,
    p: Position,
    fuel: nat,
)
    requires
        m.wf(),
        g.valid_for(m, origin),
        g.spec_node(p) matches Some(i) && i.cost as nat <= fuel,
    ensures
        is_step(m, origin, first_step_via(g, p, fuel)),
    decreases fuel,
{
    m.lemma_dims();
    let i = g.spec_node(p)->Some_0;
    assert(in_bounds(p, m.spec_width(), m.spec_height()));
    assert(node_at(g.nodes@, m, p) == g.spec_node(p));
    if i.parent == g.origin {
        assert(is_step(m, i.parent, p));
    } else {
        assert(in_bounds(i.parent, m.spec_width(), m.spec_height()));
        assert(node_at(g.nodes@, m, i.parent) == g.spec_node(i.parent));
        lemma_first_step_via_adjacent(g, m, origin, i.parent, (fuel - 1) as nat);
    }
}

/// The first move of a stored walk is one admissible step from the origin
/// of the field, so a direction toward it always exists.
pub proof fn lemma_first_step_adjacent(
    g: LocalPathGraph,
    m: &GameMap,
    origin: Position,
    p: Position,
)
    requires
        m.wf(),
        g.valid_for(*m, origin),
        g.spec_node(p) is Some,
    ensures
        is_step(*m, origin, first_step_toward(g, p)),
{
    let i = g.spec_node(p)->Some_0;
    lemma_first_step_via_adjacent(g, *m, origin, p, i.cost as nat);
}

/// The positions visited by a sequence of search nodes.
pub open spec fn positions_of(s: Seq<PathNode>) -> Seq<Position> {
    s.map_values(|n: PathNode| n.position)
}

/// There is a restricted walk of exactly `n` moves from `a` to `b`.
pub open spec fn reaches_avoiding(
    m: GameMap,
    info: MapInformation,
    a: Position,
    b: Position,
    avoid: Seq<Position>,
    skip_dead: bool,
    n: nat,
) -> bool {
    exists|s: Seq<Position>|
        #[trigger] is_walk_avoiding(m, info, s, avoid, skip_dead) && s.len() == n + 1 && s[0] == a
            && s.last() == b
}

/// Relies on `pathfinding::directed::astar::astar`: the returned path
/// comprises both the start and the goal node, every link follows the
/// successor function, the returned total is the sum of the successor
/// costs along the path (so the move count at unit cost, and the
/// pellet-weighted sum otherwise), the path has lowest total cost whenever
/// the heuristic never overestimates that total, `None` comes exactly when
/// no node satisfying the goal test is reachable, and a start that already
/// satisfies the goal test yields the one-node path. The heuristic, the
/// toroidal Manhattan distance, never exceeds the move count, and each
/// move costs at least one, so it never overestimates either total.
/// The goal test compares nodes for equality, the successor function is
/// [`PathNode::successors`], and the heuristic [`PathNode::heuristic_to`].
#[verifier::external_body]
fn astar_search(
    from: &PathNode,
    to: &PathNode,
    by_points: bool,
    avoid: &Vec<Position>,
) -> (r: Option<(Vec<PathNode>, usize)>)
    requires
        from.wf_node(),
        to.wf_node(),
        from.current_map_state == to.current_map_state,
        from.map_information == to.map_information,
    ensures
        (r is Some ==> r->Some_0.0@.len() >= 1 && r->Some_0.0@[0] == *from
            && r->Some_0.0@.last().position == to.position),
        (r is Some ==> is_walk_avoiding(
            from.spec_map(),
            from.spec_info(),
            positions_of(r->Some_0.0@),
            avoid@,
            false,
        )),
        (r is Some && !by_points ==> r->Some_0.1 == r->Some_0.0@.len() - 1),
        (r is Some && by_points ==> r->Some_0.1 == walk_points_cost(
            from.spec_map(),
            positions_of(r->Some_0.0@),
        )),
        (r is Some && by_points && heuristic_admissible(from.spec_map()) ==> forall|
            s: Seq<Position>,
        |
            #[trigger] is_walk_avoiding(from.spec_map(), from.spec_info(), s, avoid@, false)
                && s.len() >= 1 && s[0] == from.position && s.last() == to.position
                ==> walk_points_cost(from.spec_map(), s) >= r->Some_0.1),
        (r is Some && !by_points && heuristic_admissible(from.spec_map()) ==> forall|
            s: Seq<Position>,
        |
            #[trigger] is_walk_avoiding(from.spec_map(), from.spec_info(), s, avoid@, false)
                && s.len() >= 1 && s[0] == from.position && s.last() == to.position ==> s.len()
                >= r->Some_0.0@.len()),
        (forall|s: Seq<Position>|
            #[trigger] is_walk_avoiding(from.spec_map(), from.spec_info(), s, avoid@, false)
                && s.len() >= 1 && s[0] == from.position && s.last() == to.position ==> r is Some),
        (*from == *to ==> r is Some && r->Some_0.0@.len() == 1),
{
    if by_points {
        pathfinding::directed::astar::astar(
            from,
            |p: &PathNode| p.successors(true, avoid, false),
            |p: &PathNode| p.heuristic_to(to),
            |p: &PathNode| *p == *to,
        )
    } else {
        pathfinding::directed::astar::astar(
            from,
            |p: &PathNode| p.successors(false, avoid, false),
            |p: &PathNode| p.heuristic_to(to),
            |p: &PathNode| *p == *to,
        )
    }
}

/// Relies on `pathfinding::directed::bfs::bfs`: the returned path has the
/// fewest moves from the start to any node satisfying the goal test, both
/// included; `None` comes exactly when no such node is reachable; a start
/// already satisfying the test yields the one-node path. The goal test is
/// [`GameMap::is_pellet_at`] on the node's position and the successor
/// function is [`PathNode::successors`].
#[verifier::external_body]
fn bfs_nearest_pellet(
    origin: &PathNode,
    avoid: &Vec<Position>,
    skip_dead: bool,
) -> (r: Option<Vec<PathNode>>)
    requires
        origin.wf_node(),
    ensures
        (r is Some ==> r->Some_0@.len() >= 1 && r->Some_0@[0] == *origin),
        (r is Some ==> is_walk_avoiding(
            origin.spec_map(),
            origin.spec_info(),
            positions_of(r->Some_0@),
            avoid@,
            skip_dead,
        ) && origin.spec_map().pellet_at(positions_of(r->Some_0@).last())),
        (r is Some ==> forall|s: Seq<Position>|
            (#[trigger] is_walk_avoiding(origin.spec_map(), origin.spec_info(), s, avoid@, skip_dead)
                && s.len() >= 1 && s[0] == origin.position && origin.spec_map().pellet_at(s.last()))
                ==> s.len() >= r->Some_0@.len()),
        (forall|s: Seq<Position>|
            (#[trigger] is_walk_avoiding(origin.spec_map(), origin.spec_info(), s, avoid@, skip_dead)
                && s.len() >= 1 && s[0] == origin.position && origin.spec_map().pellet_at(s.last()))
                ==> r is Some),
        (origin.spec_map().pellet_at(origin.position) ==> r is Some && r->Some_0@.len() == 1),
{
    pathfinding::directed::bfs::bfs(
        origin,
        |p: &PathNode| {
            p.successors(false, avoid, skip_dead).into_iter().map(|x: (PathNode, usize)| x.0)
        },
        |p: &PathNode| (&*p.current_map_state).is_pellet_at(&p.position),
    )
}

/// Turns a raw search result into the tile sequence the strategies walk:
/// reverse walk order (target first), with the start node dropped.
pub fn prepare_response(path: Option<(Vec<PathNode>, usize)>) -> (r: Option<Vec<Position>>)
    ensures
        match path {
            Some(pc) => r matches Some(seq) && (if pc.0@.len() == 0 {
                seq@.len() == 0
            } else {
                seq@ == positions_of(pc.0@).subrange(1, pc.0@.len() as int).reverse()
            }),
            None => r is None,
        },
{
    match path {
        None => None,
        Some((nodes, _)) => {
            let n = nodes.len();
            let mut sequence: Vec<Position> = Vec::new();
            if n >= 1 {
                let mut k: usize = 0;
                while k < n - 1
                    invariant
                        1 <= n == nodes@.len(),
                        0 <= k <= n - 1,
                        sequence@.len() == k,
                        forall|j: int|
                            0 <= j < k ==> sequence@[j] == (#[trigger] nodes@[n - 1 - j]).position,
                    decreases n - 1 - k,
                {
                    sequence.push(nodes[n - 1 - k].position);
                    k += 1;
                }
            }
            proof {
                if nodes@.len() > 0 {
                    let target = positions_of(nodes@).subrange(1, nodes@.len() as int).reverse();
                    assert forall|j: int| 0 <= j < sequence@.len() implies sequence@[j] == target[j] by {
                        assert(target[j] == positions_of(nodes@).subrange(1, nodes@.len() as int)[
                            nodes@.len() - 2 - j
                        ]);
                        assert(target[j] == positions_of(nodes@)[nodes@.len() - 1 - j]);
                        assert(positions_of(nodes@)[nodes@.len() - 1 - j] == nodes@[nodes@.len() - 1
                            - j].position);
                    }
                    assert(sequence@ =~= target);
                }
            }
            Some(sequence)
        },
    }
}

/// The local distance field agrees with the plain path query: for every
/// reachable target, the stored cost equals the length of the path the
/// query returns, since both are the unique shortest-walk distance from
/// the same origin. `path` stands for the query result, whose contract
/// gives `dist_is` of its length.
pub proof fn lemma_cost_to_matches_path_query(
    m: GameMap,
    graph: LocalPathGraph,
    origin: Position,
    t: Position,
    path: Seq<Position>,
)
    requires
        m.wf(),
        graph.valid_for(m, origin),
        in_bounds(t, m.spec_width(), m.spec_height()),
        dist_is(m, origin, t, path.len() as nat),
        path.len() >= 1,
    ensures
        node_at(graph.nodes@, m, t) matches Some(i) && i.cost == path.len(),
{
    m.lemma_dims();
    if node_at(graph.nodes@, m, t) is None {
        assert(t != origin) by {
            if t == origin {
                lemma_reaches_self(m, origin);
            }
        }
        assert(!reaches(m, origin, t, path.len() as nat));
    } else {
        let c = node_at(graph.nodes@, m, t)->Some_0.cost;
        assert(dist_is(m, origin, t, c as nat));
        if c < path.len() {
            assert(!reaches(m, origin, t, c as nat));
        }
        if c > path.len() {
            assert(!reaches(m, origin, t, path.len() as nat));
        }
    }
}

/// Rebuilding the field from the same origin over the same map is
/// deterministic in its cost data: two rebuilt fields record exactly the
/// same tiles, at exactly the same costs. (The parent links both satisfy
/// the same validity clauses, but are pinned by the traversal order rather
/// than by this contract.)
pub proof fn lemma_rebuild_deterministic_costs(
    m: GameMap,
    a: LocalPathGraph,
    b: LocalPathGraph,
    origin: Position,
)
    requires
        m.wf(),
        a.valid_for(m, origin),
        b.valid_for(m, origin),
    ensures
        forall|p: Position|
            in_bounds(p, m.spec_width(), m.spec_height()) ==> ((#[trigger] node_at(
                a.nodes@,
                m,
                p,
            ) is Some <==> node_at(b.nodes@, m, p) is Some) && (node_at(a.nodes@, m, p) is Some
                ==> node_at(a.nodes@, m, p)->Some_0.cost == node_at(b.nodes@, m, p)->Some_0.cost)),
{
    assert forall|p: Position|
        in_bounds(p, m.spec_width(), m.spec_height()) implies ((#[trigger] node_at(a.nodes@, m, p)
        is Some <==> node_at(b.nodes@, m, p) is Some) && (node_at(a.nodes@, m, p) is Some
        ==> node_at(a.nodes@, m, p)->Some_0.cost == node_at(b.nodes@, m, p)->Some_0.cost)) by {
        if node_at(a.nodes@, m, p) is Some && node_at(b.nodes@, m, p) is None {
            let c = node_at(a.nodes@, m, p)->Some_0.cost;
            assert(reaches(m, origin, p, c as nat));
            assert(!reaches(m, origin, p, c as nat));
        }
        if node_at(b.nodes@, m, p) is Some && node_at(a.nodes@, m, p) is None {
            let c = node_at(b.nodes@, m, p)->Some_0.cost;
            assert(reaches(m, origin, p, c as nat));
            assert(!reaches(m, origin, p, c as nat));
        }
        if node_at(a.nodes@, m, p) is Some && node_at(b.nodes@, m, p) is Some {
            let ca = node_at(a.nodes@, m, p)->Some_0.cost;
            let cb = node_at(b.nodes@, m, p)->Some_0.cost;
            if ca < cb {
                assert(reaches(m, origin, p, ca as nat));
                assert(!reaches(m, origin, p, ca as nat));
            }
            if cb < ca {
                assert(reaches(m, origin, p, cb as nat));
                assert(!reaches(m, origin, p, cb as nat));
            }
        }
    }
}

/// Builds a search node for a position on the shared map handles.
pub fn node_for(map: &Rc<GameMap>, info: &Rc<MapInformation>, pos: Position) -> (n: PathNode)
    ensures
        n.position == pos,
        n.current_map_state == *map,
        n.map_information == *info,
{
    PathNode {
        position: pos,
        map_information: rc_clone(info),
        current_map_state: rc_clone(map),
    }
}

/// A plain shortest path between two tiles, in reverse walk order: the
/// target first, the first step away from `from` last, the start itself
/// dropped. `None` when start and target coincide or no route exists. The
/// length is the exact walking distance whenever the heuristic is
/// admissible on this map.
pub fn get_shortest(from: &PathNode, to: &PathNode) -> (r: Option<Vec<Position>>)
    requires
        from.wf_node(),
        to.wf_node(),
        from.current_map_state == to.current_map_state,
        from.map_information == to.map_information,
    ensures
        (r matches Some(path) ==> {
            &&& path@.len() >= 1
            &&& path@[0] == to.position
            &&& is_walk(from.spec_map(), seq![from.position] + path@.reverse())
            &&& is_step(from.spec_map(), from.position, path@.last())
            &&& reaches(from.spec_map(), from.position, to.position, path@.len() as nat)
            &&& dist_is(from.spec_map(), from.position, to.position, path@.len() as nat)
        }),
        (r is None ==> from.position == to.position || (forall|n: nat|
            !reaches(from.spec_map(), from.position, to.position, n))),
{
    let avoid: Vec<Position> = Vec::new();
    let raw = astar_search(from, to, false, &avoid);
    let ghost graw = raw;
    let resp = prepare_response(raw);
    match resp {
        None => {
            proof {
                lemma_none_means_unreachable(*from, *to, avoid@);
            }
            None
        },
        Some(path) => {
            if path.len() == 0 {
                return None;
            }
            proof {
                lemma_trimmed_path_facts(*from, *to, graw->Some_0.0@, path@, avoid@);
                let m = from.spec_map();
                lemma_heuristic_admissible(m);
                assert forall|k: nat| k < path@.len() as nat implies !reaches(
                    m,
                    from.position,
                    to.position,
                    k,
                ) by {
                    if reaches(m, from.position, to.position, k) {
                        let s = choose|s: Seq<Position>|
                            #[trigger] is_walk(m, s) && s.len() == k + 1 && s[0]
                                == from.position && s.last() == to.position;
                        lemma_walk_is_walk_avoiding(m, from.spec_info(), s, avoid@);
                    }
                }
            }
            Some(path)
        },
    }
}

/// The start and target coincide, or no route exists at all, whenever the
/// raw search declined.
proof fn lemma_none_means_unreachable(from: PathNode, to: PathNode, avoid: Seq<Position>)
    requires
        avoid.len() == 0,
        forall|s: Seq<Position>|
            #[trigger] is_walk_avoiding(from.spec_map(), from.spec_info(), s, avoid, false)
                && s.len() >= 1 && s[0] == from.position ==> s.last() != to.position,
    ensures
        forall|n: nat| !reaches(from.spec_map(), from.position, to.position, n),
{
    let m = from.spec_map();
    assert forall|n: nat| !reaches(m, from.position, to.position, n) by {
        if reaches(m, from.position, to.position, n) {
            let s = choose|s: Seq<Position>|
                #[trigger] is_walk(m, s) && s.len() == n + 1 && s[0] == from.position && s.last()
                    == to.position;
            lemma_walk_is_walk_avoiding(m, from.spec_info(), s, avoid);
        }
    }
}

/// Facts about a trimmed, reversed search result: its head is the target,
/// prepending the start restores the raw walk, and the walk witnesses
/// reachability in exactly the trimmed length.
proof fn lemma_trimmed_path_facts(
    from: PathNode,
    to: PathNode,
    rp: Seq<PathNode>,
    path: Seq<Position>,
    avoid: Seq<Position>,
)
    requires
        rp.len() >= 1,
        rp[0] == from,
        rp.last().position == to.position,
        is_walk_avoiding(from.spec_map(), from.spec_info(), positions_of(rp), avoid, false),
        path == positions_of(rp).subrange(1, rp.len() as int).reverse(),
        path.len() >= 1,
    ensures
        path.len() == rp.len() - 1,
        path[0] == to.position,
        seq![from.position] + path.reverse() =~= positions_of(rp),
        is_walk(from.spec_map(), seq![from.position] + path.reverse()),
        is_step(from.spec_map(), from.position, path.last()),
        reaches(from.spec_map(), from.position, to.position, path.len() as nat),
{
    let m = from.spec_map();
    let ps = positions_of(rp);
    let l = rp.len() as int;
    assert(ps.len() == l);
    assert(ps[0] == from.position);
    assert(ps.last() == to.position) by {
        assert(ps[l - 1] == rp[l - 1].position);
    }
    assert(path[0] == ps[l - 1]);
    let fwd = seq![from.position] + path.reverse();
    assert(fwd =~= ps) by {
        assert(path.reverse().len() == l - 1);
        assert forall|i: int| 0 <= i < fwd.len() implies fwd[i] == ps[i] by {
            if i >= 1 {
                assert(path.reverse()[i - 1] == path[path.len() - 1 - (i - 1)]);
                assert(path[path.len() - 1 - (i - 1)] == ps.subrange(1, l).reverse()[l - 1 - i]);
                assert(ps.subrange(1, l).reverse()[l - 1 - i] == ps.subrange(1, l)[i - 1]);
            }
        }
    }
    lemma_walk_avoiding_is_walk(m, from.spec_info(), ps, avoid, false);
    assert(is_walk(m, fwd));
    assert(reaches(m, from.position, to.position, path.len() as nat)) by {
        assert(is_walk(m, ps) && ps.len() == path.len() + 1 && ps[0] == from.position && ps.last()
            == to.position);
    }
    assert(is_step(m, from.position, path.last())) by {
        assert(is_step(m, ps[0], ps[0int + 1]));
        assert(ps[1] == fwd[1]);
        assert(fwd[1] == path.reverse()[0]);
        assert(path.reverse()[0] == path[path.len() - 1]);
    }
}

/// The pellet-weighted path: identical to [`get_shortest`] but the search
/// pays one for a move onto a pellet and two otherwise, biasing the route
/// through pellets without forbidding shortcuts.
pub fn get_by_points(from: &PathNode, to: &PathNode) -> (r: Option<Vec<Position>>)
    requires
        from.wf_node(),
        to.wf_node(),
        from.current_map_state == to.current_map_state,
        from.map_information == to.map_information,
    ensures
        (r matches Some(path) ==> {
            &&& path@.len() >= 1
            &&& path@[0] == to.position
            &&& is_walk(from.spec_map(), seq![from.position] + path@.reverse())
            &&& is_step(from.spec_map(), from.position, path@.last())
            &&& reaches(from.spec_map(), from.position, to.position, path@.len() as nat)
            &&& forall|s: Seq<Position>|
                #[trigger] is_walk(from.spec_map(), s) && s.len() >= 1 && s[0] == from.position
                    && s.last() == to.position ==> walk_points_cost(from.spec_map(), s)
                    >= walk_points_cost(from.spec_map(), seq![from.position] + path@.reverse())
        }),
        (r is None ==> from.position == to.position || (forall|n: nat|
            !reaches(from.spec_map(), from.position, to.position, n))),
{
    let avoid: Vec<Position> = Vec::new();
    let raw = astar_search(from, to, true, &avoid);
    let ghost graw = raw;
    let resp = prepare_response(raw);
    match resp {
        None => {
            proof {
                lemma_none_means_unreachable(*from, *to, avoid@);
            }
            None
        },
        Some(path) => {
            if path.len() == 0 {
                return None;
            }
            proof {
                lemma_trimmed_path_facts(*from, *to, graw->Some_0.0@, path@, avoid@);
                let m = from.spec_map();
                lemma_heuristic_admissible(m);
                let fwd = seq![from.position] + path@.reverse();
                assert(fwd =~= positions_of(graw->Some_0.0@));
                assert forall|s: Seq<Position>|
                    #[trigger] is_walk(m, s) && s.len() >= 1 && s[0] == from.position && s.last()
                        == to.position implies walk_points_cost(m, s) >= walk_points_cost(
                    m,
                    fwd,
                ) by {
                    lemma_walk_is_walk_avoiding(m, from.spec_info(), s, avoid@);
                }
            }
            Some(path)
        },
    }
}

/// The enemy-avoiding path: like [`get_shortest`], but tiles currently
/// occupied by the listed opponents are excluded from the search.
pub fn get_shortest_no_enemies(from: &PathNode, to: &PathNode, enemies: &Vec<Position>) -> (r:
    Option<Vec<Position>>)
    requires
        from.wf_node(),
        to.wf_node(),
        from.current_map_state == to.current_map_state,
        from.map_information == to.map_information,
    ensures
        (r matches Some(path) ==> {
            &&& path@.len() >= 1
            &&& path@[0] == to.position
            &&& is_walk_avoiding(
                from.spec_map(),
                from.spec_info(),
                seq![from.position] + path@.reverse(),
                enemies@,
                false,
            )
            &&& is_step(from.spec_map(), from.position, path@.last())
            &&& !enemies@.contains(path@.last())
            &&& reaches(from.spec_map(), from.position, to.position, path@.len() as nat)
            &&& forall|k: nat|
                k < path@.len() as nat ==> !reaches_avoiding(
                    from.spec_map(),
                    from.spec_info(),
                    from.position,
                    to.position,
                    enemies@,
                    false,
                    k,
                )
        }),
        (r is None ==> from.position == to.position || (forall|n: nat|
            !reaches_avoiding(
                from.spec_map(),
                from.spec_info(),
                from.position,
                to.position,
                enemies@,
                false,
                n,
            ))),
{
    let raw = astar_search(from, to, false, enemies);
    let ghost graw = raw;
    let resp = prepare_response(raw);
    match resp {
        None => {
            proof {
                let m = from.spec_map();
                assert forall|n: nat| !reaches_avoiding(
                    m,
                    from.spec_info(),
                    from.position,
                    to.position,
                    enemies@,
                    false,
                    n,
                ) by {
                    if reaches_avoiding(
                        m,
                        from.spec_info(),
                        from.position,
                        to.position,
                        enemies@,
                        false,
                        n,
                    ) {
                        let s = choose|s: Seq<Position>|
                            #[trigger] is_walk_avoiding(m, from.spec_info(), s, enemies@, false)
                                && s.len() == n + 1 && s[0] == from.position && s.last()
                                == to.position;
                    }
                }
            }
            None
        },
        Some(path) => {
            if path.len() == 0 {
                return None;
            }
            proof {
                let m = from.spec_map();
                let rp = graw->Some_0.0@;
                lemma_trimmed_path_facts(*from, *to, rp, path@, enemies@);
                let fwd = seq![from.position] + path@.reverse();
                assert(fwd =~= positions_of(rp));
                assert(is_walk_avoiding(m, from.spec_info(), fwd, enemies@, false));
                lemma_heuristic_admissible(m);
                assert forall|k: nat|
                    k < path@.len() as nat implies !reaches_avoiding(
                    m,
                    from.spec_info(),
                    from.position,
                    to.position,
                    enemies@,
                    false,
                    k,
                ) by {
                    if reaches_avoiding(
                        m,
                        from.spec_info(),
                        from.position,
                        to.position,
                        enemies@,
                        false,
                        k,
                    ) {
                        let s = choose|s: Seq<Position>|
                            #[trigger] is_walk_avoiding(m, from.spec_info(), s, enemies@, false)
                                && s.len() == k + 1 && s[0] == from.position && s.last()
                                == to.position;
                    }
                }
                assert(!enemies@.contains(path@.last())) by {
                    assert(is_step_avoiding(
                        m,
                        from.spec_info(),
                        positions_of(rp)[0],
                        positions_of(rp)[0int + 1],
                        enemies@,
                        false,
                    ));
                    assert(positions_of(rp)[1] == fwd[1]);
                    assert(fwd[1] == path@.reverse()[0]);
                    assert(path@.reverse()[0] == path@[path@.len() - 1]);
                }
            }
            Some(path)
        },
    }
}

/// The nearest pellet reachable without crossing an opponent's tile, as a
/// path in reverse walk order: the pellet tile first, the first step last,
/// the start dropped. `None` when the agent already stands on a pellet or
/// none is reachable. The path is a fewest-moves route to any reachable
/// pellet.
pub fn find_closest_pellet(origin: &PathNode, enemies: &Vec<Position>) -> (r: Option<
    Vec<Position>,
>)
    requires
        origin.wf_node(),
    ensures
        (r matches Some(path) ==> {
            &&& path@.len() >= 1
            &&& origin.spec_map().pellet_at(path@[0])
            &&& is_walk_avoiding(
                origin.spec_map(),
                origin.spec_info(),
                seq![origin.position] + path@.reverse(),
                enemies@,
                false,
            )
            &&& forall|s: Seq<Position>|
                (#[trigger] is_walk_avoiding(
                    origin.spec_map(),
                    origin.spec_info(),
                    s,
                    enemies@,
                    false,
                ) && s.len() >= 1 && s[0] == origin.position && origin.spec_map().pellet_at(
                    s.last(),
                )) ==> s.len() >= path@.len() + 1
        }),
        (r is None ==> origin.spec_map().pellet_at(origin.position) || (forall|s: Seq<Position>|
            (#[trigger] is_walk_avoiding(
                origin.spec_map(),
                origin.spec_info(),
                s,
                enemies@,
                false,
            ) && s.len() >= 1 && s[0] == origin.position) ==> !origin.spec_map().pellet_at(
                s.last(),
            ))),
{
    let raw = bfs_nearest_pellet(origin, enemies, false);
    let nodes = match raw {
        None => {
            return None;
        },
        Some(nodes) => nodes,
    };
    let ghost gnodes = nodes@;
    if nodes.len() == 1 {
        proof {
            assert(positions_of(gnodes).last() == gnodes[0].position);
        }
        return None;
    }
    let resp = prepare_response(Some((nodes, 0)));
    let path = resp.unwrap();
    proof {
        let m = origin.spec_map();
        let ps = positions_of(gnodes);
        let l = gnodes.len() as int;
        assert(path@ == ps.subrange(1, l).reverse());
        assert(path@.len() == l - 1);
        assert(path@[0] == ps.subrange(1, l).reverse()[0]);
        assert(ps.subrange(1, l).reverse()[0] == ps.subrange(1, l)[l - 2]);
        assert(ps[l - 1] == gnodes[l - 1].position);
        assert(m.pellet_at(path@[0]));
        let fwd = seq![origin.position] + path@.reverse();
        assert(fwd =~= ps) by {
            assert(ps[0] == gnodes[0].position);
            assert forall|i: int| 1 <= i < fwd.len() implies fwd[i] == ps[i] by {
                assert(path@.reverse()[i - 1] == path@[path@.len() - 1 - (i - 1)]);
                assert(path@[path@.len() - 1 - (i - 1)] == ps.subrange(1, l).reverse()[l - 1 - i]);
                assert(ps.subrange(1, l).reverse()[l - 1 - i] == ps.subrange(1, l)[i - 1]);
            }
        }
    }
    Some(path)
}

/// The fewest moves from this tile to a pellet, walking around the listed
/// opponents and never entering the dead-end region; zero when the tile
/// itself holds a pellet, `None` when no pellet can be reached that way.
pub fn distance_to_closest_pellet(origin: &PathNode, enemies: &Vec<Position>) -> (r: Option<usize>)
    requires
        origin.wf_node(),
    ensures
        (r matches Some(d) ==> {
            &&& (exists|s: Seq<Position>|
                #[trigger] is_walk_avoiding(
                    origin.spec_map(),
                    origin.spec_info(),
                    s,
                    enemies@,
                    true,
                ) && s.len() == d + 1 && s[0] == origin.position && origin.spec_map().pellet_at(
                    s.last(),
                ))
            &&& forall|s: Seq<Position>|
                (#[trigger] is_walk_avoiding(
                    origin.spec_map(),
                    origin.spec_info(),
                    s,
                    enemies@,
                    true,
                ) && s.len() >= 1 && s[0] == origin.position && origin.spec_map().pellet_at(
                    s.last(),
                )) ==> s.len() >= d + 1
        }),
        (r is None ==> forall|s: Seq<Position>|
            (#[trigger] is_walk_avoiding(origin.spec_map(), origin.spec_info(), s, enemies@, true)
                && s.len() >= 1 && s[0] == origin.position) ==> !origin.spec_map().pellet_at(
                s.last(),
            )),
{
    let raw = bfs_nearest_pellet(origin, enemies, true);
    match raw {
        None => None,
        Some(nodes) => {
            proof {
                let ps = positions_of(nodes@);
                assert(ps.len() == nodes@.len());
                assert(is_walk_avoiding(
                    origin.spec_map(),
                    origin.spec_info(),
                    ps,
                    enemies@,
                    true,
                ) && ps.len() == (nodes@.len() - 1) + 1 && ps[0] == nodes@[0].position
                    && origin.spec_map().pellet_at(ps.last()));
            }
            Some(nodes.len() - 1)
        },
    }
}

} // verus!
