use vstd::prelude::*;

use std::rc::Rc;

use crate::common::{all_directions, in_bounds, step, Direction, Position};
use crate::game::{GameMap, MapInformation};
use crate::pathfinder::{
    dist_is, find_closest_pellet, first_step_toward, get_shortest, get_shortest_no_enemies,
    LocalPathGraph,
};
use crate::protocol::Player;
use crate::traits::{HasDimensions, HasPosition};

verus! {

broadcast use vstd::seq_lib::lemma_seq_contains_after_push;

/// Weight on a direction that may collide with a live opponent.
pub const AVOID_COLLIDING: i32 = -100;

/// Weight on the way out of a dead end the agent risks being locked into.
pub const EXIT_DEAD_END: i32 = 50;

/// Weight on a direction into a dead end while opponents are close.
pub const AVOID_DEAD_END: i32 = -50;

/// Weight toward an opponent being hunted.
pub const HUNT: i32 = 10;

/// Weight toward a super pellet worth racing for.
pub const KILL_SPELLET: i32 = 10;

/// Weight toward an opponent that can be eaten.
pub const KILL_PLAYER: i32 = 10;

/// Weight toward pellets to collect.
pub const PELLET: i32 = 1;

/// Baseline penalty on a direction blocked by a wall.
pub const WALL_PENALTY: i32 = -100;

/// Baseline penalty on a direction leading into a dead end.
pub const DEAD_END_PENALTY: i32 = -50;

/// Which of the fixed set of strategies produced a contribution.
#[derive(Debug, Clone, Copy, PartialEq, Eq, Structural)]
pub enum StrategyType {
    Avoidance,
    Hunter,
    Killer,
    PickPellets,
}

/// The cross-tick state every strategy reads: the static topology, the
/// per-tick distance field rooted at the agent, and the combiner's memory.
pub struct BotContext {
    pub map_information: Rc<MapInformation>,
    pub path_graph: LocalPathGraph,
    pub previous_direction: Direction,
    pub previous_strategy_type: Option<StrategyType>,
    pub expected_tile_type: crate::game::TileType,
    pub tick: u32,
    pub remaining_ticks_dangerous: u32,
}

impl BotContext {
    /// The agent can currently eliminate non-dangerous opponents.
    pub open spec fn can_eat_spec(&self) -> bool {
        self.remaining_ticks_dangerous > 0
    }

    /// The context fits the given map and agent position: topology derived
    /// from this map, distance field freshly rebuilt from the agent's tile.
    pub open spec fn wf_for(&self, m: GameMap, me: Position) -> bool {
        &&& m.wf()
        &&& (*self.map_information).wf_for(m)
        &&& self.path_graph.valid_for(m, me)
        &&& in_bounds(me, m.spec_width(), m.spec_height())
    }

    /// The stored cost to a tile, straight from the distance field.
    pub open spec fn spec_cost_to(&self, p: Position) -> Option<usize> {
        match self.path_graph.spec_node(p) {
            Some(i) => Some(i.cost),
            None => None,
        }
    }
}

/// An opponent that is a live threat near the agent: not itself parked in
/// the dead-end region, and within three moves by the distance field.
pub open spec fn threat_nearby(ctx: BotContext, enemies: Seq<Player>) -> bool {
    exists|j: int|
        0 <= j < enemies.len() && !(*ctx.map_information).spec_dead_ends().contains(
            (#[trigger] enemies[j]).spec_position(),
        ) && (ctx.path_graph.spec_node(enemies[j].spec_position()) matches Some(i) && i.cost <= 3)
}

/// A pellet one step away in direction `d` that is safe to take: not a
/// dead-end tile with a live opponent close by.
pub open spec fn adjacent_pellet_guard(
    ctx: BotContext,
    m: GameMap,
    me: Position,
    enemies: Seq<Player>,
    d: Direction,
) -> bool {
    let q = step(me, m.spec_width(), m.spec_height(), d);
    m.pellet_at(q) && !((*ctx.map_information).spec_dead_ends().contains(q) && threat_nearby(
        ctx,
        enemies,
    ))
}

/// The first direction, in the fixed order, whose neighbouring tile holds
/// a safely takeable pellet.
pub open spec fn adjacent_pellet_dir(
    ctx: BotContext,
    m: GameMap,
    me: Position,
    enemies: Seq<Player>,
) -> Option<Direction> {
    if adjacent_pellet_guard(ctx, m, me, enemies, Direction::Up) {
        Some(Direction::Up)
    } else if adjacent_pellet_guard(ctx, m, me, enemies, Direction::Down) {
        Some(Direction::Down)
    } else if adjacent_pellet_guard(ctx, m, me, enemies, Direction::Left) {
        Some(Direction::Left)
    } else if adjacent_pellet_guard(ctx, m, me, enemies, Direction::Right) {
        Some(Direction::Right)
    } else {
        None
    }
}

/// A sparse direction-to-weight contribution, as a list of entries that the
/// combiner sums.
pub type WeightEntries = Vec<(Direction, i32)>;

/// Every entry of a contribution is bounded: at most `n` entries, each
/// weight within one hundred either way.
pub open spec fn entries_bounded(r: Seq<(Direction, i32)>, n: int) -> bool {
    r.len() <= n && forall|i: int| 0 <= i < r.len() ==> -100 <= (#[trigger] r[i]).1 <= 100
}

/// One strategy of the fixed set: produces a sparse direction-to-weight
/// contribution from the bot context and the tick's snapshot pieces.
pub trait Strategy {
    fn description(&self) -> StrategyType;

    fn action(
        &mut self,
        ctx: &BotContext,
        map: &Rc<GameMap>,
        me: &Player,
        enemies: &Vec<Player>,
    ) -> (r: WeightEntries)
        requires
            ctx.wf_for(**map, me.spec_position()),
        ensures
            entries_bounded(r@, 8 + enemies@.len() as int),
    ;
}

/// Does any opponent outside the dead-end region stand within three moves
/// of the agent?
pub fn is_enemy_nearby(ctx: &BotContext, enemies: &Vec<Player>) -> (r: bool)
    ensures
        r == threat_nearby(*ctx, enemies@),
{
    let mut j: usize = 0;
    while j < enemies.len()
        invariant
            0 <= j <= enemies@.len(),
            forall|k: int|
                0 <= k < j ==> !(!(*ctx.map_information).spec_dead_ends().contains(
                    (#[trigger] enemies@[k]).spec_position(),
                ) && (ctx.path_graph.spec_node(enemies@[k].spec_position()) matches Some(i)
                    && i.cost <= 3)),
        decreases enemies@.len() - j,
    {
        let e = &enemies[j];
        let pos = e.position();
        if !(&*ctx.map_information).is_dead_end(&pos) {
            match ctx.path_graph.cost_to(&pos) {
                Some(c) => {
                    if c <= 3 {
                        proof {
                            assert(!(*ctx.map_information).spec_dead_ends().contains(
                                enemies@[j as int].spec_position(),
                            ));
                        }
                        return true;
                    }
                },
                None => {},
            }
        }
        j += 1;
    }
    false
}

/// The direction whose single step from `me` lands on `q`, scanning the
/// fixed order; `None` when `q` is not one step away.
pub open spec fn dir_toward(w: u32, h: u32, me: Position, q: Position) -> Option<Direction> {
    if step(me, w, h, Direction::Up) == q {
        Some(Direction::Up)
    } else if step(me, w, h, Direction::Down) == q {
        Some(Direction::Down)
    } else if step(me, w, h, Direction::Left) == q {
        Some(Direction::Left)
    } else if step(me, w, h, Direction::Right) == q {
        Some(Direction::Right)
    } else {
        None
    }
}

/// Exec mirror of [`dir_toward`].
pub fn direction_of_step(map: &GameMap, me: &Position, q: &Position) -> (r: Option<Direction>)
    requires
        map.wf(),
        in_bounds(*me, map.spec_width(), map.spec_height()),
    ensures
        r == dir_toward(map.spec_width(), map.spec_height(), *me, *q),
        (r matches Some(d) ==> step(*me, map.spec_width(), map.spec_height(), d) == *q),
        (r is None ==> forall|d: Direction|
            #[trigger] step(*me, map.spec_width(), map.spec_height(), d) != *q),
{
    if me.adjacent(map, &Direction::Up) == *q {
        Some(Direction::Up)
    } else if me.adjacent(map, &Direction::Down) == *q {
        Some(Direction::Down)
    } else if me.adjacent(map, &Direction::Left) == *q {
        Some(Direction::Left)
    } else if me.adjacent(map, &Direction::Right) == *q {
        Some(Direction::Right)
    } else {
        proof {
            assert forall|d: Direction|
                #[trigger] step(*me, map.spec_width(), map.spec_height(), d) != *q by {
                match d {
                    Direction::Up => {},
                    Direction::Down => {},
                    Direction::Left => {},
                    Direction::Right => {},
                }
            }
        }
        None
    }
}

/// The path out of the dead-end region the agent stands in: the closest
/// tile outside the region by the distance field, as a reverse-walk-order
/// path (exit first, first step last).
fn dead_end_exit_path(ctx: &BotContext, map: &Rc<GameMap>, me: &Position) -> (r: Option<
    Vec<Position>,
>)
    requires
        ctx.wf_for(**map, *me),
    ensures
        (r matches Some(path) ==> path@.len() >= 1 && !(*ctx.map_information).spec_dead_ends()
            .contains(path@[0])),
{
    proof {
        ctx.path_graph.lemma_valid_parents_linked(&**map, *me);
    }
    let info = &*ctx.map_information;
    let walkable = info.walkable_positions();
    let mut best: Option<(usize, Position)> = None;
    let mut k: usize = 0;
    while k < walkable.len()
        invariant
            ctx.wf_for(**map, *me),
            0 <= k <= walkable@.len(),
            (best matches Some(b) ==> !(*ctx.map_information).spec_dead_ends().contains(b.1)
                && ctx.spec_cost_to(b.1) == Some(b.0)),
        decreases walkable@.len() - k,
    {
        let t = walkable[k];
        if !(&*ctx.map_information).is_dead_end(&t) {
            if let Some(c) = ctx.path_graph.cost_to(&t) {
                let better = match &best {
                    None => true,
                    Some(b) => c < b.0,
                };
                if better {
                    best = Some((c, t));
                }
            }
        }
        k += 1;
    }
    match best {
        None => None,
        Some((_, t)) => {
            let path = ctx.path_graph.path_to(&t);
            match path {
                None => None,
                Some(p) => {
                    proof {
                        assert(p@[0] == t);
                    }
                    Some(p)
                },
            }
        },
    }
}

/// An opponent the distance minimum counts: on the grid, and — when
/// dead-end dwellers are ignored — outside the dead-end region.
pub open spec fn enemy_considered(
    m: GameMap,
    info: MapInformation,
    e: Player,
    ignore_dead_end_dwellers: bool,
) -> bool {
    &&& in_bounds(e.spec_position(), m.spec_width(), m.spec_height())
    &&& (ignore_dead_end_dwellers ==> !info.spec_dead_ends().contains(e.spec_position()))
}

/// The fewest moves any considered opponent needs to reach `target`: the
/// exact minimum of their walking distances (an opponent standing on the
/// target counts as zero), `None` when no considered opponent has a route.
fn min_enemy_distance_to(
    ctx: &BotContext,
    map: &Rc<GameMap>,
    enemies: &Vec<Player>,
    target: &Position,
    ignore_dead_end_dwellers: bool,
) -> (r: Option<usize>)
    requires
        (**map).wf(),
        in_bounds(*target, (**map).spec_width(), (**map).spec_height()),
    ensures
        (r matches Some(d) ==> exists|j: int|
            0 <= j < enemies@.len() && enemy_considered(
                **map,
                *ctx.map_information,
                #[trigger] enemies@[j],
                ignore_dead_end_dwellers,
            ) && dist_is(**map, enemies@[j].spec_position(), *target, d as nat)),
        forall|j: int, k: nat|
            0 <= j < enemies@.len() && enemy_considered(
                **map,
                *ctx.map_information,
                #[trigger] enemies@[j],
                ignore_dead_end_dwellers,
            ) && #[trigger] dist_is(**map, enemies@[j].spec_position(), *target, k) ==> (
            r matches Some(d) && d as nat <= k),
{
    let target_node = crate::pathfinder::node_for(map, &ctx.map_information, *target);
    let mut best: Option<usize> = None;
    let mut j: usize = 0;
    while j < enemies.len()
        invariant
            (**map).wf(),
            in_bounds(*target, (**map).spec_width(), (**map).spec_height()),
            target_node.position == *target,
            target_node.current_map_state == *map,
            target_node.map_information == ctx.map_information,
            0 <= j <= enemies@.len(),
            (best matches Some(d) ==> exists|i: int|
                0 <= i < enemies@.len() && enemy_considered(
                    **map,
                    *ctx.map_information,
                    #[trigger] enemies@[i],
                    ignore_dead_end_dwellers,
                ) && dist_is(**map, enemies@[i].spec_position(), *target, d as nat)),
            forall|i: int, k: nat|
                0 <= i < j && enemy_considered(
                    **map,
                    *ctx.map_information,
                    #[trigger] enemies@[i],
                    ignore_dead_end_dwellers,
                ) && #[trigger] dist_is(**map, enemies@[i].spec_position(), *target, k) ==> (
                best matches Some(d) && d as nat <= k),
        decreases enemies@.len() - j,
    {
        let e = &enemies[j];
        let pos = e.position();
        let dwells_in_dead_end = (&*ctx.map_information).is_dead_end(&pos);
        if pos.x < (&**map).width() && pos.y < (&**map).height() && !(ignore_dead_end_dwellers
            && dwells_in_dead_end) {
            let mut this: Option<usize> = None;
            if pos == *target {
                proof {
                    let w1 = seq![pos];
                    assert(crate::pathfinder::is_walk(**map, w1) && w1.len() == 0 + 1 && w1[0]
                        == pos && w1.last() == pos);
                    assert(crate::pathfinder::reaches(**map, pos, *target, 0));
                    assert(dist_is(**map, pos, *target, 0));
                }
                this = Some(0);
            } else {
                let enemy_node = crate::pathfinder::node_for(map, &ctx.map_information, pos);
                match get_shortest(&enemy_node, &target_node) {
                    Some(path) => {
                        proof {
                            assert(dist_is(**map, pos, *target, path@.len() as nat));
                        }
                        this = Some(path.len());
                    },
                    None => {
                        proof {
                            assert(enemy_node.position == pos);
                            assert(target_node.position == *target);
                            assert(enemy_node.spec_map() == **map);
                            assert(pos != *target);
                            assert(forall|n: nat|
                                !crate::pathfinder::reaches(**map, pos, *target, n));
                            assert forall|k: nat|
                                !#[trigger] dist_is(**map, pos, *target, k) by {
                                assert(!crate::pathfinder::reaches(**map, pos, *target, k));
                            }
                        }
                    },
                }
            }
            proof {
                assert(enemies@[j as int].spec_position() == pos);
            }
            match this {
                Some(d) => {
                    let better = match &best {
                        None => true,
                        Some(b) => d < *b,
                    };
                    if better {
                        best = Some(d);
                    }
                    proof {
                        assert forall|k: nat|
                            #[trigger] dist_is(**map, pos, *target, k) implies (best matches Some(
                            b,
                        ) && b as nat <= k) by {
                            crate::pathfinder::lemma_dist_unique(**map, pos, *target, d as nat, k);
                        }
                    }
                },
                None => {},
            }
        }
        j += 1;
    }
    best
}

/// A deterred direction: its one step lands on a walkable tile of the
/// dead-end region.
pub open spec fn deterrence_guard(ctx: BotContext, m: GameMap, me: Position, d: Direction) -> bool {
    let q = step(me, m.spec_width(), m.spec_height(), d);
    m.walkable_at(q) && (*ctx.map_information).spec_dead_ends().contains(q)
}

/// The deterrence entries over a direction list, in order.
pub open spec fn deterrence_from(
    ctx: BotContext,
    m: GameMap,
    me: Position,
    ds: Seq<Direction>,
) -> Seq<(Direction, i32)>
    decreases ds.len(),
{
    if ds.len() == 0 {
        Seq::empty()
    } else {
        deterrence_from(ctx, m, me, ds.drop_last()) + if deterrence_guard(ctx, m, me, ds.last()) {
            seq![(ds.last(), AVOID_DEAD_END)]
        } else {
            Seq::empty()
        }
    }
}

/// All deterrence entries: one per direction into the dead-end region, in
/// the fixed order, and only while an opponent is a nearby threat.
pub open spec fn deterrence_entries(
    ctx: BotContext,
    m: GameMap,
    me: Position,
    enemies: Seq<Player>,
) -> Seq<(Direction, i32)> {
    if threat_nearby(ctx, enemies) {
        deterrence_from(ctx, m, me, all_directions())
    } else {
        Seq::empty()
    }
}

/// The entry one opponent forces: the collision weight on the first move
/// of the stored walk toward any opponent within three moves that the
/// agent cannot eat.
pub open spec fn collision_entry(
    ctx: BotContext,
    m: GameMap,
    me: Position,
    e: Player,
) -> Seq<(Direction, i32)> {
    if !(ctx.can_eat_spec() && !e.is_dangerous) && (ctx.path_graph.spec_node(e.spec_position())
        matches Some(i) && i.cost <= 3) {
        match dir_toward(
            m.spec_width(),
            m.spec_height(),
            me,
            first_step_toward(ctx.path_graph, e.spec_position()),
        ) {
            Some(d) => seq![(d, AVOID_COLLIDING)],
            None => Seq::empty(),
        }
    } else {
        Seq::empty()
    }
}

/// The collision entries, one per opponent in list order.
pub open spec fn collision_entries(
    ctx: BotContext,
    m: GameMap,
    me: Position,
    es: Seq<Player>,
) -> Seq<(Direction, i32)>
    decreases es.len(),
{
    if es.len() == 0 {
        Seq::empty()
    } else {
        collision_entries(ctx, m, me, es.drop_last()) + collision_entry(ctx, m, me, es.last())
    }
}

/// What the avoidance contribution is: an optional single escape entry —
/// present only when the agent stands inside the dead-end region, since
/// its urgency rests on the outside search's opponent distances — followed
/// exactly by the deterrence entries and then the collision entries.
pub open spec fn avoidance_post(
    ctx: BotContext,
    m: GameMap,
    me: Position,
    enemies: Seq<Player>,
    w: Seq<(Direction, i32)>,
) -> bool {
    exists|esc: Seq<(Direction, i32)>|
        #![trigger esc.len()]
        {
            &&& w == esc + deterrence_entries(ctx, m, me, enemies) + collision_entries(
                ctx,
                m,
                me,
                enemies,
            )
            &&& esc.len() <= 1
            &&& (forall|i: int| 0 <= i < esc.len() ==> (#[trigger] esc[i]).1 == EXIT_DEAD_END)
            &&& (!(*ctx.map_information).spec_dead_ends().contains(me) ==> esc.len() == 0)
        }
}

/// Survival: flee a dead end about to be sealed off, refuse to enter dead
/// ends while opponents are close, and veer off directions that collide
/// with a live opponent.
pub struct Avoidance {}

impl Avoidance {
    pub fn new() -> (r: Avoidance) {
        Avoidance {  }
    }

    /// The avoidance contribution, pinned up to the escape entry: the
    /// optional escape weight out of a dead end the agent stands in,
    /// followed exactly by the deterrence entries (one per direction into
    /// the dead-end region, while a threat is near) and the collision
    /// entries (one per close non-eatable opponent, on the first move of
    /// the stored walk toward them).
    pub fn weights(
        &self,
        ctx: &BotContext,
        map: &Rc<GameMap>,
        me: &Player,
        enemies: &Vec<Player>,
    ) -> (r: WeightEntries)
        requires
            ctx.wf_for(**map, me.spec_position()),
        ensures
            entries_bounded(r@, 5 + enemies@.len() as int),
            avoidance_post(*ctx, **map, me.spec_position(), enemies@, r@),
    {
        let mut r: WeightEntries = Vec::new();
        if let Some(d) = escape_direction(ctx, map, me, enemies) {
            r.push((d, EXIT_DEAD_END));
        }
        let ghost esc = r@;
        proof {
            ctx.path_graph.lemma_valid_parents_linked(&**map, me.spec_position());
        }
        let mut det = deterrence_vec(ctx, map, me, enemies);
        let mut coll = collision_vec(ctx, map, me, enemies);
        r.append(&mut det);
        r.append(&mut coll);
        proof {
            assert(esc.len() <= 1);
            assert(forall|i: int| 0 <= i < esc.len() ==> (#[trigger] esc[i]).1 == EXIT_DEAD_END);
        }
        r
    }
}

/// The escape move out of the dead-end region the agent stands in, when an
/// opponent could reach its exit too soon; `None` anywhere else.
fn escape_direction(
    ctx: &BotContext,
    map: &Rc<GameMap>,
    me: &Player,
    enemies: &Vec<Player>,
) -> (r: Option<Direction>)
    requires
        ctx.wf_for(**map, me.spec_position()),
    ensures
        (r is Some ==> (*ctx.map_information).spec_dead_ends().contains(me.spec_position())),
{
    let my_pos = me.position();
    if !(&*ctx.map_information).is_dead_end(&my_pos) {
        return None;
    }
    if let Some(path) = dead_end_exit_path(ctx, map, &my_pos) {
        let exit = path[0];
        let my_len = path.len();
        if exit.x < (&**map).width() && exit.y < (&**map).height() {
            let urgent = match min_enemy_distance_to(ctx, map, enemies, &exit, true) {
                Some(dcl) => {
                    if dcl <= 4 {
                        true
                    } else {
                        my_len > dcl - 4
                    }
                },
                None => false,
            };
            if urgent {
                let first_step = path[path.len() - 1];
                return direction_of_step(&**map, &my_pos, &first_step);
            }
        }
    }
    None
}

/// Exec mirror of [`deterrence_entries`].
#[verifier::rlimit(100)]
fn deterrence_vec(
    ctx: &BotContext,
    map: &Rc<GameMap>,
    me: &Player,
    enemies: &Vec<Player>,
) -> (r: WeightEntries)
    requires
        (**map).wf(),
        in_bounds(me.spec_position(), (**map).spec_width(), (**map).spec_height()),
    ensures
        r@ == deterrence_entries(*ctx, **map, me.spec_position(), enemies@),
        entries_bounded(r@, 4),
{
    let ghost ds1 = seq![Direction::Up];
    let ghost ds2 = seq![Direction::Up, Direction::Down];
    let ghost ds3 = seq![Direction::Up, Direction::Down, Direction::Left];
    let my_pos = me.position();
    let mut r: WeightEntries = Vec::new();
    if !is_enemy_nearby(ctx, enemies) {
        proof {
            assert(r@ =~= deterrence_entries(*ctx, **map, me.spec_position(), enemies@));
        }
        return r;
    }
    let m = &**map;
    let q_up = my_pos.adjacent(m, &Direction::Up);
    if m.is_walkable_at(&q_up) && (&*ctx.map_information).is_dead_end(&q_up) {
        r.push((Direction::Up, AVOID_DEAD_END));
    }
    proof {
        assert(deterrence_from(*ctx, **map, me.spec_position(), Seq::<Direction>::empty())
            =~= Seq::<(Direction, i32)>::empty());
        assert(ds1.drop_last() =~= Seq::<Direction>::empty());
        assert(r@ =~= deterrence_from(*ctx, **map, me.spec_position(), ds1));
    }
    let q_down = my_pos.adjacent(m, &Direction::Down);
    if m.is_walkable_at(&q_down) && (&*ctx.map_information).is_dead_end(&q_down) {
        r.push((Direction::Down, AVOID_DEAD_END));
    }
    proof {
        assert(ds2.drop_last() =~= ds1);
        assert(r@ =~= deterrence_from(*ctx, **map, me.spec_position(), ds2));
    }
    let q_left = my_pos.adjacent(m, &Direction::Left);
    if m.is_walkable_at(&q_left) && (&*ctx.map_information).is_dead_end(&q_left) {
        r.push((Direction::Left, AVOID_DEAD_END));
    }
    proof {
        assert(ds3.drop_last() =~= ds2);
        assert(r@ =~= deterrence_from(*ctx, **map, me.spec_position(), ds3));
    }
    let q_right = my_pos.adjacent(m, &Direction::Right);
    if m.is_walkable_at(&q_right) && (&*ctx.map_information).is_dead_end(&q_right) {
        r.push((Direction::Right, AVOID_DEAD_END));
    }
    proof {
        assert(all_directions().drop_last() =~= ds3);
        assert(r@ =~= deterrence_from(*ctx, **map, me.spec_position(), all_directions()));
    }
    r
}

/// Exec mirror of [`collision_entries`].
#[verifier::rlimit(100)]
fn collision_vec(
    ctx: &BotContext,
    map: &Rc<GameMap>,
    me: &Player,
    enemies: &Vec<Player>,
) -> (r: WeightEntries)
    requires
        (**map).wf(),
        in_bounds(me.spec_position(), (**map).spec_width(), (**map).spec_height()),
        ctx.path_graph.parents_linked(),
    ensures
        r@ == collision_entries(*ctx, **map, me.spec_position(), enemies@),
        entries_bounded(r@, enemies@.len() as int),
{
    let my_pos = me.position();
    let mut r: WeightEntries = Vec::new();
    let can_eat = ctx.remaining_ticks_dangerous > 0;
    let mut j: usize = 0;
    while j < enemies.len()
        invariant
            (**map).wf(),
            in_bounds(me.spec_position(), (**map).spec_width(), (**map).spec_height()),
            ctx.path_graph.parents_linked(),
            my_pos == me.spec_position(),
            can_eat == ctx.can_eat_spec(),
            0 <= j <= enemies@.len(),
            r@ == collision_entries(*ctx, **map, me.spec_position(), enemies@.take(j as int)),
            entries_bounded(r@, j as int),
        decreases enemies@.len() - j,
    {
        proof {
            assert(enemies@.take(j + 1).drop_last() =~= enemies@.take(j as int));
            assert(enemies@.take(j + 1).last() == enemies@[j as int]);
        }
        let e = &enemies[j];
        let eatable = can_eat && !e.is_dangerous;
        let ghost r0 = r@;
        if !eatable {
            let pos = e.position();
            match ctx.path_graph.cost_to(&pos) {
                Some(c) => {
                    if c <= 3 {
                        if let Some(path) = ctx.path_graph.path_to(&pos) {
                            proof {
                                crate::pathfinder::lemma_path_to_first_step(
                                    ctx.path_graph,
                                    pos,
                                    path@,
                                );
                            }
                            let first_step = path[path.len() - 1];
                            if let Some(d) = direction_of_step(&**map, &my_pos, &first_step) {
                                proof {
                                    assert(enemies@[j as int].spec_position() == pos);
                                }
                                r.push((d, AVOID_COLLIDING));
                                proof {
                                    assert(r@ =~= r0 + seq![(d, AVOID_COLLIDING)]);
                                }
                            }
                        }
                    }
                },
                None => {},
            }
        }
        proof {
            assert(r@ =~= collision_entries(
                *ctx,
                **map,
                me.spec_position(),
                enemies@.take(j + 1),
            ));
        }
        j += 1;
    }
    proof {
        assert(enemies@.take(enemies@.len() as int) =~= enemies@);
    }
    r
}

impl Strategy for Avoidance {
    fn description(&self) -> StrategyType {
        StrategyType::Avoidance
    }

    fn action(
        &mut self,
        ctx: &BotContext,
        map: &Rc<GameMap>,
        me: &Player,
        enemies: &Vec<Player>,
    ) -> WeightEntries {
        self.weights(ctx, map, me, enemies)
    }
}

/// A pursuit candidate: a non-dangerous opponent the distance field
/// reaches in fewer moves than the ability has ticks left.
pub open spec fn pursuit_candidate(ctx: BotContext, e: Player) -> bool {
    !e.is_dangerous && (ctx.path_graph.spec_node(e.spec_position()) matches Some(i) && i.cost
        < ctx.remaining_ticks_dangerous)
}

/// The closest pursuit candidate by stored cost, the earliest in list
/// order winning ties: its cost and tile.
pub open spec fn pursuit_target(ctx: BotContext, es: Seq<Player>) -> Option<(usize, Position)>
    decreases es.len(),
{
    if es.len() == 0 {
        None
    } else {
        let rest = pursuit_target(ctx, es.drop_last());
        let e = es.last();
        if pursuit_candidate(ctx, e) {
            let c = ctx.path_graph.spec_node(e.spec_position())->Some_0.cost;
            match rest {
                None => Some((c, e.spec_position())),
                Some(b) => if c < b.0 {
                    Some((c, e.spec_position()))
                } else {
                    rest
                },
            }
        } else {
            rest
        }
    }
}

/// The single pursuit entry: weight `wt` toward the first move of the
/// stored walk to the chosen opponent; empty without a candidate.
pub open spec fn pursuit_entries(
    ctx: BotContext,
    m: GameMap,
    me: Position,
    es: Seq<Player>,
    wt: i32,
) -> Seq<(Direction, i32)> {
    match pursuit_target(ctx, es) {
        None => Seq::empty(),
        Some(b) => match dir_toward(
            m.spec_width(),
            m.spec_height(),
            me,
            first_step_toward(ctx.path_graph, b.1),
        ) {
            Some(d) => seq![(d, wt)],
            None => Seq::empty(),
        },
    }
}

/// Offense while empowered: close in on the nearest opponent that can be
/// eaten before the ability runs out.
pub struct Hunter {}

impl Hunter {
    pub fn new() -> (r: Hunter) {
        Hunter {  }
    }

    /// The hunting contribution, pinned exactly: while empowered, the
    /// hunting weight toward the first move of the stored shortest walk to
    /// the closest opponent that can be eaten before the ability runs out;
    /// empty otherwise, or when nobody qualifies.
    pub fn weights(
        &self,
        ctx: &BotContext,
        map: &Rc<GameMap>,
        me: &Player,
        enemies: &Vec<Player>,
    ) -> (r: WeightEntries)
        requires
            ctx.wf_for(**map, me.spec_position()),
        ensures
            entries_bounded(r@, 1),
            r@ == if ctx.can_eat_spec() {
                pursuit_entries(*ctx, **map, me.spec_position(), enemies@, HUNT)
            } else {
                Seq::<(Direction, i32)>::empty()
            },
    {
        let mut r: WeightEntries = Vec::new();
        if ctx.remaining_ticks_dangerous == 0 {
            return r;
        }
        proof {
            ctx.path_graph.lemma_valid_parents_linked(&**map, me.spec_position());
        }
        let my_pos = me.position();
        let best = closest_pursuit_candidate(ctx, enemies);
        if let Some((_, target)) = best {
            if let Some(path) = ctx.path_graph.path_to(&target) {
                proof {
                    crate::pathfinder::lemma_path_to_first_step(ctx.path_graph, target, path@);
                }
                let first_step = path[path.len() - 1];
                if let Some(d) = direction_of_step(&**map, &my_pos, &first_step) {
                    r.push((d, HUNT));
                    proof {
                        assert(r@ =~= pursuit_entries(
                            *ctx,
                            **map,
                            me.spec_position(),
                            enemies@,
                            HUNT,
                        ));
                    }
                }
            }
        }
        r
    }
}

/// The closest pursuit candidate, exactly as [`pursuit_target`] picks it.
fn closest_pursuit_candidate(ctx: &BotContext, enemies: &Vec<Player>) -> (r: Option<
    (usize, Position),
>)
    ensures
        r == pursuit_target(*ctx, enemies@),
        (r matches Some(b) ==> ctx.path_graph.spec_node(b.1) matches Some(i) && i.cost == b.0),
{
    let mut best: Option<(usize, Position)> = None;
    let mut j: usize = 0;
    while j < enemies.len()
        invariant
            0 <= j <= enemies@.len(),
            best == pursuit_target(*ctx, enemies@.take(j as int)),
            (best matches Some(b) ==> ctx.path_graph.spec_node(b.1) matches Some(i) && i.cost
                == b.0),
        decreases enemies@.len() - j,
    {
        proof {
            assert(enemies@.take(j + 1).drop_last() =~= enemies@.take(j as int));
            assert(enemies@.take(j + 1).last() == enemies@[j as int]);
        }
        let e = &enemies[j];
        if !e.is_dangerous {
            let pos = e.position();
            if let Some(c) = ctx.path_graph.cost_to(&pos) {
                if c < ctx.remaining_ticks_dangerous as usize {
                    let better = match &best {
                        None => true,
                        Some(b) => c < b.0,
                    };
                    if better {
                        proof {
                            assert(enemies@[j as int].spec_position() == pos);
                        }
                        best = Some((c, pos));
                    }
                }
            }
        }
        j += 1;
    }
    proof {
        assert(enemies@.take(enemies@.len() as int) =~= enemies@);
    }
    best
}

impl Strategy for Hunter {
    fn description(&self) -> StrategyType {
        StrategyType::Hunter
    }

    fn action(
        &mut self,
        ctx: &BotContext,
        map: &Rc<GameMap>,
        me: &Player,
        enemies: &Vec<Player>,
    ) -> WeightEntries {
        self.weights(ctx, map, me, enemies)
    }
}

/// Relies on `itertools::Itertools::sorted_by`: returns the same elements,
/// sorted ascending by the comparison handed to it (here the first
/// component of each pair).
#[verifier::external_body]
fn sorted_by_cost(v: Vec<(usize, Position)>) -> (r: Vec<(usize, Position)>)
    ensures
        r@.len() == v@.len(),
        r@.to_multiset() == v@.to_multiset(),
        forall|i: int, j: int| 0 <= i <= j < r@.len() ==> r@[i].0 <= r@[j].0,
{
    itertools::Itertools::sorted_by(
        v.into_iter(),
        |a: &(usize, Position), b: &(usize, Position)| a.0.cmp(&b.0),
    ).collect()
}

/// No opponent on the grid can reach `p` within `c` moves.
pub open spec fn pellet_uncontested(
    m: GameMap,
    info: MapInformation,
    enemies: Seq<Player>,
    p: Position,
    c: usize,
) -> bool {
    forall|j: int, k: nat|
        0 <= j < enemies.len() && enemy_considered(m, info, #[trigger] enemies[j], false)
            && #[trigger] dist_is(m, enemies[j].spec_position(), p, k) ==> k > c
}

/// A super pellet worth racing for: the agent's stored walk to it is
/// strictly shorter than every opponent's walking distance to it.
pub open spec fn race_worthy(
    ctx: BotContext,
    m: GameMap,
    enemies: Seq<Player>,
    p: Position,
) -> bool {
    &&& m.super_pellet_at(p)
    &&& ctx.path_graph.spec_node(p) matches Some(i) && pellet_uncontested(
        m,
        *ctx.map_information,
        enemies,
        p,
        i.cost,
    )
}

/// The killer races for a super pellet instead of closing in: it is not
/// empowered, or no opponent can be eaten in time.
pub open spec fn killer_races(ctx: BotContext, enemies: Seq<Player>) -> bool {
    !ctx.can_eat_spec() || pursuit_target(ctx, enemies) is None
}

/// What the killer contribution is. Closing in is pinned exactly, like the
/// hunter but with the kill weight; the race is forced: whenever some super
/// pellet is worth racing for, exactly one entry appears, toward the first
/// move of the stored walk to a race-worthy pellet of minimal stored cost,
/// and with nothing worth racing for, none does.
pub open spec fn killer_post(
    ctx: BotContext,
    m: GameMap,
    me: Position,
    es: Seq<Player>,
    w: Seq<(Direction, i32)>,
) -> bool {
    &&& entries_bounded(w, 1)
    &&& (!killer_races(ctx, es) ==> w == pursuit_entries(ctx, m, me, es, KILL_PLAYER))
    &&& (killer_races(ctx, es) && (exists|p: Position| #[trigger] race_worthy(ctx, m, es, p))
        ==> w.len() == 1)
    &&& (killer_races(ctx, es) && w.len() == 1 ==> exists|p: Position|
        {
            &&& #[trigger] race_worthy(ctx, m, es, p)
            &&& forall|q: Position|
                #[trigger] race_worthy(ctx, m, es, q) ==> ctx.path_graph.spec_node(q)->Some_0.cost
                    >= ctx.path_graph.spec_node(p)->Some_0.cost
            &&& dir_toward(
                m.spec_width(),
                m.spec_height(),
                me,
                first_step_toward(ctx.path_graph, p),
            ) == Some(w[0].0)
            &&& w[0].1 == KILL_SPELLET
        })
    &&& (killer_races(ctx, es) && (forall|p: Position| !#[trigger] race_worthy(ctx, m, es, p))
        ==> w.len() == 0)
}

/// What the foraging contribution is, up to its cached-target rules: at
/// most one entry with the pellet weight, keeping straight onto a safe
/// pellet, else turning to the first safely takeable pellet next door.
pub open spec fn pick_post(
    ctx: BotContext,
    m: GameMap,
    me: Position,
    es: Seq<Player>,
    w: Seq<(Direction, i32)>,
) -> bool {
    &&& entries_bounded(w, 1)
    &&& (forall|i: int| 0 <= i < w.len() ==> (#[trigger] w[i]).1 == PELLET)
    &&& (keep_straight(ctx, m, me, es) ==> w == seq![(ctx.previous_direction, PELLET)])
    &&& (!keep_straight(ctx, m, me, es) ==> (adjacent_pellet_dir(ctx, m, me, es) matches Some(d)
        ==> w == seq![(d, PELLET)]))
}

/// Offense around super pellets: while not empowered (or with nobody in
/// reach), race for the closest super pellet no opponent can beat the agent
/// to; while empowered with someone in reach, close in on them.
pub struct Killer {}

impl Killer {
    pub fn new() -> (r: Killer) {
        Killer {  }
    }

    /// The killer contribution. Closing in is pinned exactly, like the
    /// hunter but with the kill weight. The race is forced: whenever some
    /// super pellet is worth racing for, exactly one entry appears, toward
    /// the first move of the stored walk to a race-worthy pellet of
    /// minimal stored cost; with nothing worth racing for, none does.
    #[verifier::rlimit(100)]
    pub fn weights(
        &self,
        ctx: &BotContext,
        map: &Rc<GameMap>,
        me: &Player,
        enemies: &Vec<Player>,
    ) -> (r: WeightEntries)
        requires
            ctx.wf_for(**map, me.spec_position()),
        ensures
            entries_bounded(r@, 1),
            killer_post(*ctx, **map, me.spec_position(), enemies@, r@),
    {
        let mut r: WeightEntries = Vec::new();
        proof {
            ctx.path_graph.lemma_valid_parents_linked(&**map, me.spec_position());
        }
        let my_pos = me.position();

        // While empowered with someone in reach, close in on them.
        if ctx.remaining_ticks_dangerous > 0 {
            let best_enemy = closest_pursuit_candidate(ctx, enemies);
            if let Some((_, target)) = best_enemy {
                if let Some(path) = ctx.path_graph.path_to(&target) {
                    proof {
                        crate::pathfinder::lemma_path_to_first_step(ctx.path_graph, target, path@);
                    }
                    let first_step = path[path.len() - 1];
                    if let Some(d) = direction_of_step(&**map, &my_pos, &first_step) {
                        r.push((d, KILL_PLAYER));
                    }
                }
                proof {
                    assert(r@ =~= pursuit_entries(
                        *ctx,
                        **map,
                        me.spec_position(),
                        enemies@,
                        KILL_PLAYER,
                    ));
                }
                return r;
            }
        }

        // Race: pair every reachable super pellet with its stored cost.
        let supers = (&**map).super_pellets();
        let mut pairs: Vec<(usize, Position)> = Vec::new();
        let mut k: usize = 0;
        while k < supers.len()
            invariant
                ctx.wf_for(**map, me.spec_position()),
                0 <= k <= supers@.len(),
                forall|i: int|
                    0 <= i < supers@.len() ==> (**map).super_pellet_at(#[trigger] supers@[i]),
                forall|p: Position| #[trigger] supers@.contains(p) <==> (**map).super_pellet_at(p),
                forall|i: int|
                    0 <= i < pairs@.len() ==> ((**map).super_pellet_at((#[trigger] pairs@[i]).1)
                        && (ctx.path_graph.spec_node(pairs@[i].1) matches Some(n) && n.cost
                        == pairs@[i].0)),
                forall|p: Position|
                    (supers@.take(k as int).contains(p) && ctx.path_graph.spec_node(p) is Some)
                        ==> #[trigger] pairs@.contains(
                        (ctx.path_graph.spec_node(p)->Some_0.cost, p),
                    ),
            decreases supers@.len() - k,
        {
            proof {
                assert(supers@.take(k + 1).drop_last() =~= supers@.take(k as int));
                assert(supers@.take(k + 1).last() == supers@[k as int]);
            }
            let pos = supers[k];
            if let Some(c) = ctx.path_graph.cost_to(&pos) {
                pairs.push((c, pos));
            }
            k += 1;
        }
        proof {
            assert(supers@.take(supers@.len() as int) =~= supers@);
        }

        // Scan ascending by cost: the first pellet the agent wins the race
        // to is a cheapest race-worthy one.
        let sorted = sorted_by_cost(pairs);
        let ghost gpairs = pairs@;
        proof {
            assert forall|p: Position|
                (#[trigger] race_worthy(*ctx, **map, enemies@, p)) implies exists|i: int|
                0 <= i < sorted@.len() && (#[trigger] sorted@[i]).1 == p by {
                assert(supers@.contains(p));
                let c = ctx.path_graph.spec_node(p)->Some_0.cost;
                assert(gpairs.contains((c, p)));
                vstd::seq_lib::to_multiset_contains(gpairs, (c, p));
                vstd::seq_lib::to_multiset_contains(sorted@, (c, p));
                assert(sorted@.contains((c, p)));
                let i = choose|i: int| 0 <= i < sorted@.len() && sorted@[i] == (c, p);
                assert(sorted@[i].1 == p);
            }
            assert forall|i: int|
                0 <= i < sorted@.len() implies ((**map).super_pellet_at((#[trigger] sorted@[i]).1)
                && (ctx.path_graph.spec_node(sorted@[i].1) matches Some(n) && n.cost
                == sorted@[i].0)) by {
                let x = sorted@[i];
                assert(sorted@.contains(x));
                vstd::seq_lib::to_multiset_contains(sorted@, x);
                vstd::seq_lib::to_multiset_contains(gpairs, x);
                assert(gpairs.contains(x));
                let jj = choose|jj: int| 0 <= jj < gpairs.len() && gpairs[jj] == x;
                assert((**map).super_pellet_at(gpairs[jj].1));
            }
        }
        let mut k: usize = 0;
        while k < sorted.len()
            invariant
                ctx.wf_for(**map, me.spec_position()),
                ctx.path_graph.parents_linked(),
                my_pos == me.spec_position(),
                killer_races(*ctx, enemies@),
                0 <= k <= sorted@.len(),
                r@.len() == 0,
                forall|i: int|
                    0 <= i < sorted@.len() ==> ((**map).super_pellet_at((#[trigger] sorted@[i]).1)
                        && (ctx.path_graph.spec_node(sorted@[i].1) matches Some(n) && n.cost
                        == sorted@[i].0)),
                forall|i: int, jj: int|
                    0 <= i <= jj < sorted@.len() ==> (#[trigger] sorted@[i]).0
                        <= (#[trigger] sorted@[jj]).0,
                forall|p: Position|
                    (#[trigger] race_worthy(*ctx, **map, enemies@, p)) ==> exists|i: int|
                        0 <= i < sorted@.len() && (#[trigger] sorted@[i]).1 == p,
                forall|i: int|
                    0 <= i < k ==> !race_worthy(*ctx, **map, enemies@, (#[trigger] sorted@[i]).1),
            decreases sorted@.len() - k,
        {
            let (c, pos) = sorted[k];
            let wins = match min_enemy_distance_to(ctx, map, enemies, &pos, false) {
                Some(d) => c < d,
                None => true,
            };
            if wins {
                proof {
                    assert(race_worthy(*ctx, **map, enemies@, pos));
                }
                if let Some(path) = ctx.path_graph.path_to(&pos) {
                    proof {
                        crate::pathfinder::lemma_path_to_first_step(ctx.path_graph, pos, path@);
                        crate::pathfinder::lemma_first_step_adjacent(
                            ctx.path_graph,
                            &**map,
                            me.spec_position(),
                            pos,
                        );
                    }
                    let first_step = path[path.len() - 1];
                    if let Some(d) = direction_of_step(&**map, &my_pos, &first_step) {
                        r.push((d, KILL_SPELLET));
                        proof {
                            assert forall|q: Position|
                                #[trigger] race_worthy(*ctx, **map, enemies@, q)
                                implies ctx.path_graph.spec_node(q)->Some_0.cost
                                >= ctx.path_graph.spec_node(pos)->Some_0.cost by {
                                let i = choose|i: int|
                                    0 <= i < sorted@.len() && (#[trigger] sorted@[i]).1 == q;
                                assert(k as int <= i);
                                assert(sorted@[k as int].0 <= sorted@[i].0);
                            }
                        }
                        return r;
                    }
                }
                return r;
            } else {
                proof {
                    assert(!race_worthy(*ctx, **map, enemies@, pos));
                }
            }
            k += 1;
        }
        proof {
            assert forall|p: Position|
                !#[trigger] race_worthy(*ctx, **map, enemies@, p) by {
                if race_worthy(*ctx, **map, enemies@, p) {
                    let i = choose|i: int|
                        0 <= i < sorted@.len() && (#[trigger] sorted@[i]).1 == p;
                }
            }
        }
        r
    }
}

impl Strategy for Killer {
    fn description(&self) -> StrategyType {
        StrategyType::Killer
    }

    fn action(
        &mut self,
        ctx: &BotContext,
        map: &Rc<GameMap>,
        me: &Player,
        enemies: &Vec<Player>,
    ) -> WeightEntries {
        self.weights(ctx, map, me, enemies)
    }
}

/// The momentum rule of the foraging strategy: the tile straight ahead in
/// the previous direction holds a pellet, and is not a dead-end tile with a
/// live opponent close by.
pub open spec fn keep_straight(
    ctx: BotContext,
    m: GameMap,
    me: Position,
    enemies: Seq<Player>,
) -> bool {
    let cont = step(me, m.spec_width(), m.spec_height(), ctx.previous_direction);
    m.pellet_at(cont) && !((*ctx.map_information).spec_dead_ends().contains(cont) && threat_nearby(
        ctx,
        enemies,
    ))
}

/// No tile of `path` is occupied by a listed opponent or lies in the
/// dead-end region.
fn path_is_clear(path: &Vec<Position>, enemies: &Vec<Position>, info: &Rc<MapInformation>) -> (r:
    bool)
    ensures
        r == (forall|i: int|
            0 <= i < path@.len() ==> (!enemies@.contains(#[trigger] path@[i])
                && !(**info).spec_dead_ends().contains(path@[i]))),
{
    let mut i: usize = 0;
    while i < path.len()
        invariant
            0 <= i <= path@.len(),
            forall|k: int|
                0 <= k < i ==> (!enemies@.contains(#[trigger] path@[k])
                    && !(**info).spec_dead_ends().contains(path@[k])),
        decreases path@.len() - i,
    {
        let t = path[i];
        if crate::game::contains_position(enemies, &t) {
            return false;
        }
        if (&**info).is_dead_end(&t) {
            return false;
        }
        i += 1;
    }
    true
}

/// Whether `p1 / l1 >= p2 / l2` as fractions, compared without division.
fn ratio_geq(p1: usize, l1: usize, p2: usize, l2: usize) -> (r: bool)
    ensures
        r == (p1 * l2 >= p2 * l1),
{
    proof {
        assert((p1 as int) * (l2 as int) < 0x1_0000_0000_0000_0000_0000_0000_0000_0000)
            by (nonlinear_arith)
            requires
                0 <= p1 < 0x1_0000_0000_0000_0000,
                0 <= l2 < 0x1_0000_0000_0000_0000,
        ;
        assert((p2 as int) * (l1 as int) < 0x1_0000_0000_0000_0000_0000_0000_0000_0000)
            by (nonlinear_arith)
            requires
                0 <= p2 < 0x1_0000_0000_0000_0000,
                0 <= l1 < 0x1_0000_0000_0000_0000,
        ;
    }
    (p1 as u128) * (l2 as u128) >= (p2 as u128) * (l1 as u128)
}

/// Exec mirror of [`adjacent_pellet_dir`].
fn adjacent_pellet_direction(
    ctx: &BotContext,
    map: &Rc<GameMap>,
    me: &Player,
    enemies: &Vec<Player>,
) -> (r: Option<Direction>)
    requires
        ctx.wf_for(**map, me.spec_position()),
    ensures
        r == adjacent_pellet_dir(*ctx, **map, me.spec_position(), enemies@),
{
    let m = &**map;
    let my_pos = me.position();
    let threat = is_enemy_nearby(ctx, enemies);
    let up = my_pos.adjacent(m, &Direction::Up);
    if m.is_pellet_at(&up) && !((&*ctx.map_information).is_dead_end(&up) && threat) {
        return Some(Direction::Up);
    }
    let down = my_pos.adjacent(m, &Direction::Down);
    if m.is_pellet_at(&down) && !((&*ctx.map_information).is_dead_end(&down) && threat) {
        return Some(Direction::Down);
    }
    let left = my_pos.adjacent(m, &Direction::Left);
    if m.is_pellet_at(&left) && !((&*ctx.map_information).is_dead_end(&left) && threat) {
        return Some(Direction::Left);
    }
    let right = my_pos.adjacent(m, &Direction::Right);
    if m.is_pellet_at(&right) && !((&*ctx.map_information).is_dead_end(&right) && threat) {
        return Some(Direction::Right);
    }
    None
}

/// Default foraging: keep momentum onto pellets, grab a pellet right next
/// door, and otherwise chase a cached target pellet along an enemy-avoiding
/// route, re-chosen at intersections or after another strategy took over.
pub struct PickPellets {
    pub target_pellet: Option<Position>,
}

impl PickPellets {
    pub fn new() -> (r: PickPellets)
        ensures
            r.target_pellet is None,
    {
        PickPellets { target_pellet: None }
    }

    /// The foraging contribution: at most one entry, always with the pellet
    /// weight. Its first two rules are pinned exactly: straight ahead onto
    /// a safe pellet keeps the previous direction and clears the cached
    /// target; failing that, the first safely takeable pellet next door is
    /// taken and the cache cleared too. The remaining rules walk toward a
    /// cached target pellet along routes the outside search returns, so
    /// only their shape is stated.
    #[verifier::rlimit(100)]
    pub fn weights(
        &mut self,
        ctx: &BotContext,
        map: &Rc<GameMap>,
        me: &Player,
        enemies: &Vec<Player>,
    ) -> (r: WeightEntries)
        requires
            ctx.wf_for(**map, me.spec_position()),
        ensures
            pick_post(*ctx, **map, me.spec_position(), enemies@, r@),
            keep_straight(*ctx, **map, me.spec_position(), enemies@)
                ==> final(self).target_pellet is None,
            !keep_straight(*ctx, **map, me.spec_position(), enemies@) ==> (adjacent_pellet_dir(
                *ctx,
                **map,
                me.spec_position(),
                enemies@,
            ) matches Some(d) ==> final(self).target_pellet is None),
    {
        let my_pos = me.position();
        let m = &**map;

        // Keep going straight while there are pellets there.
        let cont = my_pos.adjacent(m, &ctx.previous_direction);
        if m.is_pellet_at(&cont) {
            let threatened = (&*ctx.map_information).is_dead_end(&cont) && is_enemy_nearby(
                ctx,
                enemies,
            );
            if !threatened {
                self.target_pellet = None;
                let mut r: WeightEntries = Vec::new();
                r.push((ctx.previous_direction, PELLET));
                proof {
                    assert(r@ =~= seq![(ctx.previous_direction, PELLET)]);
                }
                return r;
            }
        }
        proof {
            assert(!keep_straight(*ctx, **map, me.spec_position(), enemies@));
        }

        // A pellet right next door is worth a turn: the first safe one in
        // the fixed direction order.
        if let Some(d) = adjacent_pellet_direction(ctx, map, me, enemies) {
            self.target_pellet = None;
            let mut r: WeightEntries = Vec::new();
            r.push((d, PELLET));
            proof {
                assert(r@ =~= seq![(d, PELLET)]);
            }
            return r;
        }

        // Re-evaluate the cached target after a takeover or an intersection.
        let same_strategy = match ctx.previous_strategy_type {
            Some(StrategyType::PickPellets) => true,
            _ => false,
        };
        if !same_strategy {
            self.target_pellet = None;
        }
        if (&*ctx.map_information).is_intersection(&my_pos) {
            self.target_pellet = None;
        }

        let mut enemy_positions: Vec<Position> = Vec::new();
        let mut j: usize = 0;
        while j < enemies.len()
            decreases enemies@.len() - j,
        {
            enemy_positions.push(enemies[j].position());
            j += 1;
        }

        // The intersection route that collects the most pellets per step,
        // never crossing an opponent or the dead-end region.
        proof {
            ctx.path_graph.lemma_valid_parents_linked(&**map, me.spec_position());
        }
        let inters = (&*ctx.map_information).intersections();
        let mut best: Option<(usize, usize, Vec<Position>)> = None;
        let mut k: usize = 0;
        while k < inters.len()
            invariant
                ctx.wf_for(**map, me.spec_position()),
                *m == **map,
                ctx.path_graph.parents_linked(),
                !keep_straight(*ctx, **map, me.spec_position(), enemies@),
                my_pos == me.spec_position(),
                (best matches Some(b) ==> b.2@.len() >= 1),
            decreases inters@.len() - k,
        {
            let q = inters[k];
            if let Some(path) = ctx.path_graph.path_to(&q) {
                if path_is_clear(&path, &enemy_positions, &ctx.map_information) {
                    let pts = m.points_in_path(&path);
                    let l = path.len();
                    let take = match &best {
                        None => true,
                        Some(b) => ratio_geq(pts, l, b.0, b.1),
                    };
                    if take {
                        best = Some((pts, l, path));
                    }
                }
            }
            k += 1;
        }
        if let Some((_, _, bpath)) = best {
            self.target_pellet = Some(bpath[0]);
        }

        // Fall back to the plain nearest pellet when the cache is stale.
        let target_ok = match &self.target_pellet {
            Some(t) => m.is_pellet_at(t),
            None => false,
        };
        if !target_ok {
            let origin_node = crate::pathfinder::node_for(map, &ctx.map_information, my_pos);
            match find_closest_pellet(&origin_node, &enemy_positions) {
                Some(p) => {
                    self.target_pellet = Some(p[0]);
                },
                None => {
                    self.target_pellet = None;
                },
            }
        }

        // Walk toward the target, avoiding opponents, one step per tick.
        let mut r: WeightEntries = Vec::new();
        let target = match &self.target_pellet {
            Some(t) => *t,
            None => {
                return r;
            },
        };
        if !(target.x < m.width() && target.y < m.height()) {
            return r;
        }
        let origin_node = crate::pathfinder::node_for(map, &ctx.map_information, my_pos);
        let target_node = crate::pathfinder::node_for(map, &ctx.map_information, target);
        if let Some(path) = get_shortest_no_enemies(&origin_node, &target_node, &enemy_positions) {
            let first_step = path[path.len() - 1];
            if let Some(d) = direction_of_step(m, &my_pos, &first_step) {
                r.push((d, PELLET));
            }
        }
        r
    }
}

impl Strategy for PickPellets {
    fn description(&self) -> StrategyType {
        StrategyType::PickPellets
    }

    fn action(
        &mut self,
        ctx: &BotContext,
        map: &Rc<GameMap>,
        me: &Player,
        enemies: &Vec<Player>,
    ) -> WeightEntries {
        self.weights(ctx, map, me, enemies)
    }
}

} // verus!
