use vstd::prelude::*;
use vstd::pervasive::VecAdditionalExecFns;

use std::rc::Rc;

use crate::common::{all_directions, in_bounds, step, Direction, Position};
use crate::game::{GameMap, MapInformation, TileType};
use crate::pathfinder::LocalPathGraph;
use crate::protocol::GameState;
use crate::strategies::{
    avoidance_post, entries_bounded, killer_post, pick_post, Avoidance, BotContext, Killer,
    PickPellets, StrategyType, WeightEntries, DEAD_END_PENALTY, WALL_PENALTY,
};
use crate::traits::{HasDimensions, HasPosition};

verus! {

/// How many ticks the super-pellet ability lasts once consumed.
pub const DANGEROUS_TICKS: u32 = 10;

/// The slot each direction occupies in the fixed-order weight table.
pub open spec fn dir_index(d: Direction) -> int {
    match d {
        Direction::Up => 0,
        Direction::Down => 1,
        Direction::Left => 2,
        Direction::Right => 3,
    }
}

/// The summed weight a contribution list assigns to one direction.
pub open spec fn sum_for(s: Seq<(Direction, i32)>, d: Direction) -> int
    decreases s.len(),
{
    if s.len() == 0 {
        0
    } else {
        sum_for(s.drop_last(), d) + if s.last().0 == d {
            s.last().1 as int
        } else {
            0int
        }
    }
}

proof fn lemma_sum_for_bound(s: Seq<(Direction, i32)>, d: Direction)
    requires
        forall|i: int| 0 <= i < s.len() ==> -100 <= (#[trigger] s[i]).1 <= 100,
    ensures
        -100 * s.len() <= sum_for(s, d) <= 100 * s.len(),
    decreases s.len(),
{
    if s.len() > 0 {
        assert(s[s.len() - 1] == s.last());
        assert forall|i: int| 0 <= i < s.drop_last().len() implies -100 <= (#[trigger] s.drop_last()[i]).1
            <= 100 by {
            assert(s.drop_last()[i] == s[i]);
        }
        lemma_sum_for_bound(s.drop_last(), d);
    }
}

/// The baseline weight of a direction before any strategy contributes: a
/// wall is heavily penalized, a dead-end tile moderately, anything else
/// starts at zero.
pub open spec fn baseline_weight(m: GameMap, info: MapInformation, me: Position, d: Direction) -> int {
    let q = step(me, m.spec_width(), m.spec_height(), d);
    if !m.walkable_at(q) {
        WALL_PENALTY as int
    } else if info.spec_dead_ends().contains(q) {
        DEAD_END_PENALTY as int
    } else {
        0
    }
}

/// The decision rule over the four totals, in slot order Up, Down, Left,
/// Right: the greatest total wins; ties go to the previous direction when
/// it is among the maxima, else to the first maximal slot.
pub open spec fn decide(t0: int, t1: int, t2: int, t3: int, prev: Direction) -> Direction {
    let a = if t0 >= t1 {
        t0
    } else {
        t1
    };
    let b = if t2 >= t3 {
        t2
    } else {
        t3
    };
    let mx = if a >= b {
        a
    } else {
        b
    };
    let tp = match prev {
        Direction::Up => t0,
        Direction::Down => t1,
        Direction::Left => t2,
        Direction::Right => t3,
    };
    if tp == mx {
        prev
    } else if t0 == mx {
        Direction::Up
    } else if t1 == mx {
        Direction::Down
    } else if t2 == mx {
        Direction::Left
    } else {
        Direction::Right
    }
}

/// The greatest total in the four-slot weight table.
pub open spec fn max_of(t: Seq<(Direction, i64)>) -> int
    recommends
        t.len() == 4,
{
    let a = if t[0].1 >= t[1].1 {
        t[0].1 as int
    } else {
        t[1].1 as int
    };
    let b = if t[2].1 >= t[3].1 {
        t[2].1 as int
    } else {
        t[3].1 as int
    };
    if a >= b {
        a
    } else {
        b
    }
}

/// The summed weight a contribution assigns to one direction.
pub fn sum_contribution(v: &WeightEntries, d: Direction) -> (s: i64)
    requires
        entries_bounded(v@, 100_000),
    ensures
        s == sum_for(v@, d),
{
    let mut s: i64 = 0;
    let mut k: usize = 0;
    while k < v.len()
        invariant
            entries_bounded(v@, 100_000),
            0 <= k <= v@.len(),
            s == sum_for(v@.take(k as int), d),
            -100 * k <= s <= 100 * k,
        decreases v@.len() - k,
    {
        proof {
            assert(v@.take(k + 1).drop_last() =~= v@.take(k as int));
            assert(v@.take(k + 1).last() == v@[k as int]);
        }
        let (ed, w) = v[k];
        if ed == d {
            s = s + w as i64;
        }
        k += 1;
    }
    proof {
        assert(v@.take(v@.len() as int) =~= v@);
    }
    s
}

/// Adds one strategy's sparse contribution into the four-slot totals:
/// entries for the same direction sum, directions without entries keep
/// their total.
pub fn fold_weights(totals: &mut Vec<(Direction, i64)>, contribution: &WeightEntries)
    requires
        old(totals)@.len() == 4,
        forall|i: int| 0 <= i < 4 ==> (#[trigger] old(totals)@[i]).0 == all_directions()[i],
        forall|i: int| 0 <= i < 4 ==> -1_000_000_000_000 <= (#[trigger] old(totals)@[i]).1
            <= 1_000_000_000_000,
        entries_bounded(contribution@, 100_000),
    ensures
        final(totals)@.len() == 4,
        forall|i: int| 0 <= i < 4 ==> (#[trigger] final(totals)@[i]).0 == all_directions()[i],
        forall|i: int| 0 <= i < 4 ==> (#[trigger] final(totals)@[i]).1 == old(totals)@[i].1
            + sum_for(contribution@, all_directions()[i]),
{
    let ghost t0 = totals@;
    let mut k: usize = 0;
    while k < contribution.len()
        invariant
            entries_bounded(contribution@, 100_000),
            0 <= k <= contribution@.len(),
            totals@.len() == 4,
            forall|i: int| 0 <= i < 4 ==> (#[trigger] totals@[i]).0 == all_directions()[i],
            forall|i: int| 0 <= i < 4 ==> -1_000_000_000_000 <= (#[trigger] t0[i]).1
                <= 1_000_000_000_000,
            forall|i: int| 0 <= i < 4 ==> (#[trigger] totals@[i]).1 == t0[i].1 + sum_for(
                contribution@.take(k as int),
                all_directions()[i],
            ),
            forall|i: int| 0 <= i < 4 ==> t0[i].1 - 100 * k <= (#[trigger] totals@[i]).1 <= t0[i].1
                + 100 * k,
        decreases contribution@.len() - k,
    {
        proof {
            assert forall|dd: Direction| #[trigger] sum_for(
                contribution@.take(k + 1),
                dd,
            ) == sum_for(contribution@.take(k as int), dd) + (if contribution@[k as int].0 == dd {
                contribution@[k as int].1 as int
            } else {
                0int
            }) by {
                assert(contribution@.take(k + 1).drop_last() =~= contribution@.take(k as int));
                assert(contribution@.take(k + 1).last() == contribution@[k as int]);
            }
        }
        let (ed, w) = contribution[k];
        let idx: usize = match ed {
            Direction::Up => 0,
            Direction::Down => 1,
            Direction::Left => 2,
            Direction::Right => 3,
        };
        proof {
            assert(all_directions()[idx as int] == ed);
            assert forall|i: int| 0 <= i < 4 && i != idx implies all_directions()[i] != ed by {}
        }
        let cur = totals[idx].1;
        totals.set(idx, (ed, cur + w as i64));
        k += 1;
    }
    proof {
        assert(contribution@.take(contribution@.len() as int) =~= contribution@);
    }
}

/// Picks the direction with the greatest total. Ties break deterministically:
/// the previous direction wins when it is among the maxima, otherwise the
/// first maximal direction in the fixed order Up, Down, Left, Right.
pub fn select_direction(totals: &Vec<(Direction, i64)>, previous: Direction) -> (d: Direction)
    requires
        totals@.len() == 4,
        forall|i: int| 0 <= i < 4 ==> (#[trigger] totals@[i]).0 == all_directions()[i],
    ensures
        d == decide(
            totals@[0].1 as int,
            totals@[1].1 as int,
            totals@[2].1 as int,
            totals@[3].1 as int,
            previous,
        ),
        totals@[dir_index(d)].1 == max_of(totals@),
        totals@[dir_index(previous)].1 == max_of(totals@) ==> d == previous,
        totals@[dir_index(previous)].1 != max_of(totals@) ==> forall|j: int|
            0 <= j < dir_index(d) ==> (#[trigger] totals@[j]).1 < max_of(totals@),
{
    let m01 = if totals[0].1 >= totals[1].1 {
        totals[0].1
    } else {
        totals[1].1
    };
    let m23 = if totals[2].1 >= totals[3].1 {
        totals[2].1
    } else {
        totals[3].1
    };
    let m = if m01 >= m23 {
        m01
    } else {
        m23
    };
    let pidx: usize = match previous {
        Direction::Up => 0,
        Direction::Down => 1,
        Direction::Left => 2,
        Direction::Right => 3,
    };
    proof {
        assert(dir_index(previous) == pidx as int);
    }
    if totals[pidx].1 == m {
        return previous;
    }
    if totals[0].1 == m {
        return Direction::Up;
    }
    if totals[1].1 == m {
        return Direction::Down;
    }
    if totals[2].1 == m {
        return Direction::Left;
    }
    Direction::Right
}

/// The context the strategies see inside one tick: the distance field
/// freshly rebuilt, the tick counted, and the dangerous countdown reloaded
/// when the previous move stepped onto a super pellet; the rest of the
/// memory still as the previous tick left it.
pub open spec fn mid_context(before: BotContext, graph: LocalPathGraph) -> BotContext {
    BotContext {
        map_information: before.map_information,
        path_graph: graph,
        previous_direction: before.previous_direction,
        previous_strategy_type: before.previous_strategy_type,
        expected_tile_type: before.expected_tile_type,
        tick: (before.tick + 1) as u32,
        remaining_ticks_dangerous: if before.expected_tile_type == TileType::SuperPellet {
            (DANGEROUS_TICKS + 1) as u32
        } else {
            before.remaining_ticks_dangerous
        },
    }
}

/// The decision core: static topology, the per-tick distance field, the
/// combiner's memory, and the three strategies it folds each tick.
pub struct Bot {
    pub context: BotContext,
    pub avoidance: Avoidance,
    pub killer: Killer,
    pub pick_pellets: PickPellets,
}

impl Bot {
    /// Builds the bot from the first snapshot: derives the topology once
    /// and starts with empty memory.
    pub fn from_game_state(state: &GameState) -> (bot: Bot)
        requires
            state.map.wf(),
        ensures
            (*bot.context.map_information).wf_for(state.map),
            bot.context.previous_direction == Direction::Down,
            bot.context.previous_strategy_type is None,
            bot.context.expected_tile_type == TileType::Floor,
            bot.context.tick == 0,
            bot.context.remaining_ticks_dangerous == 0,
            bot.pick_pellets.target_pellet is None,
    {
        Bot {
            context: BotContext {
                map_information: Rc::new(MapInformation::from_map(&state.map)),
                path_graph: LocalPathGraph::new(&state.map),
                previous_direction: Direction::Down,
                previous_strategy_type: None,
                expected_tile_type: TileType::Floor,
                tick: 0,
                remaining_ticks_dangerous: 0,
            },
            avoidance: Avoidance::new(),
            killer: Killer::new(),
            pick_pellets: PickPellets::new(),
        }
    }

    /// Clears the cross-tick memory at round start; the topology stays,
    /// since the map does not change within a round.
    pub fn reset(&mut self)
        ensures
            final(self).context.previous_direction == Direction::Down,
            final(self).context.previous_strategy_type is None,
            final(self).context.expected_tile_type == TileType::Floor,
            final(self).context.tick == 0,
            final(self).context.remaining_ticks_dangerous == 0,
            final(self).pick_pellets.target_pellet is None,
            final(self).context.map_information == old(self).context.map_information,
            final(self).context.path_graph == old(self).context.path_graph,
    {
        self.context.previous_direction = Direction::Down;
        self.context.previous_strategy_type = None;
        self.context.expected_tile_type = TileType::Floor;
        self.context.tick = 0;
        self.context.remaining_ticks_dangerous = 0;
        self.pick_pellets.target_pellet = None;
    }

    /// The agent can currently eliminate non-dangerous opponents.
    pub fn can_eat_others(&self) -> (r: bool)
        ensures
            r == self.context.can_eat_spec(),
    {
        self.context.remaining_ticks_dangerous > 0
    }

    /// The baseline weight of each direction, in the fixed order: the wall
    /// penalty where the step hits a wall, the dead-end penalty where it
    /// enters the dead-end region, zero otherwise.
    pub fn directions_with_default_weights(
        &self,
        map: &GameMap,
        map_information: &MapInformation,
        my_pos: &Position,
    ) -> (r: Vec<(Direction, i32)>)
        requires
            map.wf(),
            in_bounds(*my_pos, map.spec_width(), map.spec_height()),
        ensures
            r@.len() == 4,
            forall|i: int| 0 <= i < 4 ==> (#[trigger] r@[i]).0 == all_directions()[i],
            forall|i: int| 0 <= i < 4 ==> (#[trigger] r@[i]).1 as int == baseline_weight(
                *map,
                *map_information,
                *my_pos,
                all_directions()[i],
            ),
    {
        let dirs = Direction::hash_set_all();
        let mut r: Vec<(Direction, i32)> = Vec::new();
        let mut di: usize = 0;
        while di < dirs.len()
            invariant
                map.wf(),
                in_bounds(*my_pos, map.spec_width(), map.spec_height()),
                dirs@ == all_directions(),
                0 <= di <= 4,
                r@.len() == di,
                forall|i: int| 0 <= i < di ==> (#[trigger] r@[i]).0 == all_directions()[i],
                forall|i: int| 0 <= i < di ==> (#[trigger] r@[i]).1 as int == baseline_weight(
                    *map,
                    *map_information,
                    *my_pos,
                    all_directions()[i],
                ),
            decreases 4 - di,
        {
            let d = dirs[di];
            let q = my_pos.adjacent(map, &d);
            let w: i32 = if !map.is_walkable_at(&q) {
                WALL_PENALTY
            } else if crate::game::contains_position(&map_information.dead_ends, &q) {
                DEAD_END_PENALTY
            } else {
                0
            };
            r.push((d, w));
            di += 1;
        }
        r
    }

    /// One tick: rebuild the distance field from the agent's tile, account
    /// for a super pellet just consumed, fold the baseline and all strategy
    /// contributions, pick the best direction by the deterministic
    /// tie-break, and update the memory for the next tick.
    /// One tick of the decision core. The opponent bound keeps the weight
    /// arithmetic inside the fold's entry budget: each contribution stays
    /// within one hundred per entry and five entries beyond one per
    /// opponent.
    pub fn determine_action(&mut self, state: GameState) -> (d: Direction)
        requires
            state.map.wf(),
            (*old(self).context.map_information).wf_for(state.map),
            in_bounds(
                state.me.spec_position(),
                state.map.spec_width(),
                state.map.spec_height(),
            ),
            state.enemies@.len() <= 99_995,
            old(self).context.tick < u32::MAX,
        ensures
            final(self).context.tick == old(self).context.tick + 1,
            final(self).context.previous_direction == d,
            final(self).context.remaining_ticks_dangerous == (
            if old(self).context.expected_tile_type == TileType::SuperPellet {
                DANGEROUS_TICKS as u32
            } else if old(self).context.remaining_ticks_dangerous > 0 {
                (old(self).context.remaining_ticks_dangerous - 1) as u32
            } else {
                0u32
            }),
            final(self).context.expected_tile_type == state.map.spec_tile_at(
                step(
                    state.me.spec_position(),
                    state.map.spec_width(),
                    state.map.spec_height(),
                    d,
                ),
            ),
            final(self).context.map_information == old(self).context.map_information,
            final(self).context.path_graph.valid_for(state.map, state.me.spec_position()),
            ({
                let mid = mid_context(old(self).context, final(self).context.path_graph);
                exists|wa: Seq<(Direction, i32)>, wo: Seq<(Direction, i32)>, wp: Seq<
                    (Direction, i32),
                >|
                    #![trigger wa.len(), wo.len(), wp.len()]
                    {
                        &&& avoidance_post(
                            mid,
                            state.map,
                            state.me.spec_position(),
                            state.enemies@,
                            wa,
                        )
                        &&& entries_bounded(wa, 5 + state.enemies@.len() as int)
                        &&& killer_post(mid, state.map, state.me.spec_position(), state.enemies@, wo)
                        &&& pick_post(mid, state.map, state.me.spec_position(), state.enemies@, wp)
                        &&& d == decide(
                            baseline_weight(
                                state.map,
                                *old(self).context.map_information,
                                state.me.spec_position(),
                                Direction::Up,
                            ) + sum_for(wa, Direction::Up) + sum_for(wo, Direction::Up) + sum_for(
                                wp,
                                Direction::Up,
                            ),
                            baseline_weight(
                                state.map,
                                *old(self).context.map_information,
                                state.me.spec_position(),
                                Direction::Down,
                            ) + sum_for(wa, Direction::Down) + sum_for(wo, Direction::Down)
                                + sum_for(wp, Direction::Down),
                            baseline_weight(
                                state.map,
                                *old(self).context.map_information,
                                state.me.spec_position(),
                                Direction::Left,
                            ) + sum_for(wa, Direction::Left) + sum_for(wo, Direction::Left)
                                + sum_for(wp, Direction::Left),
                            baseline_weight(
                                state.map,
                                *old(self).context.map_information,
                                state.me.spec_position(),
                                Direction::Right,
                            ) + sum_for(wa, Direction::Right) + sum_for(wo, Direction::Right)
                                + sum_for(wp, Direction::Right),
                            old(self).context.previous_direction,
                        )
                    }
            }),
    {
        let me = state.me;
        let enemies = state.enemies;
        let map_rc = Rc::new(state.map);
        let my_pos = me.position();

        self.context.tick = self.context.tick + 1;
        self.context.path_graph.update_from_map(&map_rc, &my_pos);
        if self.context.expected_tile_type == TileType::SuperPellet {
            self.context.remaining_ticks_dangerous = DANGEROUS_TICKS + 1;
        }
        let ghost midctx = self.context;

        let baseline = self.directions_with_default_weights(
            &map_rc,
            &self.context.map_information,
            &my_pos,
        );
        let mut totals: Vec<(Direction, i64)> = Vec::new();
        let mut bi: usize = 0;
        while bi < baseline.len()
            invariant
                baseline@.len() == 4,
                forall|i: int| 0 <= i < 4 ==> (#[trigger] baseline@[i]).0 == all_directions()[i],
                0 <= bi <= 4,
                totals@.len() == bi,
                forall|i: int| 0 <= i < bi ==> (#[trigger] totals@[i]).0 == all_directions()[i],
                forall|i: int| 0 <= i < 4 ==> -100 <= (#[trigger] baseline@[i]).1 <= 100,
                forall|i: int| 0 <= i < bi ==> -100 <= (#[trigger] totals@[i]).1 <= 100,
                forall|i: int| 0 <= i < bi ==> (#[trigger] totals@[i]).1 == baseline@[i].1 as int,
            decreases 4 - bi,
        {
            let (bd, bw) = baseline[bi];
            totals.push((bd, bw as i64));
            bi += 1;
        }

        let w_avoid = self.avoidance.weights(&self.context, &map_rc, &me, &enemies);
        let w_offense = self.killer.weights(&self.context, &map_rc, &me, &enemies);
        let w_pick = self.pick_pellets.weights(&self.context, &map_rc, &me, &enemies);
        fold_weights(&mut totals, &w_avoid);
        proof {
            assert forall|i: int| 0 <= i < 4 implies -1_000_000_000_000 <= (
            #[trigger] totals@[i]).1 <= 1_000_000_000_000 by {
                lemma_sum_for_bound(w_avoid@, all_directions()[i]);
            }
        }
        fold_weights(&mut totals, &w_offense);
        proof {
            assert forall|i: int| 0 <= i < 4 implies -1_000_000_000_000 <= (
            #[trigger] totals@[i]).1 <= 1_000_000_000_000 by {
                lemma_sum_for_bound(w_avoid@, all_directions()[i]);
                lemma_sum_for_bound(w_offense@, all_directions()[i]);
            }
        }
        fold_weights(&mut totals, &w_pick);

        let d = select_direction(&totals, self.context.previous_direction);
        proof {
            assert(midctx == mid_context(old(self).context, self.context.path_graph));
            assert(avoidance_post(midctx, state.map, state.me.spec_position(), state.enemies@, w_avoid@));
            assert(entries_bounded(w_avoid@, 5 + state.enemies@.len() as int));
            assert(killer_post(midctx, state.map, state.me.spec_position(), state.enemies@, w_offense@));
            assert(pick_post(midctx, state.map, state.me.spec_position(), state.enemies@, w_pick@));
            assert(w_avoid@.len() == w_avoid@.len() && w_offense@.len() == w_offense@.len()
                && w_pick@.len() == w_pick@.len());
            assert(d == decide(
                baseline_weight(state.map, *old(self).context.map_information, state.me.spec_position(), Direction::Up)
                    + sum_for(w_avoid@, Direction::Up) + sum_for(w_offense@, Direction::Up)
                    + sum_for(w_pick@, Direction::Up),
                baseline_weight(state.map, *old(self).context.map_information, state.me.spec_position(), Direction::Down)
                    + sum_for(w_avoid@, Direction::Down) + sum_for(w_offense@, Direction::Down)
                    + sum_for(w_pick@, Direction::Down),
                baseline_weight(state.map, *old(self).context.map_information, state.me.spec_position(), Direction::Left)
                    + sum_for(w_avoid@, Direction::Left) + sum_for(w_offense@, Direction::Left)
                    + sum_for(w_pick@, Direction::Left),
                baseline_weight(state.map, *old(self).context.map_information, state.me.spec_position(), Direction::Right)
                    + sum_for(w_avoid@, Direction::Right) + sum_for(w_offense@, Direction::Right)
                    + sum_for(w_pick@, Direction::Right),
                old(self).context.previous_direction,
            ));
        }

        let s_avoid = sum_contribution(&w_avoid, d);
        let s_offense = sum_contribution(&w_offense, d);
        let s_pick = sum_contribution(&w_pick, d);
        self.context.previous_strategy_type = if s_avoid != 0 {
            Some(StrategyType::Avoidance)
        } else if s_offense != 0 {
            Some(StrategyType::Killer)
        } else if s_pick != 0 {
            Some(StrategyType::PickPellets)
        } else {
            None
        };

        self.context.previous_direction = d;
        let next = my_pos.adjacent(&*map_rc, &d);
        self.context.expected_tile_type = (&*map_rc).tile_at(&next);
        self.context.remaining_ticks_dangerous = if self.context.remaining_ticks_dangerous > 0 {
            self.context.remaining_ticks_dangerous - 1
        } else {
            0
        };
        d
    }
}

} // verus!
