use std::rc::Rc;

use allie::common::{Direction, Position};
use allie::game::{GameMap, MapInformation, TileType};
use allie::pathfinder::LocalPathGraph;
use allie::protocol::{parse_map, Player};
use allie::strategies::{BotContext, Hunter, Killer, HUNT, KILL_SPELLET};

const CORRIDOR: &str = r#"{"content":["|||||||","|o____|","|||||||"],"height":3,"width":7}"#;

fn context_at(map: &Rc<GameMap>, info: &Rc<MapInformation>, me: &Player, dangerous: u32) -> BotContext {
    let mut graph = LocalPathGraph::new(map);
    graph.update_from_map(map, &Position::new(me.x, me.y));
    BotContext {
        map_information: info.clone(),
        path_graph: graph,
        previous_direction: Direction::Down,
        previous_strategy_type: None,
        expected_tile_type: TileType::Floor,
        tick: 1,
        remaining_ticks_dangerous: dangerous,
    }
}

fn player_at(x: u32, y: u32, dangerous: bool) -> Player {
    Player { id: 7, x, y, score: 0, is_dangerous: dangerous }
}

#[test]
fn killer_races_for_an_uncontested_super_pellet() {
    let map: Rc<GameMap> = Rc::new(parse_map(CORRIDOR).unwrap());
    let info = Rc::new(MapInformation::from_map(&map));
    let me = player_at(5, 1, false);
    let enemies: Vec<Player> = Vec::new();

    let ctx = context_at(&map, &info, &me, 0);
    let weights = Killer::new().weights(&ctx, &map, &me, &enemies);
    assert_eq!(vec![(Direction::Left, KILL_SPELLET)], weights);
}

#[test]
fn killer_abstains_when_an_opponent_wins_the_race() {
    let map: Rc<GameMap> = Rc::new(parse_map(CORRIDOR).unwrap());
    let info = Rc::new(MapInformation::from_map(&map));
    let me = player_at(5, 1, false);
    let enemies = vec![player_at(2, 1, false)];

    let ctx = context_at(&map, &info, &me, 0);
    let weights = Killer::new().weights(&ctx, &map, &me, &enemies);
    assert!(weights.is_empty());
}

#[test]
fn hunter_closes_in_on_an_eatable_opponent() {
    let map: Rc<GameMap> = Rc::new(parse_map(CORRIDOR).unwrap());
    let info = Rc::new(MapInformation::from_map(&map));
    let me = player_at(1, 1, true);
    let enemies = vec![player_at(3, 1, false)];

    let ctx = context_at(&map, &info, &me, 5);
    let weights = Hunter::new().weights(&ctx, &map, &me, &enemies);
    assert_eq!(vec![(Direction::Right, HUNT)], weights);

    // Without the ability the hunter abstains entirely.
    let calm = context_at(&map, &info, &me, 0);
    let weights = Hunter::new().weights(&calm, &map, &me, &enemies);
    assert!(weights.is_empty());
}
