use std::rc::Rc;

use allie::common::{Direction, Position};
use allie::game::{GameMap, MapInformation};
use allie::pathfinder::{
    find_closest_pellet, get_by_points, get_shortest, LocalPathGraph, PathNode,
};
use allie::protocol::parse_map;
use allie::strategies::{BotContext, PickPellets, PELLET};

const DEFAULT_MAP: &str = r#"{"content":["||||||||||||||||||||||||||||","|............||............|","|.||||.|||||.||.|||||.||||.|","|o||||.|||||.||.|||||.||||o|","|.||||.|||||.||.|||||.||||.|","|....|................|....|","|.||||.||.||||||||.||.||||.|","|.||||.||.||||||||.||.||||.|","|....|.||....||....||.|....|","||||||.|||||_||_|||||.||||||","_____|.|||||_||_|||||.|_____","_____|.||__________||.|_____","_____|.||_|||--|||_||.|_____","||||||.||_|______|_||.||||||","______.___|______|___.______","||||||.||_|______|_||.||||||","_____|.||_|||--|||_||.|_____","_____|.||__________||.|_____","_____|.||_||||||||_||.|_____","||||||.||_||||||||_||.||||||","|....|.......||.......|....|","|.||||.|||||.||.|||||.||||.|","|.||||.|||||.||.|||||.||||.|","|o..||.......__.......||..o|","|||.||.||.||||||||.||.||.|||","|||.||.||.||||||||.||.||.|||","|......||....||....||......|","|.||||||||||.||.||||||||||.|","|.||||||||||.||.||||||||||.|","|..........................|","||||||||||||||||||||||||||||"],"height":31,"pelletsleft":238,"width":28}"#;

fn node(map: &Rc<GameMap>, info: &Rc<MapInformation>, x: u32, y: u32) -> PathNode {
    PathNode {
        position: Position { x, y },
        map_information: info.clone(),
        current_map_state: map.clone(),
    }
}

#[test]
fn bfs_path_graph_should_return_same_path_as_library() {
    let map: Rc<GameMap> = Rc::new(parse_map(DEFAULT_MAP).unwrap());
    let info = Rc::new(MapInformation::from_map(&map));

    let origin = node(&map, &info, 3, 20);
    let destination = node(&map, &info, 18, 1);

    assert_eq!(50, get_cost_from_bfs_graph(&map, &origin.position, &destination.position));

    let bfs_path = get_path_from_bfs_graph(&map, &origin.position, &destination.position);
    assert_eq!(50, bfs_path.len());

    let lib_path = get_path_from_astar_lib(&origin, &destination);
    assert_eq!(50, lib_path.len());

    assert_eq!(lib_path.as_slice(), bfs_path.as_slice());
}

fn get_cost_from_bfs_graph(map: &GameMap, from: &Position, to: &Position) -> usize {
    let mut graph = LocalPathGraph::new(map);
    graph.update_from_map(map, from);
    graph.cost_to(to).unwrap()
}

fn get_path_from_bfs_graph(map: &GameMap, from: &Position, to: &Position) -> Vec<Position> {
    let mut graph = LocalPathGraph::new(map);
    graph.update_from_map(map, from);
    graph.path_to(to).unwrap()
}

fn get_path_from_astar_lib(from: &PathNode, to: &PathNode) -> Vec<Position> {
    get_by_points(from, to).unwrap()
}

#[test]
fn rebuilding_the_field_is_deterministic() {
    let map: GameMap = parse_map(DEFAULT_MAP).unwrap();
    let origin = Position::new(3, 20);

    let mut first = LocalPathGraph::new(&map);
    first.update_from_map(&map, &origin);
    let mut second = LocalPathGraph::new(&map);
    second.update_from_map(&map, &origin);

    // Bit-identical cost and parent data on a rebuild.
    assert_eq!(first.nodes, second.nodes);

    // And rebuilding the same field in place changes nothing either.
    let snapshot = first.nodes.clone();
    first.update_from_map(&map, &origin);
    assert_eq!(snapshot, first.nodes);
}

#[test]
fn field_cost_matches_plain_query_path_length() {
    let map: Rc<GameMap> = Rc::new(parse_map(DEFAULT_MAP).unwrap());
    let info = Rc::new(MapInformation::from_map(&map));
    let origin = Position::new(3, 20);

    let mut graph = LocalPathGraph::new(&map);
    graph.update_from_map(&map, &origin);

    let targets = [(18, 1), (1, 1), (26, 28), (13, 23)];
    for (x, y) in targets.iter() {
        let target = Position::new(*x, *y);
        let cost = graph.cost_to(&target).unwrap();
        let path = get_shortest(
            &node(&map, &info, origin.x, origin.y),
            &node(&map, &info, *x, *y),
        )
        .unwrap();
        assert_eq!(cost, path.len());
    }
}

#[test]
fn path_walks_home_through_parents() {
    let map: GameMap = parse_map(DEFAULT_MAP).unwrap();
    let origin = Position::new(1, 1);
    let mut graph = LocalPathGraph::new(&map);
    graph.update_from_map(&map, &origin);

    // A one-step target: the path is just that tile.
    let target = Position::new(2, 1);
    assert_eq!(Some(1), graph.cost_to(&target));
    assert_eq!(vec![target], graph.path_to(&target).unwrap());

    // The origin itself carries no record.
    assert_eq!(None, graph.cost_to(&origin));
    assert!(graph.path_to(&origin).is_none());
}

#[test]
fn nearest_pellet_search_respects_distance() {
    // A corridor with a single pellet three steps to the right.
    const CORRIDOR: &str = r#"{"content":["||||||","|___._","||||||"],"height":3,"width":6}"#;
    let map: Rc<GameMap> = Rc::new(parse_map(CORRIDOR).unwrap());
    let info = Rc::new(MapInformation::from_map(&map));
    let origin = node(&map, &info, 1, 1);
    let enemies: Vec<Position> = Vec::new();

    let path = find_closest_pellet(&origin, &enemies).unwrap();
    assert_eq!(3, path.len());
    assert_eq!(Position::new(4, 1), path[0]);

    // With an opponent camped on the pellet's approach, no route remains.
    let blockers = vec![Position::new(3, 1)];
    assert!(find_closest_pellet(&origin, &blockers).is_none());
}

#[test]
fn pellet_seeking_keeps_momentum_onto_pellets() {
    // The agent at (2,1) moved right last tick; more pellets lie ahead.
    const CORRIDOR: &str = r#"{"content":["||||||","|_.._|","||||||"],"height":3,"width":6}"#;
    let map: Rc<GameMap> = Rc::new(parse_map(CORRIDOR).unwrap());
    let info = Rc::new(MapInformation::from_map(&map));
    let me = allie::protocol::Player { id: 0, x: 1, y: 1, score: 0, is_dangerous: false };
    let enemies: Vec<allie::protocol::Player> = Vec::new();

    let mut graph = LocalPathGraph::new(&map);
    graph.update_from_map(&map, &Position::new(1, 1));
    let ctx = BotContext {
        map_information: info.clone(),
        path_graph: graph,
        previous_direction: Direction::Right,
        previous_strategy_type: None,
        expected_tile_type: allie::game::TileType::Floor,
        tick: 1,
        remaining_ticks_dangerous: 0,
    };
    let mut strategy = PickPellets::new();
    let weights = strategy.weights(&ctx, &map, &me, &enemies);
    assert_eq!(vec![(Direction::Right, PELLET)], weights);
}

#[test]
fn pellet_seeking_turns_to_an_adjacent_pellet() {
    // No pellet ahead (previous direction is Left), but one right next door.
    const CORRIDOR: &str = r#"{"content":["||||||","|__.__","||||||"],"height":3,"width":6}"#;
    let map: Rc<GameMap> = Rc::new(parse_map(CORRIDOR).unwrap());
    let info = Rc::new(MapInformation::from_map(&map));
    let me = allie::protocol::Player { id: 0, x: 2, y: 1, score: 0, is_dangerous: false };
    let enemies: Vec<allie::protocol::Player> = Vec::new();

    let mut graph = LocalPathGraph::new(&map);
    graph.update_from_map(&map, &Position::new(2, 1));
    let ctx = BotContext {
        map_information: info.clone(),
        path_graph: graph,
        previous_direction: Direction::Left,
        previous_strategy_type: None,
        expected_tile_type: allie::game::TileType::Floor,
        tick: 1,
        remaining_ticks_dangerous: 0,
    };
    let mut strategy = PickPellets::new();
    let weights = strategy.weights(&ctx, &map, &me, &enemies);
    assert_eq!(vec![(Direction::Right, PELLET)], weights);
    assert!(strategy.target_pellet.is_none());
}
