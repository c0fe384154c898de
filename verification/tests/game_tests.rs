use allie::common::Position;
use allie::game::{GameMap, MapInformation, TileType};
use allie::protocol::parse_map;

const DEFAULT: &str = r#"{"content":["||||||||||||||||||||||||||||","|............||............|","|.||||.|||||.||.|||||.||||.|","|o||||.|||||.||.|||||.||||o|","|.||||.|||||.||.|||||.||||.|","|....|................|....|","|.||||.||.||||||||.||.||||.|","|.||||.||.||||||||.||.||||.|","|....|.||....||....||.|....|","||||||.|||||_||_|||||.||||||","_____|.|||||_||_|||||.|_____","_____|.||__________||.|_____","_____|.||_|||--|||_||.|_____","||||||.||_|______|_||.||||||","______.___|______|___.______","||||||.||_|______|_||.||||||","_____|.||_|||--|||_||.|_____","_____|.||__________||.|_____","_____|.||_||||||||_||.|_____","||||||.||_||||||||_||.||||||","|....|.......||.......|....|","|.||||.|||||.||.|||||.||||.|","|.||||.|||||.||.|||||.||||.|","|o..||.......__.......||..o|","|||.||.||.||||||||.||.||.|||","|||.||.||.||||||||.||.||.|||","|......||....||....||......|","|.||||||||||.||.||||||||||.|","|.||||||||||.||.||||||||||.|","|..........................|","||||||||||||||||||||||||||||"],"height":31,"pelletsleft":238,"width":28}"#;
const MSPACMAN1: &str = r#"{"content":["||||||||||||||||||||||||||||","|......||..........||......|","|o||||.||.||||||||.||.||||o|","|.||||.||.||||||||.||.||||.|","|..........................|","|||.||.|||||.||.|||||.||.|||","__|.||.|||||.||.|||||.||.|__","|||.||.|||||.||.|||||.||.|||","___.||.......||.......||.___","|||.|||||_||||||||_|||||.|||","__|.|||||_||||||||_|||||.|__","__|.____________________.|__","__|.|||||_|||--|||_|||||.|__","__|.|||||_|______|_|||||.|__","__|.||____|______|____||.|__","__|.||_||_|______|_||_||.|__","|||.||_||_|||--|||_||_||.|||","___.___||__________||___.___","|||.||||||||_||_||||||||.|||","__|.||||||||_||_||||||||.|__","__|.......___||___.......|__","__|.|||||.||||||||.|||||.|__","|||.|||||.||||||||.|||||.|||","|............__............|","|.||||.|||||.||.|||||.||||.|","|.||||.|||||.||.|||||.||||.|","|.||||.||....||....||.||||.|","|o||||.||.||||||||.||.||||o|","|.||||.||.||||||||.||.||||.|","|..........................|","||||||||||||||||||||||||||||"],"height":31,"pelletsleft":220,"width":28}"#;
const MSPACMAN2: &str = r#"{"content":["||||||||||||||||||||||||||||","_______||..........||_______","||||||_||.||||||||.||_||||||","||||||_||.||||||||.||_||||||","|o...........||...........o|","|.|||||||.||.||.||.|||||||.|","|.|||||||.||.||.||.|||||||.|","|.||......||.||.||......||.|","|.||.||||_||....||_||||.||.|","|.||.||||_||||||||_||||.||.|","|......||_||||||||_||......|","||||||.||__________||.||||||","||||||.||_|||--|||_||.||||||","|......||_|______|_||......|","|.||||.||_|______|_||.||||.|","|.||||.___|______|___.||||.|","|...||.||_|||--|||_||.||...|","|||.||.||__________||.||.|||","__|.||.||||_||||_||||.||.|__","__|.||.||||_||||_||||.||.|__","__|.........||||.........|__","__|.|||||||.||||.|||||||.|__","|||.|||||||.||||.|||||||.|||","___....||...____...||....___","|||.||.||.||||||||.||.||.|||","|||.||.||.||||||||.||.||.|||","|o..||.......||.......||..o|","|.||||.|||||.||.|||||.||||.|","|.||||.|||||.||.|||||.||||.|","|..........................|","||||||||||||||||||||||||||||"],"height":31,"pelletsleft":240,"width":28}"#;
const MSPACMAN3: &str = r#"{"content":["||||||||||||||||||||||||||||","|.........||....||.........|","|.|||||||.||.||.||.|||||||.|","|o|||||||.||.||.||.|||||||o|","|.||.........||.........||.|","|.||.||.||||.||.||||.||.||.|","|....||.||||.||.||||.||....|","||||.||.||||.||.||||.||.||||","||||.||..............||.||||","_....||||_||||||||_||||...._","|.||_||||_||||||||_||||_||.|","|.||____________________||.|","|.||||_||_|||--|||_||_||||.|","|.||||_||_|______|_||_||||.|","|._____||_|______|_||_____.|","|.||_||||_|______|_||||_||.|","|.||_||||_|||--|||_||||_||.|","|.||____________________||.|","|.||||_|||||_||_|||||_||||.|","|.||||_|||||_||_|||||_||||.|","|......||....||....||......|","|||.||.||.||||||||.||.||.|||","|||.||.||.||||||||.||.||.|||","|o..||.......__.......||..o|","|.||||.|||||.||.|||||.||||.|","|.||||.|||||.||.|||||.||||.|","|......||....||....||......|","|.||||.||.||||||||.||.||||.|","|.||||.||.||||||||.||.||||.|","|......||..........||......|","||||||||||||||||||||||||||||"],"height":31,"pelletsleft":238,"width":28}"#;
const MSPACMAN4: &str = r#"{"content":["||||||||||||||||||||||||||||","|..........................|","|.||.||||.||||||||.||||.||.|","|o||.||||.||||||||.||||.||o|","|.||.||||.||....||.||||.||.|","|.||......||.||.||......||.|","|.||||.||.||.||.||.||.||||.|","|.||||.||.||.||.||.||.||||.|","|......||....||....||......|","|||.||||||||_||_||||||||.|||","__|.||||||||_||_||||||||.|__","__|....||__________||....|__","|||_||.||_|||--|||_||.||_|||","____||.||_|______|_||.||____","||||||.___|______|___.||||||","||||||.||_|______|_||.||||||","____||.||_|||--|||_||.||____","|||_||.||__________||.||_|||","__|....|||||_||_|||||....|__","__|.||.|||||_||_|||||.||.|__","__|.||....___||___....||.|__","__|.|||||.||_||_||.|||||.|__","|||.|||||.||_||_||.|||||.|||","|.........||____||.........|","|.||||.||.||||||||.||.||||.|","|.||||.||.||||||||.||.||||.|","|.||...||..........||...||.|","|o||.|||||||.||.|||||||.||o|","|.||.|||||||.||.|||||||.||.|","|............||............|","||||||||||||||||||||||||||||"],"height":31,"pelletsleft":234,"width":28}"#;
const PACMAN: &str = r#"{"content":["||||||||||||||||||||||||||||","|............||............|","|.||||.|||||.||.|||||.||||.|","|o||||.|||||.||.|||||.||||o|","|.||||.|||||.||.|||||.||||.|","|..........................|","|.||||.||.||||||||.||.||||.|","|.||||.||.||||||||.||.||||.|","|......||....||....||......|","||||||.|||||_||_|||||.||||||","_____|.|||||_||_|||||.|_____","_____|.||__________||.|_____","_____|.||_|||--|||_||.|_____","||||||.||_|______|_||.||||||","______.___|______|___.______","||||||.||_|______|_||.||||||","_____|.||_|||--|||_||.|_____","_____|.||__________||.|_____","_____|.||_||||||||_||.|_____","||||||.||_||||||||_||.||||||","|............||............|","|.||||.|||||.||.|||||.||||.|","|.||||.|||||.||.|||||.||||.|","|o..||.......__.......||..o|","|||.||.||.||||||||.||.||.|||","|||.||.||.||||||||.||.||.|||","|......||....||....||......|","|.||||||||||.||.||||||||||.|","|.||||||||||.||.||||||||||.|","|..........................|","||||||||||||||||||||||||||||"],"height":31,"pelletsleft":240,"width":28}"#;

#[test]
fn should_be_able_to_determine_walkable_tiles() {
    // Walls are not walkable..
    assert!(!TileType::Wall.is_walkable());
    // Everything else is
    assert!(TileType::Floor.is_walkable());
    assert!(TileType::Door.is_walkable());
    assert!(TileType::Pellet.is_walkable());
    assert!(TileType::SuperPellet.is_walkable());
}

#[test]
fn should_have_optimal_tile_enum_size() {
    // Make sure that tiles are 1B, as we store and index lots of them
    assert_eq!(1, std::mem::size_of::<TileType>());
}

#[test]
fn can_find_simple_x_intersections() {
    const SIMPLE_INTERSECTION: &str = r#"
{
    "content": [
        "|||||||",
        "|||_|||",
        "|||_|||",
        "|_____|",
        "|||_|||",
        "|||_|||",
        "|||||||"
    ],
    "height": 7,
    "pelletsleft": 0,
    "width": 7
}"#;
    let map: GameMap = parse_map(SIMPLE_INTERSECTION).unwrap();
    let info = MapInformation::from_map(&map);
    assert_eq!(5, info.turning_points.len());
    assert_eq!(1, info.intersections.len());
    assert_eq!(0, info.corners.len());
    assert!(info.intersections.contains(&Position::new(3, 3)));
}

#[test]
fn can_find_simple_three_way_intersections() {
    const THREE_WAY_INTERSECTION: &str = r#"
{
    "content": [
        "|||||",
        "|||_|",
        "|___|",
        "|||_|",
        "|||_|",
        "|||||"
    ],
    "height": 6,
    "pelletsleft": 0,
    "width": 5
}"#;
    let map: GameMap = parse_map(THREE_WAY_INTERSECTION).unwrap();
    let info = MapInformation::from_map(&map);
    assert_eq!(4, info.turning_points.len());
    assert_eq!(1, info.intersections.len());
    assert_eq!(0, info.corners.len());
    assert!(info.intersections.contains(&Position::new(3, 2)));
}

#[test]
fn can_find_simple_turn() {
    const TURN: &str = r#"
{
    "content": [
        "||||",
        "||_|",
        "|__|",
        "||||"
    ],
    "height": 4,
    "pelletsleft": 0,
    "width": 4
}"#;
    let map: GameMap = parse_map(TURN).unwrap();
    let info = MapInformation::from_map(&map);
    assert_eq!(3, info.turning_points.len());
    assert_eq!(0, info.intersections.len());
    assert_eq!(1, info.corners.len());
    assert!(info.corners.contains(&Position::new(2, 2)));
}

#[test]
fn should_not_find_corners_in_straight_paths() {
    const STRAIGHT: &str = r#"
{
    "content": [
        "||||",
        "||_|",
        "||_|",
        "||_|",
        "||_|",
        "||||"
    ],
    "height": 6,
    "pelletsleft": 0,
    "width": 4
}"#;
    let map: GameMap = parse_map(STRAIGHT).unwrap();
    let info = MapInformation::from_map(&map);
    assert_eq!(2, info.turning_points.len());
    assert_eq!(0, info.intersections.len());
    assert_eq!(0, info.corners.len());
}

#[test]
fn tunnels_are_not_turning_points() {
    const TESTMAP: &str = r#"
{
    "content": [
        "|||||||",
        "|||_|||",
        "_______",
        "|||_|||",
        "|||||||"
    ],
    "height": 5,
    "pelletsleft": 0,
    "width": 7
}"#;
    let map: GameMap = parse_map(TESTMAP).unwrap();
    let info = MapInformation::from_map(&map);
    assert_eq!(2, info.tunnels.len());
    assert_eq!(2, info.dead_ends.len());
    assert_eq!(1, info.intersections.len());
    assert_eq!(0, info.corners.len());
    assert_eq!(3, info.turning_points.len());
}

#[test]
fn can_find_pellet() {
    const THREE_WAY_INTERSECTION: &str = r#"
{
    "content": [
        "|||||",
        "|||_|",
        "|o__|",
        "|||o|",
        "|||_|",
        "|||||"
    ],
    "height": 6,
    "pelletsleft": 0,
    "width": 5
}"#;
    let map: GameMap = parse_map(THREE_WAY_INTERSECTION).unwrap();
    let pellets = map.pellets();
    assert_eq!(2, pellets.len());
    assert!(pellets.contains(&Position::new(1, 2)));
    assert!(pellets.contains(&Position::new(3, 3)));
}

#[test]
fn can_classify_dead_ends() {
    // 18 * 2 + 11 * 2 == 58 number of tiles that should be classified as belonging to dead ends
    let info = MapInformation::from_map(&parse_map(DEFAULT).unwrap());
    assert_eq!(58, info.dead_ends().len());

    // 4 tiles (unreachable)
    let info = MapInformation::from_map(&parse_map(MSPACMAN1).unwrap());
    assert_eq!(4, info.dead_ends().len());

    // The remaining maps have no dead ends
    let info = MapInformation::from_map(&parse_map(MSPACMAN2).unwrap());
    assert_eq!(0, info.dead_ends().len());
    let info = MapInformation::from_map(&parse_map(MSPACMAN3).unwrap());
    assert_eq!(0, info.dead_ends().len());
    let info = MapInformation::from_map(&parse_map(MSPACMAN4).unwrap());
    assert_eq!(0, info.dead_ends().len());
    let info = MapInformation::from_map(&parse_map(PACMAN).unwrap());
    assert_eq!(0, info.dead_ends().len());
}

#[test]
fn coerces_unknown_tile_characters_to_walls() {
    assert_eq!(TileType::Floor, allie::game::char_to_tile('_'));
    assert_eq!(TileType::Wall, allie::game::char_to_tile('|'));
    assert_eq!(TileType::Door, allie::game::char_to_tile('-'));
    assert_eq!(TileType::Pellet, allie::game::char_to_tile('.'));
    assert_eq!(TileType::SuperPellet, allie::game::char_to_tile('o'));
    assert_eq!(TileType::Wall, allie::game::char_to_tile('?'));
    assert_eq!(TileType::Wall, allie::game::char_to_tile('x'));
}

#[test]
fn rejects_ragged_or_empty_maps() {
    let empty: Vec<String> = Vec::new();
    assert!(GameMap::from_rows(&empty, 4).is_none());
    let rows = vec![String::from("||||"), String::from("||")];
    assert!(GameMap::from_rows(&rows, 4).is_none());
    let rows = vec![String::from("||||")];
    assert!(GameMap::from_rows(&rows, 0).is_none());
    let rows = vec![String::from("||||"), String::from("|__|")];
    assert!(GameMap::from_rows(&rows, 4).is_some());
}
