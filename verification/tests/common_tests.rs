use allie::common::{Direction, Position};
use allie::game::GameMap;
use allie::protocol::parse_map;

const DEFAULT_MAP: &str = r#"{"content":["||||||||||||||||||||||||||||","|............||............|","|.||||.|||||.||.|||||.||||.|","|o||||.|||||.||.|||||.||||o|","|.||||.|||||.||.|||||.||||.|","|....|................|....|","|.||||.||.||||||||.||.||||.|","|.||||.||.||||||||.||.||||.|","|....|.||....||....||.|....|","||||||.|||||_||_|||||.||||||","_____|.|||||_||_|||||.|_____","_____|.||__________||.|_____","_____|.||_|||--|||_||.|_____","||||||.||_|______|_||.||||||","______.___|______|___.______","||||||.||_|______|_||.||||||","_____|.||_|||--|||_||.|_____","_____|.||__________||.|_____","_____|.||_||||||||_||.|_____","||||||.||_||||||||_||.||||||","|....|.......||.......|....|","|.||||.|||||.||.|||||.||||.|","|.||||.|||||.||.|||||.||||.|","|o..||.......__.......||..o|","|||.||.||.||||||||.||.||.|||","|||.||.||.||||||||.||.||.|||","|......||....||....||......|","|.||||||||||.||.||||||||||.|","|.||||||||||.||.||||||||||.|","|..........................|","||||||||||||||||||||||||||||"],"height":31,"pelletsleft":238,"width":28}"#;

#[test]
fn can_get_adjacent_positions() {
    let map: GameMap = parse_map(DEFAULT_MAP).unwrap();

    assert_eq!(Position::new(10, 9), Position::new(10, 10).adjacent(&map, &Direction::Up));
    assert_eq!(Position::new(10, 11), Position::new(10, 10).adjacent(&map, &Direction::Down));
    assert_eq!(Position::new(9, 10), Position::new(10, 10).adjacent(&map, &Direction::Left));
    assert_eq!(Position::new(11, 10), Position::new(10, 10).adjacent(&map, &Direction::Right));

    // Wrapping
    assert_eq!(Position::new(0, 30), Position::new(0, 0).adjacent(&map, &Direction::Up));
    assert_eq!(Position::new(27, 0), Position::new(0, 0).adjacent(&map, &Direction::Left));

    assert_eq!(Position::new(27, 0), Position::new(27, 30).adjacent(&map, &Direction::Down));
    assert_eq!(Position::new(0, 30), Position::new(27, 30).adjacent(&map, &Direction::Right));
}

#[test]
fn can_calculate_manhattan_distance() {
    let map: GameMap = parse_map(DEFAULT_MAP).unwrap();

    // Non-wrapping
    assert_eq!(10, Position::new(10, 12).manhattan_distance_to(&Position::new(14, 18), &map));
    assert_eq!(10, Position::new(14, 18).manhattan_distance_to(&Position::new(10, 12), &map));
    assert_eq!(10, Position::new(18, 14).manhattan_distance_to(&Position::new(12, 10), &map));

    // Wrapping
    assert_eq!(4, Position::new(0, 0).manhattan_distance_to(&Position::new(0, 27), &map));
    assert_eq!(9, Position::new(25, 25).manhattan_distance_to(&Position::new(0, 0), &map));
    assert_eq!(9, Position::new(0, 0).manhattan_distance_to(&Position::new(25, 25), &map));
}

#[test]
fn one_step_and_back_returns_home() {
    let map: GameMap = parse_map(DEFAULT_MAP).unwrap();
    let all = [Direction::Up, Direction::Down, Direction::Left, Direction::Right];
    let opposite = [Direction::Down, Direction::Up, Direction::Right, Direction::Left];
    let corners = [
        Position::new(0, 0),
        Position::new(27, 0),
        Position::new(0, 30),
        Position::new(27, 30),
        Position::new(10, 10),
    ];
    for p in corners.iter() {
        for k in 0..4 {
            let there = p.adjacent(&map, &all[k]);
            let back = there.adjacent(&map, &opposite[k]);
            assert_eq!(*p, back);
        }
    }
}

#[test]
fn direction_priority_order_is_fixed() {
    let dirs = Direction::hash_set_all();
    assert_eq!(4, dirs.len());
    assert_eq!(Direction::Up, dirs[0]);
    assert_eq!(Direction::Down, dirs[1]);
    assert_eq!(Direction::Left, dirs[2]);
    assert_eq!(Direction::Right, dirs[3]);
    assert!(Direction::Up.is_opposite_to(&Direction::Down));
    assert!(Direction::Left.is_opposite_to(&Direction::Right));
    assert!(!Direction::Up.is_opposite_to(&Direction::Left));
}
