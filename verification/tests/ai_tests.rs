use std::rc::Rc;

use allie::ai::Bot;
use allie::common::Direction;
use allie::game::MapInformation;
use allie::protocol::{parse_map, Message};
use allie::ai::select_direction;
use allie::strategies::{Avoidance, WALL_PENALTY};
use allie::traits::HasPosition;

const DEFAULT_MAP: &str = r#"{"content":["||||||||||||||||||||||||||||","|............||............|","|.||||.|||||.||.|||||.||||.|","|o||||.|||||.||.|||||.||||o|","|.||||.|||||.||.|||||.||||.|","|....|................|....|","|.||||.||.||||||||.||.||||.|","|.||||.||.||||||||.||.||||.|","|....|.||....||....||.|....|","||||||.|||||_||_|||||.||||||","_____|.|||||_||_|||||.|_____","_____|.||__________||.|_____","_____|.||_|||--|||_||.|_____","||||||.||_|______|_||.||||||","______.___|______|___.______","||||||.||_|______|_||.||||||","_____|.||_|||--|||_||.|_____","_____|.||__________||.|_____","_____|.||_||||||||_||.|_____","||||||.||_||||||||_||.||||||","|....|.......||.......|....|","|.||||.|||||.||.|||||.||||.|","|.||||.|||||.||.|||||.||||.|","|o..||.......__.......||..o|","|||.||.||.||||||||.||.||.|||","|||.||.||.||||||||.||.||.|||","|......||....||....||......|","|.||||||||||.||.||||||||||.|","|.||||||||||.||.||||||||||.|","|..........................|","||||||||||||||||||||||||||||"],"height":31,"pelletsleft":238,"width":28}"#;

fn weight_of(weights: &Vec<(Direction, i32)>, d: Direction) -> i32 {
    for (wd, w) in weights.iter() {
        if *wd == d {
            return *w;
        }
    }
    panic!("direction missing from baseline weights");
}

#[test]
fn should_have_lower_weights_for_walls() {
    const STATE: &str = r#"{"gamestate":{"map":{"content":["||||||||||||||||||||||||||||","|____________||____________|","|_||||_|||||_||_|||||_||||_|","|_||||_|||||_||_|||||_||||_|","|.||||_|||||_||_|||||_||||.|","|....|________________|....|","|.||||_||_||||||||_||_||||.|","|.||||_||_||||||||_||_||||.|","|....|_||____||____||_|....|","||||||_|||||_||_|||||_||||||","_____|_|||||_||_|||||_|_____","_____|_||__________||_|_____","_____|_||_|||--|||_||_|_____","||||||_||_|______|_||_||||||","__________|______|__________","||||||_||_|______|_||_||||||","_____|_||_|||--|||_||_|_____","_____|_||__________||_|_____","_____|_||_||||||||_||_|_____","||||||_||_||||||||_||_||||||","|....|_______||_______|....|","|.||||_|||||_||_|||||_||||.|","|.||||_|||||_||_|||||_||||.|","|o..||________________||..o|","|||.||_||_||||||||_||_||.|||","|||.||_||_||||||||_||_||.|||","|______||____||____||______|","|_||||||||||_||_||||||||||_|","|_||||||||||_||_||||||||||_|","|__________________________|","||||||||||||||||||||||||||||"],"height":31,"pelletsleft":42,"width":28},"others":[{"id":0,"isdangerous":true,"score":59,"x":21,"y":4}],"you":{"id":1,"isdangerous":false,"score":153,"x":20,"y":1}},"messagetype":"stateupdate"}"#;
    let message = Message::from_str(STATE).unwrap();

    let map = parse_map(DEFAULT_MAP).unwrap();
    let map_information = MapInformation::from_map(&map);

    match message {
        Message::Update { state } => {
            let bot = Bot::from_game_state(&state);
            let weights = bot.directions_with_default_weights(
                &map,
                &map_information,
                &state.me.position(),
            );

            assert_eq!(4, weights.len());
            assert_eq!(0, weight_of(&weights, Direction::Left));
            assert_eq!(0, weight_of(&weights, Direction::Right));
            assert_eq!(WALL_PENALTY, weight_of(&weights, Direction::Up));
            assert_eq!(WALL_PENALTY, weight_of(&weights, Direction::Down));
        },
        _ => panic!(),
    }
}

#[test]
fn should_not_die_at_dead_end_entrance() {
    const STATE: &str = r#"{"gamestate":{"map":{"content":["||||||||||||||||||||||||||||","|____________||____________|","|_||||_|||||_||_|||||_||||_|","|_||||_|||||_||_|||||_||||_|","|.||||_|||||_||_|||||_||||.|","|....|________________|....|","|.||||_||_||||||||_||_||||.|","|.||||_||_||||||||_||_||||.|","|....|_||____||____||_|....|","||||||_|||||_||_|||||_||||||","_____|_|||||_||_|||||_|_____","_____|_||__________||_|_____","_____|_||_|||--|||_||_|_____","||||||_||_|______|_||_||||||","__________|______|__________","||||||_||_|______|_||_||||||","_____|_||_|||--|||_||_|_____","_____|_||__________||_|_____","_____|_||_||||||||_||_|_____","||||||_||_||||||||_||_||||||","|....|_______||_______|....|","|.||||_|||||_||_|||||_||||.|","|.||||_|||||_||_|||||_||||.|","|o..||________________||..o|","|||.||_||_||||||||_||_||.|||","|||.||_||_||||||||_||_||.|||","|______||____||____||______|","|_||||||||||_||_||||||||||_|","|_||||||||||_||_||||||||||_|","|__________________________|","||||||||||||||||||||||||||||"],"height":31,"pelletsleft":42,"width":28},"others":[{"id":0,"isdangerous":true,"score":59,"x":21,"y":4}],"you":{"id":1,"isdangerous":false,"score":153,"x":21,"y":1}},"messagetype":"stateupdate"}"#;
    let message = Message::from_str(STATE).unwrap();

    match message {
        Message::Update { state } => {
            let mut bot = Bot::from_game_state(&state);
            let action = bot.determine_action(state);
            assert_eq!(Direction::Left, action);
        },
        _ => panic!(),
    }
}

#[test]
fn should_not_die_stupidly() {
    const STATE: &str = r#"{"gamestate":{"map":{"content":["||||||||||||||||||||||||||||","|____________||____________|","|_||||_|||||_||_|||||_||||_|","|_||||_|||||_||_|||||_||||_|","|.||||_|||||_||_|||||_||||.|","|....|________________|....|","|.||||_||_||||||||_||_||||.|","|.||||_||_||||||||_||_||||.|","|....|_||____||____||_|....|","||||||_|||||_||_|||||_||||||","_____|_|||||_||_|||||_|_____","_____|_||__________||_|_____","_____|_||_|||--|||_||_|_____","||||||_||_|______|_||_||||||","__________|______|__________","||||||_||_|______|_||_||||||","_____|_||_|||--|||_||_|_____","_____|_||__________||_|_____","_____|_||_||||||||_||_|_____","||||||_||_||||||||_||_||||||","|....|_______||_______|....|","|.||||_|||||_||_|||||_||||.|","|.||||_|||||_||_|||||_||||.|","|o..||________________||..o|","|||.||_||_||||||||_||_||.|||","|||.||_||_||||||||_||_||.|||","|______||____||____||______|","|_||||||||||_||_||||||||||_|","|_||||||||||_||_||||||||||_|","|__________________________|","||||||||||||||||||||||||||||"],"height":31,"pelletsleft":42,"width":28},"others":[{"id":0,"isdangerous":true,"score":59,"x":21,"y":1}],"you":{"id":1,"isdangerous":false,"score":153,"x":20,"y":1}},"messagetype":"stateupdate"}"#;
    let message = Message::from_str(STATE).unwrap();

    match message {
        Message::Update { state } => {
            let mut bot = Bot::from_game_state(&state);
            let action = bot.determine_action(state);
            assert_eq!(Direction::Left, action);
        },
        _ => panic!(),
    }
}

#[test]
fn can_avoid_multiple_at_once() {
    const STATE: &str = r#"{"gamestate":{"map":{"content":["||||||||||||||||||||||||||||","|____________||____________|","|_||||_|||||_||_|||||_||||_|","|_||||_|||||_||_|||||_||||_|","|.||||_|||||_||_|||||_||||.|","|....|________________|....|","|.||||_||_||||||||_||_||||.|","|.||||_||_||||||||_||_||||.|","|....|_||____||____||_|....|","||||||_|||||_||_|||||_||||||","_____|_|||||_||_|||||_|_____","_____|_||__________||_|_____","_____|_||_|||--|||_||_|_____","||||||_||_|______|_||_||||||","__________|______|__________","||||||_||_|______|_||_||||||","_____|_||_|||--|||_||_|_____","_____|_||__________||_|_____","_____|_||_||||||||_||_|_____","||||||_||_||||||||_||_||||||","|....|_______||_______|....|","|.||||_|||||_||_|||||_||||.|","|.||||_|||||_||_|||||_||||.|","|o..||________________||..o|","|||.||_||_||||||||_||_||.|||","|||.||_||_||||||||_||_||.|||","|______||____||____||______|","|_||||||||||_||_||||||||||_|","|_||||||||||_||_||||||||||_|","|__________________________|","||||||||||||||||||||||||||||"],"height":31,"pelletsleft":42,"width":28},"others":[{"id":0,"isdangerous":true,"score":59,"x":17,"y":5},{"id":1,"isdangerous":true,"score":59,"x":12,"y":5}],"you":{"id":1,"isdangerous":false,"score":153,"x":15,"y":5}},"messagetype":"stateupdate"}"#;
    let message = Message::from_str(STATE).unwrap();

    match message {
        Message::Update { state } => {
            let mut bot = Bot::from_game_state(&state);
            // The strategy alone steers off both neighbours; checked through
            // the whole decision, which must take the only safe way out.
            let map_rc = Rc::new(state.map.clone());
            bot.context.path_graph.update_from_map(&map_rc, &state.me.position());
            let strategy = Avoidance::new();
            let weights = strategy.weights(&bot.context, &map_rc, &state.me, &state.enemies);
            assert!(weights.len() >= 1);
            let action = bot.determine_action(state);
            assert_eq!(Direction::Up, action);
        },
        _ => panic!(),
    }
}

#[test]
fn tie_break_prefers_previous_then_fixed_order() {
    let flat = vec![
        (Direction::Up, 0i64),
        (Direction::Down, 0i64),
        (Direction::Left, 0i64),
        (Direction::Right, 0i64),
    ];
    // The previous direction wins when it is among the maxima.
    assert_eq!(Direction::Left, select_direction(&flat, Direction::Left));
    assert_eq!(Direction::Down, select_direction(&flat, Direction::Down));

    // Otherwise the first maximal direction in the fixed order wins.
    let penalized = vec![
        (Direction::Up, -5i64),
        (Direction::Down, -100i64),
        (Direction::Left, -5i64),
        (Direction::Right, -5i64),
    ];
    assert_eq!(Direction::Up, select_direction(&penalized, Direction::Down));
}
