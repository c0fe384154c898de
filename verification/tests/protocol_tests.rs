use allie::common::Position;
use allie::game::{GameMap, TileType};
use allie::protocol::{Message, MessageType, ProtocolError};

const EXAMPLE_WELCOME: &str = r#"{"map":{"content":["||||||||||||||||||||||||||||","|............||............|","|.||||.|||||.||.|||||.||||.|","|o||||.|||||.||.|||||.||||o|","|.||||.|||||.||.|||||.||||.|","|..........................|","|.||||.||.||||||||.||.||||.|","|.||||.||.||||||||.||.||||.|","|......||....||....||......|","||||||.|||||_||_|||||.||||||","_____|.|||||_||_|||||.|_____","_____|.||__________||.|_____","_____|.||_|||__|||_||.|_____","||||||.||_|______|_||.||||||","______.___|______|___.______","||||||.||_|______|_||.||||||","_____|.||_|||__|||_||.|_____","_____|.||__________||.|_____","_____|.||_||||||||_||.|_____","||||||.||_||||||||_||.||||||","|............||............|","|.||||.|||||.||.|||||.||||.|","|.||||.|||||.||.|||||.||||.|","|o..||.......__.......||..o|","|||.||.||.||||||||.||.||.|||","|||.||.||.||||||||.||.||.|||","|......||....||....||......|","|.||||||||||.||.||||||||||.|","|.||||||||||.||.||||||||||.|","|..........................|","||||||||||||||||||||||||||||"],"height":31,"pelletsleft":240,"width":28},"messagetype":"welcome","you":{"id":0,"x":11,"y":13}}"#;
const EXAMPLE_STATEUPDATE: &str = r#"{"gamestate":{"map":{"content":["||||||||||||||||||||||||||||","|............||............|","|.||||.|||||.||.|||||.||||.|","|o||||.|||||.||.|||||.||||o|","|.||||.|||||.||.|||||.||||.|","|..........................|","|.||||.||.||||||||.||.||||.|","|.||||.||.||||||||.||.||||.|","|......||....||....||......|","||||||.|||||_||_|||||.||||||","_____|.|||||_||_|||||.|_____","_____|.||__________||.|_____","_____|.||_|||__|||_||.|_____","||||||.||_|______|_||.||||||","______.___|______|___.______","||||||.||_|______|_||.||||||","_____|.||_|||__|||_||.|_____","_____|.||__________||.|_____","_____|.||_||||||||_||.|_____","||||||.||_||||||||_||.||||||","|............||............|","|.||||.|||||.||.|||||.||||.|","|.||||.|||||.||.|||||.||||.|","|o..||.......__.......||..o|","|||.||.||.||||||||.||.||.|||","|||.||.||.||||||||.||.||.|||","|......||....||....||......|","|.||||||||||.||.||||||||||.|","|.||||||||||.||.||||||||||.|","|..........................|","||||||||||||||||||||||||||||"],"height":31,"pelletsleft":240,"width":28},"others":[],"you":{"id":0,"x":11,"y":13,"score":130,"isdangerous":true}},"messagetype":"stateupdate"}"#;

fn assert_example_map(map: &GameMap) {
    assert_eq!(28, map.width);
    assert_eq!(868, map.tiles.len());

    // Test tile types, randomly picked locations
    assert_eq!(TileType::Floor, map.tile_at(&Position::new(12, 10)));
    assert_eq!(TileType::Wall, map.tile_at(&Position::new(0, 30)));
    assert_eq!(TileType::Pellet, map.tile_at(&Position::new(26, 1)));
    assert_eq!(TileType::SuperPellet, map.tile_at(&Position::new(26, 3)));
}

#[test]
fn can_deserialize_welcome() {
    let message = Message::from_str(EXAMPLE_WELCOME).unwrap();
    match message {
        Message::Welcome { state } => {
            assert_example_map(&state.map);
        },
        _ => {
            assert!(false, "Incorrect type returned");
        },
    }
}

#[test]
fn can_deserialize_stateupdate() {
    let message = Message::from_str(EXAMPLE_STATEUPDATE).unwrap();
    match message {
        Message::Update { state } => {
            assert_example_map(&state.map);

            assert_eq!(0, state.me.id);
            assert_eq!(11, state.me.x);
            assert_eq!(13, state.me.y);
            assert_eq!(130, state.me.score);
            assert_eq!(true, state.me.is_dangerous);
        },
        _ => {
            assert!(false, "Incorrect type returned");
        },
    }
}

#[test]
fn can_convert_welcome_type() {
    assert_eq!(MessageType::Welcome, MessageType::from_str("welcome").unwrap());
}

#[test]
fn can_convert_stateupdate_type() {
    assert_eq!(MessageType::StateUpdate, MessageType::from_str("stateupdate").unwrap());
}

#[test]
fn can_convert_dead_type() {
    assert_eq!(MessageType::Dead, MessageType::from_str("dead").unwrap());
}

#[test]
fn can_convert_endofround_type() {
    assert_eq!(MessageType::EndOfRound, MessageType::from_str("endofround").unwrap());
}

#[test]
fn can_convert_startofround_type() {
    assert_eq!(MessageType::StartOfRound, MessageType::from_str("startofround").unwrap());
}

#[test]
fn rejects_unknown_message_type_keyword() {
    assert!(MessageType::from_str("hello").is_err());
    let r = Message::from_str(r#"{"messagetype":"bogus"}"#);
    assert!(matches!(r, Err(ProtocolError::UnknownMessageType)));
}

#[test]
fn rejects_text_that_is_not_json() {
    let r = Message::from_str("this is not json");
    assert!(matches!(r, Err(ProtocolError::DeserializationError(_))));
}

#[test]
fn rejects_json_without_a_game_state() {
    let r = Message::from_str(r#"{"messagetype":"welcome"}"#);
    assert!(matches!(r, Err(ProtocolError::MissingGamestate)));
    let r = Message::from_str(r#"{"pelletsleft":3}"#);
    assert!(matches!(r, Err(ProtocolError::MissingGamestate)));
}
