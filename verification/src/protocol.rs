use vstd::prelude::*;
use vstd::string::StrSliceExecFns;

use crate::common::Position;
use crate::game::GameMap;
use crate::traits::HasPosition;

verus! {

/// One player as the server reports it each tick.
#[derive(Debug, Clone, Copy, PartialEq, Eq, Structural)]
pub struct Player {
    pub id: u32,
    pub x: u32,
    pub y: u32,
    pub score: u32,
    pub is_dangerous: bool,
}

impl HasPosition for Player {
    open spec fn spec_position(&self) -> Position {
        Position { x: self.x, y: self.y }
    }

    fn position(&self) -> Position {
        Position { x: self.x, y: self.y }
    }
}

/// One tick's full snapshot: the map, the agent, and the opponents (in the
/// order the server sent them, which carries no meaning).
pub struct GameState {
    pub map: GameMap,
    pub me: Player,
    pub enemies: Vec<Player>,
}

/// The kind of an inbound server message.
#[derive(Debug, Clone, Copy, PartialEq, Eq, Structural)]
pub enum MessageType {
    Welcome,
    StateUpdate,
    Dead,
    EndOfRound,
    StartOfRound,
}

#[derive(Debug, Clone, Copy, PartialEq, Eq, Structural)]
pub enum MessageTypeError {
    UnknownType,
}

/// The message-type keyword mapping: exactly the five known keywords parse.
pub open spec fn message_type_of(s: Seq<char>) -> Result<MessageType, MessageTypeError> {
    if s == "welcome"@ {
        Ok(MessageType::Welcome)
    } else if s == "stateupdate"@ {
        Ok(MessageType::StateUpdate)
    } else if s == "dead"@ {
        Ok(MessageType::Dead)
    } else if s == "endofround"@ {
        Ok(MessageType::EndOfRound)
    } else if s == "startofround"@ {
        Ok(MessageType::StartOfRound)
    } else {
        Err(MessageTypeError::UnknownType)
    }
}

/// Character-wise string equality.
pub fn str_eq(a: &str, b: &str) -> (r: bool)
    ensures
        r == (a@ == b@),
{
    let la = a.unicode_len();
    let lb = b.unicode_len();
    if la != lb {
        return false;
    }
    let mut i: usize = 0;
    while i < la
        invariant
            la == a@.len(),
            la == b@.len(),
            0 <= i <= la,
            forall|j: int| 0 <= j < i ==> a@[j] == b@[j],
        decreases la - i,
    {
        if a.get_char(i) != b.get_char(i) {
            return false;
        }
        i += 1;
    }
    proof {
        assert(a@ =~= b@);
    }
    true
}

impl MessageType {
    /// Parses a message-type keyword.
    pub fn from_str(s: &str) -> (r: Result<MessageType, MessageTypeError>)
        ensures
            r == message_type_of(s@),
    {
        if str_eq(s, "welcome") {
            Ok(MessageType::Welcome)
        } else if str_eq(s, "stateupdate") {
            Ok(MessageType::StateUpdate)
        } else if str_eq(s, "dead") {
            Ok(MessageType::Dead)
        } else if str_eq(s, "endofround") {
            Ok(MessageType::EndOfRound)
        } else if str_eq(s, "startofround") {
            Ok(MessageType::StartOfRound)
        } else {
            Err(MessageTypeError::UnknownType)
        }
    }
}

/// An inbound server message, decoded.
pub enum Message {
    Welcome { state: GameState },
    Update { state: GameState },
    Dead,
    EndOfRound,
    StartOfRound,
}

/// Why an inbound line could not be decoded.
#[derive(Debug)]
pub enum ProtocolError {
    /// The line parsed as JSON but did not hold a usable game state.
    MissingGamestate,
    /// The message type keyword is none of the known five.
    UnknownMessageType,
    /// The line is not valid JSON at all.
    DeserializationError(serde_json::Error),
}

#[verifier::external_type_specification]
#[verifier::external_body]
pub struct ExValue(serde_json::Value);

#[verifier::external_type_specification]
#[verifier::external_body]
pub struct ExJsonError(serde_json::Error);

/// Whether a text parses as JSON; a fact of the text alone.
pub uninterp spec fn json_parses(s: Seq<char>) -> bool;

/// Relies on `serde_json::from_str::<Value>`: parses the text as JSON into
/// a generic value; whether it succeeds depends on the text alone.
#[verifier::external_body]
fn parse_json(s: &str) -> (r: Result<serde_json::Value, serde_json::Error>)
    ensures
        r is Ok == json_parses(s@),
{
    serde_json::from_str(s)
}

/// Relies on `serde_json::Value::get`: the member of a JSON object under a
/// key, or `None` when the value is no object or has no such member.
#[verifier::external_body]
fn value_get<'a>(v: &'a serde_json::Value, key: &str) -> (r: Option<&'a serde_json::Value>)
{
    v.get(key)
}

/// Relies on `serde_json::Value::as_str`: the text of a JSON string value,
/// or `None` for any other kind of value.
#[verifier::external_body]
fn value_as_string(v: &serde_json::Value) -> (r: Option<String>)
{
    match v.as_str() {
        Some(s) => Some(s.to_owned()),
        None => None,
    }
}

/// Relies on `serde_json::Value::as_u64`: the value of a JSON non-negative
/// integer if it fits, `None` otherwise.
#[verifier::external_body]
fn value_as_u64(v: &serde_json::Value) -> (r: Option<u64>)
{
    v.as_u64()
}

/// Relies on `serde_json::Value::as_bool`: the value of a JSON boolean,
/// `None` for any other kind of value.
#[verifier::external_body]
fn value_as_bool(v: &serde_json::Value) -> (r: Option<bool>)
{
    v.as_bool()
}

/// Relies on `serde_json::Value::as_array`: the elements of a JSON array,
/// `None` for any other kind of value.
#[verifier::external_body]
fn value_as_array<'a>(v: &'a serde_json::Value) -> (r: Option<&'a Vec<serde_json::Value>>)
{
    v.as_array()
}

/// A `u64` member of a JSON object that fits in a `u32`.
fn object_u32(v: &serde_json::Value, key: &str) -> (r: Option<u32>)
    ensures
        r matches Some(n) ==> n <= u32::MAX,
{
    match value_get(v, key) {
        None => None,
        Some(member) => match value_as_u64(member) {
            None => None,
            Some(n) => {
                if n <= u32::MAX as u64 {
                    Some(n as u32)
                } else {
                    None
                }
            },
        },
    }
}

/// Decodes one player object: `id`, `x` and `y` are required; `score` and
/// `isdangerous` default to zero and false, as the welcome message omits
/// them.
fn player_from_value(v: &serde_json::Value) -> (r: Option<Player>) {
    let id = match object_u32(v, "id") {
        Some(n) => n,
        None => {
            return None;
        },
    };
    let x = match object_u32(v, "x") {
        Some(n) => n,
        None => {
            return None;
        },
    };
    let y = match object_u32(v, "y") {
        Some(n) => n,
        None => {
            return None;
        },
    };
    let score = match object_u32(v, "score") {
        Some(n) => n,
        None => 0,
    };
    let is_dangerous = match value_get(v, "isdangerous") {
        Some(member) => match value_as_bool(member) {
            Some(b) => b,
            None => false,
        },
        None => false,
    };
    Some(Player { id, x, y, score, is_dangerous })
}

/// Decodes a map object: the `content` rows of tile characters and the
/// declared `width`; the tile grid itself is built and checked by
/// [`GameMap::from_rows`].
fn map_from_value(v: &serde_json::Value) -> (r: Option<GameMap>)
    ensures
        r matches Some(m) ==> m.wf(),
{
    let width = match object_u32(v, "width") {
        Some(n) => n,
        None => {
            return None;
        },
    };
    let content = match value_get(v, "content") {
        Some(member) => member,
        None => {
            return None;
        },
    };
    let items = match value_as_array(content) {
        Some(a) => a,
        None => {
            return None;
        },
    };
    let mut rows: Vec<String> = Vec::new();
    let mut i: usize = 0;
    while i < items.len()
        decreases items@.len() - i,
    {
        match value_as_string(&items[i]) {
            Some(s) => rows.push(s),
            None => {
                return None;
            },
        }
        i += 1;
    }
    GameMap::from_rows(&rows, width)
}

/// Decodes a full game state: the map, the `you` player, and the optional
/// `others` list.
fn game_state_from_value(v: &serde_json::Value) -> (r: Option<GameState>)
    ensures
        r matches Some(state) ==> state.map.wf(),
{
    let map_value = match value_get(v, "map") {
        Some(member) => member,
        None => {
            return None;
        },
    };
    let map = match map_from_value(map_value) {
        Some(m) => m,
        None => {
            return None;
        },
    };
    let me_value = match value_get(v, "you") {
        Some(member) => member,
        None => {
            return None;
        },
    };
    let me = match player_from_value(me_value) {
        Some(p) => p,
        None => {
            return None;
        },
    };
    let mut enemies: Vec<Player> = Vec::new();
    if let Some(others) = value_get(v, "others") {
        if let Some(items) = value_as_array(others) {
            let mut i: usize = 0;
            while i < items.len()
                decreases items@.len() - i,
            {
                match player_from_value(&items[i]) {
                    Some(p) => enemies.push(p),
                    None => {
                        return None;
                    },
                }
                i += 1;
            }
        }
    }
    Some(GameState { map, me, enemies })
}

/// Decodes a bare map object (its `content` rows and `width`) from JSON
/// text; the result is always a well-formed map.
pub fn parse_map(s: &str) -> (r: Option<GameMap>)
    ensures
        r matches Some(m) ==> m.wf(),
{
    match parse_json(s) {
        Err(_) => None,
        Ok(v) => map_from_value(&v),
    }
}

impl Message {
    /// Decodes one line from the server. A line that is not JSON yields
    /// `DeserializationError`; JSON without a usable game state yields
    /// `MissingGamestate`; an unknown keyword yields `UnknownMessageType`.
    /// A decoded state always carries a well-formed map.
    pub fn from_str(s: &str) -> (r: Result<Message, ProtocolError>)
        ensures
            !json_parses(s@) ==> (r matches Err(e) && e is DeserializationError),
            (r matches Ok(msg) && msg is Welcome) ==> r->Ok_0->Welcome_state.map.wf(),
            (r matches Ok(msg) && msg is Update) ==> r->Ok_0->Update_state.map.wf(),
    {
        let v = match parse_json(s) {
            Ok(v) => v,
            Err(e) => {
                return Err(ProtocolError::DeserializationError(e));
            },
        };
        let type_member = match value_get(&v, "messagetype") {
            Some(member) => member,
            None => {
                return Err(ProtocolError::MissingGamestate);
            },
        };
        let type_text = match value_as_string(type_member) {
            Some(t) => t,
            None => {
                return Err(ProtocolError::MissingGamestate);
            },
        };
        let message_type = match MessageType::from_str(type_text.as_str()) {
            Ok(t) => t,
            Err(_) => {
                return Err(ProtocolError::UnknownMessageType);
            },
        };
        match message_type {
            MessageType::Welcome => match game_state_from_value(&v) {
                Some(state) => Ok(Message::Welcome { state }),
                None => Err(ProtocolError::MissingGamestate),
            },
            MessageType::StateUpdate => {
                let inner = match value_get(&v, "gamestate") {
                    Some(member) => member,
                    None => {
                        return Err(ProtocolError::MissingGamestate);
                    },
                };
                match game_state_from_value(inner) {
                    Some(state) => Ok(Message::Update { state }),
                    None => Err(ProtocolError::MissingGamestate),
                }
            },
            MessageType::Dead => Ok(Message::Dead),
            MessageType::EndOfRound => Ok(Message::EndOfRound),
            MessageType::StartOfRound => Ok(Message::StartOfRound),
        }
    }
}

} // verus!
