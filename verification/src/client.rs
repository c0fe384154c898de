use vstd::prelude::*;

use crate::common::Direction;
use crate::protocol::{Message, ProtocolError};

verus! {

/// The port to the game server, for the surrounding program to implement:
/// identify once, then alternate between waiting for a line, decoding it,
/// and sending the chosen movement back.
pub trait AIClient {
    fn identify_as(&mut self, name: &str);

    fn wait_response(&mut self) -> bool;

    fn response(&self) -> Result<Message, ProtocolError>;

    fn send_action(&mut self, direction: &Direction);
}

} // verus!
