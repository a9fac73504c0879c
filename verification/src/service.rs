//! Service-level message handling.
//!
//! The peer boundary hands application payloads to per-service message
//! handlers.  The scabbard handler is the simplest of these: it
//! acknowledges every message addressed to it.

use vstd::prelude::*;

verus! {

/// A failure while handling a service message.  Handling cannot
/// currently fail; the type exists for the handler's reply.
#[derive(Debug)]
pub enum MessageHandlerError {
    InternalError,
}

/// The message handler for scabbard services.
#[derive(Debug)]
pub struct ScabbardMessageHandler {}

impl ScabbardMessageHandler {
    pub fn new() -> (r: Self)
        ensures
            r == (ScabbardMessageHandler {  }),
    {
        ScabbardMessageHandler {  }
    }

    /// Handles one message addressed from one service to another.  Every
    /// message is accepted.
    pub fn handle_message(&mut self, to_service: &String, from_service: &String) -> (r: Result<
        (),
        MessageHandlerError,
    >)
        ensures
            r matches Ok(u),
    {
        Ok(())
    }
}

impl Default for ScabbardMessageHandler {
    fn default() -> (r: Self)
        ensures
            r == (ScabbardMessageHandler {  }),
    {
        ScabbardMessageHandler {  }
    }
}

} // verus!
