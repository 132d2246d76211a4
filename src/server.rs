use vstd::prelude::*;

use crate::address::PeerAddress;

verus! {

/// The outline of a game server's public surface. It keeps no state of its
/// own: every operation is accepted and has no effect. What it answers to a
/// client is given by `greeting` and `echo_reply`.
pub struct Server {}

impl Server {
    pub fn new() -> (r: Server) {
        Server {}
    }

    /// What a newly connected client is told.
    pub fn greeting() -> (r: String)
        ensures
            r@ == "hello new client!"@,
    {
        String::from_str("hello new client!")
    }

    /// The answer to a client's message `msg`: the message echoed back
    /// behind a fixed prefix.
    pub fn echo_reply(msg: &str) -> (r: String)
        ensures
            r@ == "echo from server: "@ + msg@,
    {
        String::from_str("echo from server: ").concat(msg)
    }

    /// Advances the server by one tick.
    pub fn update(&mut self) {
    }

    /// Starts listening on `listen_addr`.
    pub fn connect(&self, listen_addr: PeerAddress) {
    }

    /// Registers what to run when a client connects.
    pub fn on_connect<F: Fn()>(&self, func: F) {
    }

    /// Registers what to run when a client disconnects.
    pub fn on_disconnect<F: Fn()>(&self, func: F) {
    }

    /// Adds a replicated object.
    pub fn add_object(&self) {
    }

    /// Removes a replicated object.
    pub fn remove_object(&self) {
    }

    /// Sends a message to the clients.
    pub fn send_message(&self) {
    }

    /// Takes a message from the clients.
    pub fn receive_message(&self) {
    }
}

} // verus!
