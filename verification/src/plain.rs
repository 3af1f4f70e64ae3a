//! The tunnel without encryption: frames with a length prefix, and after them
//! the bytes of the relay as they are.
use crate::frame;
use crate::frame::{FrameError, FrameRead};
use vstd::prelude::*;

verus! {

/// One end of a tunnel without encryption.
#[derive(Debug, Clone, Copy)]
pub struct PlainTunnel {
    /// Whether the stream has gone over to the relay, after which no frame can
    /// be sent or received.
    pub relaying: bool,
}

impl PlainTunnel {
    pub fn new() -> (r: Self)
        ensures
            !r.relaying,
    {
        PlainTunnel { relaying: false }
    }

    /// The bytes to write for a frame.
    pub fn send_frame(&mut self, data: &[u8]) -> (r: Vec<u8>)
        requires
            !old(self).relaying,
        ensures
            *final(self) == *old(self),
            r@ == frame::framed(data@),
    {
        frame::write_frame(data)
    }

    /// Reads a frame from the bytes that have arrived since the last one.
    pub fn recv_frame(&mut self, received: &[u8], at_end: bool) -> (r: Result<
        FrameRead,
        FrameError,
    >)
        requires
            !old(self).relaying,
        ensures
            *final(self) == *old(self),
            frame::read_view(r) == frame::frame_read(received@, at_end),
    {
        frame::read_frame(received, at_end)
    }

    /// Gives the stream over to the relay.
    pub fn relay_bidirectional(&mut self)
        requires
            !old(self).relaying,
        ensures
            final(self).relaying,
    {
        self.relaying = true;
    }
}

/// The way to a server without encryption.
#[derive(Debug, Clone)]
pub struct PlainConnector {
    pub server_addr: String,
}

impl PlainConnector {
    pub fn new(server_addr: String) -> (r: Self)
        ensures
            r.server_addr == server_addr,
    {
        PlainConnector { server_addr }
    }
}

} // verus!
