//! The encrypted tunnel: one key and one counter for each direction.
use crate::crypto;
use crate::crypto::KEY_LEN;
use crate::frame;
use crate::frame::{FrameError, FrameRead, FrameView};
use crate::stream;
use vstd::prelude::*;

verus! {

/// One end of an encrypted tunnel.
#[derive(Debug, Clone, Copy)]
pub struct EncryptedTunnel {
    pub client_key: [u8; KEY_LEN],
    pub server_key: [u8; KEY_LEN],
    /// The number of the next nonce for frames from the client.
    pub c_nonce: u64,
    /// The number of the next nonce for frames from the server.
    pub s_nonce: u64,
    pub is_client: bool,
    /// Whether the stream has gone over to the relay, after which no frame can
    /// be sent or received.
    pub relaying: bool,
}

/// One direction of a relay: its key and the number of its next nonce.
#[derive(Debug, Clone, Copy)]
pub struct Direction {
    pub key: [u8; KEY_LEN],
    pub nonce: u64,
}

impl EncryptedTunnel {
    /// The key of the frames that this end sends.
    pub open spec fn send_key(self) -> [u8; KEY_LEN] {
        if self.is_client {
            self.client_key
        } else {
            self.server_key
        }
    }

    /// The key of the frames that this end receives.
    pub open spec fn recv_key(self) -> [u8; KEY_LEN] {
        if self.is_client {
            self.server_key
        } else {
            self.client_key
        }
    }

    /// The number of the nonce of the next frame that this end sends.
    pub open spec fn send_nonce(self) -> u64 {
        if self.is_client {
            self.c_nonce
        } else {
            self.s_nonce
        }
    }

    /// The number of the nonce of the next frame that this end receives.
    pub open spec fn recv_nonce(self) -> u64 {
        if self.is_client {
            self.s_nonce
        } else {
            self.c_nonce
        }
    }

    /// The end after it has sent one frame.
    pub open spec fn after_send(self) -> EncryptedTunnel {
        if self.is_client {
            EncryptedTunnel { c_nonce: (self.c_nonce + 1) as u64, ..self }
        } else {
            EncryptedTunnel { s_nonce: (self.s_nonce + 1) as u64, ..self }
        }
    }

    /// The end after it has received one frame.
    pub open spec fn after_recv(self) -> EncryptedTunnel {
        if self.is_client {
            EncryptedTunnel { s_nonce: (self.s_nonce + 1) as u64, ..self }
        } else {
            EncryptedTunnel { c_nonce: (self.c_nonce + 1) as u64, ..self }
        }
    }

    /// An end with the keys of a handshake.
    pub fn new(client_key: [u8; KEY_LEN], server_key: [u8; KEY_LEN], is_client: bool) -> (r: Self)
        ensures
            r == (EncryptedTunnel {
                client_key,
                server_key,
                c_nonce: 0,
                s_nonce: 0,
                is_client,
                relaying: false,
            }),
    {
        EncryptedTunnel {
            client_key,
            server_key,
            c_nonce: 0,
            s_nonce: 0,
            is_client,
            relaying: false,
        }
    }

    /// The bytes to write for a frame.
    pub fn send_frame(&mut self, data: &[u8]) -> (r: Result<Vec<u8>, FrameError>)
        requires
            !old(self).relaying,
            data@.len() <= crypto::MAX_PLAINTEXT ==> old(self).send_nonce() < u64::MAX,
        ensures
            match r {
                Ok(wire) => {
                    &&& data@.len() <= crypto::MAX_PLAINTEXT
                    &&& wire@ == crypto::sealed_frame(
                        data@,
                        old(self).send_key()@,
                        old(self).send_nonce(),
                    )
                    &&& wire@.len() == 2 + data@.len() + crypto::TAG_LEN
                    &&& crypto::carries(
                        wire@,
                        data@,
                        old(self).send_key()@,
                        old(self).send_nonce(),
                    )
                    &&& *final(self) == old(self).after_send()
                },
                Err(e) => {
                    &&& data@.len() > crypto::MAX_PLAINTEXT
                    &&& e == (FrameError::TooLarge {
                        len: data@.len() as usize,
                        max: crypto::MAX_PLAINTEXT,
                    })
                    &&& *final(self) == *old(self)
                },
            },
    {
        if self.is_client {
            let mut nonce = self.c_nonce;
            let r = crypto::write_encrypted_frame(data, &self.client_key, &mut nonce);
            self.c_nonce = nonce;
            r
        } else {
            let mut nonce = self.s_nonce;
            let r = crypto::write_encrypted_frame(data, &self.server_key, &mut nonce);
            self.s_nonce = nonce;
            r
        }
    }

    /// Reads a frame from the bytes that have arrived since the last one.
    pub fn recv_frame(&mut self, received: &[u8], at_end: bool) -> (r: Result<
        FrameRead,
        FrameError,
    >)
        requires
            !old(self).relaying,
            crypto::frame_arrived(received@) ==> old(self).recv_nonce() < u64::MAX,
        ensures
            frame::read_view(r) == crypto::encrypted_read(
                received@,
                at_end,
                old(self).recv_key()@,
                old(self).recv_nonce(),
            ),
            *final(self) == (if r matches Ok(FrameRead::Frame(_)) {
                old(self).after_recv()
            } else {
                *old(self)
            }),
    {
        if self.is_client {
            let mut nonce = self.s_nonce;
            let r = crypto::read_encrypted_frame(received, at_end, &self.server_key, &mut nonce);
            self.s_nonce = nonce;
            r
        } else {
            let mut nonce = self.c_nonce;
            let r = crypto::read_encrypted_frame(received, at_end, &self.client_key, &mut nonce);
            self.c_nonce = nonce;
            r
        }
    }

    /// Gives the stream over to the relay: the direction into the tunnel, and
    /// the direction out of it.
    pub fn relay_bidirectional(&mut self) -> (r: (Direction, Direction))
        requires
            !old(self).relaying,
        ensures
            *final(self) == (EncryptedTunnel { relaying: true, ..*old(self) }),
            r.0 == (Direction { key: old(self).send_key(), nonce: old(self).send_nonce() }),
            r.1 == (Direction { key: old(self).recv_key(), nonce: old(self).recv_nonce() }),
    {
        self.relaying = true;
        let client = Direction { key: self.client_key, nonce: self.c_nonce };
        let server = Direction { key: self.server_key, nonce: self.s_nonce };
        if self.is_client {
            (client, server)
        } else {
            (server, client)
        }
    }
}

/// What comes of a relay once one of its directions has ended: the relay has
/// succeeded even where the direction failed, whose error is only reported.
pub fn relay_ended(outcome: Result<(), String>) -> (r: (Result<(), FrameError>, Option<String>))
    ensures
        r.0 is Ok,
        r.1 == match outcome {
            Ok(_) => None,
            Err(t) => Some(t),
        },
{
    match outcome {
        Ok(_) => (Ok(()), None),
        Err(t) => (Ok(()), Some(t)),
    }
}

/// Whether the end `b` reads what the end `a` sends: it has the key, and has
/// counted as many frames in this direction. The other direction does not
/// matter.
pub open spec fn linked(a: EncryptedTunnel, b: EncryptedTunnel) -> bool {
    a.send_key()@ == b.recv_key()@ && a.send_nonce() == b.recv_nonce()
}

/// The two ends that come of one handshake are linked in both directions: each
/// has the keys that its own nonce and that of its peer give, and has counted
/// nothing yet.
pub proof fn lemma_handshake_links(
    client: EncryptedTunnel,
    server: EncryptedTunnel,
    psk: Seq<u8>,
    client_nonce: Seq<u8>,
    server_nonce: Seq<u8>,
)
    requires
        client.is_client && !server.is_client,
        client.c_nonce == 0 && client.s_nonce == 0,
        server.c_nonce == 0 && server.s_nonce == 0,
        (client.client_key@, client.server_key@) == crypto::handshake_keys(
            psk,
            true,
            client_nonce,
            server_nonce,
        ),
        (server.client_key@, server.server_key@) == crypto::handshake_keys(
            psk,
            false,
            server_nonce,
            client_nonce,
        ),
    ensures
        linked(client, server),
        linked(server, client),
{
    crypto::lemma_handshake_agrees(psk, client_nonce, server_nonce);
}

/// A frame that one end sends is what the other end receives, and the two are
/// still linked afterwards. What either does in the other direction leaves the
/// link as it is.
pub proof fn lemma_linked_exchange(
    a: EncryptedTunnel,
    b: EncryptedTunnel,
    data: Seq<u8>,
    wire: Seq<u8>,
    rest: Seq<u8>,
    at_end: bool,
)
    requires
        linked(a, b),
        crypto::carries(wire, data, a.send_key()@, a.send_nonce()),
    ensures
        crypto::encrypted_read(wire + rest, at_end, b.recv_key()@, b.recv_nonce()) == Ok::<
            _,
            FrameError,
        >(FrameView::Frame(data)),
        linked(a.after_send(), b.after_recv()),
        linked(a.after_recv(), b),
        linked(a, b.after_send()),
{
    crypto::lemma_encrypted_roundtrip(wire, data, a.send_key()@, a.send_nonce(), rest, at_end);
}

/// When a linked end starts to relay, what goes in there comes out at the other
/// end: every chunk, in order, and then the end.
pub proof fn lemma_linked_relay(
    a: EncryptedTunnel,
    b: EncryptedTunnel,
    chunks: Seq<Seq<u8>>,
    wires: Seq<Seq<u8>>,
)
    requires
        linked(a, b),
        crypto::all_carry(wires, chunks, a.send_key()@, a.send_nonce()),
    ensures
        ({
            let (out, end) = crypto::decode_stream(
                stream::joined(wires),
                b.recv_key()@,
                b.recv_nonce(),
            );
            out == chunks && stream::joined(out) == stream::joined(chunks) && end is Ok
        }),
{
    crypto::lemma_stream_roundtrip(wires, chunks, a.send_key()@, a.send_nonce());
}

/// The way to a server with encryption.
#[derive(Debug, Clone)]
pub struct EncryptedConnector {
    pub server_addr: String,
    pub psk: [u8; KEY_LEN],
}

impl EncryptedConnector {
    pub fn new(server_addr: String, psk: [u8; KEY_LEN]) -> (r: Self)
        ensures
            r.server_addr == server_addr,
            r.psk == psk,
    {
        EncryptedConnector { server_addr, psk }
    }
}

} // verus!
