//! One end of a tunnel, with or without encryption.
use crate::crypto::{KEY_LEN, NONCE_LEN, TAG_LEN};
use crate::direct::crypto;
use crate::encrypted::Direction;
use crate::frame;
use crate::frame::{FrameError, FrameRead, FrameView};
use crate::plain::PlainTunnel;
use vstd::prelude::*;

verus! {

/// One end of an encrypted tunnel. Only the frames that it sends are counted.
#[derive(Debug, Clone, Copy)]
pub struct EncryptedTunnel {
    pub client_key: [u8; KEY_LEN],
    pub server_key: [u8; KEY_LEN],
    /// The number of the next nonce for frames from the client.
    pub c_nonce: u64,
    /// The number of the next nonce for frames from the server.
    pub s_nonce: u64,
    pub is_client: bool,
    /// Whether the stream has gone over to the relay, after which no frame can
    /// be sent or received.
    pub relaying: bool,
}

/// The two kinds of an end.
#[derive(Debug, Clone, Copy)]
pub enum TunnelInner {
    Plain(PlainTunnel),
    Encrypted(EncryptedTunnel),
}

/// One end of a tunnel.
#[derive(Debug, Clone, Copy)]
pub struct Tunnel {
    pub inner: TunnelInner,
}

/// How an end relays.
#[derive(Debug, Clone, Copy)]
pub enum Relay {
    /// The bytes as they are.
    Plain,
    /// The direction into the tunnel, and the key of the direction out of it.
    Encrypted(Direction, [u8; KEY_LEN]),
}

impl EncryptedTunnel {
    /// The key of the frames that this end sends.
    pub open spec fn send_key(self) -> [u8; KEY_LEN] {
        if self.is_client {
            self.client_key
        } else {
            self.server_key
        }
    }

    /// The key of the frames that this end receives.
    pub open spec fn recv_key(self) -> [u8; KEY_LEN] {
        if self.is_client {
            self.server_key
        } else {
            self.client_key
        }
    }

    /// The number of the nonce of the next frame that this end sends.
    pub open spec fn send_nonce(self) -> u64 {
        if self.is_client {
            self.c_nonce
        } else {
            self.s_nonce
        }
    }

    /// The end after it has sent one frame.
    pub open spec fn after_send(self) -> EncryptedTunnel {
        if self.is_client {
            EncryptedTunnel { c_nonce: (self.c_nonce + 1) as u64, ..self }
        } else {
            EncryptedTunnel { s_nonce: (self.s_nonce + 1) as u64, ..self }
        }
    }

    /// An end with the keys of a handshake.
    pub fn new(client_key: [u8; KEY_LEN], server_key: [u8; KEY_LEN], is_client: bool) -> (r: Self)
        ensures
            r == (EncryptedTunnel {
                client_key,
                server_key,
                c_nonce: 0,
                s_nonce: 0,
                is_client,
                relaying: false,
            }),
    {
        EncryptedTunnel {
            client_key,
            server_key,
            c_nonce: 0,
            s_nonce: 0,
            is_client,
            relaying: false,
        }
    }

    /// The bytes to write for a frame.
    pub fn send_frame(&mut self, data: &[u8]) -> (r: Result<Vec<u8>, FrameError>)
        requires
            !old(self).relaying,
            data@.len() <= crypto::MAX_PLAINTEXT ==> old(self).send_nonce() < u64::MAX,
        ensures
            match r {
                Ok(wire) => {
                    &&& data@.len() <= crypto::MAX_PLAINTEXT
                    &&& wire@ == crypto::sealed_frame(
                        data@,
                        old(self).send_key()@,
                        old(self).send_nonce(),
                    )
                    &&& wire@.len() == 2 + NONCE_LEN + data@.len() + TAG_LEN
                    &&& crypto::carries(wire@, data@, old(self).send_key()@)
                    &&& *final(self) == old(self).after_send()
                },
                Err(e) => {
                    &&& data@.len() > crypto::MAX_PLAINTEXT
                    &&& e == (FrameError::TooLarge {
                        len: data@.len() as usize,
                        max: crypto::MAX_PLAINTEXT,
                    })
                    &&& *final(self) == *old(self)
                },
            },
    {
        if self.is_client {
            let mut nonce = self.c_nonce;
            let r = crypto::write_encrypted_frame(data, &self.client_key, &mut nonce);
            self.c_nonce = nonce;
            r
        } else {
            let mut nonce = self.s_nonce;
            let r = crypto::write_encrypted_frame(data, &self.server_key, &mut nonce);
            self.s_nonce = nonce;
            r
        }
    }

    /// Reads a frame from the bytes that have arrived since the last one.
    pub fn recv_frame(&self, received: &[u8], at_end: bool) -> (r: Result<FrameRead, FrameError>)
        requires
            !self.relaying,
        ensures
            frame::read_view(r) == crypto::encrypted_read(received@, at_end, self.recv_key()@),
    {
        if self.is_client {
            crypto::read_encrypted_frame(received, at_end, &self.server_key)
        } else {
            crypto::read_encrypted_frame(received, at_end, &self.client_key)
        }
    }

    /// Gives the stream over to the relay: the direction into the tunnel, and
    /// the key of the direction out of it.
    pub fn relay_bidirectional(&mut self) -> (r: (Direction, [u8; KEY_LEN]))
        requires
            !old(self).relaying,
        ensures
            *final(self) == (EncryptedTunnel { relaying: true, ..*old(self) }),
            r.0 == (Direction { key: old(self).send_key(), nonce: old(self).send_nonce() }),
            r.1 == old(self).recv_key(),
    {
        self.relaying = true;
        if self.is_client {
            (Direction { key: self.client_key, nonce: self.c_nonce }, self.server_key)
        } else {
            (Direction { key: self.server_key, nonce: self.s_nonce }, self.client_key)
        }
    }
}

impl Tunnel {
    /// Whether the stream has gone over to the relay.
    pub open spec fn relaying(self) -> bool {
        match self.inner {
            TunnelInner::Plain(t) => t.relaying,
            TunnelInner::Encrypted(t) => t.relaying,
        }
    }

    /// Whether a frame with this data can be counted, where it is to be counted.
    pub open spec fn can_count(self, data: Seq<u8>) -> bool {
        match self.inner {
            TunnelInner::Plain(_) => true,
            TunnelInner::Encrypted(t) => data.len() <= crypto::MAX_PLAINTEXT ==> t.send_nonce()
                < u64::MAX,
        }
    }

    /// The end after it has sent one frame.
    pub open spec fn after_send(self) -> Tunnel {
        match self.inner {
            TunnelInner::Plain(_) => self,
            TunnelInner::Encrypted(t) => Tunnel { inner: TunnelInner::Encrypted(t.after_send()) },
        }
    }

    /// Whether `wire` is what this end writes for a frame.
    pub open spec fn writes(self, data: Seq<u8>, wire: Seq<u8>) -> bool {
        match self.inner {
            TunnelInner::Plain(_) => wire == frame::framed(data),
            TunnelInner::Encrypted(t) => {
                &&& wire == crypto::sealed_frame(data, t.send_key()@, t.send_nonce())
                &&& crypto::carries(wire, data, t.send_key()@)
            },
        }
    }

    /// What the bytes that have arrived hold of a frame for this end.
    pub open spec fn reads(self, received: Seq<u8>, at_end: bool) -> Result<FrameView, FrameError> {
        match self.inner {
            TunnelInner::Plain(_) => frame::frame_read(received, at_end),
            TunnelInner::Encrypted(t) => crypto::encrypted_read(received, at_end, t.recv_key()@),
        }
    }

    /// An end with the keys of a handshake, where there was one.
    pub fn new(keys: Option<([u8; KEY_LEN], [u8; KEY_LEN])>, is_client: bool) -> (r: Self)
        ensures
            r.inner == match keys {
                Some((client_key, server_key)) => TunnelInner::Encrypted(
                    EncryptedTunnel {
                        client_key,
                        server_key,
                        c_nonce: 0,
                        s_nonce: 0,
                        is_client,
                        relaying: false,
                    },
                ),
                None => TunnelInner::Plain(PlainTunnel { relaying: false }),
            },
    {
        let inner = match keys {
            Some((ck, sk)) => TunnelInner::Encrypted(EncryptedTunnel::new(ck, sk, is_client)),
            None => TunnelInner::Plain(PlainTunnel::new()),
        };
        Tunnel { inner }
    }

    /// The bytes to write for a frame.
    pub fn send_frame(&mut self, data: &[u8]) -> (r: Result<Vec<u8>, FrameError>)
        requires
            !old(self).relaying(),
            old(self).can_count(data@),
        ensures
            match r {
                Ok(wire) => old(self).writes(data@, wire@) && *final(self) == old(
                    self,
                ).after_send(),
                Err(e) => {
                    &&& e == (FrameError::TooLarge {
                        len: data@.len() as usize,
                        max: crypto::MAX_PLAINTEXT,
                    })
                    &&& *final(self) == *old(self)
                },
            },
            r is Err <==> old(self).inner is Encrypted && data@.len() > crypto::MAX_PLAINTEXT,
            old(self).inner is Encrypted ==> (r matches Ok(wire) ==> wire@.len() == 2 + NONCE_LEN
                + data@.len() + TAG_LEN),
    {
        match self.inner {
            TunnelInner::Plain(t) => {
                let mut t = t;
                Ok(t.send_frame(data))
            },
            TunnelInner::Encrypted(t) => {
                let mut t = t;
                let r = t.send_frame(data);
                self.inner = TunnelInner::Encrypted(t);
                r
            },
        }
    }

    /// Reads a frame from the bytes that have arrived since the last one.
    pub fn recv_frame(&mut self, received: &[u8], at_end: bool) -> (r: Result<
        FrameRead,
        FrameError,
    >)
        requires
            !old(self).relaying(),
        ensures
            frame::read_view(r) == old(self).reads(received@, at_end),
            *final(self) == *old(self),
    {
        match self.inner {
            TunnelInner::Plain(t) => {
                let mut t = t;
                t.recv_frame(received, at_end)
            },
            TunnelInner::Encrypted(t) => t.recv_frame(received, at_end),
        }
    }

    /// Gives the stream over to the relay.
    pub fn relay_bidirectional(&mut self) -> (r: Relay)
        requires
            !old(self).relaying(),
        ensures
            final(self).inner == match old(self).inner {
                TunnelInner::Plain(_) => TunnelInner::Plain(PlainTunnel { relaying: true }),
                TunnelInner::Encrypted(t) => TunnelInner::Encrypted(
                    EncryptedTunnel { relaying: true, ..t },
                ),
            },
            r == match old(self).inner {
                TunnelInner::Plain(_) => Relay::Plain,
                TunnelInner::Encrypted(t) => Relay::Encrypted(
                    Direction { key: t.send_key(), nonce: t.send_nonce() },
                    t.recv_key(),
                ),
            },
    {
        match self.inner {
            TunnelInner::Plain(t) => {
                let mut t = t;
                t.relay_bidirectional();
                self.inner = TunnelInner::Plain(t);
                Relay::Plain
            },
            TunnelInner::Encrypted(t) => {
                let mut t = t;
                let (out, back) = t.relay_bidirectional();
                self.inner = TunnelInner::Encrypted(t);
                Relay::Encrypted(out, back)
            },
        }
    }
}

/// Whether two ends belong together: both without encryption, or opposite sides
/// with the same keys.
pub open spec fn paired(a: Tunnel, b: Tunnel) -> bool {
    match (a.inner, b.inner) {
        (TunnelInner::Plain(_), TunnelInner::Plain(_)) => true,
        (TunnelInner::Encrypted(x), TunnelInner::Encrypted(y)) => {
            &&& x.is_client != y.is_client
            &&& x.client_key@ == y.client_key@
            &&& x.server_key@ == y.server_key@
        },
        _ => false,
    }
}

/// A frame that one end sends is what the other end receives, whatever follows
/// it, and the two ends still belong together. This does not hold of data of
/// more than 65535 bytes.
pub proof fn lemma_paired_exchange(
    a: Tunnel,
    b: Tunnel,
    data: Seq<u8>,
    wire: Seq<u8>,
    rest: Seq<u8>,
    at_end: bool,
)
    requires
        paired(a, b),
        a.writes(data, wire),
        data.len() <= 65535,
    ensures
        b.reads(wire + rest, at_end) == Ok::<_, FrameError>(FrameView::Frame(data)),
        paired(a.after_send(), b),
{
    match a.inner {
        TunnelInner::Plain(_) => frame::lemma_frame_roundtrip(data, rest, at_end),
        TunnelInner::Encrypted(t) => crypto::lemma_encrypted_roundtrip(
            wire,
            data,
            t.send_key()@,
            rest,
            at_end,
        ),
    }
}

} // verus!
