//! The server side of the direct variant: with keys, the header and the status
//! are encrypted frames; without, they are bare bytes.
use crate::bytes;
use crate::client;
use crate::crypto::{KEY_LEN, NONCE_LEN, TAG_LEN};
use crate::direct::client as direct_client;
use crate::direct::crypto;
use crate::direct::tunnel::Relay;
use crate::encrypted::Direction;
use crate::frame::{FrameError, FrameRead, FrameView};
use crate::protocol;
use crate::protocol::{AddressRead, AddressType, HeaderError, SocksReply};
use crate::server;
use crate::server::{ServerError, STATUS_REFUSED};
use vstd::prelude::*;
use vstd::slice::slice_subrange;

verus! {

/// One client of the server: the keys of the handshake, where there was one,
/// and the number of the next nonce for frames to the client.
#[derive(Debug, Clone, Copy)]
pub struct ServerSession {
    pub keys: Option<([u8; KEY_LEN], [u8; KEY_LEN])>,
    pub s_nonce: u64,
}

impl ServerSession {
    pub fn new(keys: Option<([u8; KEY_LEN], [u8; KEY_LEN])>) -> (r: Self)
        ensures
            r == (ServerSession { keys, s_nonce: 0 }),
    {
        ServerSession { keys, s_nonce: 0 }
    }

    /// How the session relays once its status is written: without keys the
    /// bytes as they are; with keys, to the client under the key of the server
    /// from the next nonce on, and from the client under its own key.
    pub fn relay(&self) -> (r: Relay)
        ensures
            r == match self.keys {
                None => Relay::Plain,
                Some((client_key, server_key)) => Relay::Encrypted(
                    Direction { key: server_key, nonce: self.s_nonce },
                    client_key,
                ),
            },
    {
        match self.keys {
            None => Relay::Plain,
            Some((client_key, server_key)) => Relay::Encrypted(
                Direction { key: server_key, nonce: self.s_nonce },
                client_key,
            ),
        }
    }
}

/// Why a client is not served.
#[derive(Debug, Clone, Copy, PartialEq, Eq, Structural)]
pub enum SessionError {
    Server(ServerError),
    Frame(FrameError),
}

impl SessionError {
    /// The error in words.
    pub open spec fn message_text(self) -> Seq<char> {
        match self {
            SessionError::Server(e) => e.message_text(),
            SessionError::Frame(e) => e.message_text(),
        }
    }

    pub fn message(&self) -> (r: String)
        ensures
            r@ == self.message_text(),
    {
        match self {
            SessionError::Server(e) => e.message(),
            SessionError::Frame(e) => e.message(),
        }
    }
}

/// What the server learns of a client.
#[derive(Debug)]
pub enum SessionEvent {
    /// The bytes that have arrived since the handshake, and whether no more
    /// will come.
    Received(Vec<u8>, bool),
    /// The attempt to connect to the target ended, and the target is reached or
    /// not.
    Connected(bool),
}

/// What the server does next for a client.
#[derive(Debug)]
pub enum SessionAction {
    /// Read so many bytes more.
    Read(usize),
    /// Connect to this target.
    Connect(String),
    /// Write this and relay.
    Relay(Vec<u8>),
    /// Write this and end with the error of the attempt.
    Refuse(Vec<u8>),
    Fail(SessionError),
}

/// A `SessionAction` as a mathematical value.
pub enum SessionActionView {
    Read(int),
    Connect(Seq<char>),
    Relay(Seq<u8>),
    Refuse(Seq<u8>),
    Fail(SessionError),
}

impl View for SessionAction {
    type V = SessionActionView;

    open spec fn view(&self) -> SessionActionView {
        match self {
            SessionAction::Read(n) => SessionActionView::Read(*n as int),
            SessionAction::Connect(target) => SessionActionView::Connect(target@),
            SessionAction::Relay(out) => SessionActionView::Relay(out@),
            SessionAction::Refuse(out) => SessionActionView::Refuse(out@),
            SessionAction::Fail(e) => SessionActionView::Fail(*e),
        }
    }
}

/// What the bytes that have arrived ask for without encryption: the kind of the
/// address, the address and the port, each as soon as it can be read.
pub open spec fn plain_request(d: Seq<u8>, at_end: bool) -> SessionActionView {
    if d.len() < 1 {
        more(1, at_end)
    } else {
        match AddressType::of_code(d[0]) {
            None => SessionActionView::Fail(
                SessionError::Server(
                    ServerError::Header(HeaderError::UnsupportedAddressType(d[0])),
                ),
            ),
            Some(kind) => {
                let addr = d.skip(1);
                let n = protocol::address_len(kind, addr);
                if addr.len() < n {
                    more(n - addr.len(), at_end)
                } else if addr.len() < n + 2 {
                    more(n + 2 - addr.len(), at_end)
                } else {
                    SessionActionView::Connect(
                        protocol::target_text(
                            protocol::address_text(kind, addr),
                            bytes::from_be16(addr[n], addr[n + 1]),
                        ),
                    )
                }
            },
        }
    }
}

/// So many bytes are missing.
pub open spec fn more(n: int, at_end: bool) -> SessionActionView {
    if at_end {
        SessionActionView::Fail(SessionError::Frame(FrameError::UnexpectedEof))
    } else {
        SessionActionView::Read(n)
    }
}

fn more_bytes(n: usize, at_end: bool) -> (r: SessionAction)
    ensures
        r@ == more(n as int, at_end),
{
    if at_end {
        SessionAction::Fail(SessionError::Frame(FrameError::UnexpectedEof))
    } else {
        SessionAction::Read(n)
    }
}

/// What the bytes that have arrived ask for with encryption: one frame is the
/// header.
pub open spec fn encrypted_request(d: Seq<u8>, at_end: bool, client_key: Seq<u8>) -> SessionActionView {
    match crypto::encrypted_read(d, at_end, client_key) {
        Ok(FrameView::Need(n)) => SessionActionView::Read(n),
        Ok(FrameView::End) => SessionActionView::Fail(
            SessionError::Server(ServerError::ClosedBeforeHeader),
        ),
        Ok(FrameView::Frame(header)) => match protocol::parsed_header(header) {
            Ok((_, addr, port)) => SessionActionView::Connect(protocol::target_text(addr, port)),
            Err(e) => SessionActionView::Fail(SessionError::Server(ServerError::Header(e))),
        },
        Err(e) => SessionActionView::Fail(SessionError::Frame(e)),
    }
}

/// What follows from the end of the attempt: the status is written, and then the
/// relay begins where the target is reached.
pub open spec fn status_told(reached: bool, out: Seq<u8>) -> SessionActionView {
    if reached {
        SessionActionView::Relay(out)
    } else {
        SessionActionView::Refuse(out)
    }
}

/// Takes what the server learns of a client, and says what to do next. With
/// keys, a status takes one nonce.
pub fn handle_client(session: &mut ServerSession, event: SessionEvent) -> (r: SessionAction)
    requires
        event is Connected && old(session).keys is Some ==> old(session).s_nonce < u64::MAX,
    ensures
        final(session).keys == old(session).keys,
        match (event, old(session).keys) {
            (SessionEvent::Received(d, at_end), None) => {
                &&& r@ == plain_request(d@, at_end)
                &&& *final(session) == *old(session)
            },
            (SessionEvent::Received(d, at_end), Some((client_key, _))) => {
                &&& r@ == encrypted_request(d@, at_end, client_key@)
                &&& *final(session) == *old(session)
            },
            (SessionEvent::Connected(reached), None) => {
                &&& r@ == status_told(reached, server::status_of(reached))
                &&& *final(session) == *old(session)
            },
            (SessionEvent::Connected(reached), Some((_, server_key))) => {
                let wire = crypto::sealed_frame(
                    server::status_of(reached),
                    server_key@,
                    old(session).s_nonce,
                );
                &&& r@ == status_told(reached, wire)
                &&& wire.len() == 2 + NONCE_LEN + 1 + TAG_LEN
                &&& crypto::carries(wire, server::status_of(reached), server_key@)
                &&& final(session).s_nonce == old(session).s_nonce + 1
            },
        },
{
    match event {
        SessionEvent::Received(d, at_end) => match session.keys {
            None => read_plain_request(d.as_slice(), at_end),
            Some((client_key, _)) => read_encrypted_request(d.as_slice(), at_end, &client_key),
        },
        SessionEvent::Connected(reached) => {
            let status = server::status_bytes(reached);
            let out = match session.keys {
                None => status,
                Some((_, server_key)) => {
                    let mut nonce = session.s_nonce;
                    let sealed = crypto::write_encrypted_frame(
                        status.as_slice(),
                        &server_key,
                        &mut nonce,
                    );
                    session.s_nonce = nonce;
                    match sealed {
                        Ok(wire) => wire,
                        Err(e) => {
                            return SessionAction::Fail(SessionError::Frame(e));
                        },
                    }
                },
            };
            if reached {
                SessionAction::Relay(out)
            } else {
                SessionAction::Refuse(out)
            }
        },
    }
}

fn read_plain_request(d: &[u8], at_end: bool) -> (r: SessionAction)
    ensures
        r@ == plain_request(d@, at_end),
{
    if d.len() < 1 {
        return more_bytes(1, at_end);
    }
    let kind = match AddressType::from_u8(d[0]) {
        Some(kind) => kind,
        None => {
            return SessionAction::Fail(
                SessionError::Server(
                    ServerError::Header(HeaderError::UnsupportedAddressType(d[0])),
                ),
            );
        },
    };
    let rest = slice_subrange(d, 1, d.len());
    assert(rest@ =~= d@.skip(1));
    match protocol::read_address(kind, rest) {
        AddressRead::Need(n) => more_bytes(n, at_end),
        AddressRead::Done(addr) => {
            let n: usize = match kind {
                AddressType::Ipv4 => 4,
                AddressType::Ipv6 => 16,
                AddressType::Domain => 1 + rest[0] as usize,
            };
            if rest.len() - n < 2 {
                more_bytes(2 - (rest.len() - n), at_end)
            } else {
                let port = bytes::read_be16(rest[n], rest[n + 1]);
                SessionAction::Connect(protocol::target_string(addr.as_str(), port))
            }
        },
    }
}

fn read_encrypted_request(d: &[u8], at_end: bool, client_key: &[u8; KEY_LEN]) -> (r: SessionAction)
    ensures
        r@ == encrypted_request(d@, at_end, client_key@),
{
    match crypto::read_encrypted_frame(d, at_end, client_key) {
        Ok(FrameRead::Need(n)) => SessionAction::Read(n),
        Ok(FrameRead::End) => SessionAction::Fail(
            SessionError::Server(ServerError::ClosedBeforeHeader),
        ),
        Ok(FrameRead::Frame(header)) => match protocol::parse_header(header.as_slice()) {
            Ok((_, addr, port)) => SessionAction::Connect(
                protocol::target_string(addr.as_str(), port),
            ),
            Err(e) => SessionAction::Fail(SessionError::Server(ServerError::Header(e))),
        },
        Err(e) => SessionAction::Fail(SessionError::Frame(e)),
    }
}

/// The target that the server connects to is the one that the client's bare
/// header was written for. An IPv6 address is in its full form. An address that
/// is a name of more than 255 bytes is left out: its length does not fit in the
/// header.
pub proof fn lemma_plain_target(addr: Seq<char>, port: u16, at_end: bool)
    requires
        protocol::encoded_address(addr).0 == AddressType::Domain
            ==> vstd::utf8::encode_utf8(addr).len() <= 255,
    ensures
        plain_request(client::target_of(addr, port).header, at_end) == SessionActionView::Connect(
            protocol::target_text(protocol::far_text(addr), port),
        ),
{
    protocol::lemma_header_roundtrip(addr, port);
}

/// While a proper part of a bare header has arrived, more bytes are asked for,
/// and never one beyond the header.
pub proof fn lemma_plain_asks_no_more(addr: Seq<char>, port: u16, k: int)
    requires
        protocol::encoded_address(addr).0 == AddressType::Domain
            ==> vstd::utf8::encode_utf8(addr).len() <= 255,
        0 <= k < client::target_of(addr, port).header.len(),
    ensures
        plain_request(client::target_of(addr, port).header.take(k), false) matches
            SessionActionView::Read(n) && n > 0 && k + n
            <= client::target_of(addr, port).header.len(),
{
    let header = client::target_of(addr, port).header;
    let (kind, bytes) = protocol::encoded_address(addr);
    protocol::lemma_address_code_roundtrip(kind, 0);
    if k >= 1 {
        assert(header.take(k)[0] == header[0]);
        let rest = header.take(k).skip(1);
        if rest.len() > 0 {
            assert(rest[0] == header[1]);
            assert(header[1] == bytes[0]);
        }
        assert(bytes.len() == protocol::address_len(kind, bytes));
    }
}

/// The target that the server connects to is the one that a header in an
/// encrypted frame was written for, whatever follows the frame.
pub proof fn lemma_encrypted_target(
    addr: Seq<char>,
    port: u16,
    wire: Seq<u8>,
    rest: Seq<u8>,
    client_key: Seq<u8>,
    at_end: bool,
)
    requires
        protocol::encoded_address(addr).0 == AddressType::Domain
            ==> vstd::utf8::encode_utf8(addr).len() <= 255,
        crypto::carries(wire, client::target_of(addr, port).header, client_key),
    ensures
        encrypted_request(wire + rest, at_end, client_key) == SessionActionView::Connect(
            protocol::target_text(protocol::far_text(addr), port),
        ),
{
    let header = client::target_of(addr, port).header;
    protocol::lemma_header_roundtrip(addr, port);
    crypto::lemma_encrypted_roundtrip(wire, header, client_key, rest, at_end);
}

/// The bare status that the server writes tells the application that the
/// request succeeded if the target is reached, and else that the connection was
/// refused.
pub proof fn lemma_status_reaches_application(reached: bool)
    ensures
        direct_client::status_action(server::status_of(reached)[0]) == if reached {
            direct_client::ClientActionView::Relay(client::reply_bytes(SocksReply::Succeeded))
        } else {
            direct_client::ClientActionView::Refuse(
                client::reply_bytes(SocksReply::ConnectionRefused),
                STATUS_REFUSED,
            )
        },
{
}

} // verus!
