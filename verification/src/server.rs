//! The server side: what a tunnel asks for, and what it is told.
use crate::client;
use crate::client::{ClientActionView, ClientError};
use crate::crypto;
use crate::encrypted;
use crate::encrypted::EncryptedTunnel;
use crate::frame;
use crate::frame::FrameView;
use crate::protocol;
use crate::protocol::{HeaderError, SocksReply};
use vstd::prelude::*;

verus! {

/// The status of a tunnel whose target is reached.
pub const STATUS_OK: u8 = 0x00;

/// The status of a tunnel whose target is not reached.
pub const STATUS_REFUSED: u8 = 0x05;

/// The status that tells whether the target is reached.
pub open spec fn status_of(reached: bool) -> Seq<u8> {
    if reached {
        seq![STATUS_OK]
    } else {
        seq![STATUS_REFUSED]
    }
}

pub(crate) fn status_bytes(reached: bool) -> (r: Vec<u8>)
    ensures
        r@ == status_of(reached),
{
    let status: Vec<u8> = if reached {
        vec![STATUS_OK]
    } else {
        vec![STATUS_REFUSED]
    };
    assert(status@ =~= status_of(reached));
    status
}

/// Why a tunnel is not served.
#[derive(Debug, Clone, Copy, PartialEq, Eq, Structural)]
pub enum ServerError {
    /// The client closed the tunnel before it sent a header.
    ClosedBeforeHeader,
    /// The header is refused.
    Header(HeaderError),
}

impl ServerError {
    /// The error in words.
    pub open spec fn message_text(self) -> Seq<char> {
        match self {
            ServerError::ClosedBeforeHeader => "client closed connection before tunnel header"@,
            ServerError::Header(e) => e.message_text(),
        }
    }

    pub fn message(&self) -> (r: String)
        ensures
            r@ == self.message_text(),
    {
        match self {
            ServerError::ClosedBeforeHeader =>
                "client closed connection before tunnel header".to_string(),
            ServerError::Header(e) => e.message(),
        }
    }
}

/// What a server learns of a tunnel.
#[derive(Debug)]
pub enum ServerEvent {
    /// The first frame, where there is one.
    Header(Option<Vec<u8>>),
    /// The attempt to connect to the target ended, and the target is reached or
    /// not.
    Connected(bool),
}

/// What a server does next.
#[derive(Debug)]
pub enum ServerAction {
    /// Connect to this target.
    Connect(String),
    /// Send this frame and relay.
    Relay(Vec<u8>),
    /// Send this frame and end with the error of the attempt.
    Refuse(Vec<u8>),
    Fail(ServerError),
}

/// A `ServerEvent` as a mathematical value.
pub enum ServerEventView {
    Header(Option<Seq<u8>>),
    Connected(bool),
}

/// A `ServerAction` as a mathematical value.
pub enum ServerActionView {
    Connect(Seq<char>),
    Relay(Seq<u8>),
    Refuse(Seq<u8>),
    Fail(ServerError),
}

impl View for ServerEvent {
    type V = ServerEventView;

    open spec fn view(&self) -> ServerEventView {
        match self {
            ServerEvent::Header(Some(data)) => ServerEventView::Header(Some(data@)),
            ServerEvent::Header(None) => ServerEventView::Header(None),
            ServerEvent::Connected(reached) => ServerEventView::Connected(*reached),
        }
    }
}

impl View for ServerAction {
    type V = ServerActionView;

    open spec fn view(&self) -> ServerActionView {
        match self {
            ServerAction::Connect(target) => ServerActionView::Connect(target@),
            ServerAction::Relay(data) => ServerActionView::Relay(data@),
            ServerAction::Refuse(data) => ServerActionView::Refuse(data@),
            ServerAction::Fail(e) => ServerActionView::Fail(*e),
        }
    }
}

/// What follows from an event: the header names the target, and the outcome of
/// the attempt is told as a status.
pub open spec fn server_action(event: ServerEventView) -> ServerActionView {
    match event {
        ServerEventView::Header(None) => ServerActionView::Fail(ServerError::ClosedBeforeHeader),
        ServerEventView::Header(Some(data)) => match protocol::parsed_header(data) {
            Ok((_, addr, port)) => ServerActionView::Connect(protocol::target_text(addr, port)),
            Err(e) => ServerActionView::Fail(ServerError::Header(e)),
        },
        ServerEventView::Connected(true) => ServerActionView::Relay(status_of(true)),
        ServerEventView::Connected(false) => ServerActionView::Refuse(status_of(false)),
    }
}

/// Takes what the server learns of a tunnel, and says what to do next.
pub fn run_tunnel_server(event: ServerEvent) -> (r: ServerAction)
    ensures
        r@ == server_action(event@),
{
    match event {
        ServerEvent::Header(None) => ServerAction::Fail(ServerError::ClosedBeforeHeader),
        ServerEvent::Header(Some(data)) => match protocol::parse_header(data.as_slice()) {
            Ok((_, addr, port)) => ServerAction::Connect(
                protocol::target_string(addr.as_str(), port),
            ),
            Err(e) => ServerAction::Fail(ServerError::Header(e)),
        },
        ServerEvent::Connected(reached) => {
            let status = status_bytes(reached);
            if reached {
                ServerAction::Relay(status)
            } else {
                ServerAction::Refuse(status)
            }
        },
    }
}

/// The target that the server connects to is the one that the client's header
/// was written for. An IPv6 address is in its full form. An address that is a
/// name of more than 255 bytes is left out: its length does not fit in the
/// header.
pub proof fn lemma_server_connects_to_target(addr: Seq<char>, port: u16)
    requires
        protocol::encoded_address(addr).0 == protocol::AddressType::Domain
            ==> vstd::utf8::encode_utf8(addr).len() <= 255,
    ensures
        server_action(ServerEventView::Header(Some(client::target_of(addr, port).header)))
            == ServerActionView::Connect(
            protocol::target_text(protocol::far_text(addr), port),
        ),
{
    protocol::lemma_header_roundtrip(addr, port);
}

/// What the server tells after its attempt, the application is told: that the
/// request succeeded and the relay begins, if and only if the target is
/// reached, and else that the connection was refused.
pub proof fn lemma_status_reaches_application(reached: bool)
    ensures
        client::client_action(Some(status_of(reached))) == if reached {
            ClientActionView::Relay(client::reply_bytes(SocksReply::Succeeded))
        } else {
            ClientActionView::Refuse(
                client::reply_bytes(SocksReply::ConnectionRefused),
                ClientError::Rejected(STATUS_REFUSED),
            )
        },
{
}

/// The header of a target has at most 259 bytes, unless the address is a name
/// of more than 255 bytes.
proof fn lemma_header_len(addr: Seq<char>, port: u16)
    requires
        protocol::encoded_address(addr).0 == protocol::AddressType::Domain
            ==> vstd::utf8::encode_utf8(addr).len() <= 255,
    ensures
        client::target_of(addr, port).header.len() <= 259,
{
}

/// The whole way of a request and its answer through a tunnel without
/// encryption: from the frame with the client's header the server learns the
/// target, and from the frame with the server's status the client learns what
/// to answer the application, whatever follows either frame.
pub proof fn lemma_plain_tunnel(
    addr: Seq<char>,
    port: u16,
    reached: bool,
    rest: Seq<u8>,
    at_end: bool,
)
    requires
        protocol::encoded_address(addr).0 == protocol::AddressType::Domain
            ==> vstd::utf8::encode_utf8(addr).len() <= 255,
    ensures
        ({
            let sent = frame::framed(client::target_of(addr, port).header);
            &&& frame::frame_read(sent + rest, at_end) matches Ok(FrameView::Frame(header))
            &&& server_action(ServerEventView::Header(Some(header))) == ServerActionView::Connect(
                protocol::target_text(protocol::far_text(addr), port),
            )
        }),
        ({
            let sent = frame::framed(status_of(reached));
            &&& frame::frame_read(sent + rest, at_end) matches Ok(FrameView::Frame(status))
            &&& client::client_action(Some(status)) is Relay <==> reached
            &&& !reached ==> client::client_action(Some(status)) == ClientActionView::Refuse(
                client::reply_bytes(SocksReply::ConnectionRefused),
                ClientError::Rejected(STATUS_REFUSED),
            )
        }),
{
    lemma_header_len(addr, port);
    frame::lemma_frame_roundtrip(client::target_of(addr, port).header, rest, at_end);
    lemma_server_connects_to_target(addr, port);
    frame::lemma_frame_roundtrip(status_of(reached), rest, at_end);
    lemma_status_reaches_application(reached);
}

/// The same through an encrypted tunnel, for two ends that are linked in both
/// directions.
pub proof fn lemma_encrypted_tunnel(
    addr: Seq<char>,
    port: u16,
    reached: bool,
    near: EncryptedTunnel,
    far: EncryptedTunnel,
    sent: Seq<u8>,
    answered: Seq<u8>,
    rest: Seq<u8>,
    at_end: bool,
)
    requires
        protocol::encoded_address(addr).0 == protocol::AddressType::Domain
            ==> vstd::utf8::encode_utf8(addr).len() <= 255,
        encrypted::linked(near, far),
        encrypted::linked(far, near),
        crypto::carries(
            sent,
            client::target_of(addr, port).header,
            near.send_key()@,
            near.send_nonce(),
        ),
        crypto::carries(answered, status_of(reached), far.send_key()@, far.send_nonce()),
    ensures
        ({
            let got = crypto::encrypted_read(
                sent + rest,
                at_end,
                far.recv_key()@,
                far.recv_nonce(),
            );
            &&& got matches Ok(FrameView::Frame(header))
            &&& server_action(ServerEventView::Header(Some(header))) == ServerActionView::Connect(
                protocol::target_text(protocol::far_text(addr), port),
            )
        }),
        ({
            let got = crypto::encrypted_read(
                answered + rest,
                at_end,
                near.recv_key()@,
                near.recv_nonce(),
            );
            &&& got matches Ok(FrameView::Frame(status))
            &&& client::client_action(Some(status)) is Relay <==> reached
            &&& !reached ==> client::client_action(Some(status)) == ClientActionView::Refuse(
                client::reply_bytes(SocksReply::ConnectionRefused),
                ClientError::Rejected(STATUS_REFUSED),
            )
        }),
{
    let header = client::target_of(addr, port).header;
    encrypted::lemma_linked_exchange(near, far, header, sent, rest, at_end);
    lemma_server_connects_to_target(addr, port);
    encrypted::lemma_linked_exchange(far, near, status_of(reached), answered, rest, at_end);
    lemma_status_reaches_application(reached);
}

} // verus!
