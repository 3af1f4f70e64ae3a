//! The client side: the SOCKS5 conversation with an application, and the
//! opening of a tunnel for it.
use crate::bytes;
use crate::crypto::KEY_LEN;
use crate::ip;
use crate::protocol;
use crate::protocol::{AddressRead, AddressType, HeaderError, SocksCommand, SocksReply};
use crate::text;
use vstd::prelude::*;
use vstd::utf8::*;

verus! {

/// Why a connection of an application ends without a tunnel.
#[derive(Debug, Clone, Copy, PartialEq, Eq, Structural)]
pub enum ClientError {
    /// The application does not offer to go without authentication.
    NoAcceptableMethod,
    /// The command is not to connect.
    UnsupportedCommand,
    /// The byte stands for no kind of address.
    UnsupportedAddressType(u8),
    /// The server closed the tunnel before it told the status.
    ClosedBeforeStatus,
    /// The server told this status.
    Rejected(u8),
}

/// A status of the server in words.
pub open spec fn status_reason(status: u8) -> Seq<char> {
    if status == 0x01 {
        "General SOCKS failure"@
    } else if status == 0x02 {
        "Connection not allowed by ruleset"@
    } else if status == 0x03 {
        "Network unreachable"@
    } else if status == 0x04 {
        "Host unreachable"@
    } else if status == 0x05 {
        "Connection refused"@
    } else {
        "Unknown error"@
    }
}

fn reason_of(status: u8) -> (r: &'static str)
    ensures
        r@ == status_reason(status),
{
    match status {
        0x01 => "General SOCKS failure",
        0x02 => "Connection not allowed by ruleset",
        0x03 => "Network unreachable",
        0x04 => "Host unreachable",
        0x05 => "Connection refused",
        _ => "Unknown error",
    }
}

impl ClientError {
    /// The error in words.
    pub open spec fn message_text(self) -> Seq<char> {
        match self {
            ClientError::NoAcceptableMethod =>
                "client does not support no-authentication method"@,
            ClientError::UnsupportedCommand => "unsupported SOCKS5 command"@,
            ClientError::UnsupportedAddressType(v) => protocol::unsupported_address_type(v),
            ClientError::ClosedBeforeStatus => "server closed connection before status"@,
            ClientError::Rejected(status) => "server rejected: "@ + status_reason(status)
                + " (status 0x"@ + text::hex2(status) + ")"@,
        }
    }

    pub fn message(&self) -> (r: String)
        ensures
            r@ == self.message_text(),
    {
        match self {
            ClientError::NoAcceptableMethod =>
                "client does not support no-authentication method".to_string(),
            ClientError::UnsupportedCommand => "unsupported SOCKS5 command".to_string(),
            ClientError::UnsupportedAddressType(v) => protocol::unsupported_address_type_message(
                *v,
            ),
            ClientError::ClosedBeforeStatus =>
                "server closed connection before status".to_string(),
            ClientError::Rejected(status) => {
                let mut s = "server rejected: ".to_string();
                s.append(reason_of(*status));
                s.append(" (status 0x");
                text::push_hex2(&mut s, *status);
                s.append(")");
                s
            },
        }
    }
}

// ---------------------------------------------------------------------------
// Answers
// ---------------------------------------------------------------------------

/// The answer to a request: the code, and 0.0.0.0:0 as the bound address.
pub open spec fn reply_bytes(rep: SocksReply) -> Seq<u8> {
    seq![
        protocol::SOCKS_VERSION,
        rep.code(),
        0x00,
        AddressType::Ipv4.code(),
        0,
        0,
        0,
        0,
        0,
        0,
    ]
}

/// The bytes of an answer.
pub fn send_socks_reply(rep: SocksReply) -> (r: Vec<u8>)
    ensures
        r@ == reply_bytes(rep),
{
    let r: Vec<u8> = vec![
        protocol::SOCKS_VERSION,
        rep.to_u8(),
        0x00,
        AddressType::Ipv4.to_u8(),
        0,
        0,
        0,
        0,
        0,
        0,
    ];
    assert(r@ =~= reply_bytes(rep));
    r
}

/// The choice of a method.
pub open spec fn method_bytes(method: u8) -> Seq<u8> {
    seq![protocol::SOCKS_VERSION, method]
}

fn choose_method(method: u8) -> (r: Vec<u8>)
    ensures
        r@ == method_bytes(method),
{
    let r: Vec<u8> = vec![protocol::SOCKS_VERSION, method];
    assert(r@ =~= method_bytes(method));
    r
}

// ---------------------------------------------------------------------------
// The conversation, as a whole
// ---------------------------------------------------------------------------

/// How a conversation with an application ends.
pub enum SocksEnd {
    /// It waits for more bytes.
    Waiting,
    Failed(ClientError),
    /// It asks for a tunnel to an address and a port.
    Opened(Seq<char>, u16),
}

/// What is written to the application, and how the conversation ends.
pub struct SocksOutcome {
    pub written: Seq<u8>,
    pub end: SocksEnd,
}

/// The part of a conversation that follows the choice of a method: a request
/// of version, command, a reserved byte and the kind of the address, and then
/// the address and the port.
pub open spec fn request_outcome(s: Seq<u8>) -> SocksOutcome {
    if s.len() < 4 {
        SocksOutcome { written: Seq::empty(), end: SocksEnd::Waiting }
    } else if SocksCommand::of_code(s[1]) != Some(SocksCommand::Connect) {
        SocksOutcome {
            written: reply_bytes(SocksReply::CommandNotSupported),
            end: SocksEnd::Failed(ClientError::UnsupportedCommand),
        }
    } else {
        SocksOutcome {
            written: Seq::empty(),
            end: match AddressType::of_code(s[3]) {
                None => SocksEnd::Failed(ClientError::UnsupportedAddressType(s[3])),
                Some(kind) => {
                    let addr = s.skip(4);
                    let n = protocol::address_len(kind, addr);
                    if addr.len() < n + 2 {
                        SocksEnd::Waiting
                    } else {
                        SocksEnd::Opened(
                            protocol::address_text(kind, addr),
                            bytes::from_be16(addr[n], addr[n + 1]),
                        )
                    }
                },
            },
        }
    }
}

/// A whole conversation, from the bytes that the application sends: version,
/// number of methods and the methods, and then the request. Unless every
/// application is accepted, one that does not offer to go without
/// authentication is turned away.
pub open spec fn conversation(s: Seq<u8>, any_method: bool) -> SocksOutcome {
    if s.len() < 2 || s.len() < 2 + s[1] {
        SocksOutcome { written: Seq::empty(), end: SocksEnd::Waiting }
    } else if any_method || s.subrange(2, 2 + s[1]).contains(protocol::SOCKS_AUTH_NONE) {
        let rest = request_outcome(s.skip(2 + s[1]));
        SocksOutcome {
            written: method_bytes(protocol::SOCKS_AUTH_NONE) + rest.written,
            end: rest.end,
        }
    } else {
        SocksOutcome {
            written: method_bytes(protocol::SOCKS_AUTH_NO_ACCEPTABLE),
            end: SocksEnd::Failed(ClientError::NoAcceptableMethod),
        }
    }
}

// ---------------------------------------------------------------------------
// The conversation, step by step
// ---------------------------------------------------------------------------

/// Where a conversation stands.
#[derive(Debug)]
pub enum SocksState {
    /// Before the version and the number of methods.
    Greeting,
    /// Before so many methods.
    Methods(u8),
    /// Before the head of the request.
    Request,
    /// Inside an address, of which these bytes have come.
    Address(AddressType, Vec<u8>),
    /// Before the port, after this address.
    Port(String),
    Closed,
}

/// A `SocksState` as a mathematical value.
pub enum SocksStateView {
    Greeting,
    Methods(u8),
    Request,
    Address(AddressType, Seq<u8>),
    Port(Seq<char>),
    Closed,
}

impl View for SocksState {
    type V = SocksStateView;

    open spec fn view(&self) -> SocksStateView {
        match self {
            SocksState::Greeting => SocksStateView::Greeting,
            SocksState::Methods(n) => SocksStateView::Methods(*n),
            SocksState::Request => SocksStateView::Request,
            SocksState::Address(kind, data) => SocksStateView::Address(*kind, data@),
            SocksState::Port(addr) => SocksStateView::Port(addr@),
            SocksState::Closed => SocksStateView::Closed,
        }
    }
}

impl SocksStateView {
    /// How many bytes the next step takes.
    pub open spec fn needs(self) -> int {
        match self {
            SocksStateView::Greeting => 2,
            SocksStateView::Methods(n) => n as int,
            SocksStateView::Request => 4,
            SocksStateView::Address(kind, data) => protocol::address_len(kind, data) - data.len(),
            SocksStateView::Port(_) => 2,
            SocksStateView::Closed => 0,
        }
    }

    /// Whether an address that is being read is incomplete.
    pub open spec fn wf(self) -> bool {
        match self {
            SocksStateView::Address(kind, data) => data.len() < protocol::address_len(kind, data),
            _ => true,
        }
    }

    /// How many steps can follow at most.
    pub open spec fn rank(self) -> nat {
        match self {
            SocksStateView::Greeting => 6,
            SocksStateView::Methods(_) => 5,
            SocksStateView::Request => 4,
            SocksStateView::Address(_, data) => if data.len() == 0 {
                3
            } else {
                2
            },
            SocksStateView::Port(_) => 1,
            SocksStateView::Closed => 0,
        }
    }
}

/// What a conversation does next.
#[derive(Debug)]
pub enum SocksAction {
    /// Read so many bytes.
    Read(usize),
    /// Write this and read so many bytes.
    Reply(Vec<u8>, usize),
    /// Write this and end.
    Refuse(Vec<u8>, ClientError),
    Fail(ClientError),
    /// Open a tunnel to this target.
    Open(Target),
}

/// A target, its address and port in one text, and the tunnel header that asks
/// for it.
#[derive(Debug)]
pub struct Target {
    pub addr: String,
    pub port: u16,
    pub target: String,
    pub header: Vec<u8>,
}

/// A `Target` as a mathematical value.
pub struct TargetView {
    pub addr: Seq<char>,
    pub port: u16,
    pub target: Seq<char>,
    pub header: Seq<u8>,
}

impl View for Target {
    type V = TargetView;

    open spec fn view(&self) -> TargetView {
        TargetView {
            addr: self.addr@,
            port: self.port,
            target: self.target@,
            header: self.header@,
        }
    }
}

/// The target of an address and a port.
pub open spec fn target_of(addr: Seq<char>, port: u16) -> TargetView {
    TargetView {
        addr,
        port,
        target: protocol::target_text(addr, port),
        header: protocol::tunnel_header(addr, port),
    }
}

/// A `SocksAction` as a mathematical value.
pub enum SocksActionView {
    Read(int),
    Reply(Seq<u8>, int),
    Refuse(Seq<u8>, ClientError),
    Fail(ClientError),
    Open(TargetView),
}

impl View for SocksAction {
    type V = SocksActionView;

    open spec fn view(&self) -> SocksActionView {
        match self {
            SocksAction::Read(n) => SocksActionView::Read(*n as int),
            SocksAction::Reply(out, n) => SocksActionView::Reply(out@, *n as int),
            SocksAction::Refuse(out, e) => SocksActionView::Refuse(out@, *e),
            SocksAction::Fail(e) => SocksActionView::Fail(*e),
            SocksAction::Open(t) => SocksActionView::Open(t@),
        }
    }
}

/// Goes on to a state by reading what it needs.
pub open spec fn read_on(next: SocksStateView) -> (SocksStateView, SocksActionView) {
    (next, SocksActionView::Read(next.needs()))
}

/// One step of a conversation, from the bytes that the state needs.
pub open spec fn socks_step(state: SocksStateView, input: Seq<u8>, any_method: bool) -> (
    SocksStateView,
    SocksActionView,
) {
    match state {
        SocksStateView::Greeting => read_on(SocksStateView::Methods(input[1])),
        SocksStateView::Methods(_) => if any_method || input.contains(protocol::SOCKS_AUTH_NONE) {
            (
                SocksStateView::Request,
                SocksActionView::Reply(method_bytes(protocol::SOCKS_AUTH_NONE), 4),
            )
        } else {
            (
                SocksStateView::Closed,
                SocksActionView::Refuse(
                    method_bytes(protocol::SOCKS_AUTH_NO_ACCEPTABLE),
                    ClientError::NoAcceptableMethod,
                ),
            )
        },
        SocksStateView::Request => if SocksCommand::of_code(input[1]) != Some(
            SocksCommand::Connect,
        ) {
            (
                SocksStateView::Closed,
                SocksActionView::Refuse(
                    reply_bytes(SocksReply::CommandNotSupported),
                    ClientError::UnsupportedCommand,
                ),
            )
        } else {
            match AddressType::of_code(input[3]) {
                None => (
                    SocksStateView::Closed,
                    SocksActionView::Fail(ClientError::UnsupportedAddressType(input[3])),
                ),
                Some(kind) => read_on(SocksStateView::Address(kind, Seq::empty())),
            }
        },
        SocksStateView::Address(kind, data) => {
            let data = data + input;
            if data.len() < protocol::address_len(kind, data) {
                read_on(SocksStateView::Address(kind, data))
            } else {
                read_on(SocksStateView::Port(protocol::address_text(kind, data)))
            }
        },
        SocksStateView::Port(addr) => {
            let port = bytes::from_be16(input[0], input[1]);
            (
                SocksStateView::Closed,
                SocksActionView::Open(target_of(addr, port)),
            )
        },
        SocksStateView::Closed => read_on(SocksStateView::Closed),
    }
}

/// The conversation with one application.
#[derive(Debug)]
pub struct SocksSession {
    /// Whether an application is accepted whatever methods it offers.
    pub any_method: bool,
    pub state: SocksState,
}

impl SocksSession {
    /// A conversation before its first byte. It needs two bytes first.
    pub fn new(any_method: bool) -> (r: Self)
        ensures
            r.any_method == any_method,
            r.state@ == SocksStateView::Greeting,
            r.state@.wf(),
            r.state@.needs() == 2,
    {
        SocksSession { any_method, state: SocksState::Greeting }
    }
}

/// Whether the methods hold the one that means no authentication.
fn offers_none(methods: &[u8]) -> (r: bool)
    ensures
        r == methods@.contains(protocol::SOCKS_AUTH_NONE),
{
    let mut i: usize = 0;
    while i < methods.len()
        invariant
            i <= methods@.len(),
            forall|j: int| 0 <= j < i ==> methods@[j] != protocol::SOCKS_AUTH_NONE,
        decreases methods@.len() - i,
    {
        if methods[i] == protocol::SOCKS_AUTH_NONE {
            return true;
        }
        i += 1;
    }
    false
}

/// Takes the bytes that the state of a conversation needs, and says what to do
/// next.
pub fn handle_socks_client(session: SocksSession, input: &[u8]) -> (r: (SocksSession, SocksAction))
    requires
        session.state@.wf(),
        input@.len() == session.state@.needs(),
    ensures
        (r.0.state@, r.1@) == socks_step(session.state@, input@, session.any_method),
        r.0.any_method == session.any_method,
        r.0.state@.wf(),
{
    let any_method = session.any_method;
    let (state, action) = match session.state {
        SocksState::Greeting => (SocksState::Methods(input[1]), SocksAction::Read(
            input[1] as usize,
        )),
        SocksState::Methods(_) => {
            if any_method || offers_none(input) {
                (
                    SocksState::Request,
                    SocksAction::Reply(choose_method(protocol::SOCKS_AUTH_NONE), 4),
                )
            } else {
                (
                    SocksState::Closed,
                    SocksAction::Refuse(
                        choose_method(protocol::SOCKS_AUTH_NO_ACCEPTABLE),
                        ClientError::NoAcceptableMethod,
                    ),
                )
            }
        },
        SocksState::Request => {
            match SocksCommand::from_u8(input[1]) {
                Some(SocksCommand::Connect) => match AddressType::from_u8(input[3]) {
                    Some(kind) => continue_address(kind, Vec::new()),
                    None => (
                        SocksState::Closed,
                        SocksAction::Fail(ClientError::UnsupportedAddressType(input[3])),
                    ),
                },
                _ => (
                    SocksState::Closed,
                    SocksAction::Refuse(
                        send_socks_reply(SocksReply::CommandNotSupported),
                        ClientError::UnsupportedCommand,
                    ),
                ),
            }
        },
        SocksState::Address(kind, data) => {
            let mut data = data;
            bytes::push_all(&mut data, input);
            continue_address(kind, data)
        },
        SocksState::Port(addr) => {
            let port = bytes::read_be16(input[0], input[1]);
            let target = protocol::target_string(addr.as_str(), port);
            let header = protocol::encode_header(addr.as_str(), port);
            (SocksState::Closed, SocksAction::Open(Target { addr, port, target, header }))
        },
        SocksState::Closed => (SocksState::Closed, SocksAction::Read(0)),
    };
    (SocksSession { any_method, state }, action)
}

/// Goes on with an address of which these bytes have come.
fn continue_address(kind: AddressType, data: Vec<u8>) -> (r: (SocksState, SocksAction))
    ensures
        (r.0@, r.1@) == (if data@.len() < protocol::address_len(kind, data@) {
            read_on(SocksStateView::Address(kind, data@))
        } else {
            read_on(SocksStateView::Port(protocol::address_text(kind, data@)))
        }),
        r.0@.wf(),
{
    match protocol::read_address(kind, data.as_slice()) {
        AddressRead::Need(n) => (SocksState::Address(kind, data), SocksAction::Read(n)),
        AddressRead::Done(addr) => (SocksState::Port(addr), SocksAction::Read(2)),
    }
}

/// What comes of a conversation that takes its steps from a stream, each as
/// soon as the bytes that it needs are there.
pub open spec fn run_session(state: SocksStateView, stream: Seq<u8>, any_method: bool) -> SocksOutcome
    decreases state.rank(),
{
    let n = state.needs();
    if state is Closed || !state.wf() || stream.len() < n {
        SocksOutcome { written: Seq::empty(), end: SocksEnd::Waiting }
    } else {
        let (next, action) = socks_step(state, stream.take(n), any_method);
        let rest = stream.skip(n);
        match action {
            SocksActionView::Read(_) => run_session(next, rest, any_method),
            SocksActionView::Reply(out, _) => {
                let after = run_session(next, rest, any_method);
                SocksOutcome { written: out + after.written, end: after.end }
            },
            SocksActionView::Refuse(out, e) => SocksOutcome {
                written: out,
                end: SocksEnd::Failed(e),
            },
            SocksActionView::Fail(e) => SocksOutcome {
                written: Seq::empty(),
                end: SocksEnd::Failed(e),
            },
            SocksActionView::Open(t) => SocksOutcome {
                written: Seq::empty(),
                end: SocksEnd::Opened(t.addr, t.port),
            },
        }
    }
}

/// How a conversation ends whose address and port have come, or not.
spec fn address_outcome(kind: AddressType, s: Seq<u8>) -> SocksOutcome {
    let n = protocol::address_len(kind, s);
    SocksOutcome {
        written: Seq::empty(),
        end: if s.len() < n + 2 {
            SocksEnd::Waiting
        } else {
            SocksEnd::Opened(
                protocol::address_text(kind, s),
                bytes::from_be16(s[n], s[n + 1]),
            )
        },
    }
}

/// An address does not depend on the bytes that follow it.
proof fn lemma_address_prefix(kind: AddressType, part: Seq<u8>, rest: Seq<u8>)
    requires
        part.len() == protocol::address_len(kind, part),
    ensures
        protocol::address_len(kind, part + rest) == part.len(),
        protocol::address_text(kind, part + rest) == protocol::address_text(kind, part),
{
    let all = part + rest;
    match kind {
        AddressType::Ipv4 => assert(part.take(4) =~= all.take(4)),
        AddressType::Ipv6 => assert(part.take(16) =~= all.take(16)),
        AddressType::Domain => assert(part.subrange(1, 1 + part[0]) =~= all.subrange(
            1,
            1 + all[0],
        )),
    }
}

/// The end of a conversation, after its address.
proof fn lemma_port_stage(addr: Seq<char>, s: Seq<u8>, any_method: bool)
    ensures
        run_session(SocksStateView::Port(addr), s, any_method) == (SocksOutcome {
            written: Seq::empty(),
            end: if s.len() < 2 {
                SocksEnd::Waiting
            } else {
                SocksEnd::Opened(addr, bytes::from_be16(s[0], s[1]))
            },
        }),
{
    if s.len() >= 2 {
        assert(s.take(2)[0] == s[0] && s.take(2)[1] == s[1]);
    }
}

/// The end of a conversation, from an address of which some bytes have come.
proof fn lemma_address_stage(kind: AddressType, data: Seq<u8>, s: Seq<u8>, any_method: bool)
    requires
        data.len() < protocol::address_len(kind, data),
    ensures
        run_session(SocksStateView::Address(kind, data), s, any_method) == address_outcome(
            kind,
            data + s,
        ),
    decreases SocksStateView::Address(kind, data).rank(),
{
    let state = SocksStateView::Address(kind, data);
    let all = data + s;
    let n = state.needs();
    if s.len() >= n {
        let more = data + s.take(n);
        let rest = s.skip(n);
        assert(more + rest =~= all);
        if more.len() < protocol::address_len(kind, more) {
            lemma_address_stage(kind, more, rest, any_method);
        } else {
            lemma_address_prefix(kind, more, rest);
            lemma_port_stage(protocol::address_text(kind, more), rest, any_method);
            if rest.len() >= 2 {
                let m = more.len() as int;
                assert(rest[0] == all[m] && rest[1] == all[m + 1]);
            }
        }
    }
}

/// The rest of a conversation, from the head of its request.
proof fn lemma_request_stage(s: Seq<u8>, any_method: bool)
    ensures
        run_session(SocksStateView::Request, s, any_method) == request_outcome(s),
{
    if s.len() >= 4 {
        let head = s.take(4);
        assert(head[1] == s[1] && head[3] == s[3]);
        match AddressType::of_code(s[3]) {
            Some(kind) => {
                let rest = s.skip(4);
                lemma_address_stage(kind, Seq::empty(), rest, any_method);
                assert(Seq::<u8>::empty() + rest =~= rest);
            },
            None => {},
        }
    }
}

/// The rest of a conversation, from its methods.
proof fn lemma_methods_stage(n: u8, s: Seq<u8>, any_method: bool)
    requires
        s.len() >= n,
    ensures
        run_session(SocksStateView::Methods(n), s, any_method) == (if any_method || s.take(
            n as int,
        ).contains(protocol::SOCKS_AUTH_NONE) {
            let rest = request_outcome(s.skip(n as int));
            SocksOutcome {
                written: method_bytes(protocol::SOCKS_AUTH_NONE) + rest.written,
                end: rest.end,
            }
        } else {
            SocksOutcome {
                written: method_bytes(protocol::SOCKS_AUTH_NO_ACCEPTABLE),
                end: SocksEnd::Failed(ClientError::NoAcceptableMethod),
            }
        }),
{
    lemma_request_stage(s.skip(n as int), any_method);
}

/// A conversation that is taken step by step writes the same bytes and comes to
/// the same end as the whole conversation that its stream spells.
pub proof fn lemma_session_is_conversation(stream: Seq<u8>, any_method: bool)
    ensures
        run_session(SocksStateView::Greeting, stream, any_method) == conversation(
            stream,
            any_method,
        ),
{
    if stream.len() >= 2 {
        let n = stream[1];
        let rest = stream.skip(2);
        assert(stream.take(2)[1] == n);
        assert(run_session(SocksStateView::Greeting, stream, any_method) == run_session(
            SocksStateView::Methods(n),
            rest,
            any_method,
        ));
        if rest.len() >= n {
            assert(rest.take(n as int) =~= stream.subrange(2, 2 + n));
            assert(rest.skip(n as int) =~= stream.skip(2 + n));
            lemma_methods_stage(n, rest, any_method);
        }
    }
}

/// What follows a conversation that has come to an end does not change it.
pub proof fn lemma_conversation_ends_once(stream: Seq<u8>, more: Seq<u8>, any_method: bool)
    requires
        !(conversation(stream, any_method).end is Waiting),
    ensures
        conversation(stream + more, any_method) == conversation(stream, any_method),
{
    let all = stream + more;
    let n = 2 + stream[1];
    assert(all[1] == stream[1]);
    assert(all.subrange(2, n) =~= stream.subrange(2, n));
    let a = stream.skip(n);
    let b = all.skip(n);
    assert(b =~= a + more);
    if a.len() >= 4 {
        assert(b[1] == a[1] && b[3] == a[3]);
        match AddressType::of_code(a[3]) {
            Some(kind) => {
                let x = a.skip(4);
                assert(b.skip(4) =~= x + more);
                let len = protocol::address_len(kind, x);
                if x.len() >= len + 2 {
                    let part = x.take(len);
                    let tail = x.skip(len);
                    assert(protocol::address_len(kind, part) == len);
                    assert(x =~= part + tail);
                    assert(x + more =~= part + (tail + more));
                    lemma_address_prefix(kind, part, tail);
                    lemma_address_prefix(kind, part, tail + more);
                    assert((x + more)[len] == x[len] && (x + more)[len + 1] == x[len + 1]);
                }
            },
            None => {},
        }
    }
}

// ---------------------------------------------------------------------------
// The tunnel
// ---------------------------------------------------------------------------

/// The answer that stands for a status of the server.
pub open spec fn status_reply(status: u8) -> SocksReply {
    if status == 0x00 {
        SocksReply::Succeeded
    } else if status == 0x02 {
        SocksReply::ConnectionNotAllowed
    } else if status == 0x03 {
        SocksReply::NetworkUnreachable
    } else if status == 0x04 {
        SocksReply::HostUnreachable
    } else if status == 0x05 {
        SocksReply::ConnectionRefused
    } else {
        SocksReply::GeneralFailure
    }
}

pub(crate) fn reply_of_status(status: u8) -> (r: SocksReply)
    ensures
        r == status_reply(status),
{
    match status {
        0x00 => SocksReply::Succeeded,
        0x02 => SocksReply::ConnectionNotAllowed,
        0x03 => SocksReply::NetworkUnreachable,
        0x04 => SocksReply::HostUnreachable,
        0x05 => SocksReply::ConnectionRefused,
        _ => SocksReply::GeneralFailure,
    }
}

/// The kind of tunnel between a client and a server, over TCP.
#[derive(Debug, Clone, Copy)]
pub enum TunnelMode {
    Plain,
    /// Encrypted, with this shared key.
    Encrypted([u8; KEY_LEN]),
}

/// The kind of tunnel that both sides use: an encrypted one exactly where there
/// is a shared key.
pub fn choose_tunnel(secret: Option<[u8; KEY_LEN]>) -> (r: TunnelMode)
    ensures
        r is Encrypted <==> secret is Some,
        r == match secret {
            Some(psk) => TunnelMode::Encrypted(psk),
            None => TunnelMode::Plain,
        },
{
    match secret {
        Some(psk) => TunnelMode::Encrypted(psk),
        None => TunnelMode::Plain,
    }
}

/// What a client does once the server has answered the header.
#[derive(Debug)]
pub enum ClientAction {
    /// Write this to the application and relay.
    Relay(Vec<u8>),
    /// Write this to the application and end.
    Refuse(Vec<u8>, ClientError),
    Fail(ClientError),
}

/// A `ClientAction` as a mathematical value.
pub enum ClientActionView {
    Relay(Seq<u8>),
    Refuse(Seq<u8>, ClientError),
    Fail(ClientError),
}

impl View for ClientAction {
    type V = ClientActionView;

    open spec fn view(&self) -> ClientActionView {
        match self {
            ClientAction::Relay(out) => ClientActionView::Relay(out@),
            ClientAction::Refuse(out, e) => ClientActionView::Refuse(out@, *e),
            ClientAction::Fail(e) => ClientActionView::Fail(*e),
        }
    }
}

/// What follows from the frame that answers the header. Its first byte is the
/// status; a tunnel that closes, or an empty frame, tells none.
pub open spec fn client_action(answer: Option<Seq<u8>>) -> ClientActionView {
    match answer {
        Some(p) if p.len() > 0 => {
            let reply = reply_bytes(status_reply(p[0]));
            if p[0] == 0x00 {
                ClientActionView::Relay(reply)
            } else {
                ClientActionView::Refuse(reply, ClientError::Rejected(p[0]))
            }
        },
        _ => ClientActionView::Fail(ClientError::ClosedBeforeStatus),
    }
}

/// Takes the frame that answers the header, where there is one, and says what
/// to do next.
pub fn run_tunnel_client(answer: Option<Vec<u8>>) -> (r: ClientAction)
    ensures
        r@ == client_action(
            match answer {
                Some(p) => Some(p@),
                None => None,
            },
        ),
{
    match answer {
        Some(p) => {
            if p.len() == 0 {
                return ClientAction::Fail(ClientError::ClosedBeforeStatus);
            }
            let status = p[0];
            let reply = send_socks_reply(reply_of_status(status));
            if status != 0x00 {
                ClientAction::Refuse(reply, ClientError::Rejected(status))
            } else {
                ClientAction::Relay(reply)
            }
        },
        None => ClientAction::Fail(ClientError::ClosedBeforeStatus),
    }
}

/// The bytes of an address encode its text again.
proof fn lemma_address_encodes(kind: AddressType, data: Seq<u8>)
    requires
        data.len() >= protocol::address_len(kind, data),
        kind == AddressType::Domain ==> {
            let name = data.subrange(1, 1 + data[0]);
            &&& valid_utf8(name)
            &&& ip::ipv4_value(decode_utf8(name)) is None
            &&& ip::ipv6_value(decode_utf8(name)) is None
        },
    ensures
        protocol::encoded_address(protocol::address_text(kind, data)) == (
            kind,
            data.take(protocol::address_len(kind, data)),
        ),
{
    match kind {
        AddressType::Ipv4 => ip::lemma_ipv4_roundtrip(data.take(4)),
        AddressType::Ipv6 => {
            ip::lemma_ipv6_roundtrip(data.take(16));
            ip::lemma_ipv6_is_not_ipv4(data.take(16));
        },
        AddressType::Domain => {
            let name = data.subrange(1, 1 + data[0]);
            decode_utf8_encode_utf8(name);
            assert(seq![(name.len() % 256) as u8] + name =~= data.take(1 + data[0]));
        },
    }
}

/// The bytes of a port are those that it was read from.
proof fn lemma_port_encodes(hi: u8, lo: u8)
    ensures
        bytes::be16(bytes::from_be16(hi, lo)) == seq![hi, lo],
{
    assert(bytes::be16(bytes::from_be16(hi, lo)) =~= seq![hi, lo]);
}

/// The header that goes to the server is the request's own kind, address and
/// port, byte for byte. A name that spells an IP address goes as that address,
/// and a name that is not UTF-8 changes; both are left out.
pub proof fn lemma_header_is_request(request: Seq<u8>)
    requires
        request_outcome(request).end is Opened,
        AddressType::of_code(request[3]) == Some(AddressType::Domain) ==> {
            let name = request.subrange(5, 5 + request[4]);
            &&& valid_utf8(name)
            &&& ip::ipv4_value(decode_utf8(name)) is None
            &&& ip::ipv6_value(decode_utf8(name)) is None
        },
    ensures
        ({
            let kind = AddressType::of_code(request[3])->0;
            let addr = request_outcome(request).end->Opened_0;
            let port = request_outcome(request).end->Opened_1;
            let n = protocol::address_len(kind, request.skip(4));
            target_of(addr, port).header == request.subrange(3, 4 + n + 2)
        }),
{
    let kind = AddressType::of_code(request[3])->0;
    let data = request.skip(4);
    let n = protocol::address_len(kind, data);
    if kind == AddressType::Domain {
        assert(data.subrange(1, 1 + data[0]) =~= request.subrange(5, 5 + request[4]));
    }
    lemma_address_encodes(kind, data);
    lemma_port_encodes(data[n], data[n + 1]);
    protocol::lemma_address_code_roundtrip(kind, request[3]);
    assert(seq![request[3]] + data.take(n) + seq![data[n], data[n + 1]] =~= request.subrange(
        3,
        4 + n + 2,
    ));
}

/// Whatever address and port an application asks for, the header that the
/// tunnel carries names them at the far end. An IPv6 address is in its full
/// form there. A name that is not UTF-8 is left out where its replacement
/// characters make it too long for the header.
pub proof fn lemma_request_reaches_server(request: Seq<u8>)
    requires
        request_outcome(request).end is Opened,
        AddressType::of_code(request[3]) == Some(AddressType::Domain) ==> {
            let name = request.subrange(5, 5 + request[4]);
            valid_utf8(name) || encode_utf8(text::lossy_text(name)).len() <= 255
        },
    ensures
        ({
            let addr = request_outcome(request).end->Opened_0;
            let port = request_outcome(request).end->Opened_1;
            protocol::parsed_header(protocol::tunnel_header(addr, port)) == Ok::<
                (AddressType, Seq<char>, u16),
                HeaderError,
            >((protocol::encoded_address(addr).0, protocol::far_text(addr), port))
        }),
{
    let addr = request_outcome(request).end->Opened_0;
    let port = request_outcome(request).end->Opened_1;
    let kind = AddressType::of_code(request[3])->0;
    let data = request.skip(4);
    match kind {
        AddressType::Ipv4 => ip::lemma_ipv4_roundtrip(data.take(4)),
        AddressType::Ipv6 => ip::lemma_ipv6_roundtrip(data.take(16)),
        AddressType::Domain => {
            let name = data.subrange(1, 1 + data[0]);
            assert(name =~= request.subrange(5, 5 + request[4]));
            if valid_utf8(name) {
                decode_utf8_encode_utf8(name);
            }
        },
    }
    protocol::lemma_header_roundtrip(addr, port);
}

} // verus!
