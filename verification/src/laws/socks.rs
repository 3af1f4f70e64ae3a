//! Laws on the conversation with an application, from the bytes that it sends.
use crate::client;
use crate::client::{
    ClientError, SocksActionView, SocksEnd, SocksOutcome, SocksSession, SocksStateView, TargetView,
};
use crate::direct::client as direct_client;
use crate::direct::client::{ClientActionView, ClientStateView};
use crate::ip;
use crate::laws::numbers;
use crate::protocol;
use crate::protocol::AddressType;
use crate::text;
use vstd::prelude::*;
use vstd::utf8::*;

verus! {

// ---------------------------------------------------------------------------
// What an application sends
// ---------------------------------------------------------------------------

/// A greeting: the version, the number of methods, and the methods.
pub open spec fn greeting(version: u8, methods: Seq<u8>) -> Seq<u8> {
    seq![version, methods.len() as u8] + methods
}

/// A request: the version, the command, a reserved byte, the byte for the kind
/// of the address, the address, and the port, high byte first.
pub open spec fn request(
    version: u8,
    command: u8,
    reserved: u8,
    code: u8,
    addr: Seq<u8>,
    hi: u8,
    lo: u8,
) -> Seq<u8> {
    seq![version, command, reserved, code] + addr + seq![hi, lo]
}

/// Whether bytes are a whole address of the kind that a byte stands for: four
/// octets, a name after its length, or sixteen octets.
pub open spec fn whole_address(code: u8, addr: Seq<u8>) -> bool {
    ||| code == 1 && addr.len() == 4
    ||| code == 3 && addr.len() >= 1 && addr.len() == 1 + addr[0]
    ||| code == 4 && addr.len() == 16
}

/// Whether the bytes of an address are a name that is text and spells no IP
/// address, where they are a name at all.
pub open spec fn plain_name(code: u8, addr: Seq<u8>) -> bool {
    code == 3 ==> {
        &&& valid_utf8(addr.skip(1))
        &&& ip::ipv4_value(decode_utf8(addr.skip(1))) is None
        &&& ip::ipv6_value(decode_utf8(addr.skip(1))) is None
    }
}

/// Whether a target is the one that an address and a port ask for.
pub open spec fn asked_for(t: TargetView, code: u8, addr: Seq<u8>, hi: u8, lo: u8) -> bool {
    &&& t.port == hi * 256 + lo
    &&& code == 1 ==> t.addr == ip::ipv4_text(addr)
    &&& code == 3 ==> t.addr == text::lossy_text(addr.skip(1))
    &&& code == 3 && valid_utf8(addr.skip(1)) ==> t.addr == decode_utf8(addr.skip(1))
    &&& code == 4 ==> t.addr == ip::ipv6_text(addr)
    &&& numbers::names_target(t.target, t.addr, hi * 256 + lo)
    &&& plain_name(code, addr) ==> t.header == seq![code] + addr + seq![hi, lo]
}

/// The code bytes of the protocol, for every byte.
pub proof fn lemma_codes(v: u8)
    ensures
        AddressType::of_code(v) == Some(AddressType::Ipv4) <==> v == 1,
        AddressType::of_code(v) == Some(AddressType::Domain) <==> v == 3,
        AddressType::of_code(v) == Some(AddressType::Ipv6) <==> v == 4,
        AddressType::of_code(v) is None <==> v != 1 && v != 3 && v != 4,
        protocol::SocksCommand::of_code(v) == Some(protocol::SocksCommand::Connect) <==> v == 1,
        protocol::SocksCommand::of_code(v) == Some(protocol::SocksCommand::Bind) <==> v == 2,
        protocol::SocksCommand::of_code(v) == Some(protocol::SocksCommand::UdpAssociate) <==> v
            == 3,
{
}

// ---------------------------------------------------------------------------
// The conversation
// ---------------------------------------------------------------------------

/// A greeting is answered with the choice to go without authentication, and the
/// request follows. An application that does not offer this is turned away,
/// unless every application is accepted.
pub proof fn lemma_greeted(
    version: u8,
    methods: Seq<u8>,
    rest: Seq<u8>,
    any_method: bool,
)
    requires
        methods.len() <= 255,
    ensures
        ({
            let s = greeting(version, methods) + rest;
            let r = client::run_session(SocksStateView::Greeting, s, any_method);
            if any_method || methods.contains(0) {
                let after = client::request_outcome(rest);
                r == (SocksOutcome { written: seq![5u8, 0u8] + after.written, end: after.end })
            } else {
                r == (SocksOutcome {
                    written: seq![5u8, 255u8],
                    end: SocksEnd::Failed(ClientError::NoAcceptableMethod),
                })
            }
        }),
{
    let s = greeting(version, methods) + rest;
    let n = methods.len() as int;
    client::lemma_session_is_conversation(s, any_method);
    assert(s[1] == methods.len());
    assert(s.subrange(2, 2 + n) =~= methods);
    assert(s.skip(2 + n) =~= rest);
    assert(client::method_bytes(0) =~= seq![5u8, 0u8]);
    assert(client::method_bytes(255) =~= seq![5u8, 255u8]);
}

proof fn lemma_asked(
    version: u8,
    reserved: u8,
    code: u8,
    addr: Seq<u8>,
    hi: u8,
    lo: u8,
    rest: Seq<u8>,
)
    requires
        whole_address(code, addr),
    ensures
        ({
            let r = client::request_outcome(
                request(version, 1, reserved, code, addr, hi, lo) + rest,
            );
            &&& r.written == Seq::<u8>::empty()
            &&& r.end matches SocksEnd::Opened(a, p) && asked_for(
                client::target_of(a, p),
                code,
                addr,
                hi,
                lo,
            )
        }),
{
    let q = request(version, 1, reserved, code, addr, hi, lo) + rest;
    let kind = AddressType::of_code(code)->0;
    let d = q.skip(4);
    let n = addr.len() as int;
    assert(q[1] == 1 && q[3] == code);
    assert(d =~= addr + seq![hi, lo] + rest);
    assert(d[n] == hi && d[n + 1] == lo);
    assert(protocol::address_len(kind, d) == n);
    let text = protocol::address_text(kind, d);
    let port = (hi * 256 + lo) as u16;
    assert(client::request_outcome(q).end == SocksEnd::Opened(text, port));
    numbers::lemma_target(text, port);
    if code == 1 {
        assert(d.take(4) =~= addr);
    } else if code == 4 {
        assert(d.take(16) =~= addr);
    } else {
        assert(d.subrange(1, 1 + d[0]) =~= addr.skip(1));
        assert(q.subrange(5, 5 + q[4]) =~= addr.skip(1));
    }
    if plain_name(code, addr) {
        client::lemma_header_is_request(q);
        assert(q.subrange(3, 4 + n + 2) =~= seq![code] + addr + seq![hi, lo]);
    }
}

/// An application that sends a whole greeting and a whole request to connect
/// gets the target that it asks for, whatever follows: its own kind, address
/// and port.
pub proof fn lemma_connect(
    version: u8,
    methods: Seq<u8>,
    reserved: u8,
    code: u8,
    addr: Seq<u8>,
    hi: u8,
    lo: u8,
    rest: Seq<u8>,
    any_method: bool,
)
    requires
        methods.len() <= 255,
        any_method || methods.contains(0),
        whole_address(code, addr),
    ensures
        ({
            let s = greeting(version, methods) + (request(version, 1, reserved, code, addr, hi, lo)
                + rest);
            let r = client::run_session(SocksStateView::Greeting, s, any_method);
            &&& r.written == seq![5u8, 0u8]
            &&& r.end matches SocksEnd::Opened(a, p) && asked_for(
                client::target_of(a, p),
                code,
                addr,
                hi,
                lo,
            )
        }),
{
    let tail = request(version, 1, reserved, code, addr, hi, lo) + rest;
    lemma_greeted(version, methods, tail, any_method);
    lemma_asked(version, reserved, code, addr, hi, lo, rest);
    assert(seq![5u8, 0u8] + Seq::<u8>::empty() =~= seq![5u8, 0u8]);
}

/// A command other than to connect is answered with the code for it and turned
/// away, before anything of the address is read. A byte that stands for no kind
/// of address ends the conversation without an answer.
pub proof fn lemma_request_refused(head: Seq<u8>, rest: Seq<u8>)
    requires
        head.len() == 4,
    ensures
        head[1] != 1 ==> client::request_outcome(head + rest) == (SocksOutcome {
            written: seq![5u8, 7u8, 0u8, 1u8, 0u8, 0u8, 0u8, 0u8, 0u8, 0u8],
            end: SocksEnd::Failed(ClientError::UnsupportedCommand),
        }),
        head[1] == 1 && head[3] != 1 && head[3] != 3 && head[3] != 4 ==> client::request_outcome(
            head + rest,
        ) == (SocksOutcome {
            written: Seq::empty(),
            end: SocksEnd::Failed(ClientError::UnsupportedAddressType(head[3])),
        }),
{
    let q = head + rest;
    assert(q[1] == head[1] && q[3] == head[3]);
}

/// Until the last byte of a greeting and a request to connect has come, the
/// conversation waits.
pub proof fn lemma_waits(
    version: u8,
    methods: Seq<u8>,
    reserved: u8,
    code: u8,
    addr: Seq<u8>,
    hi: u8,
    lo: u8,
    any_method: bool,
    k: int,
)
    requires
        methods.len() <= 255,
        any_method || methods.contains(0),
        whole_address(code, addr),
        0 <= k < greeting(version, methods).len() + request(
            version,
            1,
            reserved,
            code,
            addr,
            hi,
            lo,
        ).len(),
    ensures
        ({
            let s = greeting(version, methods) + request(
                version,
                1,
                reserved,
                code,
                addr,
                hi,
                lo,
            );
            client::run_session(SocksStateView::Greeting, s.take(k), any_method).end is Waiting
        }),
{
    let g = greeting(version, methods);
    let q = request(version, 1, reserved, code, addr, hi, lo);
    let s = (g + q).take(k);
    let n = methods.len() as int;
    client::lemma_session_is_conversation(s, any_method);
    if k >= 2 {
        assert(s[1] == methods.len());
        if k >= 2 + n {
            assert(s.subrange(2, 2 + n) =~= methods);
            let part = s.skip(2 + n);
            assert(part =~= q.take(k - 2 - n));
            if part.len() >= 4 {
                assert(part[1] == 1 && part[3] == code);
                let d = part.skip(4);
                if d.len() > 0 {
                    assert(d[0] == addr[0]) by {
                        if addr.len() > 0 {
                            assert(q[4] == addr[0]);
                        }
                    }
                }
            }
        }
    }
}

/// What an action asks to read is what the next step takes, and what it writes
/// is the choice of a method or an answer.
pub proof fn lemma_asks_what_it_needs(
    session: SocksSession,
    input: &[u8],
    r: (SocksSession, client::SocksAction),
)
    requires
        session.state@.wf(),
        input@.len() == session.state@.needs(),
        call_ensures(client::handle_socks_client, (session, input), r),
    ensures
        r.1@ matches SocksActionView::Read(n) ==> n == r.0.state@.needs(),
        r.1@ matches SocksActionView::Reply(out, n) ==> n == r.0.state@.needs() && out
            == seq![5u8, 0u8],
        r.1@ is Refuse || r.1@ is Fail || r.1@ is Open ==> r.0.state@ is Closed,
        r.0.any_method == session.any_method,
        r.0.state@.wf(),
        (r.0.state@, r.1@) == client::socks_step(session.state@, input@, session.any_method),
{
    assert(client::method_bytes(0) =~= seq![5u8, 0u8]);
}

// ---------------------------------------------------------------------------
// The direct variant
// ---------------------------------------------------------------------------

/// How the talk of the direct client with an application ends.
pub enum TalkEnd {
    Waiting,
    Failed(ClientError),
    /// The header of this target goes to the server.
    Opened(TargetView),
}

/// What comes of the steps of the direct client that take a stream, each as
/// soon as the bytes that it needs are there: what is written to the
/// application, and the end.
pub open spec fn talk(s: SocksStateView, any_method: bool, stream: Seq<u8>) -> (Seq<u8>, TalkEnd)
    decreases s.rank(),
{
    let state = ClientStateView::Talking(s, any_method);
    let n = state.needs();
    if s is Closed || !s.wf() || stream.len() < n {
        (Seq::empty(), TalkEnd::Waiting)
    } else {
        let (after, action) = direct_client::client_step(state, stream.take(n));
        let rest = stream.skip(n);
        match (after, action) {
            (
                ClientStateView::Talking(next, any),
                ClientActionView::Talk(SocksActionView::Read(_)),
            ) => talk(next, any, rest),
            (
                ClientStateView::Talking(next, any),
                ClientActionView::Talk(SocksActionView::Reply(out, _)),
            ) => {
                let later = talk(next, any, rest);
                (out + later.0, later.1)
            },
            (_, ClientActionView::Talk(SocksActionView::Refuse(out, e))) => (
                out,
                TalkEnd::Failed(e),
            ),
            (_, ClientActionView::Talk(SocksActionView::Fail(e))) => (
                Seq::empty(),
                TalkEnd::Failed(e),
            ),
            (ClientStateView::Status, ClientActionView::Talk(SocksActionView::Open(t))) => (
                Seq::empty(),
                TalkEnd::Opened(t),
            ),
            _ => (Seq::empty(), TalkEnd::Waiting),
        }
    }
}

/// The direct client talks to an application as the other one does.
pub proof fn lemma_talk_is_session(s: SocksStateView, any_method: bool, stream: Seq<u8>)
    ensures
        ({
            let r = client::run_session(s, stream, any_method);
            let t = talk(s, any_method, stream);
            &&& t.0 == r.written
            &&& match r.end {
                SocksEnd::Waiting => t.1 is Waiting,
                SocksEnd::Failed(e) => t.1 == TalkEnd::Failed(e),
                SocksEnd::Opened(a, p) => t.1 == TalkEnd::Opened(client::target_of(a, p)),
            }
        }),
    decreases s.rank(),
{
    let n = s.needs();
    if !(s is Closed || !s.wf() || stream.len() < n) {
        let (next, action) = client::socks_step(s, stream.take(n), any_method);
        if action is Read || action is Reply {
            lemma_talk_is_session(next, any_method, stream.skip(n));
        }
    }
}

/// The steps of the direct client, from its first state, over a whole greeting
/// and a whole request to connect: the header that goes to the server is the
/// request's own kind, address and port byte for byte, and the port is its last
/// two bytes, high byte first. A name that spells an IP address or is not UTF-8
/// is left out of the statement on the header alone.
pub proof fn lemma_direct_connect(
    first: direct_client::ClientState,
    version: u8,
    methods: Seq<u8>,
    reserved: u8,
    code: u8,
    addr: Seq<u8>,
    hi: u8,
    lo: u8,
    rest: Seq<u8>,
)
    requires
        call_ensures(direct_client::ClientState::new, (), first),
        methods.len() <= 255,
        whole_address(code, addr),
    ensures
        first@ == ClientStateView::Talking(SocksStateView::Greeting, true),
        ({
            let s = greeting(version, methods) + (request(version, 1, reserved, code, addr, hi, lo)
                + rest);
            let r = talk(SocksStateView::Greeting, true, s);
            &&& r.0 == seq![5u8, 0u8]
            &&& r.1 matches TalkEnd::Opened(t) && asked_for(t, code, addr, hi, lo)
        }),
{
    let s = greeting(version, methods) + (request(version, 1, reserved, code, addr, hi, lo) + rest);
    lemma_connect(version, methods, reserved, code, addr, hi, lo, rest, true);
    lemma_talk_is_session(SocksStateView::Greeting, true, s);
}

/// The function that takes the steps takes those that `talk` is made of, and
/// asks to read what the next step takes.
pub proof fn lemma_direct_step(
    state: direct_client::ClientState,
    input: &[u8],
    r: (direct_client::ClientState, direct_client::ClientAction),
)
    requires
        state.wf(),
        input@.len() == state@.needs(),
        call_ensures(direct_client::handle_socks_client, (state, input), r),
    ensures
        (r.0@, r.1@) == direct_client::client_step(state@, input@),
        r.0.wf(),
        r.1@ matches ClientActionView::Talk(SocksActionView::Read(n)) ==> n == r.0@.needs(),
        r.1@ matches ClientActionView::Talk(SocksActionView::Reply(out, n)) ==> n
            == r.0@.needs() && out == seq![5u8, 0u8],
        r.1@ matches ClientActionView::Talk(SocksActionView::Open(_)) ==> r.0@
            == ClientStateView::Status,
{
    assert(client::method_bytes(0) =~= seq![5u8, 0u8]);
}

// ---------------------------------------------------------------------------
// The answer to a request
// ---------------------------------------------------------------------------

/// The answer of ten bytes: the version, the code, a zero, the kind of an IPv4
/// address, and then zeros for the address and the port.
pub open spec fn answer(code: u8) -> Seq<u8> {
    seq![5u8, code, 0u8, 1u8, 0u8, 0u8, 0u8, 0u8, 0u8, 0u8]
}

/// The code that answers a status of the server: the status itself where it is
/// success or one of the failures two to five, and else a general failure.
pub open spec fn answer_code(status: u8) -> u8 {
    if status <= 5 {
        status
    } else {
        1
    }
}

/// The direct client answers the application by the status of the server, and
/// relays just where this is zero.
pub proof fn lemma_direct_status(
    state: direct_client::ClientState,
    input: &[u8],
    r: (direct_client::ClientState, direct_client::ClientAction),
)
    requires
        state is Status,
        input@.len() == 1,
        call_ensures(direct_client::handle_socks_client, (state, input), r),
    ensures
        r.0@ is Closed,
        r.1@ == if input@[0] == 0 {
            ClientActionView::Relay(answer(0))
        } else {
            ClientActionView::Refuse(answer(answer_code(input@[0])), input@[0])
        },
{
    let status = input@[0];
    assert(client::reply_bytes(client::status_reply(status)) =~= answer(answer_code(status)));
}

/// The client answers the application by the first byte of the frame that comes
/// back, relays just where this is zero, and fails without an answer where
/// there is no such byte.
pub proof fn lemma_status(given: Option<Vec<u8>>, r: client::ClientAction)
    requires
        call_ensures(client::run_tunnel_client, (given,), r),
    ensures
        match given {
            Some(p) if p@.len() > 0 => r@ == if p@[0] == 0 {
                client::ClientActionView::Relay(answer(0))
            } else {
                client::ClientActionView::Refuse(
                    answer(answer_code(p@[0])),
                    ClientError::Rejected(p@[0]),
                )
            },
            _ => r@ == client::ClientActionView::Fail(ClientError::ClosedBeforeStatus),
        },
{
    if given is Some && given->0@.len() > 0 {
        let status = given->0@[0];
        assert(client::reply_bytes(client::status_reply(status)) =~= answer(answer_code(status)));
    }
}

/// The functions between bytes and what they stand for, both ways: one, three
/// and four for the kinds of address, one to three for the commands.
pub proof fn lemma_bytes_stand_for(
    v: u8,
    kind: AddressType,
    a: Option<AddressType>,
    c: Option<protocol::SocksCommand>,
    b: u8,
)
    requires
        call_ensures(AddressType::from_u8, (v,), a),
        call_ensures(AddressType::to_u8, (kind,), b),
        call_ensures(protocol::SocksCommand::from_u8, (v,), c),
    ensures
        a == Some(AddressType::Ipv4) <==> v == 1,
        a == Some(AddressType::Domain) <==> v == 3,
        a == Some(AddressType::Ipv6) <==> v == 4,
        kind == AddressType::Ipv4 <==> b == 1,
        kind == AddressType::Domain <==> b == 3,
        kind == AddressType::Ipv6 <==> b == 4,
        c == Some(protocol::SocksCommand::Connect) <==> v == 1,
        c == Some(protocol::SocksCommand::Bind) <==> v == 2,
        c == Some(protocol::SocksCommand::UdpAssociate) <==> v == 3,
{
}

/// The bytes of an answer, with the code of each.
pub proof fn lemma_answers(rep: protocol::SocksReply, b: u8, r: Vec<u8>)
    requires
        call_ensures(protocol::SocksReply::to_u8, (rep,), b),
        call_ensures(client::send_socks_reply, (rep,), r),
    ensures
        r@ == answer(b),
        b == match rep {
            protocol::SocksReply::Succeeded => 0,
            protocol::SocksReply::GeneralFailure => 1,
            protocol::SocksReply::ConnectionNotAllowed => 2,
            protocol::SocksReply::NetworkUnreachable => 3,
            protocol::SocksReply::HostUnreachable => 4,
            protocol::SocksReply::ConnectionRefused => 5,
            protocol::SocksReply::CommandNotSupported => 7u8,
        },
{
    assert(r@ =~= answer(b));
}

/// A conversation begins before the first byte, with the acceptance that it is
/// given.
pub proof fn lemma_first_state(any_method: bool, s: SocksSession)
    requires
        call_ensures(SocksSession::new, (any_method,), s),
    ensures
        s.any_method == any_method,
        s.state@ is Greeting,
{
}

} // verus!
