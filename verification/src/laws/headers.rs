//! Laws on the header that opens a tunnel, and on what a server makes of it.
use crate::direct::server as direct_server;
use crate::direct::server::{SessionActionView, SessionError};
use crate::frame::FrameError;
use crate::ip;
use crate::laws::numbers;
use crate::laws::socks::whole_address;
use crate::protocol;
use crate::protocol::{AddressRead, AddressType, HeaderError};
use crate::server;
use crate::server::{ServerAction, ServerActionView, ServerError, ServerEvent};
use crate::text;
use vstd::prelude::*;
use vstd::utf8::*;

verus! {

/// The text of a whole address: its octets as an IP address is written, or its
/// name.
pub open spec fn address_says(code: u8, addr: Seq<u8>, t: Seq<char>) -> bool {
    &&& code == 1 ==> t == ip::ipv4_text(addr)
    &&& code == 4 ==> t == ip::ipv6_text(addr)
    &&& code == 3 ==> t == text::lossy_text(addr.skip(1))
    &&& code == 3 && valid_utf8(addr.skip(1)) ==> t == decode_utf8(addr.skip(1))
}

/// The text of an address does not depend on what follows its bytes.
proof fn lemma_address_text(code: u8, addr: Seq<u8>, rest: Seq<u8>)
    requires
        whole_address(code, addr),
    ensures
        ({
            let kind = AddressType::of_code(code)->0;
            &&& protocol::address_len(kind, addr + rest) == addr.len()
            &&& address_says(code, addr, protocol::address_text(kind, addr + rest))
        }),
{
    let d = addr + rest;
    if code == 1 {
        assert(d.take(4) =~= addr);
    } else if code == 4 {
        assert(d.take(16) =~= addr);
    } else {
        assert(d[0] == addr[0]);
        assert(d.subrange(1, 1 + d[0]) =~= addr.skip(1));
    }
}

/// An address that is read from a stream is whole: its text comes as soon as its
/// last byte is there, whatever follows.
pub proof fn lemma_address_read(
    kind: AddressType,
    data: &[u8],
    r: AddressRead,
    code: u8,
    addr: Seq<u8>,
    rest: Seq<u8>,
)
    requires
        call_ensures(protocol::read_address, (kind, data), r),
        whole_address(code, addr),
        AddressType::of_code(code) == Some(kind),
        data@ == addr + rest,
    ensures
        r matches AddressRead::Done(t) && address_says(code, addr, t@),
{
    lemma_address_text(code, addr, rest);
}

/// While a part of an address is missing, the bytes that are asked for are those
/// up to its end, or the length of a name.
pub proof fn lemma_address_missing(
    kind: AddressType,
    data: &[u8],
    r: AddressRead,
    code: u8,
    addr: Seq<u8>,
    k: int,
)
    requires
        call_ensures(protocol::read_address, (kind, data), r),
        whole_address(code, addr),
        AddressType::of_code(code) == Some(kind),
        0 <= k < addr.len(),
        data@ == addr.take(k),
    ensures
        r matches AddressRead::Need(n) && k + n == if code == 3 && k == 0 {
            1
        } else {
            addr.len() as int
        },
{
    if k > 0 {
        assert(data@[0] == addr[0]);
    }
}

// ---------------------------------------------------------------------------
// Writing
// ---------------------------------------------------------------------------

/// A header is one byte for the kind of the address, the address, and the port
/// in two bytes, the high one first. The octets of an IP address stand there as
/// they are; a name stands in UTF-8 after its length.
pub proof fn lemma_written_header(addr: &str, port: u16, r: Vec<u8>)
    requires
        call_ensures(protocol::encode_header, (addr, port), r),
    ensures
        r@.len() >= 4,
        r@[r@.len() - 2] * 256 + r@[r@.len() - 1] == port,
        ip::ipv4_value(addr@) matches Some(o) ==> r@[0] == 1 && r@.subrange(1, r@.len() - 2) == o,
        ip::ipv4_value(addr@) is None ==> (ip::ipv6_value(addr@) matches Some(o) ==> r@[0] == 4
            && r@.subrange(1, r@.len() - 2) == o),
        ip::ipv4_value(addr@) is None && ip::ipv6_value(addr@) is None ==> {
            let name = encode_utf8(addr@);
            &&& r@[0] == 3
            &&& r@[1] == name.len() % 256
            &&& r@.subrange(2, r@.len() - 2) == name
        },
{
    let h = r@;
    let (kind, a) = protocol::encoded_address(addr@);
    let n = a.len() as int;
    assert(h.len() == n + 3);
    assert(h.subrange(1, n + 1) =~= a);
    if kind == AddressType::Domain {
        assert(h.subrange(2, n + 1) =~= encode_utf8(addr@));
    }
}

// ---------------------------------------------------------------------------
// Reading
// ---------------------------------------------------------------------------

/// The error for a header of a kind that is too short.
pub open spec fn too_short(code: u8) -> HeaderError {
    if code == 1 {
        HeaderError::ShortIpv4
    } else if code == 3 {
        HeaderError::ShortDomain
    } else {
        HeaderError::ShortIpv6
    }
}

/// A whole header is read as the kind, the address and the port that it holds,
/// whatever follows it.
pub proof fn lemma_read_header(
    data: &[u8],
    r: Result<(AddressType, String, u16), HeaderError>,
    code: u8,
    addr: Seq<u8>,
    hi: u8,
    lo: u8,
    rest: Seq<u8>,
)
    requires
        call_ensures(protocol::parse_header, (data,), r),
        whole_address(code, addr),
        data@ == seq![code] + addr + seq![hi, lo] + rest,
    ensures
        r matches Ok((kind, t, port)) && AddressType::of_code(code) == Some(kind) && address_says(
            code,
            addr,
            t@,
        ) && port == hi * 256 + lo,
{
    let d = data@;
    let n = addr.len() as int;
    assert(d[0] == code);
    assert(d.skip(1) =~= addr + (seq![hi, lo] + rest));
    assert(d.skip(1)[n] == hi && d.skip(1)[n + 1] == lo);
    lemma_address_text(code, addr, seq![hi, lo] + rest);
}

/// Any proper part of a header is refused as too short for its kind; without a
/// byte it is refused as empty.
pub proof fn lemma_cut_header(
    data: &[u8],
    r: Result<(AddressType, String, u16), HeaderError>,
    code: u8,
    addr: Seq<u8>,
    hi: u8,
    lo: u8,
    k: int,
)
    requires
        call_ensures(protocol::parse_header, (data,), r),
        whole_address(code, addr),
        0 <= k < addr.len() + 3,
        data@ == (seq![code] + addr + seq![hi, lo]).take(k),
    ensures
        r matches Err(e) && e == if k == 0 {
            HeaderError::Empty
        } else {
            too_short(code)
        },
{
    let d = data@;
    if k >= 1 {
        assert(d[0] == code);
        if k >= 2 {
            assert(d[1] == (seq![code] + addr + seq![hi, lo])[1]);
            assert(d.skip(1)[0] == d[1]);
        }
    }
}

/// A byte that stands for no kind of address is refused, and named.
pub proof fn lemma_unknown_kind(
    data: &[u8],
    r: Result<(AddressType, String, u16), HeaderError>,
)
    requires
        call_ensures(protocol::parse_header, (data,), r),
        data@.len() > 0,
    ensures
        data@[0] != 1 && data@[0] != 3 && data@[0] != 4 <==> (r matches Err(
            HeaderError::UnsupportedAddressType(_),
        )),
        r matches Err(HeaderError::UnsupportedAddressType(v)) ==> v == data@[0],
{
}

// ---------------------------------------------------------------------------
// The server
// ---------------------------------------------------------------------------

/// A server that is sent a whole header connects to its address and port.
pub proof fn lemma_server_connects(
    event: ServerEvent,
    r: ServerAction,
    code: u8,
    addr: Seq<u8>,
    hi: u8,
    lo: u8,
    rest: Seq<u8>,
)
    requires
        call_ensures(server::run_tunnel_server, (event,), r),
        whole_address(code, addr),
        event matches ServerEvent::Header(Some(data)) && data@ == seq![code] + addr + seq![hi, lo]
            + rest,
    ensures
        r@ matches ServerActionView::Connect(t) && exists|name: Seq<char>| #[trigger]
            address_says(code, addr, name) && numbers::names_target(t, name, hi * 256 + lo),
{
    let d = event->Header_0->0@;
    let n = addr.len() as int;
    let kind = AddressType::of_code(code)->0;
    assert(d[0] == code);
    assert(d.skip(1) =~= addr + (seq![hi, lo] + rest));
    assert(d.skip(1)[n] == hi && d.skip(1)[n + 1] == lo);
    lemma_address_text(code, addr, seq![hi, lo] + rest);
    let name = protocol::address_text(kind, d.skip(1));
    assert(address_says(code, addr, name));
    numbers::lemma_target(name, (hi * 256 + lo) as u16);
}

/// A server tells one byte: zero and relays where it reaches the target, and
/// else five. A tunnel without a header, or with one that cannot be read, comes
/// to nothing.
pub proof fn lemma_server_tells(event: ServerEvent, r: ServerAction)
    requires
        call_ensures(server::run_tunnel_server, (event,), r),
    ensures
        event matches ServerEvent::Connected(reached) ==> r@ == if reached {
            ServerActionView::Relay(seq![0u8])
        } else {
            ServerActionView::Refuse(seq![5u8])
        },
        event matches ServerEvent::Header(None) ==> r@ == ServerActionView::Fail(
            ServerError::ClosedBeforeHeader,
        ),
        event matches ServerEvent::Header(Some(data)) ==> match protocol::parsed_header(data@) {
            Ok(_) => r@ is Connect,
            Err(e) => r@ == ServerActionView::Fail(ServerError::Header(e)),
        },
{
}

/// The server of the direct variant connects to the address and the port of a
/// bare header as soon as its last byte has come.
pub proof fn lemma_bare_header(
    code: u8,
    addr: Seq<u8>,
    hi: u8,
    lo: u8,
    rest: Seq<u8>,
    at_end: bool,
)
    requires
        whole_address(code, addr),
    ensures
        direct_server::plain_request(seq![code] + addr + seq![hi, lo] + rest, at_end) matches
            SessionActionView::Connect(t) && exists|name: Seq<char>| #[trigger]
            address_says(code, addr, name) && numbers::names_target(t, name, hi * 256 + lo),
{
    let d = seq![code] + addr + seq![hi, lo] + rest;
    let n = addr.len() as int;
    let kind = AddressType::of_code(code)->0;
    assert(d[0] == code);
    assert(d.skip(1) =~= addr + (seq![hi, lo] + rest));
    assert(d.skip(1)[n] == hi && d.skip(1)[n + 1] == lo);
    lemma_address_text(code, addr, seq![hi, lo] + rest);
    let name = protocol::address_text(kind, d.skip(1));
    assert(address_says(code, addr, name));
    numbers::lemma_target(name, (hi * 256 + lo) as u16);
}

/// Of a bare header that is not whole, the bytes that are missing from its next
/// part are asked for: the kind, the length of a name, the rest of the address,
/// and the port. Where no more will come, the stream has ended too early.
pub proof fn lemma_bare_header_cut(
    code: u8,
    addr: Seq<u8>,
    hi: u8,
    lo: u8,
    k: int,
    at_end: bool,
)
    requires
        whole_address(code, addr),
        0 <= k < addr.len() + 3,
    ensures
        ({
            let n = addr.len() as int;
            let r = direct_server::plain_request(
                (seq![code] + addr + seq![hi, lo]).take(k),
                at_end,
            );
            let next = if k == 0 {
                1
            } else if code == 3 && k == 1 {
                2
            } else if k < 1 + n {
                1 + n
            } else {
                3 + n
            };
            r == if at_end {
                SessionActionView::Fail(SessionError::Frame(FrameError::UnexpectedEof))
            } else {
                SessionActionView::Read(next - k)
            }
        }),
{
    let whole = seq![code] + addr + seq![hi, lo];
    let d = whole.take(k);
    if k >= 1 {
        assert(d[0] == code);
        if k >= 2 {
            assert(d[1] == whole[1]);
            assert(d.skip(1)[0] == d[1]);
            assert(whole[1] == addr[0]);
        }
    }
}

/// A byte that stands for no kind of address is refused at once.
pub proof fn lemma_bare_header_refused(d: Seq<u8>, at_end: bool)
    requires
        d.len() > 0,
        d[0] != 1 && d[0] != 3 && d[0] != 4,
    ensures
        direct_server::plain_request(d, at_end) == SessionActionView::Fail(
            SessionError::Server(ServerError::Header(HeaderError::UnsupportedAddressType(d[0]))),
        ),
{
}

/// With encryption the first frame is the header: the server connects to what
/// it says, or fails as the frame or the header does.
pub proof fn lemma_sealed_header(
    d: Seq<u8>,
    at_end: bool,
    key: Seq<u8>,
    header: Seq<u8>,
    code: u8,
    addr: Seq<u8>,
    hi: u8,
    lo: u8,
    rest: Seq<u8>,
)
    requires
        crate::direct::crypto::encrypted_read(d, at_end, key) == Ok::<_, FrameError>(
            crate::frame::FrameView::Frame(header),
        ),
        whole_address(code, addr),
        header == seq![code] + addr + seq![hi, lo] + rest,
    ensures
        direct_server::encrypted_request(d, at_end, key) matches SessionActionView::Connect(t)
            && exists|name: Seq<char>| #[trigger]
            address_says(code, addr, name) && numbers::names_target(t, name, hi * 256 + lo),
{
    let n = addr.len() as int;
    let kind = AddressType::of_code(code)->0;
    assert(header[0] == code);
    assert(header.skip(1) =~= addr + (seq![hi, lo] + rest));
    assert(header.skip(1)[n] == hi && header.skip(1)[n + 1] == lo);
    lemma_address_text(code, addr, seq![hi, lo] + rest);
    let name = protocol::address_text(kind, header.skip(1));
    assert(address_says(code, addr, name));
    numbers::lemma_target(name, (hi * 256 + lo) as u16);
}

/// The status that the server of the direct variant tells: one byte, zero and
/// then the relay where the target is reached, and else five.
pub proof fn lemma_direct_status_told(reached: bool)
    ensures
        direct_server::status_told(reached, server::status_of(reached)) == if reached {
            SessionActionView::Relay(seq![0u8])
        } else {
            SessionActionView::Refuse(seq![5u8])
        },
{
}

/// The kind of an address and its bytes, for every text, and the text to connect
/// to.
pub proof fn lemma_encoded(
    addr: &str,
    port: u16,
    r: (AddressType, Vec<u8>),
    target: String,
)
    requires
        call_ensures(protocol::encode_address, (addr,), r),
        call_ensures(protocol::target_string, (addr, port), target),
    ensures
        r.0 == AddressType::Ipv4 <==> ip::ipv4_value(addr@) is Some,
        r.0 == AddressType::Ipv6 <==> ip::ipv4_value(addr@) is None && ip::ipv6_value(
            addr@,
        ) is Some,
        r.0 == AddressType::Ipv4 ==> ip::ipv4_value(addr@) == Some(r.1@),
        r.0 == AddressType::Ipv6 ==> ip::ipv6_value(addr@) == Some(r.1@),
        r.0 == AddressType::Domain ==> r.1@.len() > 0 && r.1@[0] == encode_utf8(addr@).len() % 256
            && r.1@.skip(1) == encode_utf8(addr@),
        numbers::names_target(target@, addr@, port as int),
{
    numbers::lemma_target(addr@, port);
    if r.0 == AddressType::Domain {
        assert(r.1@.skip(1) =~= encode_utf8(addr@));
    }
}

/// With encryption a frame that is not there yet is waited for, one that cannot
/// be read or holds a bad header is refused for that, and a stream that ends
/// before it has been closed too early.
pub proof fn lemma_sealed_header_refused(d: Seq<u8>, at_end: bool, key: Seq<u8>)
    ensures
        match crate::direct::crypto::encrypted_read(d, at_end, key) {
            Ok(crate::frame::FrameView::Need(n)) => direct_server::encrypted_request(d, at_end, key)
                == SessionActionView::Read(n),
            Ok(crate::frame::FrameView::End) => direct_server::encrypted_request(d, at_end, key)
                == SessionActionView::Fail(SessionError::Server(ServerError::ClosedBeforeHeader)),
            Ok(crate::frame::FrameView::Frame(header)) => protocol::parsed_header(header) matches
                Err(e) ==> direct_server::encrypted_request(d, at_end, key)
                == SessionActionView::Fail(SessionError::Server(ServerError::Header(e))),
            Err(e) => direct_server::encrypted_request(d, at_end, key) == SessionActionView::Fail(
                SessionError::Frame(e),
            ),
        },
{
}

} // verus!
