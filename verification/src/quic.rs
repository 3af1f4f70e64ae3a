//! The tunnel over QUIC: frames with a length prefix on one stream, the address
//! of the server, and the choice of how its certificate is checked.
use crate::frame;
use crate::frame::{FrameRead, FrameView};
use crate::text;
use vstd::prelude::*;

verus! {

/// The protocol name that both sides offer: `vs-vpn`.
pub const ALPN: [u8; 6] = [0x76, 0x73, 0x2d, 0x76, 0x70, 0x6e];

/// The most bytes that a relay reads at once.
pub const RELAY_BUF: usize = 16384;

// ---------------------------------------------------------------------------
// Frames
// ---------------------------------------------------------------------------

/// One end of a tunnel over QUIC.
#[derive(Debug, Clone, Copy)]
pub struct QuicTunnel {
    /// Whether the stream has gone over to the relay, after which no frame can
    /// be sent or received.
    pub relaying: bool,
}

/// What the bytes that have arrived hold of a frame. A stream that ends before
/// the frame is complete holds no frame.
pub open spec fn quic_read(received: Seq<u8>, at_end: bool) -> FrameView {
    match frame::frame_read(received, at_end) {
        Ok(f) => f,
        Err(_) => FrameView::End,
    }
}

impl QuicTunnel {
    pub fn new() -> (r: Self)
        ensures
            !r.relaying,
    {
        QuicTunnel { relaying: false }
    }

    /// The bytes to write for a frame.
    pub fn send_frame(&mut self, data: &[u8]) -> (r: Vec<u8>)
        requires
            !old(self).relaying,
        ensures
            *final(self) == *old(self),
            r@ == frame::framed(data@),
    {
        frame::write_frame(data)
    }

    /// Reads a frame from the bytes that have arrived since the last one. Where
    /// `at_end` holds, no more will come.
    pub fn recv_frame(&mut self, received: &[u8], at_end: bool) -> (r: FrameRead)
        requires
            !old(self).relaying,
        ensures
            *final(self) == *old(self),
            r@ == quic_read(received@, at_end),
    {
        match frame::read_frame(received, at_end) {
            Ok(f) => f,
            Err(_) => FrameRead::End,
        }
    }

    /// Gives the stream over to the relay.
    pub fn relay_bidirectional(&mut self)
        requires
            !old(self).relaying,
        ensures
            final(self).relaying,
    {
        self.relaying = true;
    }
}

/// A frame reads back as its data, whatever follows it in the stream. This does
/// not hold for data of more than 65535 bytes, whose length the prefix cannot
/// give.
pub proof fn lemma_quic_roundtrip(data: Seq<u8>, rest: Seq<u8>, at_end: bool)
    requires
        data.len() <= 65535,
    ensures
        quic_read(frame::framed(data) + rest, at_end) == FrameView::Frame(data),
{
    frame::lemma_frame_roundtrip(data, rest, at_end);
}

/// Without a complete frame there is none: whatever proper part of a frame has
/// arrived when the stream ends, the reader is told of the end.
pub proof fn lemma_cut_frame_is_end(data: Seq<u8>, k: int)
    requires
        data.len() <= 65535,
        0 <= k < frame::framed(data).len(),
    ensures
        quic_read(frame::framed(data).take(k), true) == FrameView::End,
{
    frame::lemma_frame_asks_no_more(data, k);
}

// ---------------------------------------------------------------------------
// Reading and relaying
// ---------------------------------------------------------------------------

/// How reading so many bytes goes on.
#[derive(Debug, Clone, Copy, PartialEq, Eq, Structural)]
pub enum ExactRead {
    /// So many have been read; go on.
    More(usize),
    /// All have been read.
    Done,
    /// The stream ended first.
    End,
}

/// One step of reading `want` bytes, of which `offset` have been read, from
/// what one more read gave: a number of bytes, or the end of the stream. A read
/// of no bytes is the end too.
pub fn read_exact_quic(offset: usize, want: usize, got: Option<usize>) -> (r: ExactRead)
    requires
        offset <= want,
        got matches Some(n) ==> offset + n <= want,
    ensures
        r == if offset == want {
            ExactRead::Done
        } else {
            match got {
                Some(n) if n > 0 => if offset + n == want {
                    ExactRead::Done
                } else {
                    ExactRead::More((offset + n) as usize)
                },
                _ => ExactRead::End,
            }
        },
{
    if offset == want {
        return ExactRead::Done;
    }
    match got {
        Some(n) if n > 0 => {
            if offset + n == want {
                ExactRead::Done
            } else {
                ExactRead::More(offset + n)
            }
        },
        _ => ExactRead::End,
    }
}

/// What a relay does with what it has read.
#[derive(Debug, Clone, Copy, PartialEq, Eq, Structural)]
pub enum QuicRelay {
    /// Write so many bytes.
    Write(usize),
    /// Tell the other side that no more will come, and end.
    Finish,
    /// End.
    Stop,
}

/// One step of the relay into the tunnel, after a read of `n` bytes.
pub fn relay_external_to_quic(n: usize) -> (r: QuicRelay)
    ensures
        r == if n == 0 {
            QuicRelay::Finish
        } else {
            QuicRelay::Write(n)
        },
{
    if n == 0 {
        QuicRelay::Finish
    } else {
        QuicRelay::Write(n)
    }
}

/// One step of the relay out of the tunnel, after a read of a number of bytes
/// or of the end of the stream.
pub fn relay_quic_to_external(got: Option<usize>) -> (r: QuicRelay)
    ensures
        r == match got {
            Some(n) if n > 0 => QuicRelay::Write(n),
            _ => QuicRelay::Stop,
        },
{
    match got {
        Some(n) if n > 0 => QuicRelay::Write(n),
        _ => QuicRelay::Stop,
    }
}

// ---------------------------------------------------------------------------
// The address of a server
// ---------------------------------------------------------------------------

/// Why a text is not a port.
#[derive(Debug, Clone, Copy, PartialEq, Eq, Structural)]
pub enum PortError {
    Empty,
    InvalidDigit,
    TooLarge,
}

/// Why a text is not the address of a server.
#[derive(Debug)]
pub enum AddressError {
    /// There is no colon in this text.
    NoPort(String),
    Port(PortError),
}

/// An `AddressError` as a mathematical value.
pub enum AddressErrorView {
    NoPort(Seq<char>),
    Port(PortError),
}

impl View for AddressError {
    type V = AddressErrorView;

    open spec fn view(&self) -> AddressErrorView {
        match self {
            AddressError::NoPort(t) => AddressErrorView::NoPort(t@),
            AddressError::Port(e) => AddressErrorView::Port(*e),
        }
    }
}

impl AddressErrorView {
    /// The error in words.
    pub open spec fn message_text(self) -> Seq<char> {
        match self {
            AddressErrorView::NoPort(t) => "invalid address: "@ + t + " (expected host:port)"@,
            AddressErrorView::Port(PortError::Empty) => "cannot parse integer from empty string"@,
            AddressErrorView::Port(PortError::InvalidDigit) => "invalid digit found in string"@,
            AddressErrorView::Port(PortError::TooLarge) =>
                "number too large to fit in target type"@,
        }
    }
}

impl AddressError {
    pub fn message(&self) -> (r: String)
        ensures
            r@ == self@.message_text(),
    {
        match self {
            AddressError::NoPort(t) => {
                let mut s = "invalid address: ".to_string();
                s.append(t.as_str());
                s.append(" (expected host:port)");
                s
            },
            AddressError::Port(PortError::Empty) =>
                "cannot parse integer from empty string".to_string(),
            AddressError::Port(PortError::InvalidDigit) =>
                "invalid digit found in string".to_string(),
            AddressError::Port(PortError::TooLarge) =>
                "number too large to fit in target type".to_string(),
        }
    }
}

/// How many decimal digits a text begins with.
pub open spec fn digit_count(t: Seq<char>) -> int
    decreases t.len(),
{
    if t.len() == 0 || text::decimal_digit(t[0]) is None {
        0
    } else {
        1 + digit_count(t.drop_first())
    }
}

/// The port that a text denotes: decimal digits after an optional plus sign.
/// What is wrong first, from the left, is the error.
pub open spec fn port_value(t: Seq<char>) -> Result<u16, PortError> {
    let digits = if t.len() > 0 && t[0] == '+' {
        t.skip(1)
    } else {
        t
    };
    let k = digit_count(digits);
    let value = text::decimal_value(digits.take(k));
    if t.len() == 0 {
        Err(PortError::Empty)
    } else if value > 65535 {
        Err(PortError::TooLarge)
    } else if k < digits.len() || k == 0 {
        Err(PortError::InvalidDigit)
    } else {
        Ok(value as u16)
    }
}

/// The position of the last colon, or minus one where there is none.
pub open spec fn last_colon(t: Seq<char>) -> int
    decreases t.len(),
{
    if t.len() == 0 {
        -1
    } else if t.last() == ':' {
        t.len() - 1
    } else {
        last_colon(t.drop_last())
    }
}

/// A host without the square brackets around it, where it has both.
pub open spec fn unbracketed(t: Seq<char>) -> Seq<char> {
    if t.len() >= 2 && t[0] == '[' && t.last() == ']' {
        t.subrange(1, t.len() - 1)
    } else {
        t
    }
}

/// The host and the port that the address of a server denotes: what stands
/// before the last colon and what stands after it.
pub open spec fn host_port(t: Seq<char>) -> Result<(Seq<char>, u16), AddressErrorView> {
    let k = last_colon(t);
    if k < 0 {
        Err(AddressErrorView::NoPort(t))
    } else {
        match port_value(t.skip(k + 1)) {
            Ok(port) => Ok((unbracketed(t.take(k)), port)),
            Err(e) => Err(AddressErrorView::Port(e)),
        }
    }
}

proof fn lemma_digit_count(t: Seq<char>, k: int)
    requires
        0 <= k <= t.len(),
        forall|j: int| 0 <= j < k ==> text::decimal_digit(#[trigger] t[j]) is Some,
        k < t.len() ==> text::decimal_digit(t[k]) is None,
    ensures
        digit_count(t) == k,
    decreases k,
{
    if k > 0 {
        let rest = t.drop_first();
        assert(text::decimal_digit(t[0]) is Some);
        assert forall|j: int| 0 <= j < k - 1 implies text::decimal_digit(
            #[trigger] rest[j],
        ) is Some by {
            assert(rest[j] == t[j + 1]);
        }
        lemma_digit_count(rest, k - 1);
    }
}

/// More digits never make a number smaller.
pub proof fn lemma_value_grows(t: Seq<char>, i: int, k: int)
    requires
        0 <= i <= k <= t.len(),
        forall|j: int| 0 <= j < k ==> text::decimal_digit(#[trigger] t[j]) is Some,
    ensures
        0 <= text::decimal_value(t.take(i)) <= text::decimal_value(t.take(k)),
    decreases k - i,
{
    if i < k {
        lemma_value_grows(t, i, k - 1);
        assert(t.take(k).drop_last() =~= t.take(k - 1));
        assert(text::decimal_digit(t[k - 1]) is Some);
    } else {
        assert(text::all_decimal(t.take(i))) by {
            assert forall|j: int| 0 <= j < i implies text::decimal_digit(
                #[trigger] t.take(i)[j],
            ) is Some by {
                assert(t.take(i)[j] == t[j]);
            }
        }
        text::lemma_decimal_value_nonneg(t.take(i));
    }
}

/// Reads the characters from `start` on as a port.
fn parse_port(chars: &Vec<char>, start: usize) -> (r: Result<u16, PortError>)
    requires
        start <= chars@.len(),
    ensures
        r == port_value(chars@.skip(start as int)),
{
    let ghost t = chars@.skip(start as int);
    let end = chars.len();
    if start == end {
        return Err(PortError::Empty);
    }
    let first: usize = if chars[start] == '+' {
        start + 1
    } else {
        start
    };
    let ghost digits = if t[0] == '+' {
        t.skip(1)
    } else {
        t
    };
    assert(digits =~= chars@.skip(first as int));
    let mut acc: u32 = 0;
    let mut i: usize = first;
    while i < end
        invariant
            start <= first <= i <= end == chars@.len(),
            start < end,
            t == chars@.skip(start as int),
            digits == chars@.skip(first as int),
            digits == (if t[0] == '+' {
                t.skip(1)
            } else {
                t
            }),
            forall|j: int|
                0 <= j < i - first ==> text::decimal_digit(#[trigger] digits[j]) is Some,
            acc == text::decimal_value(digits.take(i - first)),
            acc <= 65535,
        decreases end - i,
    {
        let ghost k = i - first;
        match text::decimal_digit_of(chars[i]) {
            None => {
                proof {
                    assert(digits[k] == chars@[i as int]);
                    lemma_digit_count(digits, k);
                }
                return Err(PortError::InvalidDigit);
            },
            Some(d) => {
                assert(digits[k] == chars@[i as int]);
                assert(digits.take(k + 1).drop_last() =~= digits.take(k));
                acc = acc * 10 + d as u32;
                if acc > 65535 {
                    proof {
                        lemma_digit_count_bounds(digits);
                        lemma_digit_count_at_least(digits, k + 1);
                        lemma_value_grows(digits, k + 1, digit_count(digits));
                    }
                    return Err(PortError::TooLarge);
                }
            },
        }
        i += 1;
    }
    proof {
        lemma_digit_count(digits, end - first);
        assert(digits.take(end - first) =~= digits);
    }
    if first == end {
        return Err(PortError::InvalidDigit);
    }
    Ok(acc as u16)
}

pub proof fn lemma_digit_count_bounds(t: Seq<char>)
    ensures
        0 <= digit_count(t) <= t.len(),
        forall|j: int| 0 <= j < digit_count(t) ==> text::decimal_digit(#[trigger] t[j]) is Some,
        digit_count(t) < t.len() ==> text::decimal_digit(t[digit_count(t)]) is None,
    decreases t.len(),
{
    if t.len() > 0 && text::decimal_digit(t[0]) is Some {
        let rest = t.drop_first();
        lemma_digit_count_bounds(rest);
        assert forall|j: int| 0 <= j < digit_count(t) implies text::decimal_digit(
            #[trigger] t[j],
        ) is Some by {
            if j > 0 {
                assert(rest[j - 1] == t[j]);
            }
        }
    }
}

pub proof fn lemma_digit_count_at_least(t: Seq<char>, k: int)
    requires
        0 <= k <= t.len(),
        forall|j: int| 0 <= j < k ==> text::decimal_digit(#[trigger] t[j]) is Some,
    ensures
        digit_count(t) >= k,
{
    lemma_digit_count_bounds(t);
    if digit_count(t) < k {
        assert(text::decimal_digit(t[digit_count(t)]) is Some);
    }
}

/// The position of the last colon.
fn find_last_colon(chars: &Vec<char>) -> (r: Option<usize>)
    ensures
        match r {
            Some(k) => k < chars@.len() && last_colon(chars@) == k,
            None => last_colon(chars@) == -1,
        },
{
    let mut i: usize = chars.len();
    assert(chars@.take(i as int) =~= chars@);
    while i > 0
        invariant
            i <= chars@.len(),
            last_colon(chars@) == last_colon(chars@.take(i as int)),
        decreases i,
    {
        assert(chars@.take(i as int).drop_last() =~= chars@.take(i - 1));
        i -= 1;
        if chars[i] == ':' {
            return Some(i);
        }
    }
    None
}

/// A host and port as mathematical values.
pub open spec fn host_view(r: Result<(String, u16), AddressError>) -> Result<
    (Seq<char>, u16),
    AddressErrorView,
> {
    match r {
        Ok((host, port)) => Ok((host@, port)),
        Err(e) => Err(e@),
    }
}

/// Splits the address of a server into host and port.
pub fn split_host_port(addr: &str) -> (r: Result<(String, u16), AddressError>)
    ensures
        host_view(r) == host_port(addr@),
{
    let chars = text::chars_of(addr);
    let k = match find_last_colon(&chars) {
        Some(k) => k,
        None => {
            return Err(AddressError::NoPort(addr.to_string()));
        },
    };
    assert(k < chars.len());
    let port = match parse_port(&chars, k + 1) {
        Ok(port) => port,
        Err(e) => {
            return Err(AddressError::Port(e));
        },
    };
    let ghost host = addr@.take(k as int);
    if k >= 2 && chars[0] == '[' && chars[k - 1] == ']' {
        assert(host.subrange(1, host.len() - 1) =~= chars@.subrange(1, k - 1));
        Ok((text::string_of(&chars, 1, k - 1), port))
    } else {
        assert(host =~= chars@.subrange(0, k as int));
        Ok((text::string_of(&chars, 0, k), port))
    }
}

/// The address that is put together from a host and a port splits into them
/// again. A host that both begins with an opening square bracket and ends with a
/// closing one is left out, because it loses them.
pub proof fn lemma_host_port_roundtrip(host: Seq<char>, port: u16)
    requires
        !(host.len() >= 2 && host[0] == '[' && host.last() == ']'),
    ensures
        host_port(crate::protocol::target_text(host, port)) == Ok::<_, AddressErrorView>(
            (host, port),
        ),
{
    reveal_strlit(":");
    let d = text::decimal(port as nat);
    let t = crate::protocol::target_text(host, port);
    text::lemma_decimal(port as nat);
    lemma_last_colon(t, host.len() as int);
    assert(t.skip(1int + host.len()) =~= d);
    assert(t.take(host.len() as int) =~= host);
    assert(text::decimal_digit(d[0]) is Some);
    lemma_digit_count(d, d.len() as int);
    assert(d.take(d.len() as int) =~= d);
}

/// The same with square brackets around the host, as an IPv6 address is
/// written.
pub proof fn lemma_bracketed_roundtrip(host: Seq<char>, port: u16)
    ensures
        host_port(crate::protocol::target_text("["@ + host + "]"@, port)) == Ok::<
            _,
            AddressErrorView,
        >((host, port)),
{
    reveal_strlit("[");
    reveal_strlit("]");
    reveal_strlit(":");
    let outer = "["@ + host + "]"@;
    let d = text::decimal(port as nat);
    let t = crate::protocol::target_text(outer, port);
    text::lemma_decimal(port as nat);
    lemma_last_colon(t, outer.len() as int);
    assert(t.skip(1int + outer.len()) =~= d);
    assert(t.take(outer.len() as int) =~= outer);
    assert(outer.subrange(1, outer.len() - 1) =~= host);
    assert(text::decimal_digit(d[0]) is Some);
    lemma_digit_count(d, d.len() as int);
    assert(d.take(d.len() as int) =~= d);
}

pub proof fn lemma_last_colon(t: Seq<char>, k: int)
    requires
        0 <= k < t.len(),
        t[k] == ':',
        forall|j: int| k < j < t.len() ==> t[j] != ':',
    ensures
        last_colon(t) == k,
    decreases t.len(),
{
    if t.len() - 1 > k {
        assert(t.last() != ':');
        lemma_last_colon(t.drop_last(), k);
    }
}

// ---------------------------------------------------------------------------
// The certificate of a server
// ---------------------------------------------------------------------------

/// How a client checks the certificate of the server.
#[derive(Debug, PartialEq, Eq)]
pub enum CertCheck {
    /// Any certificate is accepted.
    Skip,
    /// Only a certificate that this one in DER vouches for is accepted.
    Trust(Vec<u8>),
}

/// The way to a server over QUIC.
#[derive(Debug)]
pub struct QuicConnector {
    pub server_addr: String,
    pub check: CertCheck,
}

impl QuicConnector {
    pub fn new(server_addr: String, check: CertCheck) -> (r: Self)
        ensures
            r.server_addr == server_addr,
            r.check == check,
    {
        QuicConnector { server_addr, check }
    }
}

/// Why a client has no way to check the certificate of the server.
#[derive(Debug, Clone, Copy, PartialEq, Eq, Structural)]
pub enum TlsError {
    /// A check by fingerprint is not available.
    Fingerprint,
    /// No check was chosen.
    NoCheck,
}

impl TlsError {
    /// The error in words.
    pub open spec fn message_text(self) -> Seq<char> {
        match self {
            TlsError::Fingerprint =>
                "fingerprint verification not yet implemented; use --quic-insecure for testing"@,
            TlsError::NoCheck =>
                "QUIC requires --quic-insecure or --quic-fingerprint for server certificate verification"@,
        }
    }

    pub fn message(&self) -> (r: String)
        ensures
            r@ == self.message_text(),
    {
        match self {
            TlsError::Fingerprint =>
                "fingerprint verification not yet implemented; use --quic-insecure for testing".to_string(),
            TlsError::NoCheck =>
                "QUIC requires --quic-insecure or --quic-fingerprint for server certificate verification".to_string(),
        }
    }
}

/// The check that a client makes: none where it is to be insecure. Any other
/// choice is refused.
pub fn build_quic_client_tls(insecure: bool, fingerprint: Option<&str>) -> (r: Result<
    CertCheck,
    TlsError,
>)
    ensures
        r == if insecure {
            Ok::<CertCheck, TlsError>(CertCheck::Skip)
        } else if fingerprint is Some {
            Err::<CertCheck, TlsError>(TlsError::Fingerprint)
        } else {
            Err::<CertCheck, TlsError>(TlsError::NoCheck)
        },
{
    if insecure {
        return Ok(CertCheck::Skip);
    }
    if fingerprint.is_some() {
        return Err(TlsError::Fingerprint);
    }
    Err(TlsError::NoCheck)
}

} // verus!
