//! The SOCKS5 vocabulary and the header that opens a tunnel.
use crate::bytes;
use crate::ip;
use crate::text;
use vstd::prelude::*;
use vstd::slice::slice_subrange;
use vstd::utf8::*;

verus! {

/// The protocol version of SOCKS5.
pub const SOCKS_VERSION: u8 = 0x05;

/// The method that means no authentication.
pub const SOCKS_AUTH_NONE: u8 = 0x00;

/// The answer where no offered method is acceptable.
pub const SOCKS_AUTH_NO_ACCEPTABLE: u8 = 0xFF;

/// The kind of an address.
#[derive(Debug, Clone, Copy, PartialEq, Eq, Structural)]
pub enum AddressType {
    Ipv4,
    Domain,
    Ipv6,
}

impl AddressType {
    /// The byte that stands for the kind.
    pub open spec fn code(self) -> u8 {
        match self {
            AddressType::Ipv4 => 0x01,
            AddressType::Domain => 0x03,
            AddressType::Ipv6 => 0x04,
        }
    }

    /// The kind that a byte stands for.
    pub open spec fn of_code(v: u8) -> Option<AddressType> {
        if v == 0x01 {
            Some(AddressType::Ipv4)
        } else if v == 0x03 {
            Some(AddressType::Domain)
        } else if v == 0x04 {
            Some(AddressType::Ipv6)
        } else {
            None
        }
    }

    pub fn from_u8(v: u8) -> (r: Option<Self>)
        ensures
            r == AddressType::of_code(v),
    {
        match v {
            0x01 => Some(AddressType::Ipv4),
            0x03 => Some(AddressType::Domain),
            0x04 => Some(AddressType::Ipv6),
            _ => None,
        }
    }

    pub fn to_u8(self) -> (r: u8)
        ensures
            r == self.code(),
    {
        match self {
            AddressType::Ipv4 => 0x01,
            AddressType::Domain => 0x03,
            AddressType::Ipv6 => 0x04,
        }
    }
}

/// The code of an answer to a SOCKS5 request.
#[derive(Debug, Clone, Copy, PartialEq, Eq, Structural)]
pub enum SocksReply {
    Succeeded,
    GeneralFailure,
    ConnectionNotAllowed,
    NetworkUnreachable,
    HostUnreachable,
    ConnectionRefused,
    CommandNotSupported,
}

impl SocksReply {
    /// The byte that stands for the answer.
    pub open spec fn code(self) -> u8 {
        match self {
            SocksReply::Succeeded => 0x00,
            SocksReply::GeneralFailure => 0x01,
            SocksReply::ConnectionNotAllowed => 0x02,
            SocksReply::NetworkUnreachable => 0x03,
            SocksReply::HostUnreachable => 0x04,
            SocksReply::ConnectionRefused => 0x05,
            SocksReply::CommandNotSupported => 0x07,
        }
    }

    pub fn to_u8(self) -> (r: u8)
        ensures
            r == self.code(),
    {
        match self {
            SocksReply::Succeeded => 0x00,
            SocksReply::GeneralFailure => 0x01,
            SocksReply::ConnectionNotAllowed => 0x02,
            SocksReply::NetworkUnreachable => 0x03,
            SocksReply::HostUnreachable => 0x04,
            SocksReply::ConnectionRefused => 0x05,
            SocksReply::CommandNotSupported => 0x07,
        }
    }
}

/// A SOCKS5 command.
#[derive(Debug, Clone, Copy, PartialEq, Eq, Structural)]
pub enum SocksCommand {
    Connect,
    Bind,
    UdpAssociate,
}

impl SocksCommand {
    /// The byte that stands for the command.
    pub open spec fn code(self) -> u8 {
        match self {
            SocksCommand::Connect => 0x01,
            SocksCommand::Bind => 0x02,
            SocksCommand::UdpAssociate => 0x03,
        }
    }

    /// The command that a byte stands for.
    pub open spec fn of_code(v: u8) -> Option<SocksCommand> {
        if v == 0x01 {
            Some(SocksCommand::Connect)
        } else if v == 0x02 {
            Some(SocksCommand::Bind)
        } else if v == 0x03 {
            Some(SocksCommand::UdpAssociate)
        } else {
            None
        }
    }

    pub fn from_u8(v: u8) -> (r: Option<Self>)
        ensures
            r == SocksCommand::of_code(v),
    {
        match v {
            0x01 => Some(SocksCommand::Connect),
            0x02 => Some(SocksCommand::Bind),
            0x03 => Some(SocksCommand::UdpAssociate),
            _ => None,
        }
    }
}

/// The byte of an address kind stands for that kind and no other.
pub proof fn lemma_address_code_roundtrip(a: AddressType, v: u8)
    ensures
        AddressType::of_code(a.code()) == Some(a),
        AddressType::of_code(v) == Some(a) ==> a.code() == v,
{
}

/// The byte of a command stands for that command and no other.
pub proof fn lemma_command_code_roundtrip(c: SocksCommand, v: u8)
    ensures
        SocksCommand::of_code(c.code()) == Some(c),
        SocksCommand::of_code(v) == Some(c) ==> c.code() == v,
{
}

// ---------------------------------------------------------------------------
// Addresses
// ---------------------------------------------------------------------------

/// The kind of the address that a text denotes, and its bytes: the octets of an
/// IP address, or a name after a byte that holds its length modulo 256.
pub open spec fn encoded_address(t: Seq<char>) -> (AddressType, Seq<u8>) {
    if ip::ipv4_value(t) is Some {
        (AddressType::Ipv4, ip::ipv4_value(t)->0)
    } else if ip::ipv6_value(t) is Some {
        (AddressType::Ipv6, ip::ipv6_value(t)->0)
    } else {
        let name = encode_utf8(t);
        (AddressType::Domain, seq![(name.len() % 256) as u8] + name)
    }
}

/// The kind of an address and its bytes in a tunnel header.
pub fn encode_address(addr: &str) -> (r: (AddressType, Vec<u8>))
    ensures
        (r.0, r.1@) == encoded_address(addr@),
{
    let chars = text::chars_of(addr);
    assert(chars@.subrange(0, chars@.len() as int) =~= chars@);
    match ip::parse_ipv4(&chars, 0, chars.len()) {
        Some(o) => {
            let mut v: Vec<u8> = Vec::new();
            bytes::push_all(&mut v, &o);
            assert(v@ =~= o@);
            return (AddressType::Ipv4, v);
        },
        None => {},
    }
    match ip::parse_ipv6(&chars) {
        Some(o) => {
            let mut v: Vec<u8> = Vec::new();
            bytes::push_all(&mut v, &o);
            assert(v@ =~= o@);
            return (AddressType::Ipv6, v);
        },
        None => {},
    }
    let name = addr.as_bytes();
    let mut v: Vec<u8> = Vec::new();
    v.push((name.len() % 256) as u8);
    bytes::push_all(&mut v, name);
    assert(v@ =~= seq![(name@.len() % 256) as u8] + name@);
    (AddressType::Domain, v)
}

/// The bytes of an address of a kind, as far as `data` tells: how many there
/// are in all, or how many must come before that is known.
pub open spec fn address_len(kind: AddressType, data: Seq<u8>) -> int {
    match kind {
        AddressType::Ipv4 => 4,
        AddressType::Ipv6 => 16,
        AddressType::Domain => if data.len() == 0 {
            1
        } else {
            1 + data[0]
        },
    }
}

/// The text of an address, from its bytes.
pub open spec fn address_text(kind: AddressType, data: Seq<u8>) -> Seq<char> {
    match kind {
        AddressType::Ipv4 => ip::ipv4_text(data.take(4)),
        AddressType::Ipv6 => ip::ipv6_text(data.take(16)),
        AddressType::Domain => text::lossy_text(data.subrange(1, 1 + data[0])),
    }
}

/// What comes of reading an address.
#[derive(Debug)]
pub enum AddressRead {
    /// So many more bytes are needed.
    Need(usize),
    /// The address is complete.
    Done(String),
}

/// The address of a kind at the start of the bytes that have arrived. The text
/// is there as soon as its last byte is; until then the result says how many
/// bytes to read next.
pub fn read_address(kind: AddressType, data: &[u8]) -> (r: AddressRead)
    ensures
        match r {
            AddressRead::Need(n) => n > 0 && data@.len() + n == address_len(kind, data@),
            AddressRead::Done(t) => {
                &&& data@.len() >= address_len(kind, data@)
                &&& t@ == address_text(kind, data@)
            },
        },
{
    let n: usize = match kind {
        AddressType::Ipv4 => 4,
        AddressType::Ipv6 => 16,
        AddressType::Domain => if data.len() == 0 {
            1
        } else {
            1 + data[0] as usize
        },
    };
    if data.len() < n {
        AddressRead::Need(n - data.len())
    } else {
        AddressRead::Done(address_string(kind, data))
    }
}

/// The text of an address whose bytes are all there.
fn address_string(kind: AddressType, data: &[u8]) -> (r: String)
    requires
        data@.len() >= address_len(kind, data@),
    ensures
        r@ == address_text(kind, data@),
{
    match kind {
        AddressType::Ipv4 => {
            let o: [u8; 4] = [data[0], data[1], data[2], data[3]];
            assert(o@ =~= data@.take(4));
            ip::ipv4_string(&o)
        },
        AddressType::Domain => text::lossy_string(slice_subrange(data, 1, 1 + data[0] as usize)),
        AddressType::Ipv6 => ip::ipv6_string(&first_octets(data)),
    }
}

/// The first sixteen bytes.
fn first_octets(data: &[u8]) -> (o: [u8; 16])
    requires
        data@.len() >= 16,
    ensures
        o@ == data@.take(16),
{
    let mut o: [u8; 16] = [0; 16];
    let mut i: usize = 0;
    while i < 16
        invariant
            i <= 16 <= data@.len(),
            forall|j: int| 0 <= j < i ==> o@[j] == data@[j],
        decreases 16 - i,
    {
        o[i] = data[i];
        i += 1;
    }
    assert(o@ =~= data@.take(16));
    o
}

// ---------------------------------------------------------------------------
// The tunnel header
// ---------------------------------------------------------------------------

/// The header that asks for a target: the kind of the address, its bytes, and
/// the port.
pub open spec fn tunnel_header(t: Seq<char>, port: u16) -> Seq<u8> {
    let (kind, addr) = encoded_address(t);
    seq![kind.code()] + addr + bytes::be16(port)
}

pub fn encode_header(addr: &str, port: u16) -> (r: Vec<u8>)
    ensures
        r@ == tunnel_header(addr@, port),
{
    let (kind, addr_bytes) = encode_address(addr);
    let mut header: Vec<u8> = Vec::new();
    header.push(kind.to_u8());
    bytes::push_all(&mut header, addr_bytes.as_slice());
    bytes::push_be16(&mut header, port);
    assert(header@ =~= tunnel_header(addr@, port));
    header
}

/// An address and a port in one text.
pub open spec fn target_text(t: Seq<char>, port: u16) -> Seq<char> {
    t + ":"@ + text::decimal(port as nat)
}

pub fn target_string(addr: &str, port: u16) -> (r: String)
    ensures
        r@ == target_text(addr@, port),
{
    let mut s = addr.to_string();
    s.append(":");
    text::push_decimal(&mut s, port as u64);
    s
}

/// Why a tunnel header is refused.
#[derive(Debug, Clone, Copy, PartialEq, Eq, Structural)]
pub enum HeaderError {
    Empty,
    UnsupportedAddressType(u8),
    ShortIpv4,
    ShortDomain,
    ShortIpv6,
}

impl HeaderError {
    /// The error in words.
    pub open spec fn message_text(self) -> Seq<char> {
        match self {
            HeaderError::Empty => "empty header"@,
            HeaderError::UnsupportedAddressType(v) => unsupported_address_type(v),
            HeaderError::ShortIpv4 => "header too short for IPv4"@,
            HeaderError::ShortDomain => "header too short for domain"@,
            HeaderError::ShortIpv6 => "header too short for IPv6"@,
        }
    }

    pub fn message(&self) -> (r: String)
        ensures
            r@ == self.message_text(),
    {
        match self {
            HeaderError::Empty => "empty header".to_string(),
            HeaderError::UnsupportedAddressType(v) => unsupported_address_type_message(*v),
            HeaderError::ShortIpv4 => "header too short for IPv4".to_string(),
            HeaderError::ShortDomain => "header too short for domain".to_string(),
            HeaderError::ShortIpv6 => "header too short for IPv6".to_string(),
        }
    }
}

/// The complaint about a byte that stands for no kind of address.
pub open spec fn unsupported_address_type(v: u8) -> Seq<char> {
    "unsupported address type: 0x"@ + text::hex2(v)
}

pub fn unsupported_address_type_message(v: u8) -> (r: String)
    ensures
        r@ == unsupported_address_type(v),
{
    let mut s = "unsupported address type: 0x".to_string();
    text::push_hex2(&mut s, v);
    s
}

/// The error for a header of a kind that ends too early.
pub open spec fn short_header(kind: AddressType) -> HeaderError {
    match kind {
        AddressType::Ipv4 => HeaderError::ShortIpv4,
        AddressType::Domain => HeaderError::ShortDomain,
        AddressType::Ipv6 => HeaderError::ShortIpv6,
    }
}

/// What a tunnel header asks for: the kind of the address, its text and the
/// port. Bytes after the port are ignored.
pub open spec fn parsed_header(d: Seq<u8>) -> Result<(AddressType, Seq<char>, u16), HeaderError> {
    if d.len() == 0 {
        Err(HeaderError::Empty)
    } else {
        match AddressType::of_code(d[0]) {
            None => Err(HeaderError::UnsupportedAddressType(d[0])),
            Some(kind) => {
                let addr = d.skip(1);
                let n = address_len(kind, addr);
                if addr.len() < n + 2 {
                    Err(short_header(kind))
                } else {
                    Ok((kind, address_text(kind, addr), bytes::from_be16(addr[n], addr[n + 1])))
                }
            },
        }
    }
}

/// The result of `parse_header` with the text in place of the string.
pub open spec fn header_view(r: Result<(AddressType, String, u16), HeaderError>) -> Result<
    (AddressType, Seq<char>, u16),
    HeaderError,
> {
    match r {
        Ok((kind, addr, port)) => Ok((kind, addr@, port)),
        Err(e) => Err(e),
    }
}

/// Reads a tunnel header.
pub fn parse_header(data: &[u8]) -> (r: Result<(AddressType, String, u16), HeaderError>)
    ensures
        header_view(r) == parsed_header(data@),
{
    if data.len() == 0 {
        return Err(HeaderError::Empty);
    }
    let kind = match AddressType::from_u8(data[0]) {
        Some(k) => k,
        None => {
            return Err(HeaderError::UnsupportedAddressType(data[0]));
        },
    };
    let rest = slice_subrange(data, 1, data.len());
    assert(rest@ =~= data@.skip(1));
    let n: usize = match kind {
        AddressType::Ipv4 => {
            if data.len() < 1 + 4 + 2 {
                return Err(HeaderError::ShortIpv4);
            }
            4
        },
        AddressType::Domain => {
            if data.len() < 1 + 1 {
                return Err(HeaderError::ShortDomain);
            }
            let n = 1 + data[1] as usize;
            if data.len() < 1 + n + 2 {
                return Err(HeaderError::ShortDomain);
            }
            n
        },
        AddressType::Ipv6 => {
            if data.len() < 1 + 16 + 2 {
                return Err(HeaderError::ShortIpv6);
            }
            16
        },
    };
    let addr = address_string(kind, rest);
    Ok((kind, addr, bytes::read_be16(rest[n], rest[n + 1])))
}

/// The text by which the far end of a tunnel knows an address: an IPv6 address
/// is written out in full, and every other address is as it was.
pub open spec fn far_text(t: Seq<char>) -> Seq<char> {
    if ip::ipv4_value(t) is None && ip::ipv6_value(t) is Some {
        ip::ipv6_text(ip::ipv6_value(t)->0)
    } else {
        t
    }
}

/// A header that was written for an address and a port reads back as that
/// address and that port, unless the address is a name of more than 255 bytes.
pub proof fn lemma_header_roundtrip(t: Seq<char>, port: u16)
    requires
        encoded_address(t).0 == AddressType::Domain ==> encode_utf8(t).len() <= 255,
    ensures
        parsed_header(tunnel_header(t, port)) == Ok::<_, HeaderError>(
            (encoded_address(t).0, far_text(t), port),
        ),
{
    let (kind, addr) = encoded_address(t);
    let d = tunnel_header(t, port);
    let rest = d.skip(1);
    assert(rest =~= addr + bytes::be16(port));
    bytes::lemma_be16_roundtrip(port);
    match kind {
        AddressType::Ipv4 => {
            let o = ip::ipv4_value(t)->0;
            assert(o.len() == 4 && t == ip::ipv4_text(o));
            assert(rest.take(4) =~= o);
        },
        AddressType::Ipv6 => {
            let o = ip::ipv6_value(t)->0;
            assert(o.len() == 16);
            assert(rest.take(16) =~= o);
        },
        AddressType::Domain => {
            let name = encode_utf8(t);
            assert(rest.subrange(1, 1 + rest[0]) =~= name);
            text::lemma_lossy_of_encoded(t);
        },
    }
}

} // verus!
