//! Laws on errors in words: each names what it is about.
use crate::cert::{CertError, CertErrorView};
use crate::client::ClientError;
use crate::crypto;
use crate::crypto::RelayOp;
use crate::direct::client as direct_client;
use crate::direct::server::SessionError;
use crate::encrypted;
use crate::frame::FrameError;
use crate::laws::commands;
use crate::laws::numbers;
use crate::protocol;
use crate::protocol::HeaderError;
use crate::proxy;
use crate::quic;
use crate::quic::{AddressError, AddressErrorView};
use crate::secret;
use crate::secret::{HexError, SecretError};
use crate::server;
use crate::server::ServerError;
use crate::text;
use vstd::prelude::*;
use vstd::utf8::*;

verus! {

/// There is one way only to write a byte as two lower-case digits.
proof fn lemma_hex2_once(a: char, b: char, v: u8)
    requires
        commands::write_byte(a, b, v),
        !(65 <= a as int <= 70) && !(65 <= b as int <= 70),
    ensures
        text::hex2(v) == seq![a, b],
{
    assert(v / 16 == numbers::nibble(a));
    assert(v % 16 == numbers::nibble(b));
    assert(text::hex2(v) =~= seq![a, b]);
}

/// A byte that is named in an error stands there as two lower-case digits.
pub proof fn lemma_named_byte(v: u8, a: char, b: char, unsupported: String, rejected: String)
    requires
        commands::write_byte(a, b, v),
        !(65 <= a as int <= 70) && !(65 <= b as int <= 70),
        call_ensures(protocol::unsupported_address_type_message, (v,), unsupported),
        call_ensures(direct_client::rejected_message, (v,), rejected),
    ensures
        unsupported@ == "unsupported address type: 0x"@ + seq![a, b],
        rejected@ == "server rejected: status 0x"@ + seq![a, b],
{
    lemma_hex2_once(a, b, v);
}

/// An error of the client in words. A status that the server told is put in
/// words and stands there as two lower-case digits.
pub proof fn lemma_client_error(e: &ClientError, r: String, a: char, b: char)
    requires
        call_ensures(ClientError::message, (e,), r),
        *e matches ClientError::Rejected(v) ==> commands::write_byte(a, b, v),
        *e matches ClientError::UnsupportedAddressType(v) ==> commands::write_byte(a, b, v),
        !(65 <= a as int <= 70) && !(65 <= b as int <= 70),
    ensures
        match *e {
            ClientError::NoAcceptableMethod => r@
                == "client does not support no-authentication method"@,
            ClientError::UnsupportedCommand => r@ == "unsupported SOCKS5 command"@,
            ClientError::UnsupportedAddressType(_) => r@ == "unsupported address type: 0x"@
                + seq![a, b],
            ClientError::ClosedBeforeStatus => r@ == "server closed connection before status"@,
            ClientError::Rejected(status) => {
                let reason = if status == 1 {
                    "General SOCKS failure"@
                } else if status == 2 {
                    "Connection not allowed by ruleset"@
                } else if status == 3 {
                    "Network unreachable"@
                } else if status == 4 {
                    "Host unreachable"@
                } else if status == 5 {
                    "Connection refused"@
                } else {
                    "Unknown error"@
                };
                r@ == "server rejected: "@ + reason + " (status 0x"@ + seq![a, b] + ")"@
            },
        },
{
    match *e {
        ClientError::Rejected(v) => lemma_hex2_once(a, b, v),
        ClientError::UnsupportedAddressType(v) => lemma_hex2_once(a, b, v),
        _ => {},
    }
}

/// An error of a frame in words. Lengths and the number of a nonce stand there
/// in the usual digits.
pub proof fn lemma_frame_error(e: &FrameError, r: String, n: Seq<char>, m: Seq<char>)
    requires
        call_ensures(FrameError::message, (e,), r),
        e matches FrameError::TooLarge { len, max } ==> numbers::writes(n, len as int)
            && numbers::writes(m, max as int),
        e matches FrameError::TooShort(len) ==> numbers::writes(n, len as int),
        e matches FrameError::Encryption(Some(k)) ==> numbers::writes(n, k as int),
        e matches FrameError::Decryption(Some(k)) ==> numbers::writes(n, k as int),
    ensures
        r@ == match *e {
            FrameError::UnexpectedEof => "early eof"@,
            FrameError::TooLarge { .. } => "plaintext too large: "@ + n + " bytes (max "@ + m
                + ")"@,
            FrameError::TooShort(_) => "frame too short: "@ + n + " bytes"@,
            FrameError::Encryption(None) => "encryption error: aead::Error"@,
            FrameError::Encryption(Some(_)) => "encryption error (nonce="@ + n
                + "): aead::Error"@,
            FrameError::Decryption(None) => "decryption error: aead::Error"@,
            FrameError::Decryption(Some(_)) => "decryption error (nonce="@ + n
                + "): aead::Error"@,
            FrameError::KeyDerivation =>
                "HKDF expand: invalid number of blocks, too large output"@,
        },
{
    reveal_strlit("encryption error");
    reveal_strlit("decryption error");
    reveal_strlit(" (nonce=");
    reveal_strlit(")");
    reveal_strlit(": aead::Error");
    reveal_strlit("encryption error: aead::Error");
    reveal_strlit("decryption error: aead::Error");
    reveal_strlit("encryption error (nonce=");
    reveal_strlit("decryption error (nonce=");
    reveal_strlit("): aead::Error");
    match *e {
        FrameError::TooLarge { len, max } => {
            numbers::lemma_writes_once(n, len as nat);
            numbers::lemma_writes_once(m, max as nat);
        },
        FrameError::TooShort(len) => numbers::lemma_writes_once(n, len as nat),
        FrameError::Encryption(Some(k)) => {
            numbers::lemma_writes_once(n, k as nat);
            assert(r@ =~= "encryption error (nonce="@ + n + "): aead::Error"@);
        },
        FrameError::Decryption(Some(k)) => {
            numbers::lemma_writes_once(n, k as nat);
            assert(r@ =~= "decryption error (nonce="@ + n + "): aead::Error"@);
        },
        FrameError::Encryption(None) => {
            assert(r@ =~= "encryption error: aead::Error"@);
        },
        FrameError::Decryption(None) => {
            assert(r@ =~= "decryption error: aead::Error"@);
        },
        _ => {},
    }
}

/// An error of a header in words.
pub proof fn lemma_header_error(e: &HeaderError, r: String, a: char, b: char)
    requires
        call_ensures(HeaderError::message, (e,), r),
        *e matches HeaderError::UnsupportedAddressType(v) ==> commands::write_byte(a, b, v),
        !(65 <= a as int <= 70) && !(65 <= b as int <= 70),
    ensures
        r@ == match *e {
            HeaderError::Empty => "empty header"@,
            HeaderError::UnsupportedAddressType(_) => "unsupported address type: 0x"@ + seq![a, b],
            HeaderError::ShortIpv4 => "header too short for IPv4"@,
            HeaderError::ShortDomain => "header too short for domain"@,
            HeaderError::ShortIpv6 => "header too short for IPv6"@,
        },
{
    match *e {
        HeaderError::UnsupportedAddressType(v) => lemma_hex2_once(a, b, v),
        _ => {},
    }
}

/// An error of a server is told as the error that it holds.
pub proof fn lemma_server_errors(
    e: &ServerError,
    f: &SessionError,
    r: String,
    s: String,
)
    requires
        call_ensures(ServerError::message, (e,), r),
        call_ensures(SessionError::message, (f,), s),
    ensures
        e matches ServerError::Header(h) ==> r@ == h.message_text(),
        e is ClosedBeforeHeader ==> r@ == "client closed connection before tunnel header"@,
        f matches SessionError::Frame(g) ==> s@ == g.message_text(),
        f matches SessionError::Server(g) && g == *e ==> s@ == r@,
{
}

/// An error of a key in words: what is no digit and where, or how many bytes
/// there are.
pub proof fn lemma_secret_error(e: &SecretError, r: String, n: Seq<char>)
    requires
        call_ensures(SecretError::message, (e,), r),
        e matches SecretError::Length(k) ==> numbers::writes(n, k as int),
        e matches SecretError::Hex(HexError::InvalidCharacter { index, .. }) ==> numbers::writes(
            n,
            index as int,
        ),
    ensures
        r@ == match *e {
            SecretError::Length(_) => "key must be 64 hex chars (32 bytes), got "@ + n
                + " bytes"@,
            SecretError::Hex(HexError::OddLength) => "invalid hex key: "@
                + "Odd number of digits"@,
            SecretError::Hex(HexError::StringLength) => "invalid hex key: "@
                + "Invalid string length"@,
            SecretError::Hex(HexError::InvalidCharacter { c, .. }) => "invalid hex key: "@ + (
            "Invalid character "@ + secret::quoted_char(c) + " at position "@ + n),
        },
{
    match *e {
        SecretError::Length(k) => numbers::lemma_writes_once(n, k as nat),
        SecretError::Hex(HexError::InvalidCharacter { index, .. }) => {
            numbers::lemma_writes_once(n, index as nat);
        },
        _ => {},
    }
}

/// An address of a server without a port is named in the error.
pub proof fn lemma_address_error(e: &AddressError, r: String)
    requires
        call_ensures(AddressError::message, (e,), r),
    ensures
        e@ matches AddressErrorView::NoPort(t) ==> r@ == "invalid address: "@ + t
            + " (expected host:port)"@,
        e@ matches AddressErrorView::Port(p) ==> r@ == match p {
            quic::PortError::Empty => "cannot parse integer from empty string"@,
            quic::PortError::InvalidDigit => "invalid digit found in string"@,
            quic::PortError::TooLarge => "number too large to fit in target type"@,
        },
{
}

/// An error of a certificate in words.
pub proof fn lemma_cert_error(e: &CertError, r: String)
    requires
        call_ensures(CertError::message, (e,), r),
    ensures
        r@ == match e@ {
            CertErrorView::Other(t) => t,
            CertErrorView::NoCertificate => "no certificate found in PEM file"@,
            CertErrorView::NoKey => "no private key found in PEM file"@,
            CertErrorView::Generation(t) => "cert generation failed: "@ + t,
        },
{
}

/// An error of a relay says what the relay was doing, and then the error as it
/// is.
pub proof fn lemma_relay_error(op: RelayOp, error: &str, r: String)
    requires
        call_ensures(crypto::relay_error, (op, error), r),
    ensures
        r@.len() >= error@.len(),
        r@.skip(r@.len() - error@.len()) == error@,
        r@.take(r@.len() - error@.len()) == if op == RelayOp::Read {
            "operation=read: "@
        } else {
            "operation=write: "@
        },
{
    let n = r@.len() - error@.len();
    assert(r@.skip(n) =~= error@);
    assert(r@.take(n) =~= if op == RelayOp::Read {
        "operation=read: "@
    } else {
        "operation=write: "@
    });
}

/// A relay that has ended has succeeded, and the error of a direction is
/// reported as it is.
pub proof fn lemma_relay_ended(
    outcome: Result<(), String>,
    r: (Result<(), FrameError>, Option<String>),
)
    requires
        call_ensures(encrypted::relay_ended, (outcome,), r),
    ensures
        r.0 is Ok,
        r.1 is Some <==> outcome is Err,
        outcome matches Err(t) ==> r.1 == Some(t),
{
}

/// The fixed numbers and names of the library.
pub proof fn lemma_fixed()
    ensures
        quic::ALPN@ == encode_utf8("vs-vpn"@),
        quic::RELAY_BUF == 16384 && crypto::RELAY_BUF == 16384,
        proxy::START_FAILED == -1 && proxy::START_RUNNING == -2 && proxy::STOP_SECONDS == 5,
        server::STATUS_OK == 0 && server::STATUS_REFUSED == 5,
        protocol::SOCKS_VERSION == 5 && protocol::SOCKS_AUTH_NONE == 0
            && protocol::SOCKS_AUTH_NO_ACCEPTABLE == 255,
{
    let t = "vs-vpn"@;
    reveal_strlit("vs-vpn");
    is_ascii_chars_encode_utf8(t);
    assert(quic::ALPN@ =~= encode_utf8(t)) by {
        assert forall|i: int| 0 <= i < 6 implies quic::ALPN@[i] == encode_utf8(t)[i] by {
            assert(t[i] as u8 == encode_utf8(t)[i]);
        }
    }
}

} // verus!
