//! Laws on what is sent, received and counted, operation by operation.
use crate::crypto;
use crate::crypto::{Handshake, HandshakeAction, RelayAction, KEY_LEN};
use crate::direct::crypto as direct_crypto;
use crate::direct::server as direct_server;
use crate::direct::server::{ServerSession, SessionAction, SessionActionView, SessionEvent};
use crate::direct::tunnel as direct_tunnel;
use crate::encrypted::{Direction, EncryptedTunnel};
use crate::frame::{FrameError, FrameRead};
use crate::plain::PlainTunnel;
use crate::quic::QuicTunnel;
use crate::server;
use vstd::prelude::*;

verus! {

/// Whether bytes are an encrypted frame with a plaintext, under a key and the
/// nonce with a number: two bytes of length, the high one first, and what the
/// cipher makes of the plaintext, sixteen bytes more, in which it finds the
/// plaintext again.
pub open spec fn seals(wire: Seq<u8>, plaintext: Seq<u8>, key: Seq<u8>, n: u64) -> bool {
    &&& wire.len() == 2 + plaintext.len() + 16
    &&& wire[0] * 256 + wire[1] == plaintext.len() + 16
    &&& wire.skip(2) == crypto::aead_sealed(key, crypto::full_nonce(n), plaintext)
    &&& crypto::aead_opened(key, crypto::full_nonce(n), wire.skip(2)) == Some(plaintext)
}

/// The same in the direct variant, where the nonce stands after the length.
pub open spec fn seals_direct(wire: Seq<u8>, plaintext: Seq<u8>, key: Seq<u8>, n: u64) -> bool {
    &&& wire.len() == 2 + 12 + plaintext.len() + 16
    &&& wire[0] * 256 + wire[1] == 12 + plaintext.len() + 16
    &&& wire.subrange(2, 14) == crypto::full_nonce(n)
    &&& wire.skip(14) == crypto::aead_sealed(key, crypto::full_nonce(n), plaintext)
    &&& crypto::aead_opened(key, crypto::full_nonce(n), wire.skip(14)) == Some(plaintext)
}

proof fn lemma_seals(wire: Seq<u8>, plaintext: Seq<u8>, key: Seq<u8>, n: u64)
    requires
        plaintext.len() <= crypto::MAX_PLAINTEXT,
        wire == crypto::sealed_frame(plaintext, key, n),
        wire.len() == 2 + plaintext.len() + crypto::TAG_LEN,
        crypto::carries(wire, plaintext, key, n),
    ensures
        seals(wire, plaintext, key, n),
{
    assert(wire.skip(2) =~= crypto::aead_sealed(key, crypto::full_nonce(n), plaintext));
}

proof fn lemma_seals_direct(wire: Seq<u8>, plaintext: Seq<u8>, key: Seq<u8>, n: u64)
    requires
        plaintext.len() <= direct_crypto::MAX_PLAINTEXT,
        wire == direct_crypto::sealed_frame(plaintext, key, n),
        wire.len() == 2 + crypto::NONCE_LEN + plaintext.len() + crypto::TAG_LEN,
        direct_crypto::carries(wire, plaintext, key),
    ensures
        seals_direct(wire, plaintext, key, n),
{
    assert(crypto::full_nonce(n).len() == 12);
    assert(wire.subrange(2, 14) =~= crypto::full_nonce(n));
    assert(wire.skip(14) =~= crypto::aead_sealed(key, crypto::full_nonce(n), plaintext));
}

// ---------------------------------------------------------------------------
// Writing
// ---------------------------------------------------------------------------

/// A plaintext of at most 65519 bytes is sealed under the next nonce, whose
/// number goes up by one; a longer one is refused, with its length and the
/// limit, and nothing is counted.
pub proof fn lemma_write_encrypted(
    plaintext: &[u8],
    key: &[u8; KEY_LEN],
    r: Result<Vec<u8>, FrameError>,
)
    ensures
        forall|n: &mut u64| #[trigger]
            call_ensures(crypto::write_encrypted_frame, (plaintext, key, n), r) ==> match r {
                Ok(wire) => {
                    &&& plaintext@.len() <= 65519
                    &&& seals(wire@, plaintext@, key@, *n)
                    &&& *final(n) == *n + 1
                },
                Err(e) => {
                    &&& plaintext@.len() > 65519
                    &&& e == (FrameError::TooLarge { len: plaintext@.len() as usize, max: 65519 })
                    &&& *final(n) == *n
                },
            },
{
    assert forall|n: &mut u64| #[trigger]
        call_ensures(crypto::write_encrypted_frame, (plaintext, key, n), r) && r is Ok implies seals(
        r->Ok_0@,
        plaintext@,
        key@,
        *n,
    ) by {
        lemma_seals(r->Ok_0@, plaintext@, key@, *n);
    }
}

/// The same in the direct variant, whose limit is 65507 bytes.
pub proof fn lemma_write_direct(
    plaintext: &[u8],
    key: &[u8; KEY_LEN],
    r: Result<Vec<u8>, FrameError>,
)
    ensures
        forall|n: &mut u64| #[trigger]
            call_ensures(direct_crypto::write_encrypted_frame, (plaintext, key, n), r) ==> match r {
                Ok(wire) => {
                    &&& plaintext@.len() <= 65507
                    &&& seals_direct(wire@, plaintext@, key@, *n)
                    &&& *final(n) == *n + 1
                },
                Err(e) => {
                    &&& plaintext@.len() > 65507
                    &&& e == (FrameError::TooLarge { len: plaintext@.len() as usize, max: 65507 })
                    &&& *final(n) == *n
                },
            },
{
    assert forall|n: &mut u64| #[trigger]
        call_ensures(direct_crypto::write_encrypted_frame, (plaintext, key, n), r)
            && r is Ok implies seals_direct(r->Ok_0@, plaintext@, key@, *n) by {
        lemma_seals_direct(r->Ok_0@, plaintext@, key@, *n);
    }
}

/// The relay into a tunnel seals each chunk that is not empty under the next
/// nonce, and ends without counting where the chunk is empty.
pub proof fn lemma_relay_in(
    chunk: &[u8],
    key: &[u8; KEY_LEN],
    r: Result<Option<Vec<u8>>, FrameError>,
)
    requires
        chunk@.len() <= 16384,
    ensures
        forall|n: &mut u64| #[trigger]
            call_ensures(crypto::relay_plain_to_encrypted, (chunk, key, n), r) ==> match r {
                Ok(Some(wire)) => {
                    &&& chunk@.len() > 0
                    &&& seals(wire@, chunk@, key@, *n)
                    &&& *final(n) == *n + 1
                },
                Ok(None) => chunk@.len() == 0 && *final(n) == *n,
                Err(_) => false,
            },
{
    assert forall|n: &mut u64| #[trigger]
        call_ensures(crypto::relay_plain_to_encrypted, (chunk, key, n), r) && (r matches Ok(
            Some(_),
        )) implies seals(r->Ok_0->0@, chunk@, key@, *n) by {
        lemma_seals(r->Ok_0->0@, chunk@, key@, *n);
    }
}

/// The same in the direct variant.
pub proof fn lemma_relay_in_direct(
    chunk: &[u8],
    key: &[u8; KEY_LEN],
    r: Result<Option<Vec<u8>>, FrameError>,
)
    requires
        chunk@.len() <= 16384,
    ensures
        forall|n: &mut u64| #[trigger]
            call_ensures(direct_crypto::relay_plain_to_encrypted, (chunk, key, n), r) ==> match r {
                Ok(Some(wire)) => {
                    &&& chunk@.len() > 0
                    &&& seals_direct(wire@, chunk@, key@, *n)
                    &&& *final(n) == *n + 1
                },
                Ok(None) => chunk@.len() == 0 && *final(n) == *n,
                Err(_) => false,
            },
{
    assert forall|n: &mut u64| #[trigger]
        call_ensures(direct_crypto::relay_plain_to_encrypted, (chunk, key, n), r) && (r matches Ok(
            Some(_),
        )) implies seals_direct(r->Ok_0->0@, chunk@, key@, *n) by {
        lemma_seals_direct(r->Ok_0->0@, chunk@, key@, *n);
    }
}

/// An end of an encrypted tunnel seals what it sends: the client under the key
/// and the count of the client, the server under those of the server. The count
/// goes up by one and nothing else changes; data of more than 65519 bytes is
/// refused and changes nothing.
pub proof fn lemma_send(data: &[u8], r: Result<Vec<u8>, FrameError>)
    ensures
        forall|t: &mut EncryptedTunnel|
            (#[trigger] call_ensures(EncryptedTunnel::send_frame, (t, data), r)) && !t.relaying
                && t.c_nonce < u64::MAX && t.s_nonce < u64::MAX ==> match r {
                Ok(wire) => {
                    &&& data@.len() <= 65519
                    &&& t.is_client ==> seals(wire@, data@, t.client_key@, t.c_nonce)
                    &&& !t.is_client ==> seals(wire@, data@, t.server_key@, t.s_nonce)
                    &&& t.is_client ==> *final(t) == (EncryptedTunnel {
                        c_nonce: (t.c_nonce + 1) as u64,
                        ..*t
                    })
                    &&& !t.is_client ==> *final(t) == (EncryptedTunnel {
                        s_nonce: (t.s_nonce + 1) as u64,
                        ..*t
                    })
                },
                Err(e) => data@.len() > 65519 && *final(t) == *t,
            },
{
    assert forall|t: &mut EncryptedTunnel|
        (#[trigger] call_ensures(EncryptedTunnel::send_frame, (t, data), r)) && !t.relaying
            && t.c_nonce < u64::MAX && t.s_nonce < u64::MAX && r is Ok implies seals(
        r->Ok_0@,
        data@,
        t.send_key()@,
        t.send_nonce(),
    ) by {
        lemma_seals(r->Ok_0@, data@, t.send_key()@, t.send_nonce());
    }
}

/// The same for an end of a tunnel in the direct variant.
pub proof fn lemma_send_direct(data: &[u8], r: Result<Vec<u8>, FrameError>)
    ensures
        forall|t: &mut direct_tunnel::EncryptedTunnel|
            (#[trigger] call_ensures(direct_tunnel::EncryptedTunnel::send_frame, (t, data), r))
                && !t.relaying && t.c_nonce < u64::MAX && t.s_nonce < u64::MAX ==> match r {
                Ok(wire) => {
                    &&& data@.len() <= 65507
                    &&& t.is_client ==> seals_direct(wire@, data@, t.client_key@, t.c_nonce)
                    &&& !t.is_client ==> seals_direct(wire@, data@, t.server_key@, t.s_nonce)
                    &&& t.is_client ==> *final(t) == (direct_tunnel::EncryptedTunnel {
                        c_nonce: (t.c_nonce + 1) as u64,
                        ..*t
                    })
                    &&& !t.is_client ==> *final(t) == (direct_tunnel::EncryptedTunnel {
                        s_nonce: (t.s_nonce + 1) as u64,
                        ..*t
                    })
                },
                Err(e) => data@.len() > 65507 && *final(t) == *t,
            },
{
    assert forall|t: &mut direct_tunnel::EncryptedTunnel|
        (#[trigger] call_ensures(direct_tunnel::EncryptedTunnel::send_frame, (t, data), r))
            && !t.relaying && t.c_nonce < u64::MAX && t.s_nonce < u64::MAX
            && r is Ok implies seals_direct(r->Ok_0@, data@, t.send_key()@, t.send_nonce()) by {
        lemma_seals_direct(r->Ok_0@, data@, t.send_key()@, t.send_nonce());
    }
}

// ---------------------------------------------------------------------------
// Reading
// ---------------------------------------------------------------------------

/// Whether what came of reading is right for a stream of encrypted frames under
/// a key and the nonce with a number: a frame is the plaintext that the cipher
/// finds in as many bytes after the first two as these say.
pub open spec fn read_right(
    r: Result<FrameRead, FrameError>,
    s: Seq<u8>,
    at_end: bool,
    key: Seq<u8>,
    n: u64,
) -> bool {
    let len = s[0] * 256 + s[1];
    let whole = s.len() >= 2 && len >= 16 && s.len() >= 2 + len;
    let opened = crypto::aead_opened(key, crypto::full_nonce(n), s.subrange(2, 2 + len));
    match r {
        Ok(FrameRead::Frame(p)) => whole && opened == Some(p@),
        Ok(FrameRead::End) => at_end && s.len() < 2,
        Ok(FrameRead::Need(k)) => !at_end && s.len() < 2 && s.len() + k == 2 || !at_end && s.len()
            >= 2 && len >= 16 && k > 0 && s.len() + k == 2 + len,
        Err(FrameError::Decryption(at)) => whole && opened is None && at == Some(n),
        Err(FrameError::TooShort(k)) => s.len() >= 2 && len < 16 && k == len,
        Err(FrameError::UnexpectedEof) => at_end && s.len() >= 2 && len >= 16 && s.len() < 2 + len,
        Err(_) => false,
    }
}

/// The same in the direct variant, where the nonce is the one in the frame.
pub open spec fn read_right_direct(
    r: Result<FrameRead, FrameError>,
    s: Seq<u8>,
    at_end: bool,
    key: Seq<u8>,
) -> bool {
    let len = s[0] * 256 + s[1];
    let whole = s.len() >= 2 && len >= 28 && s.len() >= 2 + len;
    let opened = crypto::aead_opened(key, s.subrange(2, 14), s.subrange(14, 2 + len));
    match r {
        Ok(FrameRead::Frame(p)) => whole && opened == Some(p@),
        Ok(FrameRead::End) => at_end && s.len() < 2,
        Ok(FrameRead::Need(k)) => !at_end && s.len() < 2 && s.len() + k == 2 || !at_end && s.len()
            >= 2 && len >= 28 && k > 0 && s.len() + k == 2 + len,
        Err(FrameError::Decryption(at)) => whole && opened is None && at is None,
        Err(FrameError::TooShort(k)) => s.len() >= 2 && len < 28 && k == len,
        Err(FrameError::UnexpectedEof) => at_end && s.len() >= 2 && len >= 28 && s.len() < 2 + len,
        Err(_) => false,
    }
}

/// An encrypted frame is read under the next nonce, and only a frame that is
/// found raises its number, by one.
pub proof fn lemma_read(
    received: &[u8],
    at_end: bool,
    key: &[u8; KEY_LEN],
    r: Result<FrameRead, FrameError>,
)
    ensures
        forall|n: &mut u64|
            (#[trigger] call_ensures(
                crypto::read_encrypted_frame,
                (received, at_end, key, n),
                r,
            )) && *n < u64::MAX ==> {
                &&& read_right(r, received@, at_end, key@, *n)
                &&& *final(n) == *n + (if r matches Ok(FrameRead::Frame(_)) {
                    1int
                } else {
                    0int
                })
            },
{
}

/// In the direct variant an encrypted frame is read under the nonce that it
/// holds.
pub proof fn lemma_read_direct(
    received: &[u8],
    at_end: bool,
    key: &[u8; KEY_LEN],
    r: Result<FrameRead, FrameError>,
)
    requires
        call_ensures(direct_crypto::read_encrypted_frame, (received, at_end, key), r),
    ensures
        read_right_direct(r, received@, at_end, key@),
{
}

/// What a step of the relay out of a tunnel says of what was read.
pub open spec fn relays(r: Result<RelayAction, FrameError>, read: Result<FrameRead, FrameError>) -> bool {
    match (r, read) {
        (Ok(RelayAction::Read(k)), Ok(FrameRead::Need(n))) => k == n,
        (Ok(RelayAction::Write(out)), Ok(FrameRead::Frame(p))) => out@ == p@,
        (Ok(RelayAction::Finish), Ok(FrameRead::End)) => true,
        (Err(e), Err(f)) => e == f,
        _ => false,
    }
}

/// The relay out of a tunnel goes by what is read: it reads on, writes the
/// plaintext as it is, or finishes with the stream, and counts as the reader
/// does.
pub proof fn lemma_relay_out(
    received: &[u8],
    at_end: bool,
    key: &[u8; KEY_LEN],
    r: Result<RelayAction, FrameError>,
    read: Result<FrameRead, FrameError>,
)
    ensures
        forall|n: &mut u64, m: &mut u64|
            (#[trigger] call_ensures(
                crypto::relay_encrypted_to_plain,
                (received, at_end, key, n),
                r,
            )) && (#[trigger] call_ensures(
                crypto::read_encrypted_frame,
                (received, at_end, key, m),
                read,
            )) && *n == *m && *n < u64::MAX ==> relays(r, read) && *final(n) == *final(m),
        call_ensures(direct_crypto::relay_encrypted_to_plain, (received, at_end, key), r)
            && call_ensures(direct_crypto::read_encrypted_frame, (received, at_end, key), read)
            ==> relays(r, read),
{
}

/// An end of an encrypted tunnel opens what it receives: the client under the
/// key and the count of the server, the server under those of the client. Only
/// a frame that is found raises the count, by one, and nothing else changes.
pub proof fn lemma_receive(received: &[u8], at_end: bool, r: Result<FrameRead, FrameError>)
    ensures
        forall|t: &mut EncryptedTunnel|
            (#[trigger] call_ensures(EncryptedTunnel::recv_frame, (t, received, at_end), r))
                && !t.relaying && t.c_nonce < u64::MAX && t.s_nonce < u64::MAX ==> {
                &&& t.is_client ==> read_right(r, received@, at_end, t.server_key@, t.s_nonce)
                &&& !t.is_client ==> read_right(r, received@, at_end, t.client_key@, t.c_nonce)
                &&& *final(t) == if r matches Ok(FrameRead::Frame(_)) {
                    if t.is_client {
                        EncryptedTunnel { s_nonce: (t.s_nonce + 1) as u64, ..*t }
                    } else {
                        EncryptedTunnel { c_nonce: (t.c_nonce + 1) as u64, ..*t }
                    }
                } else {
                    *t
                }
            },
{
}

/// The same for an end of a tunnel in the direct variant, which counts nothing
/// that it receives.
pub proof fn lemma_receive_direct(
    t: &direct_tunnel::EncryptedTunnel,
    received: &[u8],
    at_end: bool,
    r: Result<FrameRead, FrameError>,
)
    requires
        !t.relaying,
        call_ensures(direct_tunnel::EncryptedTunnel::recv_frame, (t, received, at_end), r),
    ensures
        t.is_client ==> read_right_direct(r, received@, at_end, t.server_key@),
        !t.is_client ==> read_right_direct(r, received@, at_end, t.client_key@),
{
}

// ---------------------------------------------------------------------------
// Going over to the relay
// ---------------------------------------------------------------------------

/// A relay goes on under the keys and the counts of its end: out under those of
/// the own side, in under those of the other.
pub proof fn lemma_relay_takes_over(r: (Direction, Direction))
    ensures
        forall|t: &mut EncryptedTunnel|
            (#[trigger] call_ensures(EncryptedTunnel::relay_bidirectional, (t,), r))
                && !t.relaying ==> {
                let client = Direction { key: t.client_key, nonce: t.c_nonce };
                let server = Direction { key: t.server_key, nonce: t.s_nonce };
                &&& t.is_client ==> r == (client, server)
                &&& !t.is_client ==> r == (server, client)
                &&& *final(t) == (EncryptedTunnel { relaying: true, ..*t })
            },
{
}

/// The same in the direct variant, where the direction in has a key only.
pub proof fn lemma_direct_relay_takes_over(r: (Direction, [u8; KEY_LEN]))
    ensures
        forall|t: &mut direct_tunnel::EncryptedTunnel|
            (#[trigger] call_ensures(
                direct_tunnel::EncryptedTunnel::relay_bidirectional,
                (t,),
                r,
            )) && !t.relaying ==> {
                &&& t.is_client ==> r.0 == (Direction { key: t.client_key, nonce: t.c_nonce })
                    && r.1 == t.server_key
                &&& !t.is_client ==> r.0 == (Direction { key: t.server_key, nonce: t.s_nonce })
                    && r.1 == t.client_key
                &&& *final(t) == (direct_tunnel::EncryptedTunnel { relaying: true, ..*t })
            },
{
}

/// A tunnel that has both kinds sends, reads and relays as the one that it is.
pub proof fn lemma_either_tunnel(data: &[u8], r: Result<Vec<u8>, FrameError>)
    ensures
        forall|t: &mut direct_tunnel::Tunnel|
            (#[trigger] call_ensures(direct_tunnel::Tunnel::send_frame, (t, data), r))
                && !t.relaying() && t.can_count(data@) ==> match (t.inner, r) {
                (direct_tunnel::TunnelInner::Plain(_), Ok(wire)) => {
                    &&& wire@.len() == 2 + data@.len()
                    &&& wire@[0] * 256 + wire@[1] == data@.len() % 65536
                    &&& wire@.skip(2) == data@
                    &&& *final(t) == *t
                },
                (direct_tunnel::TunnelInner::Encrypted(e), Ok(wire)) => {
                    &&& data@.len() <= 65507
                    &&& e.is_client ==> seals_direct(wire@, data@, e.client_key@, e.c_nonce)
                    &&& !e.is_client ==> seals_direct(wire@, data@, e.server_key@, e.s_nonce)
                    &&& final(t).inner == direct_tunnel::TunnelInner::Encrypted(e.after_send())
                },
                (direct_tunnel::TunnelInner::Encrypted(_), Err(_)) => data@.len() > 65507
                    && *final(t) == *t,
                _ => false,
            },
{
    assert forall|t: &mut direct_tunnel::Tunnel|
        (#[trigger] call_ensures(direct_tunnel::Tunnel::send_frame, (t, data), r)) && !t.relaying()
            && t.can_count(data@) && r is Ok implies match t.inner {
        direct_tunnel::TunnelInner::Plain(_) => r->Ok_0@.skip(2) == data@,
        direct_tunnel::TunnelInner::Encrypted(e) => seals_direct(
            r->Ok_0@,
            data@,
            e.send_key()@,
            e.send_nonce(),
        ),
    } by {
        match t.inner {
            direct_tunnel::TunnelInner::Plain(_) => {
                assert(r->Ok_0@.skip(2) =~= data@);
            },
            direct_tunnel::TunnelInner::Encrypted(e) => {
                lemma_seals_direct(r->Ok_0@, data@, e.send_key()@, e.send_nonce());
            },
        }
    }
}

// ---------------------------------------------------------------------------
// The handshake
// ---------------------------------------------------------------------------

/// A nonce that is received is kept as that of the peer, and nothing else
/// changes.
pub proof fn lemma_nonce_kept(nonce: [u8; KEY_LEN])
    ensures
        forall|h: &mut Handshake| #[trigger]
            call_ensures(Handshake::receive, (h, nonce), ()) ==> {
                &&& final(h).peer == Some(nonce)
                &&& final(h).own == h.own
                &&& final(h).psk == h.psk
                &&& final(h).is_client == h.is_client
            },
{
}

/// Whatever nonce a side draws, it keeps the one that it sends as its own; and
/// it sends, receives and finishes in the order of its side.
pub proof fn lemma_drawn_nonce(r: HandshakeAction)
    ensures
        forall|h: &mut Handshake|
            (#[trigger] call_ensures(crypto::secure_handshake, (h,), r)) ==> {
                &&& r matches HandshakeAction::Send(nonce) ==> final(h).own == Some(nonce)
                    && h.own is None
                &&& r is Send <==> h.own is None && (h.is_client || h.peer is Some)
                &&& r is Finish <==> h.own is Some && h.peer is Some
                &&& r is Receive <==> !(r is Send) && !(r is Finish)
                &&& !(r is Send) ==> *final(h) == *h
                &&& final(h).peer == h.peer && final(h).psk == h.psk && final(h).is_client
                    == h.is_client
            },
{
}

// ---------------------------------------------------------------------------
// The server of the direct variant
// ---------------------------------------------------------------------------

/// The key of the server, where there are keys.
spec fn server_key(keys: Option<([u8; KEY_LEN], [u8; KEY_LEN])>) -> Seq<u8> {
    match keys {
        Some((_, key)) => key@,
        None => Seq::empty(),
    }
}

/// The server of the direct variant tells its status: one bare byte without
/// keys, and with keys that byte sealed under the server key and the next
/// nonce, which is then counted. It relays just where the target is reached.
pub proof fn lemma_session_status(reached: bool, r: SessionAction)
    ensures
        forall|s: &mut ServerSession|
            (#[trigger] call_ensures(
                direct_server::handle_client,
                (s, SessionEvent::Connected(reached)),
                r,
            )) && s.s_nonce < u64::MAX ==> {
                let status = if reached {
                    seq![0u8]
                } else {
                    seq![5u8]
                };
                &&& r@ is Relay <==> reached
                &&& r@ is Refuse <==> !reached
                &&& r@ matches SessionActionView::Relay(out) ==> match s.keys {
                    None => out == status,
                    Some((_, key)) => seals_direct(out, status, key@, s.s_nonce),
                }
                &&& r@ matches SessionActionView::Refuse(out) ==> match s.keys {
                    None => out == status,
                    Some((_, key)) => seals_direct(out, status, key@, s.s_nonce),
                }
                &&& final(s).keys == s.keys
                &&& final(s).s_nonce == s.s_nonce + if s.keys is Some {
                    1int
                } else {
                    0int
                }
            },
{
    let status = if reached {
        seq![0u8]
    } else {
        seq![5u8]
    };
    assert(server::status_of(reached) =~= status);
    assert forall|s: &mut ServerSession|
        (#[trigger] call_ensures(
            direct_server::handle_client,
            (s, SessionEvent::Connected(reached)),
            r,
        )) && s.s_nonce < u64::MAX && s.keys is Some implies seals_direct(
        direct_crypto::sealed_frame(status, server_key(s.keys), s.s_nonce),
        status,
        server_key(s.keys),
        s.s_nonce,
    ) by {
        lemma_seals_direct(
            direct_crypto::sealed_frame(status, server_key(s.keys), s.s_nonce),
            status,
            server_key(s.keys),
            s.s_nonce,
        );
    }
}

/// What has arrived from a client is read as a bare header without keys, and
/// with keys as a frame under the key of the client. Reading counts nothing.
pub proof fn lemma_session_reads(d: Vec<u8>, at_end: bool, r: SessionAction)
    ensures
        forall|s: &mut ServerSession|
            (#[trigger] call_ensures(
                direct_server::handle_client,
                (s, SessionEvent::Received(d, at_end)),
                r,
            )) ==> {
                &&& r@ == match s.keys {
                    None => direct_server::plain_request(d@, at_end),
                    Some((key, _)) => direct_server::encrypted_request(d@, at_end, key@),
                }
                &&& *final(s) == *s
            },
{
}

// ---------------------------------------------------------------------------
// Tunnels without encryption
// ---------------------------------------------------------------------------

/// What a tunnel without encryption writes, over TCP and over QUIC: two bytes
/// of length, the high one first, and the data as it is.
pub proof fn lemma_plain_send(data: &[u8], r: Vec<u8>)
    ensures
        forall|t: &mut PlainTunnel|
            (#[trigger] call_ensures(PlainTunnel::send_frame, (t, data), r)) && !t.relaying ==> {
                &&& r@.len() == 2 + data@.len()
                &&& r@[0] * 256 + r@[1] == data@.len() % 65536
                &&& r@.skip(2) == data@
            },
        forall|t: &mut QuicTunnel|
            (#[trigger] call_ensures(QuicTunnel::send_frame, (t, data), r)) && !t.relaying ==> {
                &&& r@.len() == 2 + data@.len()
                &&& r@[0] * 256 + r@[1] == data@.len() % 65536
                &&& r@.skip(2) == data@
            },
{
    let w = crate::frame::framed(data@);
    assert(w.skip(2) =~= data@);
}

/// What a tunnel without encryption reads: a frame once all of it is there.
pub proof fn lemma_plain_receive(received: &[u8], at_end: bool, r: Result<FrameRead, FrameError>)
    ensures
        forall|t: &mut PlainTunnel|
            (#[trigger] call_ensures(PlainTunnel::recv_frame, (t, received, at_end), r))
                && !t.relaying ==> {
                let s = received@;
                let n = s[0] * 256 + s[1];
                match r {
                    Ok(FrameRead::Frame(data)) => s.len() >= 2 && s.len() >= 2 + n && data@
                        == s.subrange(2, 2 + n),
                    Ok(FrameRead::End) => at_end && s.len() < 2,
                    Ok(FrameRead::Need(k)) => !at_end && k > 0 && s.len() + k == if s.len() < 2 {
                        2
                    } else {
                        2 + n
                    },
                    Err(e) => at_end && 2 <= s.len() < 2 + n && e == FrameError::UnexpectedEof,
                }
            },
{
}

/// Over QUIC a tunnel reads a frame once all of it is there, and is told of the
/// end where a frame is cut off.
pub proof fn lemma_quic_receive(received: &[u8], at_end: bool, r: FrameRead)
    ensures
        forall|t: &mut QuicTunnel|
            (#[trigger] call_ensures(QuicTunnel::recv_frame, (t, received, at_end), r))
                && !t.relaying ==> {
                let s = received@;
                let n = s[0] * 256 + s[1];
                match r {
                    FrameRead::Frame(data) => s.len() >= 2 && s.len() >= 2 + n && data@
                        == s.subrange(2, 2 + n),
                    FrameRead::End => at_end && (s.len() < 2 || s.len() < 2 + n),
                    FrameRead::Need(k) => !at_end && k > 0 && s.len() + k == if s.len() < 2 {
                        2
                    } else {
                        2 + n
                    },
                }
            },
{
}

/// A tunnel that has both kinds reads as the one that it is, and reading
/// changes nothing.
pub proof fn lemma_either_reads(received: &[u8], at_end: bool, r: Result<FrameRead, FrameError>)
    ensures
        forall|t: &mut direct_tunnel::Tunnel|
            (#[trigger] call_ensures(
                direct_tunnel::Tunnel::recv_frame,
                (t, received, at_end),
                r,
            )) && !t.relaying() ==> {
                let s = received@;
                let n = s[0] * 256 + s[1];
                &&& *final(t) == *t
                &&& match (t.inner, r) {
                    (direct_tunnel::TunnelInner::Encrypted(e), _) => if e.is_client {
                        read_right_direct(r, s, at_end, e.server_key@)
                    } else {
                        read_right_direct(r, s, at_end, e.client_key@)
                    },
                    (_, Ok(FrameRead::Frame(data))) => s.len() >= 2 && s.len() >= 2 + n && data@
                        == s.subrange(2, 2 + n),
                    (_, Ok(FrameRead::End)) => at_end && s.len() < 2,
                    (_, Ok(FrameRead::Need(k))) => !at_end && k > 0 && s.len() + k == if s.len()
                        < 2 {
                        2
                    } else {
                        2 + n
                    },
                    (_, Err(e)) => at_end && 2 <= s.len() < 2 + n && e
                        == FrameError::UnexpectedEof,
                }
            },
{
}

/// A tunnel that has both kinds relays as the one that it is: bytes as they are,
/// or under the keys and the count of its side.
pub proof fn lemma_either_relays(r: direct_tunnel::Relay)
    ensures
        forall|t: &mut direct_tunnel::Tunnel|
            (#[trigger] call_ensures(direct_tunnel::Tunnel::relay_bidirectional, (t,), r))
                && !t.relaying() ==> {
                &&& final(t).relaying()
                &&& match (t.inner, r) {
                    (
                        direct_tunnel::TunnelInner::Plain(_),
                        direct_tunnel::Relay::Plain,
                    ) => final(t).inner is Plain,
                    (
                        direct_tunnel::TunnelInner::Encrypted(e),
                        direct_tunnel::Relay::Encrypted(out, back),
                    ) => {
                        &&& e.is_client ==> out == (Direction {
                            key: e.client_key,
                            nonce: e.c_nonce,
                        }) && back == e.server_key
                        &&& !e.is_client ==> out == (Direction {
                            key: e.server_key,
                            nonce: e.s_nonce,
                        }) && back == e.client_key
                        &&& final(t).inner == direct_tunnel::TunnelInner::Encrypted(
                            direct_tunnel::EncryptedTunnel { relaying: true, ..e },
                        )
                    },
                    _ => false,
                }
            },
{
}

/// A tunnel without encryption begins with frames, and leaves them for the relay
/// when it is told to.
pub proof fn lemma_plain_begins(a: PlainTunnel, b: QuicTunnel)
    ensures
        call_ensures(PlainTunnel::new, (), a) ==> !a.relaying,
        call_ensures(QuicTunnel::new, (), b) ==> !b.relaying,
        forall|t: &mut PlainTunnel|
            (#[trigger] call_ensures(PlainTunnel::relay_bidirectional, (t,), ())) && !t.relaying
                ==> final(t).relaying,
        forall|t: &mut QuicTunnel|
            (#[trigger] call_ensures(QuicTunnel::relay_bidirectional, (t,), ())) && !t.relaying
                ==> final(t).relaying,
{
}

} // verus!
