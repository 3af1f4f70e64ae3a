//! Laws on session keys and on the handshake that agrees on them.
use crate::crypto;
use crate::crypto::{Handshake, HandshakeAction, KEY_LEN};
use crate::direct::server::ServerSession;
use crate::direct::tunnel as direct_tunnel;
use crate::direct::tunnel::Relay;
use crate::encrypted::EncryptedTunnel;
use crate::frame::FrameError;
use vstd::prelude::*;
use vstd::utf8::*;

verus! {

/// Whether an info string is the label in text, then one nonce, then another,
/// each whole and in its place.
pub open spec fn info_of(info: Seq<u8>, first: Seq<u8>, second: Seq<u8>) -> bool {
    &&& info.len() == 16 + first.len() + second.len()
    &&& info.take(16) == encode_utf8("vs-vpn-tunnel-v1"@)
    &&& info.subrange(16, 16 + first.len() as int) == first
    &&& info.skip(16 + first.len() as int) == second
}

proof fn lemma_label()
    ensures
        crypto::info_label() == encode_utf8("vs-vpn-tunnel-v1"@),
        crypto::info_label().len() == 16,
{
    let t = "vs-vpn-tunnel-v1"@;
    reveal_strlit("vs-vpn-tunnel-v1");
    is_ascii_chars_encode_utf8(t);
    assert(crypto::info_label() =~= encode_utf8(t)) by {
        assert forall|i: int| 0 <= i < 16 implies crypto::info_label()[i] == encode_utf8(t)[i] by {
            assert(t[i] as u8 == encode_utf8(t)[i]);
        }
    }
}

/// There is one info string only for two nonces.
proof fn lemma_info_once(info: Seq<u8>, first: Seq<u8>, second: Seq<u8>)
    requires
        info_of(info, first, second),
    ensures
        info == crypto::key_info(first, second),
{
    lemma_label();
    let n = first.len() as int;
    assert(info =~= info.take(16) + info.subrange(16, 16 + n) + info.skip(16 + n));
}

/// The info string of a handshake holds both nonces whole, that of the client
/// before that of the server.
pub proof fn lemma_info_holds_nonces(client_nonce: Seq<u8>, server_nonce: Seq<u8>)
    requires
        client_nonce.len() == 32,
        server_nonce.len() == 32,
    ensures
        ({
            let info = crypto::key_info(client_nonce, server_nonce);
            &&& info.len() == 80
            &&& info.take(16) == encode_utf8("vs-vpn-tunnel-v1"@)
            &&& info.subrange(16, 48) == client_nonce
            &&& info.subrange(48, 80) == server_nonce
        }),
{
    lemma_label();
    let info = crypto::key_info(client_nonce, server_nonce);
    assert(info.take(16) =~= crypto::info_label());
    assert(info.subrange(16, 48) =~= client_nonce);
    assert(info.subrange(48, 80) =~= server_nonce);
}

/// Two handshakes that differ in a nonce derive their keys from different info
/// strings.
pub proof fn lemma_infos_differ(a: Seq<u8>, b: Seq<u8>, c: Seq<u8>, d: Seq<u8>)
    requires
        a.len() == 32 && b.len() == 32 && c.len() == 32 && d.len() == 32,
        a != c || b != d,
    ensures
        crypto::key_info(a, b) != crypto::key_info(c, d),
{
    lemma_info_holds_nonces(a, b);
    lemma_info_holds_nonces(c, d);
}

/// The session keys are the two halves of what HKDF gives for the shared key
/// and the info string that holds the nonce of the client and then that of the
/// server.
pub proof fn lemma_session_keys(
    psk: &[u8; KEY_LEN],
    client_nonce: &[u8],
    server_nonce: &[u8],
    r: Result<([u8; KEY_LEN], [u8; KEY_LEN]), FrameError>,
    info: Seq<u8>,
)
    requires
        call_ensures(crypto::derive_session_keys, (psk, client_nonce, server_nonce), r),
        info_of(info, client_nonce@, server_nonce@),
    ensures
        r is Ok,
        r->Ok_0.0@ == crypto::hkdf_sha256(psk@, info, 64).take(32),
        r->Ok_0.1@ == crypto::hkdf_sha256(psk@, info, 64).skip(32),
{
    lemma_info_once(info, client_nonce@, server_nonce@);
}

/// A side that has both nonces finishes, with the keys that they give: on the
/// client the own nonce comes first, on the server that of the peer.
pub proof fn lemma_handshake_keys(
    before: Handshake,
    after: Handshake,
    r: HandshakeAction,
    fresh: [u8; KEY_LEN],
    info: Seq<u8>,
)
    requires
        crypto::stepped(before, after, r, fresh),
        before.own is Some && before.peer is Some,
        before.is_client ==> info_of(info, before.own->0@, before.peer->0@),
        !before.is_client ==> info_of(info, before.peer->0@, before.own->0@),
    ensures
        after == before,
        r matches HandshakeAction::Finish(ck, sk) && ck@ == crypto::hkdf_sha256(
            before.psk@,
            info,
            64,
        ).take(32) && sk@ == crypto::hkdf_sha256(before.psk@, info, 64).skip(32),
{
    if before.is_client {
        lemma_info_once(info, before.own->0@, before.peer->0@);
    } else {
        lemma_info_once(info, before.peer->0@, before.own->0@);
    }
}

/// A side that lacks a nonce sends its own, or receives that of its peer: the
/// client sends before it receives, and the server receives before it sends.
pub proof fn lemma_handshake_order(
    before: Handshake,
    after: Handshake,
    r: HandshakeAction,
    fresh: [u8; KEY_LEN],
)
    requires
        crypto::stepped(before, after, r, fresh),
        before.own is None || before.peer is None,
    ensures
        r is Send || r is Receive,
        before.is_client ==> (r is Send <==> before.own is None),
        !before.is_client ==> (r is Receive <==> before.peer is None),
        r matches HandshakeAction::Send(nonce) ==> nonce == fresh && after.own == Some(fresh),
        r is Receive ==> after.own == before.own,
        after.psk == before.psk && after.is_client == before.is_client && after.peer
            == before.peer,
{
}

/// A nonce of the cipher is its number in eight bytes, each of which counts 256
/// times as much as the one before it, and four zeros.
pub proof fn lemma_cipher_nonce(n: u64)
    ensures
        ({
            let b = crypto::full_nonce(n);
            &&& b.len() == 12
            &&& n == b[0] + 256 * (b[1] + 256 * (b[2] + 256 * (b[3] + 256 * (b[4] + 256 * (b[5]
                + 256 * (b[6] + 256 * b[7]))))))
            &&& b[8] == 0 && b[9] == 0 && b[10] == 0 && b[11] == 0
        }),
{
    crate::laws::numbers::lemma_le64(n);
    let b = crypto::full_nonce(n);
    let c = crate::bytes::le64(n);
    assert(forall|i: int| 0 <= i < 8 ==> b[i] == c[i]);
}

// ---------------------------------------------------------------------------
// The two sides of a tunnel
// ---------------------------------------------------------------------------

/// The client sends under the client key and receives under the server key, the
/// server the other way round, and each counts each direction on its own from
/// zero.
pub proof fn lemma_new_tunnel(
    client_key: [u8; KEY_LEN],
    server_key: [u8; KEY_LEN],
    is_client: bool,
    t: EncryptedTunnel,
)
    requires
        call_ensures(EncryptedTunnel::new, (client_key, server_key, is_client), t),
    ensures
        is_client ==> t.send_key() == client_key && t.recv_key() == server_key,
        !is_client ==> t.send_key() == server_key && t.recv_key() == client_key,
        t.send_nonce() == 0 && t.recv_nonce() == 0,
        t.is_client == is_client && !t.relaying,
{
}

/// A frame that is sent raises the count of the frames sent by one, a frame
/// that is received that of the frames received, and nothing else changes.
pub proof fn lemma_counts(t: EncryptedTunnel)
    ensures
        t.send_nonce() < u64::MAX ==> {
            let s = t.after_send();
            &&& s.send_nonce() == t.send_nonce() + 1
            &&& s.recv_nonce() == t.recv_nonce()
            &&& s.send_key() == t.send_key() && s.recv_key() == t.recv_key()
            &&& s.is_client == t.is_client && s.relaying == t.relaying
        },
        t.recv_nonce() < u64::MAX ==> {
            let s = t.after_recv();
            &&& s.recv_nonce() == t.recv_nonce() + 1
            &&& s.send_nonce() == t.send_nonce()
            &&& s.send_key() == t.send_key() && s.recv_key() == t.recv_key()
            &&& s.is_client == t.is_client && s.relaying == t.relaying
        },
{
}

/// A side and a count stand for one key and one count each: the client's for
/// what the client sends, the server's for what the server sends.
pub proof fn lemma_sides(t: EncryptedTunnel)
    ensures
        t.is_client ==> t.send_key() == t.client_key && t.send_nonce() == t.c_nonce,
        t.is_client ==> t.recv_key() == t.server_key && t.recv_nonce() == t.s_nonce,
        !t.is_client ==> t.send_key() == t.server_key && t.send_nonce() == t.s_nonce,
        !t.is_client ==> t.recv_key() == t.client_key && t.recv_nonce() == t.c_nonce,
{
}

/// The same in the direct variant, where only the frames that are sent count.
pub proof fn lemma_direct_sides(
    keys: Option<([u8; KEY_LEN], [u8; KEY_LEN])>,
    is_client: bool,
    t: direct_tunnel::Tunnel,
)
    requires
        call_ensures(direct_tunnel::Tunnel::new, (keys, is_client), t),
    ensures
        !t.relaying(),
        match (keys, t.inner) {
            (None, direct_tunnel::TunnelInner::Plain(_)) => true,
            (Some((ck, sk)), direct_tunnel::TunnelInner::Encrypted(e)) => {
                &&& is_client ==> e.send_key() == ck && e.recv_key() == sk
                &&& !is_client ==> e.send_key() == sk && e.recv_key() == ck
                &&& e.send_nonce() == 0
            },
            _ => false,
        },
{
}

/// In the direct variant a frame that is sent raises the count by one, and
/// nothing else changes.
pub proof fn lemma_direct_counts(t: direct_tunnel::EncryptedTunnel)
    requires
        t.send_nonce() < u64::MAX,
    ensures
        t.after_send().send_nonce() == t.send_nonce() + 1,
        t.after_send().send_key() == t.send_key(),
        t.after_send().recv_key() == t.recv_key(),
        t.after_send().is_client == t.is_client,
        t.after_send().relaying == t.relaying,
{
}

/// What the server of the direct variant relays to a client, the client reads,
/// and the other way round: each direction has one key, and the server goes on
/// counting where its status left off. Without keys both relay bytes as they
/// are.
pub proof fn lemma_session_relay(
    keys: Option<([u8; KEY_LEN], [u8; KEY_LEN])>,
    session: &ServerSession,
    relay: Relay,
    client: direct_tunnel::Tunnel,
)
    requires
        session.keys == keys,
        call_ensures(ServerSession::relay, (session,), relay),
        call_ensures(direct_tunnel::Tunnel::new, (keys, true), client),
    ensures
        match (relay, client.inner) {
            (Relay::Plain, direct_tunnel::TunnelInner::Plain(_)) => keys is None,
            (Relay::Encrypted(out, back), direct_tunnel::TunnelInner::Encrypted(e)) => {
                &&& out.key == e.recv_key()
                &&& back == e.send_key()
                &&& out.nonce == session.s_nonce
            },
            _ => false,
        },
{
}

/// Both sides choose an encrypted tunnel under the key that they were given, or
/// one without encryption where they were given none.
pub proof fn lemma_chosen_tunnel(
    secret: Option<[u8; KEY_LEN]>,
    r: crate::client::TunnelMode,
)
    requires
        call_ensures(crate::client::choose_tunnel, (secret,), r),
    ensures
        r is Plain <==> secret is None,
        r matches crate::client::TunnelMode::Encrypted(psk) ==> secret == Some(psk),
{
}

// ---------------------------------------------------------------------------
// Beginnings
// ---------------------------------------------------------------------------

/// A handshake begins with the shared key and the side that it is given, and
/// without a nonce. A session of the direct server begins with its keys and
/// counts from zero.
pub proof fn lemma_beginnings(
    psk: [u8; KEY_LEN],
    is_client: bool,
    h: Handshake,
    keys: Option<([u8; KEY_LEN], [u8; KEY_LEN])>,
    s: ServerSession,
)
    requires
        call_ensures(Handshake::new, (psk, is_client), h),
        call_ensures(ServerSession::new, (keys,), s),
    ensures
        h.psk == psk && h.is_client == is_client && h.own is None && h.peer is None,
        s.keys == keys && s.s_nonce == 0,
{
}

/// The way to a server keeps the address, the key and the check that it is
/// given.
pub proof fn lemma_ways(
    addr: String,
    psk: [u8; KEY_LEN],
    check: crate::quic::CertCheck,
    a: crate::encrypted::EncryptedConnector,
    b: crate::plain::PlainConnector,
    c: crate::quic::QuicConnector,
)
    requires
        call_ensures(crate::encrypted::EncryptedConnector::new, (addr, psk), a),
        call_ensures(crate::plain::PlainConnector::new, (addr,), b),
        call_ensures(crate::quic::QuicConnector::new, (addr, check), c),
    ensures
        a.server_addr@ == addr@ && b.server_addr@ == addr@ && c.server_addr@ == addr@,
        a.psk@ == psk@,
        c.check == check,
{
}

/// Whatever nonces two sides draw, each finishes with the keys that the info
/// string of both nonces gives, whether it is handed the nonce to send or draws
/// it.
pub proof fn lemma_finished(
    psk: [u8; KEY_LEN],
    is_client: bool,
    own: [u8; KEY_LEN],
    peer: [u8; KEY_LEN],
    fresh: [u8; KEY_LEN],
    r: HandshakeAction,
    info: Seq<u8>,
)
    requires
        is_client ==> info_of(info, own@, peer@),
        !is_client ==> info_of(info, peer@, own@),
    ensures
        forall|h: &mut Handshake|
            *h == (Handshake { psk, is_client, own: Some(own), peer: Some(peer) }) && (#[trigger]
            call_ensures(crypto::secure_handshake, (h,), r)) ==> finishes(r, psk@, info),
        forall|h: &mut Handshake|
            *h == (Handshake { psk, is_client, own: Some(own), peer: Some(peer) }) && (#[trigger]
            call_ensures(crypto::handshake_step, (h, fresh), r)) ==> finishes(r, psk@, info),
{
    if is_client {
        lemma_info_once(info, own@, peer@);
    } else {
        lemma_info_once(info, peer@, own@);
    }
}

/// Whether a side finishes with the two halves of what HKDF gives.
pub open spec fn finishes(r: HandshakeAction, psk: Seq<u8>, info: Seq<u8>) -> bool {
    r matches HandshakeAction::Finish(ck, sk) && ck@ == crypto::hkdf_sha256(psk, info, 64).take(32)
        && sk@ == crypto::hkdf_sha256(psk, info, 64).skip(32)
}

/// The function that takes a step of the handshake takes the step of its side,
/// with the nonce that it is handed.
pub proof fn lemma_step_taken(fresh: [u8; KEY_LEN], r: HandshakeAction)
    ensures
        forall|h: &mut Handshake|
            (#[trigger] call_ensures(crypto::handshake_step, (h, fresh), r)) ==> {
                &&& r is Send <==> h.own is None && (h.is_client || h.peer is Some)
                &&& r is Finish <==> h.own is Some && h.peer is Some
                &&& r is Receive <==> !(r is Send) && !(r is Finish)
                &&& r matches HandshakeAction::Send(nonce) ==> nonce == fresh && final(h).own
                    == Some(fresh)
                &&& !(r is Send) ==> *final(h) == *h
                &&& final(h).peer == h.peer && final(h).psk == h.psk && final(h).is_client
                    == h.is_client
            },
{
}

} // verus!
