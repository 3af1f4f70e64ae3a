//! Encrypted frames: session keys from a shared key and two nonces, and frames
//! that are sealed with ChaCha20-Poly1305 under a counter.
use crate::bytes;
use crate::frame::{FrameError, FrameRead, FrameView};
use crate::stream;
use chacha20poly1305::aead::{Aead, KeyInit};
use chacha20poly1305::ChaCha20Poly1305;
use hkdf::Hkdf;
use rand::Rng;
use sha2::Sha256;
use vstd::prelude::*;
use vstd::slice::slice_subrange;

verus! {

/// The bytes of a key, and of a handshake nonce.
pub const KEY_LEN: usize = 32;

/// The bytes of a cipher nonce.
pub const NONCE_LEN: usize = 12;

/// The bytes that sealing adds to a plaintext.
pub const TAG_LEN: usize = 16;

/// The most bytes that one frame can carry.
pub const MAX_PLAINTEXT: usize = 65535 - TAG_LEN;

/// The most bytes that a relay reads at once.
pub const RELAY_BUF: usize = 16384;

// ---------------------------------------------------------------------------
// Outside functions
// ---------------------------------------------------------------------------

/// The error of the cipher.
#[verifier::external_type_specification]
#[verifier::external_body]
pub struct ExAeadError(chacha20poly1305::Error);

/// The error of key derivation.
#[verifier::external_type_specification]
#[verifier::external_body]
pub struct ExInvalidLength(hkdf::InvalidLength);

/// The output of HKDF with SHA-256 and no salt: from key material and an info
/// string, so many bytes.
pub uninterp spec fn hkdf_sha256(ikm: Seq<u8>, info: Seq<u8>, len: nat) -> Seq<u8>;

/// What ChaCha20-Poly1305 without associated data makes of a plaintext under a
/// key and a nonce: the ciphertext and then the tag.
pub uninterp spec fn aead_sealed(key: Seq<u8>, nonce: Seq<u8>, plaintext: Seq<u8>) -> Seq<u8>;

/// The plaintext that ChaCha20-Poly1305 without associated data finds in a
/// ciphertext under a key and a nonce, where the tag is right.
pub uninterp spec fn aead_opened(key: Seq<u8>, nonce: Seq<u8>, ciphertext: Seq<u8>) -> Option<
    Seq<u8>,
>;

/// Calls `fill_bytes` of `rand::rng()`, which fills the array with random
/// bytes. Nothing holds of every outcome but its length. The generator stops
/// the program where the system has no randomness to seed it.
#[verifier::external_body]
fn random_bytes() -> (r: [u8; KEY_LEN]) {
    let mut key = [0u8; KEY_LEN];
    rand::rng().fill_bytes(&mut key);
    key
}

/// Calls `Hkdf::<Sha256>::new` without a salt and `Hkdf::expand`, which give up
/// to 255 blocks of 32 bytes and refuse to give more.
#[verifier::external_body]
fn hkdf_expand(ikm: &[u8], info: &[u8], len: usize) -> (r: Result<Vec<u8>, hkdf::InvalidLength>)
    ensures
        r is Ok <==> len <= 255 * 32,
        r is Ok ==> r->Ok_0@ == hkdf_sha256(ikm@, info@, len as nat),
        r is Ok ==> r->Ok_0@.len() == len,
{
    let mut okm = vec![0u8; len];
    Hkdf::<Sha256>::new(None, ikm).expand(info, &mut okm)?;
    Ok(okm)
}

/// Calls `ChaCha20Poly1305::new`, which takes any key of 32 bytes,
/// and `Aead::encrypt`, which adds a tag of 16 bytes and succeeds for every
/// plaintext of this size. Decrypting what it gives, under the same key and
/// nonce, gives back the plaintext.
#[verifier::external_body]
pub(crate) fn aead_encrypt(key: &[u8; KEY_LEN], nonce: &[u8; NONCE_LEN], plaintext: &[u8]) -> (r: Result<
    Vec<u8>,
    chacha20poly1305::Error,
>)
    requires
        plaintext@.len() <= 65535,
    ensures
        r is Ok,
        r->Ok_0@ == aead_sealed(key@, nonce@, plaintext@),
        r->Ok_0@.len() == plaintext@.len() + 16,
        aead_opened(key@, nonce@, r->Ok_0@) == Some(plaintext@),
{
    ChaCha20Poly1305::new(key.into()).encrypt(nonce.into(), plaintext)
}

/// Calls `ChaCha20Poly1305::new`, which takes any key of 32 bytes,
/// and `Aead::decrypt`, which takes a tag of 16 bytes off the end and fails
/// where there is none or it is wrong.
#[verifier::external_body]
pub(crate) fn aead_decrypt(key: &[u8; KEY_LEN], nonce: &[u8; NONCE_LEN], ciphertext: &[u8]) -> (r: Result<
    Vec<u8>,
    chacha20poly1305::Error,
>)
    requires
        ciphertext@.len() <= 65535,
    ensures
        match r {
            Ok(p) => aead_opened(key@, nonce@, ciphertext@) == Some(p@) && p@.len() + 16
                == ciphertext@.len(),
            Err(_) => aead_opened(key@, nonce@, ciphertext@) is None,
        },
{
    ChaCha20Poly1305::new(key.into()).decrypt(nonce.into(), ciphertext)
}

// ---------------------------------------------------------------------------
// Session keys
// ---------------------------------------------------------------------------

/// A fresh random key.
pub fn generate_psk() -> (r: [u8; KEY_LEN])
    ensures
        r@.len() == KEY_LEN,
{
    random_bytes()
}

/// The text `vs-vpn-tunnel-v1` as bytes, which opens the info string of key
/// derivation.
pub open spec fn info_label() -> Seq<u8> {
    seq![
        0x76u8, 0x73, 0x2d, 0x76, 0x70, 0x6e, 0x2d, 0x74, 0x75, 0x6e, 0x6e, 0x65, 0x6c, 0x2d, 0x76,
        0x31,
    ]
}

/// The info string of key derivation: the label, the nonce of the client and
/// the nonce of the server.
pub open spec fn key_info(client_nonce: Seq<u8>, server_nonce: Seq<u8>) -> Seq<u8> {
    info_label() + client_nonce + server_nonce
}

/// The key for frames from the client and the key for frames from the server:
/// the two halves of what HKDF gives for the shared key and the two nonces.
pub open spec fn session_keys(psk: Seq<u8>, client_nonce: Seq<u8>, server_nonce: Seq<u8>) -> (
    Seq<u8>,
    Seq<u8>,
) {
    let okm = hkdf_sha256(psk, key_info(client_nonce, server_nonce), 64);
    (okm.take(32), okm.skip(32))
}

pub fn derive_session_keys(psk: &[u8; KEY_LEN], client_nonce: &[u8], server_nonce: &[u8]) -> (r:
    Result<([u8; KEY_LEN], [u8; KEY_LEN]), FrameError>)
    ensures
        r is Ok,
        (r->Ok_0.0@, r->Ok_0.1@) == session_keys(psk@, client_nonce@, server_nonce@),
{
    let label: [u8; 16] = [
        0x76,
        0x73,
        0x2d,
        0x76,
        0x70,
        0x6e,
        0x2d,
        0x74,
        0x75,
        0x6e,
        0x6e,
        0x65,
        0x6c,
        0x2d,
        0x76,
        0x31,
    ];
    let mut info: Vec<u8> = Vec::new();
    bytes::push_all(&mut info, &label);
    bytes::push_all(&mut info, client_nonce);
    bytes::push_all(&mut info, server_nonce);
    assert(info@ =~= key_info(client_nonce@, server_nonce@));
    match hkdf_expand(psk, info.as_slice(), 64) {
        Ok(okm) => {
            let ck = key_at(okm.as_slice(), 0);
            let sk = key_at(okm.as_slice(), 32);
            assert(ck@ =~= okm@.take(32));
            assert(sk@ =~= okm@.skip(32));
            Ok((ck, sk))
        },
        Err(_) => Err(FrameError::KeyDerivation),
    }
}

/// The key that stands in `data` from `start` on.
pub(crate) fn key_at(data: &[u8], start: usize) -> (r: [u8; KEY_LEN])
    requires
        start + KEY_LEN <= data@.len(),
    ensures
        r@ == data@.subrange(start as int, start + KEY_LEN),
{
    let mut key: [u8; KEY_LEN] = [0; KEY_LEN];
    let n = data.len();
    let mut i: usize = 0;
    while i < KEY_LEN
        invariant
            i <= KEY_LEN,
            start + KEY_LEN <= n == data@.len(),
            forall|j: int| 0 <= j < i ==> key@[j] == data@[start + j],
        decreases KEY_LEN - i,
    {
        key[i] = data[start + i];
        i += 1;
    }
    assert(key@ =~= data@.subrange(start as int, start + KEY_LEN));
    key
}

// ---------------------------------------------------------------------------
// The handshake
// ---------------------------------------------------------------------------

/// One side of the handshake: the shared key, the side, and the nonces that
/// exist so far.
#[derive(Debug, Clone, Copy)]
pub struct Handshake {
    pub psk: [u8; KEY_LEN],
    pub is_client: bool,
    pub own: Option<[u8; KEY_LEN]>,
    pub peer: Option<[u8; KEY_LEN]>,
}

/// What one side of the handshake does next.
#[derive(Debug)]
pub enum HandshakeAction {
    /// Send the own nonce.
    Send([u8; KEY_LEN]),
    /// Receive the nonce of the peer.
    Receive,
    /// Go on with the key of the client and the key of the server.
    Finish([u8; KEY_LEN], [u8; KEY_LEN]),
    Fail(FrameError),
}

/// The keys of one side, from its own nonce and that of its peer.
pub open spec fn handshake_keys(psk: Seq<u8>, is_client: bool, own: Seq<u8>, peer: Seq<u8>) -> (
    Seq<u8>,
    Seq<u8>,
) {
    if is_client {
        session_keys(psk, own, peer)
    } else {
        session_keys(psk, peer, own)
    }
}

impl Handshake {
    pub fn new(psk: [u8; KEY_LEN], is_client: bool) -> (r: Self)
        ensures
            r.psk == psk,
            r.is_client == is_client,
            r.own is None,
            r.peer is None,
    {
        Handshake { psk, is_client, own: None, peer: None }
    }

    /// Takes the nonce of the peer.
    pub fn receive(&mut self, nonce: [u8; KEY_LEN])
        ensures
            *final(self) == (Handshake { peer: Some(nonce), ..*old(self) }),
    {
        self.peer = Some(nonce);
    }
}

/// Whether a side sends its nonce next: the client at once, the server after it
/// has received.
pub open spec fn sends_next(h: Handshake) -> bool {
    h.own is None && (h.is_client || h.peer is Some)
}

/// Whether `r` is the next action of a side, and `after` the side after it: the
/// client sends its nonce and then receives, the server receives and then
/// sends, and with both nonces a side has the keys. The nonce that is sent is
/// `fresh`; it is kept as the own nonce.
pub open spec fn stepped(
    before: Handshake,
    after: Handshake,
    r: HandshakeAction,
    fresh: [u8; KEY_LEN],
) -> bool {
    if sends_next(before) {
        r == HandshakeAction::Send(fresh) && after == (Handshake { own: Some(fresh), ..before })
    } else if before.peer is None || before.own is None {
        r is Receive && after == before
    } else {
        &&& r matches HandshakeAction::Finish(ck, sk)
        &&& (ck@, sk@) == handshake_keys(
            before.psk@,
            before.is_client,
            before.own->0@,
            before.peer->0@,
        )
        &&& after == before
    }
}

/// The next action of a side, with the nonce to send where one is to be sent.
pub fn handshake_step(h: &mut Handshake, fresh: [u8; KEY_LEN]) -> (r: HandshakeAction)
    ensures
        stepped(*old(h), *final(h), r, fresh),
{
    match (h.own, h.peer) {
        (Some(own), Some(peer)) => {
            let keys = if h.is_client {
                derive_session_keys(&h.psk, &own, &peer)
            } else {
                derive_session_keys(&h.psk, &peer, &own)
            };
            match keys {
                Ok((ck, sk)) => HandshakeAction::Finish(ck, sk),
                Err(e) => HandshakeAction::Fail(e),
            }
        },
        (own, peer) => {
            if own.is_none() && (h.is_client || peer.is_some()) {
                h.own = Some(fresh);
                HandshakeAction::Send(fresh)
            } else {
                HandshakeAction::Receive
            }
        },
    }
}

/// The next action of a side. A nonce that is sent is random.
pub fn secure_handshake(h: &mut Handshake) -> (r: HandshakeAction)
    ensures
        exists|fresh: [u8; KEY_LEN]| #[trigger] stepped(*old(h), *final(h), r, fresh),
        r matches HandshakeAction::Send(nonce) ==> stepped(*old(h), *final(h), r, nonce),
{
    let fresh = if h.own.is_none() && (h.is_client || h.peer.is_some()) {
        random_bytes()
    } else {
        [0; KEY_LEN]
    };
    handshake_step(h, fresh)
}

/// The whole handshake of two sides with one shared key. Whatever each step
/// gives, the client sends one nonce, receives the one of the server and
/// finishes; the server receives the one of the client, sends one and finishes;
/// and both finish with the same keys in the same order.
pub proof fn lemma_whole_handshake(
    psk: [u8; KEY_LEN],
    client_nonce: [u8; KEY_LEN],
    server_nonce: [u8; KEY_LEN],
    c: Seq<Handshake>,
    c_did: Seq<HandshakeAction>,
    s: Seq<Handshake>,
    s_did: Seq<HandshakeAction>,
)
    requires
        c.len() == 4 && c_did.len() == 3 && s.len() == 4 && s_did.len() == 3,
        c[0] == (Handshake { psk, is_client: true, own: None, peer: None }),
        s[0] == (Handshake { psk, is_client: false, own: None, peer: None }),
        stepped(c[0], c[1], c_did[0], client_nonce),
        stepped(c[1], c[2], c_did[1], client_nonce),
        stepped(Handshake { peer: Some(server_nonce), ..c[2] }, c[3], c_did[2], client_nonce),
        stepped(s[0], s[1], s_did[0], server_nonce),
        stepped(Handshake { peer: Some(client_nonce), ..s[1] }, s[2], s_did[1], server_nonce),
        stepped(s[2], s[3], s_did[2], server_nonce),
    ensures
        c_did[0] == HandshakeAction::Send(client_nonce),
        c_did[1] is Receive,
        s_did[0] is Receive,
        s_did[1] == HandshakeAction::Send(server_nonce),
        c_did[2] is Finish && s_did[2] is Finish,
        c_did[2]->Finish_0@ == s_did[2]->Finish_0@,
        c_did[2]->Finish_1@ == s_did[2]->Finish_1@,
        (c_did[2]->Finish_0@, c_did[2]->Finish_1@) == session_keys(
            psk@,
            client_nonce@,
            server_nonce@,
        ),
{
}

/// Two sides that share a key and have each other's nonces have the same keys.
pub proof fn lemma_handshake_agrees(psk: Seq<u8>, client_nonce: Seq<u8>, server_nonce: Seq<u8>)
    ensures
        handshake_keys(psk, true, client_nonce, server_nonce) == handshake_keys(
            psk,
            false,
            server_nonce,
            client_nonce,
        ),
{
}

// ---------------------------------------------------------------------------
// Frames
// ---------------------------------------------------------------------------

/// The cipher nonce with number `n`.
pub open spec fn full_nonce(n: u64) -> Seq<u8> {
    bytes::le64(n) + seq![0u8, 0, 0, 0]
}

/// No two frames of one direction are sealed under the same nonce: different
/// numbers give different nonces.
pub proof fn lemma_nonces_differ(a: u64, b: u64)
    requires
        a != b,
    ensures
        full_nonce(a) != full_nonce(b),
{
    if full_nonce(a) == full_nonce(b) {
        assert(full_nonce(a).take(8) =~= bytes::le64(a));
        assert(full_nonce(b).take(8) =~= bytes::le64(b));
        bytes::lemma_le64_injective(a, b);
    }
}

pub(crate) fn nonce_bytes(n: u64) -> (r: [u8; NONCE_LEN])
    ensures
        r@ == full_nonce(n),
{
    let r: [u8; NONCE_LEN] = [
        (n % 256) as u8,
        (n / 0x100 % 256) as u8,
        (n / 0x1_0000 % 256) as u8,
        (n / 0x100_0000 % 256) as u8,
        (n / 0x1_0000_0000 % 256) as u8,
        (n / 0x100_0000_0000 % 256) as u8,
        (n / 0x1_0000_0000_0000 % 256) as u8,
        (n / 0x100_0000_0000_0000 % 256) as u8,
        0,
        0,
        0,
        0,
    ];
    assert(r@ =~= full_nonce(n));
    r
}

/// The frame that carries a plaintext, sealed under the nonce with number `n`.
pub open spec fn sealed_frame(plaintext: Seq<u8>, key: Seq<u8>, n: u64) -> Seq<u8> {
    let ciphertext = aead_sealed(key, full_nonce(n), plaintext);
    bytes::be16(ciphertext.len() as u16) + ciphertext
}

/// What the bytes that have arrived hold of an encrypted frame that is expected
/// under the nonce with number `n`.
pub open spec fn encrypted_read(received: Seq<u8>, at_end: bool, key: Seq<u8>, n: u64) -> Result<
    FrameView,
    FrameError,
> {
    if received.len() < 2 {
        Ok(
            if at_end {
                FrameView::End
            } else {
                FrameView::Need(2 - received.len())
            },
        )
    } else {
        let len = bytes::from_be16(received[0], received[1]) as int;
        if len < TAG_LEN {
            Err(FrameError::TooShort(len as usize))
        } else if received.len() >= 2 + len {
            match aead_opened(key, full_nonce(n), received.subrange(2, 2 + len)) {
                Some(plaintext) => Ok(FrameView::Frame(plaintext)),
                None => Err(FrameError::Decryption(Some(n))),
            }
        } else if at_end {
            Err(FrameError::UnexpectedEof)
        } else {
            Ok(FrameView::Need(2 + len - received.len()))
        }
    }
}

/// Whether all bytes of a frame have arrived, so that a nonce is used for it.
pub open spec fn frame_arrived(received: Seq<u8>) -> bool {
    &&& received.len() >= 2
    &&& bytes::from_be16(received[0], received[1]) >= TAG_LEN
    &&& received.len() - 2 >= bytes::from_be16(received[0], received[1])
}

/// Whether `wire` is a frame that carries `plaintext` under the nonce with
/// number `n`: the reader finds exactly that at the start of every stream that
/// begins with it.
pub open spec fn carries(wire: Seq<u8>, plaintext: Seq<u8>, key: Seq<u8>, n: u64) -> bool {
    &&& wire.len() >= 2 + TAG_LEN
    &&& wire.len() - 2 == bytes::from_be16(wire[0], wire[1])
    &&& aead_opened(key, full_nonce(n), wire.skip(2)) == Some(plaintext)
}

/// The frame that carries a plaintext under the next nonce, whose number then
/// goes up by one.
pub fn write_encrypted_frame(plaintext: &[u8], key: &[u8; KEY_LEN], nonce_counter: &mut u64) -> (r:
    Result<Vec<u8>, FrameError>)
    requires
        plaintext@.len() <= MAX_PLAINTEXT ==> *old(nonce_counter) < u64::MAX,
    ensures
        match r {
            Ok(wire) => {
                &&& plaintext@.len() <= MAX_PLAINTEXT
                &&& wire@ == sealed_frame(plaintext@, key@, *old(nonce_counter))
                &&& wire@.len() == 2 + plaintext@.len() + TAG_LEN
                &&& carries(wire@, plaintext@, key@, *old(nonce_counter))
                &&& *final(nonce_counter) == *old(nonce_counter) + 1
            },
            Err(e) => {
                &&& plaintext@.len() > MAX_PLAINTEXT
                &&& e == (FrameError::TooLarge {
                    len: plaintext@.len() as usize,
                    max: MAX_PLAINTEXT,
                })
                &&& *final(nonce_counter) == *old(nonce_counter)
            },
        },
{
    if plaintext.len() > MAX_PLAINTEXT {
        return Err(FrameError::TooLarge { len: plaintext.len(), max: MAX_PLAINTEXT });
    }
    let nonce = nonce_bytes(*nonce_counter);
    let ciphertext = match aead_encrypt(key, &nonce, plaintext) {
        Ok(c) => c,
        Err(_) => {
            return Err(FrameError::Encryption(Some(*nonce_counter)));
        },
    };
    let mut wire: Vec<u8> = Vec::new();
    bytes::push_be16(&mut wire, ciphertext.len() as u16);
    bytes::push_all(&mut wire, ciphertext.as_slice());
    proof {
        assert(wire@ =~= sealed_frame(plaintext@, key@, *nonce_counter));
        bytes::lemma_be16_roundtrip(ciphertext@.len() as u16);
        assert(wire@.skip(2) =~= ciphertext@);
    }
    *nonce_counter = *nonce_counter + 1;
    Ok(wire)
}

/// Reads an encrypted frame from the bytes that have arrived since the last
/// one. A frame that is complete and authentic raises the number of the nonce
/// by one. Where `at_end` holds, no more bytes will come.
pub fn read_encrypted_frame(
    received: &[u8],
    at_end: bool,
    key: &[u8; KEY_LEN],
    nonce_counter: &mut u64,
) -> (r: Result<FrameRead, FrameError>)
    requires
        frame_arrived(received@) ==> *old(nonce_counter) < u64::MAX,
    ensures
        crate::frame::read_view(r) == encrypted_read(
            received@,
            at_end,
            key@,
            *old(nonce_counter),
        ),
        *final(nonce_counter) == *old(nonce_counter) + (if r matches Ok(FrameRead::Frame(_)) {
            1int
        } else {
            0int
        }),
{
    if received.len() < 2 {
        return if at_end {
            Ok(FrameRead::End)
        } else {
            Ok(FrameRead::Need(2 - received.len()))
        };
    }
    let len = bytes::read_be16(received[0], received[1]) as usize;
    if len < TAG_LEN {
        return Err(FrameError::TooShort(len));
    }
    if received.len() - 2 < len {
        return if at_end {
            Err(FrameError::UnexpectedEof)
        } else {
            Ok(FrameRead::Need(2 + len - received.len()))
        };
    }
    let nonce = nonce_bytes(*nonce_counter);
    match aead_decrypt(key, &nonce, slice_subrange(received, 2, 2 + len)) {
        Ok(plaintext) => {
            *nonce_counter = *nonce_counter + 1;
            Ok(FrameRead::Frame(plaintext))
        },
        Err(_) => Err(FrameError::Decryption(Some(*nonce_counter))),
    }
}

/// A frame reads back as its plaintext, whatever follows it in the stream.
pub proof fn lemma_encrypted_roundtrip(
    wire: Seq<u8>,
    plaintext: Seq<u8>,
    key: Seq<u8>,
    n: u64,
    rest: Seq<u8>,
    at_end: bool,
)
    requires
        carries(wire, plaintext, key, n),
    ensures
        encrypted_read(wire + rest, at_end, key, n) == Ok::<_, FrameError>(
            FrameView::Frame(plaintext),
        ),
{
    let s = wire + rest;
    assert(s[0] == wire[0] && s[1] == wire[1]);
    assert(s.subrange(2, wire.len() as int) =~= wire.skip(2));
}

/// While a proper part of a frame has arrived, more bytes are asked for, and
/// never one beyond the frame.
pub proof fn lemma_encrypted_asks_no_more(
    wire: Seq<u8>,
    plaintext: Seq<u8>,
    key: Seq<u8>,
    n: u64,
    k: int,
)
    requires
        carries(wire, plaintext, key, n),
        0 <= k < wire.len(),
    ensures
        encrypted_read(wire.take(k), false, key, n) matches Ok(FrameView::Need(m)) && m > 0 && k + m
            <= wire.len(),
{
    if k >= 2 {
        assert(wire.take(k)[0] == wire[0]);
        assert(wire.take(k)[1] == wire[1]);
    }
}

// ---------------------------------------------------------------------------
// Streams of frames
// ---------------------------------------------------------------------------

/// The reader of a stream whose first frame is expected under the nonce with
/// number `n`.
pub open spec fn stream_reader(key: Seq<u8>, n: u64) -> spec_fn(Seq<u8>, int) -> Result<
    FrameView,
    FrameError,
> {
    |left: Seq<u8>, i: int| encrypted_read(left, true, key, (n + i) as u64)
}

/// What a reader finds in a whole stream: the plaintexts in order, up to the
/// end of the stream or the first error.
pub open spec fn decode_stream(stream: Seq<u8>, key: Seq<u8>, n: u64) -> (
    Seq<Seq<u8>>,
    Result<(), FrameError>,
) {
    stream::decoded(stream, stream_reader(key, n), 0)
}

/// Whether the frames carry the plaintexts, one for one, under the nonces with
/// numbers from `n` on.
pub open spec fn all_carry(
    wires: Seq<Seq<u8>>,
    plaintexts: Seq<Seq<u8>>,
    key: Seq<u8>,
    n: u64,
) -> bool {
    &&& wires.len() == plaintexts.len()
    &&& n + wires.len() <= u64::MAX
    &&& forall|i: int|
        0 <= i < wires.len() ==> carries(#[trigger] wires[i], plaintexts[i], key, (n + i) as u64)
}

/// Frames that carry plaintexts are found by the reader.
proof fn lemma_all_found(
    wires: Seq<Seq<u8>>,
    plaintexts: Seq<Seq<u8>>,
    key: Seq<u8>,
    n: u64,
)
    requires
        all_carry(wires, plaintexts, key, n),
    ensures
        stream::all_found(wires, plaintexts, stream_reader(key, n), 0),
{
    let read = stream_reader(key, n);
    assert forall|j: int| 0 <= j < wires.len() implies stream::found(
        #[trigger] wires[j],
        plaintexts[j],
        read,
        0 + j,
    ) by {
        let wire = wires[j];
        let m = (n + j) as u64;
        assert forall|rest: Seq<u8>|
            read(#[trigger] (wire + rest), j) == Ok::<_, FrameError>(
                FrameView::Frame(plaintexts[j]),
            ) by {
            lemma_encrypted_roundtrip(wire, plaintexts[j], key, m, rest, true);
        }
        assert forall|k: int| 0 <= k < wire.len() implies !(read(#[trigger] wire.take(k), j) matches
            Ok(FrameView::Frame(_))) by {
            lemma_encrypted_asks_no_more(wire, plaintexts[j], key, m, k);
        }
    }
}

/// A reader that starts with the nonce of the first frame gets every plaintext
/// of the stream, in order, and then its end.
pub proof fn lemma_stream_roundtrip(
    wires: Seq<Seq<u8>>,
    plaintexts: Seq<Seq<u8>>,
    key: Seq<u8>,
    n: u64,
)
    requires
        all_carry(wires, plaintexts, key, n),
    ensures
        decode_stream(stream::joined(wires), key, n) == (plaintexts, Ok::<(), FrameError>(())),
{
    lemma_all_found(wires, plaintexts, key, n);
    stream::lemma_roundtrip(wires, plaintexts, stream_reader(key, n), 0);
}

/// Read by read: when the first `i` frames have been taken, and the number of
/// the nonce has gone up by as many, the next read gives the next plaintext, an
/// empty one too; and after the last one the read at the end of the stream says
/// that there is no more.
pub proof fn lemma_stream_reads(
    wires: Seq<Seq<u8>>,
    plaintexts: Seq<Seq<u8>>,
    key: Seq<u8>,
    n: u64,
    i: int,
    at_end: bool,
)
    requires
        all_carry(wires, plaintexts, key, n),
        0 <= i <= wires.len(),
    ensures
        i < wires.len() ==> encrypted_read(
            stream::joined(wires.skip(i)),
            at_end,
            key,
            (n + i) as u64,
        ) == Ok::<_, FrameError>(FrameView::Frame(plaintexts[i])),
        i < wires.len() ==> stream::joined(wires.skip(i)).skip(wires[i].len() as int) == stream::joined(
            wires.skip(i + 1),
        ),
        i == wires.len() ==> encrypted_read(stream::joined(wires.skip(i)), true, key, (n + i) as u64)
            == Ok::<_, FrameError>(FrameView::End),
{
    let left = wires.skip(i);
    if i < wires.len() {
        let rest = stream::joined(left.skip(1));
        assert(left.skip(1) =~= wires.skip(i + 1));
        assert(left[0] == wires[i]);
        lemma_encrypted_roundtrip(wires[i], plaintexts[i], key, (n + i) as u64, rest, at_end);
        assert(stream::joined(left).skip(wires[i].len() as int) =~= rest);
    }
}

/// What a reader gets of a stream that is cut off anywhere is a beginning of
/// what was sent, in order.
pub proof fn lemma_cut_stream(
    wires: Seq<Seq<u8>>,
    plaintexts: Seq<Seq<u8>>,
    key: Seq<u8>,
    n: u64,
    cut: int,
)
    requires
        all_carry(wires, plaintexts, key, n),
        0 <= cut <= stream::joined(wires).len(),
    ensures
        ({
            let got = decode_stream(stream::joined(wires).take(cut), key, n).0;
            got.len() <= plaintexts.len() && got == plaintexts.take(got.len() as int)
        }),
{
    lemma_all_found(wires, plaintexts, key, n);
    stream::lemma_cut(wires, plaintexts, stream_reader(key, n), 0, cut);
}

// ---------------------------------------------------------------------------
// Relaying
// ---------------------------------------------------------------------------

/// What a relay was doing when it failed.
#[derive(Debug, Clone, Copy, PartialEq, Eq, Structural)]
pub enum RelayOp {
    Read,
    Write,
}

/// The error of a relay in words: what it was doing, and what went wrong.
pub open spec fn relay_error_text(op: RelayOp, error: Seq<char>) -> Seq<char> {
    match op {
        RelayOp::Read => "operation=read: "@ + error,
        RelayOp::Write => "operation=write: "@ + error,
    }
}

pub fn relay_error(op: RelayOp, error: &str) -> (r: String)
    ensures
        r@ == relay_error_text(op, error@),
{
    let mut s = match op {
        RelayOp::Read => "operation=read: ".to_string(),
        RelayOp::Write => "operation=write: ".to_string(),
    };
    s.append(error);
    s
}

/// One step of the relay into the tunnel: the frame to write for a chunk that
/// was read, or nothing where the chunk is empty, which is the end.
pub fn relay_plain_to_encrypted(chunk: &[u8], key: &[u8; KEY_LEN], nonce: &mut u64) -> (r: Result<
    Option<Vec<u8>>,
    FrameError,
>)
    requires
        chunk@.len() <= RELAY_BUF,
        chunk@.len() > 0 ==> *old(nonce) < u64::MAX,
    ensures
        match r {
            Ok(Some(wire)) => {
                &&& chunk@.len() > 0
                &&& wire@ == sealed_frame(chunk@, key@, *old(nonce))
                &&& wire@.len() == 2 + chunk@.len() + TAG_LEN
                &&& carries(wire@, chunk@, key@, *old(nonce))
                &&& *final(nonce) == *old(nonce) + 1
            },
            Ok(None) => chunk@.len() == 0 && *final(nonce) == *old(nonce),
            Err(_) => false,
        },
{
    if chunk.len() == 0 {
        return Ok(None);
    }
    match write_encrypted_frame(chunk, key, nonce) {
        Ok(wire) => Ok(Some(wire)),
        Err(e) => Err(e),
    }
}

/// What the relay out of the tunnel does next.
#[derive(Debug)]
pub enum RelayAction {
    /// Read so many bytes more.
    Read(usize),
    /// Write this, and begin the next frame.
    Write(Vec<u8>),
    Finish,
}

/// One step of the relay out of the tunnel, from the bytes that have arrived
/// since the last frame.
pub fn relay_encrypted_to_plain(
    received: &[u8],
    at_end: bool,
    key: &[u8; KEY_LEN],
    nonce: &mut u64,
) -> (r: Result<RelayAction, FrameError>)
    requires
        frame_arrived(received@) ==> *old(nonce) < u64::MAX,
    ensures
        match (r, encrypted_read(received@, at_end, key@, *old(nonce))) {
            (Ok(RelayAction::Read(k)), Ok(FrameView::Need(n))) => k == n && *final(nonce) == *old(
                nonce,
            ),
            (Ok(RelayAction::Write(out)), Ok(FrameView::Frame(p))) => out@ == p && *final(nonce)
                == *old(nonce) + 1,
            (Ok(RelayAction::Finish), Ok(FrameView::End)) => *final(nonce) == *old(nonce),
            (Err(e), Err(f)) => e == f && *final(nonce) == *old(nonce),
            _ => false,
        },
{
    match read_encrypted_frame(received, at_end, key, nonce) {
        Ok(FrameRead::Need(n)) => Ok(RelayAction::Read(n)),
        Ok(FrameRead::End) => Ok(RelayAction::Finish),
        Ok(FrameRead::Frame(plaintext)) => Ok(RelayAction::Write(plaintext)),
        Err(e) => Err(e),
    }
}

/// What goes into one relay comes out of the other: from the frames of the
/// chunks that were read, the reader writes every byte in order, nothing more,
/// and then finishes. It uses as many nonces as there were chunks, so that both
/// counters are equal again.
pub proof fn lemma_relay_roundtrip(
    chunks: Seq<Seq<u8>>,
    wires: Seq<Seq<u8>>,
    key: Seq<u8>,
    n: u64,
)
    requires
        all_carry(wires, chunks, key, n),
    ensures
        ({
            let (out, end) = decode_stream(stream::joined(wires), key, n);
            &&& stream::joined(out) == stream::joined(chunks)
            &&& end is Ok
            &&& out.len() == chunks.len()
        }),
        encrypted_read(Seq::empty(), true, key, (n + wires.len()) as u64) == Ok::<_, FrameError>(
            FrameView::End,
        ),
{
    lemma_stream_roundtrip(wires, chunks, key, n);
}

} // verus!
