//! Encrypted frames that carry their nonce. The reader takes the nonce from the
//! frame, so that it keeps no count.
use crate::bytes;
use crate::crypto;
use crate::crypto::{RelayAction, KEY_LEN, NONCE_LEN, RELAY_BUF, TAG_LEN};
use crate::frame;
use crate::frame::{FrameError, FrameRead, FrameView};
use crate::stream;
use vstd::prelude::*;
use vstd::slice::slice_subrange;

verus! {

/// The most bytes that one frame can carry.
pub const MAX_PLAINTEXT: usize = 65535 - NONCE_LEN - TAG_LEN;

/// The frame that carries a plaintext, sealed under the nonce with number `n`:
/// the length of the rest, the nonce and the ciphertext.
pub open spec fn sealed_frame(plaintext: Seq<u8>, key: Seq<u8>, n: u64) -> Seq<u8> {
    let nonce = crypto::full_nonce(n);
    let ciphertext = crypto::aead_sealed(key, nonce, plaintext);
    bytes::be16((NONCE_LEN + ciphertext.len()) as u16) + nonce + ciphertext
}

/// What the bytes that have arrived hold of an encrypted frame.
pub open spec fn encrypted_read(received: Seq<u8>, at_end: bool, key: Seq<u8>) -> Result<
    FrameView,
    FrameError,
> {
    if received.len() < 2 {
        Ok(
            if at_end {
                FrameView::End
            } else {
                FrameView::Need(2 - received.len())
            },
        )
    } else {
        let len = bytes::from_be16(received[0], received[1]) as int;
        if len < NONCE_LEN + TAG_LEN {
            Err(FrameError::TooShort(len as usize))
        } else if received.len() >= 2 + len {
            let nonce = received.subrange(2, 2 + NONCE_LEN);
            let ciphertext = received.subrange(2 + NONCE_LEN, 2 + len);
            match crypto::aead_opened(key, nonce, ciphertext) {
                Some(plaintext) => Ok(FrameView::Frame(plaintext)),
                None => Err(FrameError::Decryption(None)),
            }
        } else if at_end {
            Err(FrameError::UnexpectedEof)
        } else {
            Ok(FrameView::Need(2 + len - received.len()))
        }
    }
}

/// Whether `wire` is a frame that carries `plaintext`: the reader finds exactly
/// that at the start of every stream that begins with it.
pub open spec fn carries(wire: Seq<u8>, plaintext: Seq<u8>, key: Seq<u8>) -> bool {
    &&& wire.len() >= 2 + NONCE_LEN + TAG_LEN
    &&& wire.len() - 2 == bytes::from_be16(wire[0], wire[1])
    &&& crypto::aead_opened(key, wire.subrange(2, 2 + NONCE_LEN), wire.skip(2 + NONCE_LEN))
        == Some(plaintext)
}

/// The frame that carries a plaintext under the next nonce, whose number then
/// goes up by one.
pub fn write_encrypted_frame(plaintext: &[u8], key: &[u8; KEY_LEN], nonce_counter: &mut u64) -> (r:
    Result<Vec<u8>, FrameError>)
    requires
        plaintext@.len() <= MAX_PLAINTEXT ==> *old(nonce_counter) < u64::MAX,
    ensures
        match r {
            Ok(wire) => {
                &&& plaintext@.len() <= MAX_PLAINTEXT
                &&& wire@ == sealed_frame(plaintext@, key@, *old(nonce_counter))
                &&& wire@.len() == 2 + NONCE_LEN + plaintext@.len() + TAG_LEN
                &&& carries(wire@, plaintext@, key@)
                &&& *final(nonce_counter) == *old(nonce_counter) + 1
            },
            Err(e) => {
                &&& plaintext@.len() > MAX_PLAINTEXT
                &&& e == (FrameError::TooLarge {
                    len: plaintext@.len() as usize,
                    max: MAX_PLAINTEXT,
                })
                &&& *final(nonce_counter) == *old(nonce_counter)
            },
        },
{
    if plaintext.len() > MAX_PLAINTEXT {
        return Err(FrameError::TooLarge { len: plaintext.len(), max: MAX_PLAINTEXT });
    }
    let nonce = crypto::nonce_bytes(*nonce_counter);
    let ciphertext = match crypto::aead_encrypt(key, &nonce, plaintext) {
        Ok(c) => c,
        Err(_) => {
            return Err(FrameError::Encryption(None));
        },
    };
    let len = (NONCE_LEN + ciphertext.len()) as u16;
    let mut wire: Vec<u8> = Vec::new();
    bytes::push_be16(&mut wire, len);
    bytes::push_all(&mut wire, &nonce);
    bytes::push_all(&mut wire, ciphertext.as_slice());
    proof {
        assert(wire@ =~= sealed_frame(plaintext@, key@, *nonce_counter));
        bytes::lemma_be16_roundtrip(len);
        assert(wire@.subrange(2, 2 + NONCE_LEN) =~= nonce@);
        assert(wire@.skip(2 + NONCE_LEN) =~= ciphertext@);
    }
    *nonce_counter = *nonce_counter + 1;
    Ok(wire)
}

/// The nonce that stands in `data` from `start` on.
fn nonce_at(data: &[u8], start: usize) -> (r: [u8; NONCE_LEN])
    requires
        start + NONCE_LEN <= data@.len(),
    ensures
        r@ == data@.subrange(start as int, start + NONCE_LEN),
{
    let mut nonce: [u8; NONCE_LEN] = [0; NONCE_LEN];
    let n = data.len();
    let mut i: usize = 0;
    while i < NONCE_LEN
        invariant
            i <= NONCE_LEN,
            start + NONCE_LEN <= n == data@.len(),
            forall|j: int| 0 <= j < i ==> nonce@[j] == data@[start + j],
        decreases NONCE_LEN - i,
    {
        nonce[i] = data[start + i];
        i += 1;
    }
    assert(nonce@ =~= data@.subrange(start as int, start + NONCE_LEN));
    nonce
}

/// Reads an encrypted frame from the bytes that have arrived since the last
/// one. Where `at_end` holds, no more bytes will come.
pub fn read_encrypted_frame(received: &[u8], at_end: bool, key: &[u8; KEY_LEN]) -> (r: Result<
    FrameRead,
    FrameError,
>)
    ensures
        frame::read_view(r) == encrypted_read(received@, at_end, key@),
{
    if received.len() < 2 {
        return if at_end {
            Ok(FrameRead::End)
        } else {
            Ok(FrameRead::Need(2 - received.len()))
        };
    }
    let len = bytes::read_be16(received[0], received[1]) as usize;
    if len < NONCE_LEN + TAG_LEN {
        return Err(FrameError::TooShort(len));
    }
    if received.len() - 2 < len {
        return if at_end {
            Err(FrameError::UnexpectedEof)
        } else {
            Ok(FrameRead::Need(2 + len - received.len()))
        };
    }
    let nonce = nonce_at(received, 2);
    let ciphertext = slice_subrange(received, 2 + NONCE_LEN, 2 + len);
    match crypto::aead_decrypt(key, &nonce, ciphertext) {
        Ok(plaintext) => Ok(FrameRead::Frame(plaintext)),
        Err(_) => Err(FrameError::Decryption(None)),
    }
}

/// A frame reads back as its plaintext, whatever follows it in the stream.
pub proof fn lemma_encrypted_roundtrip(
    wire: Seq<u8>,
    plaintext: Seq<u8>,
    key: Seq<u8>,
    rest: Seq<u8>,
    at_end: bool,
)
    requires
        carries(wire, plaintext, key),
    ensures
        encrypted_read(wire + rest, at_end, key) == Ok::<_, FrameError>(
            FrameView::Frame(plaintext),
        ),
{
    let s = wire + rest;
    assert(s[0] == wire[0] && s[1] == wire[1]);
    assert(s.subrange(2, 2 + NONCE_LEN) =~= wire.subrange(2, 2 + NONCE_LEN));
    assert(s.subrange(2 + NONCE_LEN, wire.len() as int) =~= wire.skip(2 + NONCE_LEN));
}

/// While a proper part of a frame has arrived, more bytes are asked for, and
/// never one beyond the frame.
pub proof fn lemma_encrypted_asks_no_more(
    wire: Seq<u8>,
    plaintext: Seq<u8>,
    key: Seq<u8>,
    k: int,
)
    requires
        carries(wire, plaintext, key),
        0 <= k < wire.len(),
    ensures
        encrypted_read(wire.take(k), false, key) matches Ok(FrameView::Need(m)) && m > 0 && k + m
            <= wire.len(),
{
    if k >= 2 {
        assert(wire.take(k)[0] == wire[0]);
        assert(wire.take(k)[1] == wire[1]);
    }
}

/// The reader of a stream. It takes every frame alike.
pub open spec fn stream_reader(key: Seq<u8>) -> spec_fn(Seq<u8>, int) -> Result<
    FrameView,
    FrameError,
> {
    |left: Seq<u8>, i: int| encrypted_read(left, true, key)
}

/// What a reader finds in a whole stream: the plaintexts in order, up to the
/// end of the stream or the first error.
pub open spec fn decode_stream(stream: Seq<u8>, key: Seq<u8>) -> (
    Seq<Seq<u8>>,
    Result<(), FrameError>,
) {
    stream::decoded(stream, stream_reader(key), 0)
}

/// Whether the frames carry the plaintexts, one for one.
pub open spec fn all_carry(wires: Seq<Seq<u8>>, plaintexts: Seq<Seq<u8>>, key: Seq<u8>) -> bool {
    &&& wires.len() == plaintexts.len()
    &&& forall|i: int| 0 <= i < wires.len() ==> carries(#[trigger] wires[i], plaintexts[i], key)
}

/// Frames that carry plaintexts are found by the reader.
proof fn lemma_all_found(wires: Seq<Seq<u8>>, plaintexts: Seq<Seq<u8>>, key: Seq<u8>)
    requires
        all_carry(wires, plaintexts, key),
    ensures
        stream::all_found(wires, plaintexts, stream_reader(key), 0),
{
    let read = stream_reader(key);
    assert forall|j: int| 0 <= j < wires.len() implies stream::found(
        #[trigger] wires[j],
        plaintexts[j],
        read,
        0 + j,
    ) by {
        let wire = wires[j];
        assert forall|rest: Seq<u8>|
            read(#[trigger] (wire + rest), j) == Ok::<_, FrameError>(
                FrameView::Frame(plaintexts[j]),
            ) by {
            lemma_encrypted_roundtrip(wire, plaintexts[j], key, rest, true);
        }
        assert forall|k: int| 0 <= k < wire.len() implies !(read(#[trigger] wire.take(k), j) matches
            Ok(FrameView::Frame(_))) by {
            lemma_encrypted_asks_no_more(wire, plaintexts[j], key, k);
        }
    }
}

/// A reader gets every plaintext of the stream, in order, and then its end.
pub proof fn lemma_stream_roundtrip(
    wires: Seq<Seq<u8>>,
    plaintexts: Seq<Seq<u8>>,
    key: Seq<u8>,
)
    requires
        all_carry(wires, plaintexts, key),
    ensures
        decode_stream(stream::joined(wires), key) == (plaintexts, Ok::<(), FrameError>(())),
{
    lemma_all_found(wires, plaintexts, key);
    stream::lemma_roundtrip(wires, plaintexts, stream_reader(key), 0);
}

/// What a reader gets of a stream that is cut off anywhere is a beginning of
/// what was sent, in order.
pub proof fn lemma_cut_stream(
    wires: Seq<Seq<u8>>,
    plaintexts: Seq<Seq<u8>>,
    key: Seq<u8>,
    cut: int,
)
    requires
        all_carry(wires, plaintexts, key),
        0 <= cut <= stream::joined(wires).len(),
    ensures
        ({
            let got = decode_stream(stream::joined(wires).take(cut), key).0;
            got.len() <= plaintexts.len() && got == plaintexts.take(got.len() as int)
        }),
{
    lemma_all_found(wires, plaintexts, key);
    stream::lemma_cut(wires, plaintexts, stream_reader(key), 0, cut);
}

/// One step of the relay into the tunnel: the frame to write for a chunk that
/// was read, or nothing where the chunk is empty, which is the end.
pub fn relay_plain_to_encrypted(chunk: &[u8], key: &[u8; KEY_LEN], nonce: &mut u64) -> (r: Result<
    Option<Vec<u8>>,
    FrameError,
>)
    requires
        chunk@.len() <= RELAY_BUF,
        chunk@.len() > 0 ==> *old(nonce) < u64::MAX,
    ensures
        match r {
            Ok(Some(wire)) => {
                &&& chunk@.len() > 0
                &&& wire@ == sealed_frame(chunk@, key@, *old(nonce))
                &&& wire@.len() == 2 + NONCE_LEN + chunk@.len() + TAG_LEN
                &&& carries(wire@, chunk@, key@)
                &&& *final(nonce) == *old(nonce) + 1
            },
            Ok(None) => chunk@.len() == 0 && *final(nonce) == *old(nonce),
            Err(_) => false,
        },
{
    if chunk.len() == 0 {
        return Ok(None);
    }
    match write_encrypted_frame(chunk, key, nonce) {
        Ok(wire) => Ok(Some(wire)),
        Err(e) => Err(e),
    }
}

/// One step of the relay out of the tunnel, from the bytes that have arrived
/// since the last frame.
pub fn relay_encrypted_to_plain(received: &[u8], at_end: bool, key: &[u8; KEY_LEN]) -> (r: Result<
    RelayAction,
    FrameError,
>)
    ensures
        match (r, encrypted_read(received@, at_end, key@)) {
            (Ok(RelayAction::Read(k)), Ok(FrameView::Need(n))) => k == n,
            (Ok(RelayAction::Write(out)), Ok(FrameView::Frame(p))) => out@ == p,
            (Ok(RelayAction::Finish), Ok(FrameView::End)) => true,
            (Err(e), Err(f)) => e == f,
            _ => false,
        },
{
    match read_encrypted_frame(received, at_end, key) {
        Ok(FrameRead::Need(n)) => Ok(RelayAction::Read(n)),
        Ok(FrameRead::End) => Ok(RelayAction::Finish),
        Ok(FrameRead::Frame(plaintext)) => Ok(RelayAction::Write(plaintext)),
        Err(e) => Err(e),
    }
}

} // verus!
