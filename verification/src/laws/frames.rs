//! Laws on frames, byte for byte.
use crate::crypto;
use crate::direct::crypto as direct_crypto;
use crate::frame;
use crate::frame::{FrameError, FrameRead, FrameView};
use crate::quic;
use vstd::prelude::*;

verus! {

/// A frame is two bytes that give the length of the data, the high one first,
/// and then the data as it is.
pub proof fn lemma_written_frame(data: &[u8], r: Vec<u8>)
    requires
        call_ensures(frame::write_frame, (data,), r),
    ensures
        r@.len() == 2 + data@.len(),
        r@[0] * 256 + r@[1] == data@.len() % 65536,
        r@.skip(2) == data@,
{
    assert(r@.skip(2) =~= data@);
}

/// A frame is read once its two bytes of length and so many bytes after them
/// are there: those bytes are its data. Before that just the missing bytes are
/// asked for, first of the length and then of the data.
pub proof fn lemma_read_frame(received: &[u8], at_end: bool, r: Result<FrameRead, FrameError>)
    requires
        call_ensures(frame::read_frame, (received, at_end), r),
    ensures
        ({
            let s = received@;
            let n = s[0] * 256 + s[1];
            &&& r matches Ok(FrameRead::Frame(data)) ==> s.len() >= 2 && data@.len() == n && s
                == s.take(2) + data@ + s.skip(2 + n)
            &&& (r matches Ok(FrameRead::Frame(_))) <==> s.len() >= 2 && s.len() >= 2 + n
            &&& (r matches Ok(FrameRead::End)) <==> s.len() < 2 && at_end
            &&& r matches Ok(FrameRead::Need(k)) ==> !at_end && k > 0 && s.len() + k == if s.len()
                < 2 {
                2
            } else {
                2 + n
            }
            &&& r is Err <==> at_end && 2 <= s.len() < 2 + n
            &&& r matches Err(e) ==> e == FrameError::UnexpectedEof
        }),
{
    let s = received@;
    if s.len() >= 2 {
        let n = s[0] * 256 + s[1];
        if s.len() >= 2 + n {
            assert(s =~= s.take(2) + s.subrange(2, 2 + n) + s.skip(2 + n));
        }
    }
}

/// Over QUIC a stream that ends inside a frame has none, and in all else a
/// frame is read as over TCP.
pub proof fn lemma_read_quic(s: Seq<u8>, at_end: bool)
    ensures
        ({
            let n = s[0] * 256 + s[1];
            let r = quic::quic_read(s, at_end);
            &&& r matches FrameView::Frame(data) ==> s.len() >= 2 && data == s.subrange(2, 2 + n)
            &&& r is Frame <==> s.len() >= 2 && s.len() >= 2 + n
            &&& r is End <==> at_end && (s.len() < 2 || s.len() < 2 + n)
            &&& r matches FrameView::Need(k) ==> s.len() + k == if s.len() < 2 {
                2
            } else {
                2 + n
            }
        }),
{
}

// ---------------------------------------------------------------------------
// Encrypted frames
// ---------------------------------------------------------------------------

/// What an encrypted frame holds: two bytes of length, the high one first, and
/// then what the cipher makes of the plaintext, under the key and the nonce
/// with the number of the frame.
pub proof fn lemma_sealed_frame(plaintext: Seq<u8>, key: Seq<u8>, n: u64)
    requires
        crypto::aead_sealed(key, crypto::full_nonce(n), plaintext).len() <= 65535,
    ensures
        ({
            let w = crypto::sealed_frame(plaintext, key, n);
            &&& w.len() >= 2
            &&& w[0] * 256 + w[1] == w.len() - 2
            &&& w.skip(2) == crypto::aead_sealed(key, crypto::full_nonce(n), plaintext)
        }),
{
    let c = crypto::aead_sealed(key, crypto::full_nonce(n), plaintext);
    let w = crypto::sealed_frame(plaintext, key, n);
    assert(w.skip(2) =~= c);
}

/// In the direct variant an encrypted frame holds its nonce too, between the
/// length and what the cipher makes of the plaintext. The length counts both.
pub proof fn lemma_direct_sealed_frame(plaintext: Seq<u8>, key: Seq<u8>, n: u64)
    requires
        crypto::aead_sealed(key, crypto::full_nonce(n), plaintext).len() <= 65523,
    ensures
        ({
            let w = direct_crypto::sealed_frame(plaintext, key, n);
            &&& w.len() >= 14
            &&& w[0] * 256 + w[1] == w.len() - 2
            &&& w.subrange(2, 14) == crypto::full_nonce(n)
            &&& w.skip(14) == crypto::aead_sealed(key, crypto::full_nonce(n), plaintext)
        }),
{
    let c = crypto::aead_sealed(key, crypto::full_nonce(n), plaintext);
    let w = direct_crypto::sealed_frame(plaintext, key, n);
    assert(crypto::full_nonce(n).len() == 12);
    assert(w.subrange(2, 14) =~= crypto::full_nonce(n));
    assert(w.skip(14) =~= c);
}

/// The most that a frame carries fills the length of two bytes, with the tag of
/// sixteen bytes, and in the direct variant with the nonce of twelve.
pub proof fn lemma_limits()
    ensures
        crypto::MAX_PLAINTEXT + 16 == 65535,
        direct_crypto::MAX_PLAINTEXT + 12 + 16 == 65535,
        crypto::TAG_LEN == 16 && crypto::NONCE_LEN == 12 && crypto::KEY_LEN == 32,
{
}

/// How an encrypted frame is read, for every stream: what is asked for, what is
/// refused, and what the cipher is given.
pub proof fn lemma_read_encrypted(s: Seq<u8>, at_end: bool, key: Seq<u8>, n: u64)
    ensures
        ({
            let len = s[0] * 256 + s[1];
            let whole = s.len() >= 2 && len >= 16 && s.len() >= 2 + len;
            let opened = crypto::aead_opened(key, crypto::full_nonce(n), s.subrange(2, 2 + len));
            let r = crypto::encrypted_read(s, at_end, key, n);
            &&& r matches Ok(FrameView::Frame(p)) ==> whole && opened == Some(p)
            &&& (r matches Ok(FrameView::Frame(_))) <==> whole && opened is Some
            &&& r == Err::<FrameView, FrameError>(FrameError::Decryption(Some(n))) <==> whole
                && opened is None
            &&& r == Err::<FrameView, FrameError>(FrameError::TooShort(len as usize)) <==> s.len()
                >= 2 && len < 16
            &&& r == Err::<FrameView, FrameError>(FrameError::UnexpectedEof) <==> at_end && s.len()
                >= 2 && len >= 16 && s.len() < 2 + len
            &&& r == Ok::<FrameView, FrameError>(FrameView::End) <==> at_end && s.len() < 2
            &&& r matches Ok(FrameView::Need(k)) ==> !at_end && k > 0 && s.len() + k == if s.len()
                < 2 {
                2
            } else {
                2 + len
            }
            &&& crypto::frame_arrived(s) == whole
        }),
{
}

/// How a direct encrypted frame is read, for every stream. The nonce is the one
/// that the frame holds.
pub proof fn lemma_direct_read_encrypted(s: Seq<u8>, at_end: bool, key: Seq<u8>)
    ensures
        ({
            let len = s[0] * 256 + s[1];
            let whole = s.len() >= 2 && len >= 28 && s.len() >= 2 + len;
            let opened = crypto::aead_opened(key, s.subrange(2, 14), s.subrange(14, 2 + len));
            let r = direct_crypto::encrypted_read(s, at_end, key);
            &&& r matches Ok(FrameView::Frame(p)) ==> whole && opened == Some(p)
            &&& (r matches Ok(FrameView::Frame(_))) <==> whole && opened is Some
            &&& r == Err::<FrameView, FrameError>(FrameError::Decryption(None)) <==> whole
                && opened is None
            &&& r == Err::<FrameView, FrameError>(FrameError::TooShort(len as usize)) <==> s.len()
                >= 2 && len < 28
            &&& r == Err::<FrameView, FrameError>(FrameError::UnexpectedEof) <==> at_end && s.len()
                >= 2 && len >= 28 && s.len() < 2 + len
            &&& r == Ok::<FrameView, FrameError>(FrameView::End) <==> at_end && s.len() < 2
            &&& r matches Ok(FrameView::Need(k)) ==> !at_end && k > 0 && s.len() + k == if s.len()
                < 2 {
                2
            } else {
                2 + len
            }
        }),
{
}

/// A frame carries a plaintext just where its length is right and the cipher
/// finds the plaintext in what follows it.
pub proof fn lemma_carried(wire: Seq<u8>, plaintext: Seq<u8>, key: Seq<u8>, n: u64)
    ensures
        crypto::carries(wire, plaintext, key, n) <==> {
            &&& wire.len() >= 18
            &&& wire[0] * 256 + wire[1] == wire.len() - 2
            &&& crypto::encrypted_read(wire, true, key, n) == Ok::<FrameView, FrameError>(
                FrameView::Frame(plaintext),
            )
        },
        direct_crypto::carries(wire, plaintext, key) <==> {
            &&& wire.len() >= 30
            &&& wire[0] * 256 + wire[1] == wire.len() - 2
            &&& direct_crypto::encrypted_read(wire, true, key) == Ok::<FrameView, FrameError>(
                FrameView::Frame(plaintext),
            )
        },
{
    if wire.len() >= 2 {
        assert(wire.subrange(2, wire.len() as int) =~= wire.skip(2));
    }
    if wire.len() >= 14 {
        assert(wire.subrange(14, wire.len() as int) =~= wire.skip(14));
    }
}

} // verus!
