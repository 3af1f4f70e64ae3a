//! Frames with a length prefix: two bytes of length, high byte first, and then
//! so many bytes of data.
use crate::bytes;
use crate::text;
use vstd::prelude::*;
use vstd::slice::{slice_subrange, slice_to_vec};

verus! {

/// What comes of reading a frame from the bytes that have arrived.
#[derive(Debug)]
pub enum FrameRead {
    /// So many more bytes are needed.
    Need(usize),
    /// The stream ended before the frame began.
    End,
    /// The data of the frame.
    Frame(Vec<u8>),
}

/// A `FrameRead` as a mathematical value.
pub enum FrameView {
    Need(int),
    End,
    Frame(Seq<u8>),
}

impl View for FrameRead {
    type V = FrameView;

    open spec fn view(&self) -> FrameView {
        match self {
            FrameRead::Need(n) => FrameView::Need(*n as int),
            FrameRead::End => FrameView::End,
            FrameRead::Frame(data) => FrameView::Frame(data@),
        }
    }
}

/// Why a frame is not read or written. The number of a nonce is there where the
/// two sides count the frames.
#[derive(Debug, Clone, Copy, PartialEq, Eq, Structural)]
pub enum FrameError {
    /// The stream ended inside the frame.
    UnexpectedEof,
    /// The plaintext has more bytes than a frame can carry.
    TooLarge { len: usize, max: usize },
    /// The frame has so many bytes, fewer than its fixed parts take.
    TooShort(usize),
    /// The plaintext was not encrypted.
    Encryption(Option<u64>),
    /// The frame is not authentic.
    Decryption(Option<u64>),
    /// The session keys were not derived.
    KeyDerivation,
}

/// The mention of a nonce in an error.
pub open spec fn nonce_note(nonce: Option<u64>) -> Seq<char> {
    match nonce {
        Some(n) => " (nonce="@ + text::decimal(n as nat) + ")"@,
        None => Seq::empty(),
    }
}

fn push_nonce_note(s: &mut String, nonce: Option<u64>)
    ensures
        final(s)@ == old(s)@ + nonce_note(nonce),
{
    match nonce {
        Some(n) => {
            s.append(" (nonce=");
            text::push_decimal(s, n);
            s.append(")");
        },
        None => {},
    }
    assert(s@ =~= old(s)@ + nonce_note(nonce));
}

impl FrameError {
    /// The error in words.
    pub open spec fn message_text(self) -> Seq<char> {
        match self {
            FrameError::UnexpectedEof => "early eof"@,
            FrameError::TooLarge { len, max } => "plaintext too large: "@ + text::decimal(
                len as nat,
            ) + " bytes (max "@ + text::decimal(max as nat) + ")"@,
            FrameError::TooShort(len) => "frame too short: "@ + text::decimal(len as nat)
                + " bytes"@,
            FrameError::Encryption(nonce) => "encryption error"@ + nonce_note(nonce)
                + ": aead::Error"@,
            FrameError::Decryption(nonce) => "decryption error"@ + nonce_note(nonce)
                + ": aead::Error"@,
            FrameError::KeyDerivation =>
                "HKDF expand: invalid number of blocks, too large output"@,
        }
    }

    pub fn message(&self) -> (r: String)
        ensures
            r@ == self.message_text(),
    {
        match self {
            FrameError::UnexpectedEof => "early eof".to_string(),
            FrameError::TooLarge { len, max } => {
                let mut s = "plaintext too large: ".to_string();
                text::push_decimal(&mut s, *len as u64);
                s.append(" bytes (max ");
                text::push_decimal(&mut s, *max as u64);
                s.append(")");
                s
            },
            FrameError::TooShort(len) => {
                let mut s = "frame too short: ".to_string();
                text::push_decimal(&mut s, *len as u64);
                s.append(" bytes");
                s
            },
            FrameError::Encryption(nonce) => {
                let mut s = "encryption error".to_string();
                push_nonce_note(&mut s, *nonce);
                s.append(": aead::Error");
                s
            },
            FrameError::Decryption(nonce) => {
                let mut s = "decryption error".to_string();
                push_nonce_note(&mut s, *nonce);
                s.append(": aead::Error");
                s
            },
            FrameError::KeyDerivation =>
                "HKDF expand: invalid number of blocks, too large output".to_string(),
        }
    }
}

/// A result with the view of what it holds.
pub open spec fn read_view(r: Result<FrameRead, FrameError>) -> Result<FrameView, FrameError> {
    match r {
        Ok(f) => Ok(f@),
        Err(e) => Err(e),
    }
}

/// The frame that carries `data`. The length is given modulo 65536.
pub open spec fn framed(data: Seq<u8>) -> Seq<u8> {
    bytes::be16((data.len() % 65536) as u16) + data
}

/// What the bytes that have arrived hold of a frame: its data once all of it is
/// there. A stream that ends before the length is complete holds no frame.
pub open spec fn frame_read(received: Seq<u8>, at_end: bool) -> Result<FrameView, FrameError> {
    if received.len() < 2 {
        Ok(
            if at_end {
                FrameView::End
            } else {
                FrameView::Need(2 - received.len())
            },
        )
    } else {
        let n = bytes::from_be16(received[0], received[1]) as int;
        if received.len() >= 2 + n {
            Ok(FrameView::Frame(received.subrange(2, 2 + n)))
        } else if at_end {
            Err(FrameError::UnexpectedEof)
        } else {
            Ok(FrameView::Need(2 + n - received.len()))
        }
    }
}

/// The frame that carries `data`.
pub fn write_frame(data: &[u8]) -> (r: Vec<u8>)
    ensures
        r@ == framed(data@),
{
    let mut out: Vec<u8> = Vec::new();
    bytes::push_be16(&mut out, (data.len() % 65536) as u16);
    bytes::push_all(&mut out, data);
    assert(out@ =~= framed(data@));
    out
}

/// Reads a frame from the bytes that have arrived since the last one. Where
/// `at_end` holds, no more will come.
pub fn read_frame(received: &[u8], at_end: bool) -> (r: Result<FrameRead, FrameError>)
    ensures
        read_view(r) == frame_read(received@, at_end),
{
    if received.len() < 2 {
        return if at_end {
            Ok(FrameRead::End)
        } else {
            Ok(FrameRead::Need(2 - received.len()))
        };
    }
    let n = bytes::read_be16(received[0], received[1]) as usize;
    if received.len() - 2 >= n {
        Ok(FrameRead::Frame(slice_to_vec(slice_subrange(received, 2, 2 + n))))
    } else if at_end {
        Err(FrameError::UnexpectedEof)
    } else {
        Ok(FrameRead::Need(2 + n - received.len()))
    }
}

/// A frame reads back as its data, whatever follows it in the stream. This does
/// not hold for data of more than 65535 bytes, whose length the prefix cannot
/// give.
pub proof fn lemma_frame_roundtrip(data: Seq<u8>, rest: Seq<u8>, at_end: bool)
    requires
        data.len() <= 65535,
    ensures
        frame_read(framed(data) + rest, at_end) == Ok::<_, FrameError>(FrameView::Frame(data)),
{
    let s = framed(data) + rest;
    bytes::lemma_be16_roundtrip(data.len() as u16);
    assert(s[0] == bytes::be16(data.len() as u16)[0]);
    assert(s[1] == bytes::be16(data.len() as u16)[1]);
    assert(s.subrange(2, 2 + data.len() as int) =~= data);
}

/// While a proper part of a frame has arrived, exactly the bytes up to the next
/// point of decision are asked for, and never one beyond the frame.
pub proof fn lemma_frame_asks_no_more(data: Seq<u8>, k: int)
    requires
        data.len() <= 65535,
        0 <= k < framed(data).len(),
    ensures
        frame_read(framed(data).take(k), false) matches Ok(FrameView::Need(n)) && n > 0 && k + n
            <= framed(data).len(),
{
    let s = framed(data);
    bytes::lemma_be16_roundtrip(data.len() as u16);
    if k >= 2 {
        assert(s.take(k)[0] == s[0]);
        assert(s.take(k)[1] == s[1]);
    }
}

} // verus!
