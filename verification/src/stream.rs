//! Streams of frames with a length prefix, whatever the reader makes of a frame.
use crate::bytes;
use crate::frame::{FrameError, FrameView};
use vstd::prelude::*;

verus! {

/// The bytes of all parts, one after the other.
pub open spec fn joined(parts: Seq<Seq<u8>>) -> Seq<u8>
    decreases parts.len(),
{
    if parts.len() == 0 {
        Seq::empty()
    } else {
        parts[0] + joined(parts.skip(1))
    }
}

/// What a reader finds in a whole stream: the data of the frames in order, up to
/// the end of the stream or the first error. The reader gets the bytes that are
/// left and the number of the frame, and is told nothing of the frames before.
pub open spec fn decoded(
    stream: Seq<u8>,
    read: spec_fn(Seq<u8>, int) -> Result<FrameView, FrameError>,
    i: int,
) -> (Seq<Seq<u8>>, Result<(), FrameError>)
    decreases stream.len(),
{
    match read(stream, i) {
        Ok(FrameView::Frame(data)) => {
            let used = 2 + bytes::from_be16(stream[0], stream[1]);
            if 0 < used <= stream.len() {
                let (rest, end) = decoded(stream.skip(used), read, i + 1);
                (seq![data] + rest, end)
            } else {
                (seq![data], Ok(()))
            }
        },
        Ok(_) => (Seq::empty(), Ok(())),
        Err(e) => (Seq::empty(), Err(e)),
    }
}

/// Whether a reader finds the data of a frame at the start of every stream that
/// begins with the frame, and finds no frame in a proper part of it.
pub open spec fn found(
    wire: Seq<u8>,
    data: Seq<u8>,
    read: spec_fn(Seq<u8>, int) -> Result<FrameView, FrameError>,
    i: int,
) -> bool {
    &&& wire.len() >= 2
    &&& wire.len() - 2 == bytes::from_be16(wire[0], wire[1])
    &&& forall|rest: Seq<u8>|
        read(#[trigger] (wire + rest), i) == Ok::<_, FrameError>(FrameView::Frame(data))
    &&& forall|k: int|
        0 <= k < wire.len() ==> !(read(#[trigger] wire.take(k), i) matches Ok(FrameView::Frame(_)))
}

/// Whether a reader finds the data of the frames, one for one, when the first
/// has number `i`, and is told of the end where nothing is left.
pub open spec fn all_found(
    wires: Seq<Seq<u8>>,
    data: Seq<Seq<u8>>,
    read: spec_fn(Seq<u8>, int) -> Result<FrameView, FrameError>,
    i: int,
) -> bool {
    &&& wires.len() == data.len()
    &&& forall|j: int| 0 <= j < wires.len() ==> found(#[trigger] wires[j], data[j], read, i + j)
    &&& read(Seq::empty(), i + wires.len()) == Ok::<_, FrameError>(FrameView::End)
}

proof fn lemma_rest_found(
    wires: Seq<Seq<u8>>,
    data: Seq<Seq<u8>>,
    read: spec_fn(Seq<u8>, int) -> Result<FrameView, FrameError>,
    i: int,
)
    requires
        all_found(wires, data, read, i),
        wires.len() > 0,
    ensures
        found(wires[0], data[0], read, i),
        all_found(wires.skip(1), data.skip(1), read, i + 1),
{
    assert(found(wires[0], data[0], read, i + 0));
    assert forall|j: int| 0 <= j < wires.skip(1).len() implies found(
        #[trigger] wires.skip(1)[j],
        data.skip(1)[j],
        read,
        i + 1 + j,
    ) by {
        assert(found(wires[j + 1], data[j + 1], read, i + (j + 1)));
    }
}

/// A reader that finds each frame gets the data of all of them, in order, and
/// then the end.
pub proof fn lemma_roundtrip(
    wires: Seq<Seq<u8>>,
    data: Seq<Seq<u8>>,
    read: spec_fn(Seq<u8>, int) -> Result<FrameView, FrameError>,
    i: int,
)
    requires
        all_found(wires, data, read, i),
    ensures
        decoded(joined(wires), read, i) == (data, Ok::<(), FrameError>(())),
    decreases wires.len(),
{
    let stream = joined(wires);
    if wires.len() == 0 {
        assert(data =~= Seq::empty());
    } else {
        let rest = joined(wires.skip(1));
        lemma_rest_found(wires, data, read, i);
        assert(stream == wires[0] + rest);
        assert(stream[0] == wires[0][0] && stream[1] == wires[0][1]);
        assert(stream.skip(wires[0].len() as int) =~= rest);
        lemma_roundtrip(wires.skip(1), data.skip(1), read, i + 1);
        assert(seq![data[0]] + data.skip(1) =~= data);
    }
}

/// What such a reader gets of a stream that is cut off anywhere is a beginning
/// of what was sent, in order.
pub proof fn lemma_cut(
    wires: Seq<Seq<u8>>,
    data: Seq<Seq<u8>>,
    read: spec_fn(Seq<u8>, int) -> Result<FrameView, FrameError>,
    i: int,
    cut: int,
)
    requires
        all_found(wires, data, read, i),
        0 <= cut <= joined(wires).len(),
    ensures
        ({
            let got = decoded(joined(wires).take(cut), read, i).0;
            got.len() <= data.len() && got == data.take(got.len() as int)
        }),
    decreases wires.len(),
{
    let stream = joined(wires).take(cut);
    if wires.len() == 0 {
        assert(stream =~= Seq::empty());
        assert(data.take(0) =~= Seq::empty());
    } else {
        let first = wires[0];
        let rest = joined(wires.skip(1));
        lemma_rest_found(wires, data, read, i);
        if cut < first.len() {
            assert(stream =~= first.take(cut));
            assert(data.take(0) =~= Seq::empty());
        } else {
            let tail = rest.take(cut - first.len());
            assert(stream =~= first + tail);
            assert(stream[0] == first[0] && stream[1] == first[1]);
            assert(stream.skip(first.len() as int) =~= tail);
            lemma_cut(wires.skip(1), data.skip(1), read, i + 1, cut - first.len());
            let more = decoded(tail, read, i + 1).0;
            assert(seq![data[0]] + more =~= data.take(more.len() as int + 1));
        }
    }
}

} // verus!
