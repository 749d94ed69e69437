//! Length-prefixed frames: `[len: u32 little endian][sealed payload]`.
use crate::accel::{
    deflated, only_tag_differs, opened, rejected_with, seal_outcome, sealable, sealed_len, AccelError,
    PayloadAccelerator,
};
use vstd::prelude::*;
use vstd::slice::{slice_subrange, slice_to_vec};

verus! {

/// Length of a frame's header in bytes.
pub const HEADER_LEN: usize = 4;

/// The number of different lengths that a header can hold.
pub const HEADER_RANGE: u64 = 4_294_967_296;

/// The four little-endian bytes of `n`.
pub open spec fn le_bytes(n: int) -> Seq<u8> {
    seq![
        (n % 256) as u8,
        (n / 256 % 256) as u8,
        (n / 65536 % 256) as u8,
        (n / 16777216 % 256) as u8,
    ]
}

/// The number that four little-endian bytes at the head of `bytes` hold.
pub open spec fn declared_len(bytes: Seq<u8>) -> int {
    bytes[0] + bytes[1] * 256 + bytes[2] * 65536 + bytes[3] * 16777216
}

/// What the header of a body of `len` bytes holds.
pub open spec fn header_value(len: nat) -> int {
    len as int % HEADER_RANGE as int
}

/// One frame as it goes over the wire.
pub struct Frame {
    pub header: [u8; 4],
    pub body: Vec<u8>,
}

impl View for Frame {
    type V = Seq<u8>;

    open spec fn view(&self) -> Seq<u8> {
        self.header@ + self.body@
    }
}

/// `bytes` is exactly one frame, and it opens to `payload` under `key`.
pub open spec fn is_frame(key: Seq<u8>, bytes: Seq<u8>, payload: Seq<u8>) -> bool {
    &&& bytes.len() >= HEADER_LEN
    &&& declared_len(bytes) == bytes.len() - HEADER_LEN
    &&& opened(key, bytes.skip(HEADER_LEN as int)) == Some(payload)
}

/// `res` is the frame of what was sealed, or the error of sealing. A body of
/// `HEADER_RANGE` bytes or more wraps round in the header.
pub open spec fn framed_as(
    sealed: Result<Vec<u8>, AccelError>,
    res: Result<Frame, AccelError>,
) -> bool {
    match sealed {
        Ok(body) => res matches Ok(f) && f.body@ == body@ && f.header@ == le_bytes(
            header_value(body@.len()),
        ),
        Err(e) => res == Err::<Frame, AccelError>(e),
    }
}

/// What a read at the head of a byte stream comes to.
pub enum StreamRead {
    /// The stream ends before a whole header.
    End,
    /// The stream ends inside a body.
    Truncated,
    /// The body does not open.
    Rejected,
    /// A payload, and what is left of the stream behind its frame.
    Frame { payload: Seq<u8>, rest: Seq<u8> },
}

/// What a read at the head of `stream` comes to under `key`.
pub open spec fn next_frame(key: Seq<u8>, stream: Seq<u8>) -> StreamRead {
    if stream.len() < HEADER_LEN {
        StreamRead::End
    } else {
        let end = HEADER_LEN + declared_len(stream);
        if stream.len() < end {
            StreamRead::Truncated
        } else {
            match opened(key, stream.subrange(HEADER_LEN as int, end)) {
                None => StreamRead::Rejected,
                Some(payload) => StreamRead::Frame { payload, rest: stream.skip(end) },
            }
        }
    }
}

/// All payloads of `stream` in order, where it reads cleanly to its end.
pub open spec fn payloads(key: Seq<u8>, stream: Seq<u8>) -> Option<Seq<Seq<u8>>>
    decreases stream.len(),
{
    match next_frame(key, stream) {
        StreamRead::End => Some(seq![]),
        StreamRead::Frame { payload, rest } => if rest.len() < stream.len() {
            match payloads(key, rest) {
                Some(tail) => Some(seq![payload] + tail),
                None => None,
            }
        } else {
            None
        },
        _ => None,
    }
}

/// Why a frame was not read.
#[derive(Debug)]
pub enum FrameError {
    /// The stream ended inside a body.
    Truncated,
    /// The body did not open.
    Rejected(AccelError),
}

/// The four little-endian bytes of `n`.
pub fn length_header(n: u32) -> (header: [u8; 4])
    ensures
        header@ == le_bytes(n as int),
{
    let header = [
        (n % 256) as u8,
        (n / 256 % 256) as u8,
        (n / 65536 % 256) as u8,
        (n / 16777216 % 256) as u8,
    ];
    assert(header@ =~= le_bytes(n as int));
    header
}

/// The length that a header declares.
pub fn header_length(header: &[u8]) -> (n: u32)
    requires
        header@.len() >= HEADER_LEN,
    ensures
        n == declared_len(header@),
{
    header[0] as u32 + header[1] as u32 * 256 + header[2] as u32 * 65536 + header[3] as u32
        * 16777216
}

/// The header of every length reads back as that length.
pub proof fn header_round_trip(n: int)
    requires
        0 <= n < HEADER_RANGE,
    ensures
        le_bytes(n).len() == HEADER_LEN,
        declared_len(le_bytes(n)) == n,
{
}

/// Puts the length header before a sealed payload.
pub fn frame_sealed(body: Vec<u8>) -> (frame: Frame)
    ensures
        frame.body == body,
        frame.header@ == le_bytes(header_value(body@.len())),
{
    let n = (body.len() as u64 % HEADER_RANGE) as u32;
    Frame { header: length_header(n), body }
}

/// Seals `plaintext` and frames it. The frame is what has to be written to the
/// stream, header first. It reads back as `plaintext` wherever the sealed
/// payload fits the header.
pub fn write_frame(accel: &PayloadAccelerator, plaintext: &[u8]) -> (res: Result<
    Frame,
    AccelError,
>)
    ensures
        exists|nonce: Seq<u8>, sealed: Result<Vec<u8>, AccelError>|
            nonce.len() == 12 && #[trigger] seal_outcome(accel.key(), nonce, plaintext@, sealed)
                && framed_as(sealed, res),
        deflated(plaintext@) is Some,
        res is Ok <==> sealable(plaintext@),
        res matches Ok(f) ==> f.body@.len() == sealed_len(plaintext@),
        res matches Ok(f) ==> forall|d: Seq<u8>|
            only_tag_differs(f.body@, d) ==> #[trigger] opened(accel.key(), d) is None,
        sealed_len(plaintext@) < HEADER_RANGE && sealed_len(plaintext@) <= isize::MAX ==> (
        res matches Ok(f) && is_frame(accel.key(), f@, plaintext@)),
{
    let sealed = accel.seal(plaintext);
    let ghost nonce = choose|nonce: Seq<u8>|
        nonce.len() == 12 && #[trigger] seal_outcome(accel.key(), nonce, plaintext@, sealed);
    assert(seal_outcome(accel.key(), nonce, plaintext@, sealed));
    match sealed {
        Ok(body) => {
            let frame = frame_sealed(body);
            proof {
                assert(frame@.skip(HEADER_LEN as int) =~= body@);
                header_round_trip(header_value(body@.len()));
            }
            Ok(frame)
        },
        Err(e) => Err(e),
    }
}

/// Where the reader of one frame stands.
#[derive(Debug, Clone, Copy, PartialEq, Eq, Structural)]
pub enum FrameReader {
    /// Before the header.
    Header,
    /// Before a body of this length.
    Body(u32),
}

/// What came of a read of exactly the bytes that were wanted.
pub enum ReadEvent {
    /// All of them.
    Filled(Vec<u8>),
    /// The stream ended first.
    Eof,
}

/// What is to be done next.
#[derive(Debug)]
pub enum ReadStep {
    /// Read what this reader wants.
    More(FrameReader),
    /// A payload has arrived.
    Deliver(Vec<u8>),
    /// The stream is over.
    End,
    /// The stream is broken.
    Fail(FrameError),
}

impl FrameReader {
    /// The number of bytes that have to be read next.
    pub open spec fn wants(self) -> nat {
        match self {
            FrameReader::Header => HEADER_LEN as nat,
            FrameReader::Body(n) => n as nat,
        }
    }

    /// The reader of a fresh frame.
    pub fn new() -> (res: Self)
        ensures
            res == FrameReader::Header,
    {
        FrameReader::Header
    }

    /// The number of bytes that have to be read next.
    pub fn wanted(&self) -> (n: usize)
        ensures
            n == self.wants(),
    {
        match self {
            FrameReader::Header => HEADER_LEN,
            FrameReader::Body(n) => *n as usize,
        }
    }

    /// Takes the outcome of the read that this reader wanted.
    pub fn step(self, accel: &PayloadAccelerator, event: ReadEvent) -> (res: ReadStep)
        requires
            event matches ReadEvent::Filled(bytes) ==> bytes@.len() == self.wants(),
        ensures
            match (self, event) {
                (FrameReader::Header, ReadEvent::Filled(bytes)) => {
                    res matches ReadStep::More(next) && next is Body && next->Body_0
                        == declared_len(bytes@)
                },
                (FrameReader::Header, ReadEvent::Eof) => res is End,
                (FrameReader::Body(_), ReadEvent::Filled(bytes)) => match opened(
                    accel.key(),
                    bytes@,
                ) {
                    Some(payload) => res matches ReadStep::Deliver(v) && v@ == payload,
                    None => res matches ReadStep::Fail(FrameError::Rejected(e)) && rejected_with(
                        accel.key(),
                        bytes@,
                        e,
                    ),
                },
                (FrameReader::Body(_), ReadEvent::Eof) => res matches ReadStep::Fail(
                    FrameError::Truncated,
                ),
            },
    {
        match self {
            FrameReader::Header => match event {
                ReadEvent::Filled(bytes) => ReadStep::More(
                    FrameReader::Body(header_length(bytes.as_slice())),
                ),
                ReadEvent::Eof => ReadStep::End,
            },
            FrameReader::Body(_) => match event {
                ReadEvent::Filled(bytes) => match accel.open(bytes.as_slice()) {
                    Ok(payload) => ReadStep::Deliver(payload),
                    Err(e) => ReadStep::Fail(FrameError::Rejected(e)),
                },
                ReadEvent::Eof => ReadStep::Fail(FrameError::Truncated),
            },
        }
    }
}

/// Reads the first frame of `stream`, which holds all bytes up to the end of
/// the stream. Returns the payload and the number of bytes that its frame
/// takes up, and `None` at the end of the stream.
pub fn read_frame(accel: &PayloadAccelerator, stream: &[u8]) -> (res: Result<
    Option<(Vec<u8>, usize)>,
    FrameError,
>)
    ensures
        match next_frame(accel.key(), stream@) {
            StreamRead::End => res matches Ok(None),
            StreamRead::Truncated => res matches Err(FrameError::Truncated),
            StreamRead::Rejected => res matches Err(FrameError::Rejected(e)) && rejected_with(
                accel.key(),
                stream@.subrange(HEADER_LEN as int, HEADER_LEN + declared_len(stream@)),
                e,
            ),
            StreamRead::Frame { payload, rest } => res matches Ok(Some((v, used))) && v@ == payload
                && used <= stream@.len() && rest == stream@.skip(used as int),
        },
{
    let reader = FrameReader::new();
    let event = if stream.len() < HEADER_LEN {
        ReadEvent::Eof
    } else {
        ReadEvent::Filled(slice_to_vec(slice_subrange(stream, 0, HEADER_LEN)))
    };
    let body = match reader.step(accel, event) {
        ReadStep::More(next) => next,
        _ => return Ok(None),
    };
    let available = stream.len() - HEADER_LEN;
    let wanted = body.wanted();
    let event = if available < wanted {
        ReadEvent::Eof
    } else {
        ReadEvent::Filled(slice_to_vec(slice_subrange(stream, HEADER_LEN, HEADER_LEN + wanted)))
    };
    match body.step(accel, event) {
        ReadStep::Deliver(payload) => Ok(Some((payload, HEADER_LEN + wanted))),
        ReadStep::Fail(e) => Err(e),
        _ => Ok(None),
    }
}

/// A frame is read back to its payload, whatever follows it in the stream.
pub proof fn frame_reads_back(key: Seq<u8>, frame: Seq<u8>, payload: Seq<u8>, tail: Seq<u8>)
    requires
        is_frame(key, frame, payload),
    ensures
        next_frame(key, frame + tail) == (StreamRead::Frame { payload, rest: tail }),
{
    let stream = frame + tail;
    let end = HEADER_LEN + declared_len(stream);
    assert(end == frame.len());
    assert(stream.subrange(HEADER_LEN as int, end) =~= frame.skip(HEADER_LEN as int));
    assert(stream.skip(end) =~= tail);
}

/// The frames one after the other.
pub open spec fn concatenated(frames: Seq<Seq<u8>>) -> Seq<u8>
    decreases frames.len(),
{
    if frames.len() == 0 {
        seq![]
    } else {
        frames[0] + concatenated(frames.drop_first())
    }
}

/// Frames that were written one after the other are read back in order, and
/// the stream then ends cleanly.
pub proof fn frames_read_back_in_order(
    key: Seq<u8>,
    frames: Seq<Seq<u8>>,
    contents: Seq<Seq<u8>>,
)
    requires
        frames.len() == contents.len(),
        forall|i: int| 0 <= i < frames.len() ==> #[trigger] is_frame(key, frames[i], contents[i]),
    ensures
        payloads(key, concatenated(frames)) == Some(contents),
    decreases frames.len(),
{
    if frames.len() == 0 {
        assert(contents =~= seq![]);
    } else {
        let frames_tail = frames.drop_first();
        let contents_tail = contents.drop_first();
        assert forall|i: int| 0 <= i < frames_tail.len() implies #[trigger] is_frame(
            key,
            frames_tail[i],
            contents_tail[i],
        ) by {
            assert(is_frame(key, frames[i + 1], contents[i + 1]));
        }
        frames_read_back_in_order(key, frames_tail, contents_tail);
        assert(is_frame(key, frames[0], contents[0]));
        frame_reads_back(key, frames[0], contents[0], concatenated(frames_tail));
        assert(seq![contents[0]] + contents_tail =~= contents);
    }
}

/// A frame that was cut short delivers nothing.
pub proof fn cut_frame_delivers_nothing(
    key: Seq<u8>,
    frame: Seq<u8>,
    payload: Seq<u8>,
    kept: int,
)
    requires
        is_frame(key, frame, payload),
        0 <= kept < frame.len(),
    ensures
        next_frame(key, frame.take(kept)) == (if kept < HEADER_LEN {
            StreamRead::End
        } else {
            StreamRead::Truncated
        }),
{
}

/// The four bytes of a length make up the number, the first of them lowest.
pub proof fn length_is_little_endian(n: int)
    requires
        0 <= n < 4_294_967_296,
    ensures
        le_bytes(n).len() == 4,
        le_bytes(n)[0] + 256 * le_bytes(n)[1] + 65536 * le_bytes(n)[2] + 16777216 * le_bytes(n)[3]
            == n,
{
}

/// Every header declares the number that its four bytes make up, the first of
/// them lowest, whatever follows.
pub proof fn every_header_declares_its_number(bytes: Seq<u8>)
    requires
        bytes.len() >= 4,
    ensures
        declared_len(bytes) == bytes[0] + 256 * bytes[1] + 65536 * bytes[2] + 16777216 * bytes[3],
        le_bytes(declared_len(bytes)) == bytes.take(4),
        header_value(declared_len(bytes) as nat) == declared_len(bytes),
{
    let a = bytes[0] as int;
    let b = bytes[1] as int;
    let c = bytes[2] as int;
    let d = bytes[3] as int;
    lemma_bytes_of_sum(a, b, c, d);
    assert(declared_len(bytes) == a + 256 * b + 65536 * c + 16777216 * d);
    assert(le_bytes(declared_len(bytes)) =~= bytes.take(4));
}

/// The bytes that make up a number can be read off it.
proof fn lemma_bytes_of_sum(a: int, b: int, c: int, d: int)
    requires
        0 <= a < 256,
        0 <= b < 256,
        0 <= c < 256,
        0 <= d < 256,
    ensures
        ({
            let n = a + 256 * b + 65536 * c + 16777216 * d;
            &&& n % 256 == a
            &&& n / 256 % 256 == b
            &&& n / 65536 % 256 == c
            &&& n / 16777216 % 256 == d
        }),
{
    let n = a + 256 * b + 65536 * c + 16777216 * d;
    assert(n / 256 == b + 256 * c + 65536 * d);
    assert(n / 65536 == c + 256 * d);
    assert(n / 16777216 == d);
}

/// A body's length stands in the header as it is up to 2^32 bytes, and from
/// there on begins anew.
pub proof fn header_holds_the_length(len: nat)
    ensures
        len < 4_294_967_296 ==> header_value(len) == len,
        header_value((len + 4_294_967_296nat) as nat) == header_value(len),
        0 <= header_value(len) < 4_294_967_296,
{
}

/// Four bytes that make up the length of a body, and a body that opens, are a
/// frame, and it is read from the head of a stream whatever follows it.
pub proof fn header_and_body_are_read(
    key: Seq<u8>,
    header: Seq<u8>,
    body: Seq<u8>,
    payload: Seq<u8>,
    rest: Seq<u8>,
)
    requires
        header.len() == 4,
        header[0] + 256 * header[1] + 65536 * header[2] + 16777216 * header[3] == body.len(),
        opened(key, body) == Some(payload),
    ensures
        is_frame(key, header + body, payload),
        next_frame(key, header + body + rest) == (StreamRead::Frame { payload, rest }),
{
    assert((header + body).skip(4) =~= body);
    frame_reads_back(key, header + body, payload, rest);
}

/// A body that does not open is rejected, one that is not all there is cut off,
/// and less than a header is the end of the stream.
pub proof fn what_is_no_frame_is_told_apart(
    key: Seq<u8>,
    header: Seq<u8>,
    body: Seq<u8>,
    rest: Seq<u8>,
    stream: Seq<u8>,
)
    requires
        header.len() == 4,
        header[0] + 256 * header[1] + 65536 * header[2] + 16777216 * header[3] == body.len(),
        opened(key, body) is None,
    ensures
        next_frame(key, header + body + rest) == StreamRead::Rejected,
        stream.len() < body.len() ==> next_frame(key, header + stream) == StreamRead::Truncated,
        stream.len() < 4 ==> next_frame(key, stream) == StreamRead::End,
{
    assert((header + body + rest).subrange(4, 4 + body.len() as int) =~= body);
}

/// What is framed is what was sealed, behind four bytes that make up its length.
pub proof fn sealed_bytes_are_framed_whole(
    sealed: Result<Vec<u8>, AccelError>,
    res: Result<Frame, AccelError>,
)
    requires
        framed_as(sealed, res),
    ensures
        res is Ok <==> sealed is Ok,
        sealed matches Err(e) ==> res == Err::<Frame, AccelError>(e),
        sealed matches Ok(body) ==> res matches Ok(frame) && frame.body@ == body@ && frame@
            == frame.header@ + body@ && (body@.len() < 4_294_967_296 ==> frame.header@[0] + 256
            * frame.header@[1] + 65536 * frame.header@[2] + 16777216 * frame.header@[3]
            == body@.len()),
{
    if let Ok(body) = sealed {
        length_is_little_endian(header_value(body@.len()));
    }
}

/// A reader wants four bytes of header and then the whole body.
pub proof fn reader_wants_header_and_body(n: u32)
    ensures
        FrameReader::Header.wants() == 4,
        FrameReader::Body(n).wants() == n,
{
}

/// One frame more in a stream delivers one payload more, and an empty stream
/// delivers none.
pub proof fn every_frame_delivers(
    key: Seq<u8>,
    frame: Seq<u8>,
    payload: Seq<u8>,
    stream: Seq<u8>,
    contents: Seq<Seq<u8>>,
)
    requires
        is_frame(key, frame, payload),
        payloads(key, stream) == Some(contents),
    ensures
        payloads(key, frame + stream) == Some(seq![payload] + contents),
        payloads(key, seq![]) == Some(Seq::<Seq<u8>>::empty()),
        frame.len() >= 4,
{
    frame_reads_back(key, frame, payload, stream);
}

/// Frames one after the other hold all their bytes in order.
pub proof fn frames_hold_all_their_bytes(frames: Seq<Seq<u8>>, frame: Seq<u8>)
    ensures
        concatenated(seq![]) == Seq::<u8>::empty(),
        concatenated(seq![frame] + frames) == frame + concatenated(frames),
        concatenated(frames.push(frame)) == concatenated(frames) + frame,
    decreases frames.len(),
{
    assert((seq![frame] + frames).drop_first() =~= frames);
    if frames.len() == 0 {
        let none: Seq<Seq<u8>> = seq![];
        assert(frames.push(frame).drop_first() =~= none);
        assert(concatenated(none) == Seq::<u8>::empty());
        assert(concatenated(frames) == Seq::<u8>::empty());
        assert(concatenated(frames.push(frame)) =~= concatenated(frames) + frame);
    } else {
        let tail = frames.drop_first();
        frames_hold_all_their_bytes(tail, frame);
        assert(frames.push(frame).drop_first() =~= tail.push(frame));
        assert(concatenated(frames.push(frame)) =~= concatenated(frames) + frame);
    }
}

} // verus!
