//! The frame format: a big-endian 32-bit length, then that many bytes.
//!
//! [`FrameReader`] reads one frame off a stream in bounded steps. A read
//! consumes exactly one frame, whatever pieces the stream delivers it in.

use vstd::prelude::*;

use crate::error::TransportError;

verus! {

/// The largest message body, in bytes.
pub const MAX_MESSAGE_BYTES: usize = 64 * 1024 * 1024;

/// The largest type manifest, in bytes.
pub const MAX_MANIFEST_BYTES: usize = 64 * 1024;

/// The length of a header: of a frame, or of a lane.
pub const HEADER_BYTES: usize = 4;

/// The low 32 bits of `n`, most significant byte first.
pub open spec fn be32(n: int) -> Seq<u8> {
    seq![
        (n / 0x100_0000 % 0x100) as u8,
        (n / 0x1_0000 % 0x100) as u8,
        (n / 0x100 % 0x100) as u8,
        (n % 0x100) as u8,
    ]
}

/// The number that four bytes stand for, most significant byte first.
pub open spec fn be32_value(bytes: Seq<u8>) -> int {
    bytes[0] * 0x100_0000 + bytes[1] * 0x1_0000 + bytes[2] * 0x100 + bytes[3]
}

/// A body as it stands on the wire.
pub open spec fn frame(body: Seq<u8>) -> Seq<u8> {
    be32(body.len() as int) + body
}

/// Several bodies on the wire, one frame after the other.
pub open spec fn frames(bodies: Seq<Seq<u8>>) -> Seq<u8>
    decreases bodies.len(),
{
    if bodies.len() == 0 {
        Seq::empty()
    } else {
        frame(bodies[0]) + frames(bodies.drop_first())
    }
}

/// The header that announces `value`: the length of a frame or the position of
/// a lane, cut to 32 bits.
pub fn header(value: usize) -> (bytes: [u8; 4])
    ensures
        bytes@ == be32(value as int),
{
    let bytes = [
        (value / 0x100_0000 % 0x100) as u8,
        (value / 0x1_0000 % 0x100) as u8,
        (value / 0x100 % 0x100) as u8,
        (value % 0x100) as u8,
    ];
    assert(bytes@ =~= be32(value as int));
    bytes
}

/// The number that a header announces.
pub fn header_value(bytes: &[u8]) -> (value: u32)
    requires
        bytes@.len() == HEADER_BYTES,
    ensures
        value == be32_value(bytes@),
{
    bytes[0] as u32 * 0x100_0000 + bytes[1] as u32 * 0x1_0000 + bytes[2] as u32 * 0x100
        + bytes[3] as u32
}

/// What a [`FrameReader`] wants from its stream.
#[derive(Debug, Clone, Copy, PartialEq, Eq)]
pub enum ReadRequest {
    /// The next bytes, as many as there are, at most `max`.
    UpTo { max: usize },
    /// Exactly the next `len` bytes.
    Exact { len: usize },
}

/// What the stream answered.
#[derive(Debug)]
pub enum ReadReply {
    /// The stream was finished and holds no more bytes.
    Finished,
    /// The bytes that were read.
    Bytes(Vec<u8>),
    /// The read failed; for an exact read also because the stream ended early.
    Failed(String),
}

/// The model of a [`ReadReply`].
pub enum ReplyView {
    Finished,
    Bytes(Seq<u8>),
    Failed(String),
}

impl View for ReadReply {
    type V = ReplyView;

    open spec fn view(&self) -> ReplyView {
        match self {
            ReadReply::Finished => ReplyView::Finished,
            ReadReply::Bytes(bytes) => ReplyView::Bytes(bytes@),
            ReadReply::Failed(e) => ReplyView::Failed(*e),
        }
    }
}

/// Whether `reply` can answer `request`.
pub open spec fn answers(request: ReadRequest, reply: ReplyView) -> bool {
    match (request, reply) {
        (ReadRequest::UpTo { .. }, ReplyView::Finished) => true,
        (ReadRequest::UpTo { max }, ReplyView::Bytes(bytes)) => bytes.len() <= max,
        (ReadRequest::Exact { .. }, ReplyView::Finished) => false,
        (ReadRequest::Exact { len }, ReplyView::Bytes(bytes)) => bytes.len() == len,
        (_, ReplyView::Failed(_)) => true,
    }
}

/// How far a [`FrameReader`] has come.
pub enum FrameState {
    /// Nothing was read.
    Start,
    /// The first bytes of the header were read.
    Header(Seq<u8>),
    /// The header was read; it announced this many bytes.
    Body(usize),
    /// The frame was read, or cannot be.
    Done,
}

/// The model of a [`FrameReader`].
pub struct FrameReaderView {
    /// The largest body that the reader accepts.
    pub limit: usize,
    pub state: FrameState,
}

/// What reading one frame comes to: a body, `None` on a stream that was
/// finished between frames, or an error.
pub type FrameOutcome = Result<Option<Seq<u8>>, TransportError>;

/// The request that a reader in `state` makes.
pub open spec fn frame_request(state: FrameState) -> Option<ReadRequest> {
    match state {
        FrameState::Start => Some(ReadRequest::UpTo { max: HEADER_BYTES }),
        FrameState::Header(first) => Some(
            ReadRequest::Exact { len: (HEADER_BYTES - first.len()) as usize },
        ),
        FrameState::Body(len) => Some(ReadRequest::Exact { len }),
        FrameState::Done => None,
    }
}

/// What `reply` makes of a reader in `state` that allows `limit` bytes.
pub open spec fn frame_step(state: FrameState, limit: usize, reply: ReplyView) -> (
    FrameState,
    Option<FrameOutcome>,
) {
    match (state, reply) {
        (FrameState::Start, ReplyView::Finished) => (FrameState::Done, Some(Ok(None))),
        (FrameState::Start, ReplyView::Bytes(first)) => (FrameState::Header(first), None),
        (FrameState::Start, ReplyView::Failed(e)) => (
            FrameState::Done,
            Some(Err(TransportError::Read(e))),
        ),
        (FrameState::Header(first), ReplyView::Bytes(rest)) => {
            let len = be32_value(first + rest);
            if len > limit {
                (
                    FrameState::Done,
                    Some(Err(TransportError::FrameTooLong { len: len as usize, limit })),
                )
            } else {
                (FrameState::Body(len as usize), None)
            }
        },
        (FrameState::Header(_), ReplyView::Failed(e)) => (
            FrameState::Done,
            Some(Err(TransportError::TruncatedHeader(e))),
        ),
        (FrameState::Body(_), ReplyView::Bytes(body)) => (FrameState::Done, Some(Ok(Some(body)))),
        (FrameState::Body(_), ReplyView::Failed(e)) => (
            FrameState::Done,
            Some(Err(TransportError::TruncatedFrame(e))),
        ),
        _ => (state, None),
    }
}

/// The model of what [`FrameReader::feed`] returns.
pub open spec fn outcome_view(outcome: Option<Result<Option<Vec<u8>>, TransportError>>) -> Option<
    FrameOutcome,
> {
    match outcome {
        None => None,
        Some(result) => Some(frame_result_view(result)),
    }
}

/// The model of the result of reading one frame.
pub open spec fn frame_result_view(
    result: Result<Option<Vec<u8>>, TransportError>,
) -> FrameOutcome {
    match result {
        Ok(None) => Ok(None),
        Ok(Some(body)) => Ok(Some(body@)),
        Err(e) => Err(e),
    }
}

#[derive(Debug)]
enum Phase {
    Start,
    Header(Vec<u8>),
    Body(usize),
    Done,
}

/// Reads one frame.
///
/// As long as [`FrameReader::request`] asks for bytes, read them and hand them
/// to [`FrameReader::feed`], which says when the frame is there.
#[derive(Debug)]
pub struct FrameReader {
    limit: usize,
    phase: Phase,
}

impl View for FrameReader {
    type V = FrameReaderView;

    closed spec fn view(&self) -> FrameReaderView {
        FrameReaderView {
            limit: self.limit,
            state: match self.phase {
                Phase::Start => FrameState::Start,
                Phase::Header(first) => FrameState::Header(first@),
                Phase::Body(len) => FrameState::Body(len),
                Phase::Done => FrameState::Done,
            },
        }
    }
}

impl FrameReader {
    /// What every reader keeps: no more than a header is held, and no body
    /// over the limit is waited for.
    pub open spec fn wf(&self) -> bool {
        match self@.state {
            FrameState::Header(first) => first.len() <= HEADER_BYTES,
            FrameState::Body(len) => len <= self@.limit,
            _ => true,
        }
    }

    /// A reader for a frame of at most `limit` bytes.
    pub fn new(limit: usize) -> (reader: FrameReader)
        ensures
            reader.wf(),
            reader@ == (FrameReaderView { limit, state: FrameState::Start }),
    {
        FrameReader { limit, phase: Phase::Start }
    }

    /// What to read next; `None` once the outcome is known.
    pub fn request(&self) -> (request: Option<ReadRequest>)
        requires
            self.wf(),
        ensures
            request == frame_request(self@.state),
            request matches Some(ReadRequest::Exact { len }) ==> len <= HEADER_BYTES || len
                <= self@.limit,
    {
        match &self.phase {
            Phase::Start => Some(ReadRequest::UpTo { max: HEADER_BYTES }),
            Phase::Header(first) => Some(ReadRequest::Exact { len: HEADER_BYTES - first.len() }),
            Phase::Body(len) => Some(ReadRequest::Exact { len: *len }),
            Phase::Done => None,
        }
    }

    /// Takes the answer to the last request. Returns the outcome once it is
    /// known.
    pub fn feed(&mut self, reply: ReadReply) -> (outcome: Option<
        Result<Option<Vec<u8>>, TransportError>,
    >)
        requires
            old(self).wf(),
            frame_request(old(self)@.state) is Some,
            answers(frame_request(old(self)@.state)->0, reply@),
        ensures
            final(self).wf(),
            final(self)@.limit == old(self)@.limit,
            (final(self)@.state, outcome_view(outcome)) == frame_step(
                old(self)@.state,
                old(self)@.limit,
                reply@,
            ),
    {
        let mut phase = Phase::Done;
        std::mem::swap(&mut phase, &mut self.phase);
        match (phase, reply) {
            (Phase::Start, ReadReply::Finished) => Some(Ok(None)),
            (Phase::Start, ReadReply::Bytes(first)) => {
                self.phase = Phase::Header(first);
                None
            },
            (Phase::Start, ReadReply::Failed(e)) => Some(Err(TransportError::Read(e))),
            (Phase::Header(first), ReadReply::Bytes(rest)) => {
                let mut bytes = first;
                let mut rest = rest;
                bytes.append(&mut rest);
                let len: usize = header_value(bytes.as_slice()) as usize;
                if len > self.limit {
                    Some(Err(TransportError::FrameTooLong { len, limit: self.limit }))
                } else {
                    self.phase = Phase::Body(len);
                    None
                }
            },
            (Phase::Header(_), ReadReply::Failed(e)) => Some(
                Err(TransportError::TruncatedHeader(e)),
            ),
            (Phase::Body(_), ReadReply::Bytes(body)) => Some(Ok(Some(body))),
            (Phase::Body(_), ReadReply::Failed(e)) => Some(Err(TransportError::TruncatedFrame(e))),
            _ => None,
        }
    }
}

/// What a stream that holds `stream` and ends after it answers to `request`,
/// and what it holds then. A read of up to some bytes yields `piece` of them,
/// or all that are left; an exact read that the stream cannot serve fails with
/// `fault`.
pub open spec fn stream_reply(
    request: ReadRequest,
    stream: Seq<u8>,
    piece: nat,
    fault: String,
) -> (ReplyView, Seq<u8>) {
    match request {
        ReadRequest::UpTo { .. } => if stream.len() == 0 {
            (ReplyView::Finished, stream)
        } else {
            let n = if piece <= stream.len() {
                piece as int
            } else {
                stream.len() as int
            };
            (ReplyView::Bytes(stream.take(n)), stream.skip(n))
        },
        ReadRequest::Exact { len } => if stream.len() < len {
            (ReplyView::Failed(fault), Seq::empty())
        } else {
            (ReplyView::Bytes(stream.take(len as int)), stream.skip(len as int))
        },
    }
}

/// The number of steps that a reader in `state` can still take.
pub open spec fn frame_rank(state: FrameState) -> nat {
    match state {
        FrameState::Start => 3,
        FrameState::Header(_) => 2,
        FrameState::Body(_) => 1,
        FrameState::Done => 0,
    }
}

/// What a reader in `state` makes of `stream`, answered as in
/// [`stream_reply`], and what is left of the stream.
pub open spec fn read_stream(
    state: FrameState,
    limit: usize,
    stream: Seq<u8>,
    piece: nat,
    fault: String,
) -> (FrameOutcome, Seq<u8>)
    decreases frame_rank(state),
{
    match frame_request(state) {
        None => (Ok(None), stream),
        Some(request) => {
            let (reply, rest) = stream_reply(request, stream, piece, fault);
            let (next, outcome) = frame_step(state, limit, reply);
            match outcome {
                Some(outcome) => (outcome, rest),
                None => if frame_rank(next) < frame_rank(state) {
                    read_stream(next, limit, rest, piece, fault)
                } else {
                    (Ok(None), rest)
                },
            }
        },
    }
}

/// The frame at the head of `stream`, and what follows it. `fault` is the text
/// with which a read past the end fails.
pub open spec fn parse_frame(stream: Seq<u8>, limit: usize, fault: String) -> (
    FrameOutcome,
    Seq<u8>,
) {
    if stream.len() == 0 {
        (Ok(None), stream)
    } else if stream.len() < HEADER_BYTES {
        (Err(TransportError::TruncatedHeader(fault)), Seq::empty())
    } else {
        let len = be32_value(stream.take(4));
        let rest = stream.skip(4);
        if len > limit {
            (Err(TransportError::FrameTooLong { len: len as usize, limit }), rest)
        } else if rest.len() < len {
            (Err(TransportError::TruncatedFrame(fault)), Seq::empty())
        } else {
            (Ok(Some(rest.take(len))), rest.skip(len))
        }
    }
}

/// What reading `pieces.len()` frames in a row off `stream` comes to, the
/// header of frame `i` arriving with a first piece of `pieces[i]` bytes.
pub open spec fn read_frames(
    stream: Seq<u8>,
    limit: usize,
    pieces: Seq<nat>,
    fault: String,
) -> Seq<FrameOutcome>
    decreases pieces.len(),
{
    if pieces.len() == 0 {
        Seq::empty()
    } else {
        let (outcome, rest) = read_stream(FrameState::Start, limit, stream, pieces[0], fault);
        seq![outcome] + read_frames(rest, limit, pieces.drop_first(), fault)
    }
}

/// A header keeps the low 32 bits of a number, and every four bytes are the
/// header of the number that they stand for.
#[verifier::rlimit(40)]
pub proof fn law_header_round_trip(n: int, bytes: Seq<u8>)
    requires
        0 <= n,
        bytes.len() == HEADER_BYTES,
    ensures
        be32_value(be32(n)) == n % 0x1_0000_0000,
        0 <= be32_value(bytes) < 0x1_0000_0000,
        be32(be32_value(bytes)) == bytes,
{
    let q0 = n / 0x100;
    let q1 = n / 0x1_0000;
    let q2 = n / 0x100_0000;
    assert(q1 == q0 / 0x100);
    assert(q2 == q1 / 0x100);
    let v = be32_value(bytes);
    assert(v / 0x100_0000 == bytes[0]);
    assert(v / 0x1_0000 == bytes[0] * 0x100 + bytes[1]);
    assert(v / 0x100 == bytes[0] * 0x1_0000 + bytes[1] * 0x100 + bytes[2]);
    assert(be32(v) =~= bytes);
}

/// However a stream cuts a header in pieces, reading takes the frame at the
/// head of the stream and nothing more.
pub proof fn law_reading_ignores_fragmentation(
    stream: Seq<u8>,
    limit: usize,
    piece: nat,
    fault: String,
)
    requires
        piece <= HEADER_BYTES,
    ensures
        read_stream(FrameState::Start, limit, stream, piece, fault) == parse_frame(
            stream,
            limit,
            fault,
        ),
{
    reveal_with_fuel(read_stream, 4);
    if stream.len() > 0 {
        let n = if piece <= stream.len() {
            piece as int
        } else {
            stream.len() as int
        };
        let first = stream.take(n);
        let rest = stream.skip(n);
        if stream.len() >= HEADER_BYTES {
            let more = HEADER_BYTES - n;
            assert(first + rest.take(more) =~= stream.take(4));
            assert(rest.skip(more) =~= stream.skip(4));
            law_header_round_trip(0, stream.take(4));
        }
    }
}

/// What is written as a frame is read back: the body comes out, and what
/// follows the frame stays on the stream.
#[verifier::rlimit(40)]
pub proof fn law_frame_round_trip(
    body: Seq<u8>,
    rest: Seq<u8>,
    limit: usize,
    piece: nat,
    fault: String,
)
    requires
        body.len() <= limit,
        body.len() <= u32::MAX,
        1 <= piece <= HEADER_BYTES,
    ensures
        read_stream(FrameState::Start, limit, frame(body) + rest, piece, fault) == (
            Ok::<Option<Seq<u8>>, TransportError>(Some(body)),
            rest,
        ),
{
    let stream = frame(body) + rest;
    let len = body.len() as int;
    assert(stream.len() >= HEADER_BYTES);
    assert(be32_value(stream.take(4)) == len) by {
        assert(stream.take(4) =~= be32(len));
        law_header_round_trip(len, be32(len));
    }
    assert(stream.skip(4) =~= body + rest);
    assert((body + rest).take(len) =~= body);
    assert((body + rest).skip(len) =~= rest);
    law_reading_ignores_fragmentation(stream, limit, piece, fault);
}

/// Frames written one after the other are read back one by one in that order,
/// and after the last one the stream is found finished.
pub proof fn law_frames_read_in_order(
    bodies: Seq<Seq<u8>>,
    limit: usize,
    pieces: Seq<nat>,
    fault: String,
)
    requires
        forall|i: int|
            0 <= i < bodies.len() ==> (#[trigger] bodies[i]).len() <= limit && bodies[i].len()
                <= u32::MAX,
        pieces.len() == bodies.len() + 1,
        forall|i: int| 0 <= i < pieces.len() ==> 1 <= #[trigger] pieces[i] <= HEADER_BYTES,
    ensures
        read_frames(frames(bodies), limit, pieces, fault) == bodies.map_values(
            |body: Seq<u8>| Ok::<Option<Seq<u8>>, TransportError>(Some(body)),
        ).push(Ok::<Option<Seq<u8>>, TransportError>(None)),
    decreases bodies.len(),
{
    let wrap = |body: Seq<u8>| Ok::<Option<Seq<u8>>, TransportError>(Some(body));
    let end = Ok::<Option<Seq<u8>>, TransportError>(None);
    let stream = frames(bodies);
    let tail = pieces.drop_first();
    if bodies.len() == 0 {
        law_reading_ignores_fragmentation(stream, limit, pieces[0], fault);
        assert(read_frames(stream, limit, tail, fault) =~= Seq::empty());
        assert(read_frames(stream, limit, pieces, fault) =~= seq![end]);
        assert(bodies.map_values(wrap).push(end) =~= seq![end]);
    } else {
        let later = bodies.drop_first();
        law_frame_round_trip(bodies[0], frames(later), limit, pieces[0], fault);
        assert forall|i: int| 0 <= i < later.len() implies (#[trigger] later[i]).len() <= limit
            && later[i].len() <= u32::MAX by {
            assert(later[i] == bodies[i + 1]);
        }
        assert forall|i: int| 0 <= i < tail.len() implies 1 <= #[trigger] tail[i]
            <= HEADER_BYTES by {
            assert(tail[i] == pieces[i + 1]);
        }
        law_frames_read_in_order(later, limit, tail, fault);
        assert(bodies.map_values(wrap).push(end) =~= seq![wrap(bodies[0])] + later.map_values(
            wrap,
        ).push(end));
    }
}

/// No frame is the beginning of another: two streams that begin with a frame
/// and agree, agree on that frame and on what follows it.
pub proof fn law_frames_are_prefix_free(a: Seq<u8>, x: Seq<u8>, b: Seq<u8>, y: Seq<u8>)
    requires
        a.len() <= u32::MAX,
        b.len() <= u32::MAX,
        frame(a) + x == frame(b) + y,
    ensures
        a == b,
        x == y,
{
    let s = frame(a) + x;
    law_header_round_trip(a.len() as int, be32(0));
    law_header_round_trip(b.len() as int, be32(0));
    assert(s.take(4) =~= be32(a.len() as int));
    assert((frame(b) + y).take(4) =~= be32(b.len() as int));
    assert(a =~= s.subrange(4, 4 + a.len() as int));
    assert(b =~= (frame(b) + y).subrange(4, 4 + b.len() as int));
    assert(x =~= s.skip(4 + a.len() as int));
    assert(y =~= (frame(b) + y).skip(4 + b.len() as int));
}

/// A length over the limit is refused before any byte of the body is read, and
/// a reader never asks for more bytes than a header or its limit.
pub proof fn law_reading_is_bounded(first: Seq<u8>, rest: Seq<u8>, limit: usize)
    requires
        first.len() + rest.len() == HEADER_BYTES,
    ensures
        ({
            let (next, outcome) = frame_step(
                FrameState::Header(first),
                limit,
                ReplyView::Bytes(rest),
            );
            let len = be32_value(first + rest);
            if len > limit {
                &&& next == FrameState::Done
                &&& outcome == Some(
                    Err::<Option<Seq<u8>>, TransportError>(
                        TransportError::FrameTooLong { len: len as usize, limit },
                    ),
                )
            } else {
                &&& outcome is None
                &&& frame_request(next) == Some(ReadRequest::Exact { len: len as usize })
                &&& len as usize == len <= limit
            }
        }),
{
    law_header_round_trip(0, first + rest);
}

/// Reading a frame ends: each answer leaves a reader with fewer steps to take,
/// and the outcome is known exactly when none is left.
pub proof fn law_reading_terminates(state: FrameState, limit: usize, reply: ReplyView)
    requires
        frame_request(state) is Some,
        answers(frame_request(state)->0, reply),
    ensures
        ({
            let (next, outcome) = frame_step(state, limit, reply);
            &&& frame_rank(next) < frame_rank(state)
            &&& outcome is Some <==> frame_request(next) is None
        }),
{
}

/// Whether header `x` comes before header `y` when they are compared byte by
/// byte from the first on.
pub open spec fn header_before(x: Seq<u8>, y: Seq<u8>) -> bool {
    ||| x[0] < y[0]
    ||| x[0] == y[0] && x[1] < y[1]
    ||| x[0] == y[0] && x[1] == y[1] && x[2] < y[2]
    ||| x[0] == y[0] && x[1] == y[1] && x[2] == y[2] && x[3] < y[3]
}

/// The most significant byte of a header comes first: headers are ordered as the
/// numbers that they announce.
pub proof fn law_headers_are_ordered_as_numbers(a: int, b: int)
    requires
        0 <= a < 0x1_0000_0000,
        0 <= b < 0x1_0000_0000,
    ensures
        be32(a).len() == HEADER_BYTES,
        header_before(be32(a), be32(b)) <==> a < b,
{
    lemma_header_order(be32(a), be32(b));
    assert(be32_value(be32(a)) == a) by {
        law_header_round_trip(a, be32(a));
    }
    assert(be32_value(be32(b)) == b) by {
        law_header_round_trip(b, be32(b));
    }
}

#[verifier::rlimit(40)]
proof fn lemma_header_order(x: Seq<u8>, y: Seq<u8>)
    ensures
        header_before(x, y) <==> be32_value(x) < be32_value(y),
{
}

/// A frame is the header of the body's length and then the body as it is.
pub proof fn law_frame_holds_its_body(body: Seq<u8>)
    requires
        body.len() <= u32::MAX,
    ensures
        frame(body).len() == HEADER_BYTES + body.len(),
        be32_value(frame(body).take(4)) == body.len(),
        frame(body).skip(4) == body,
{
    let len = body.len() as int;
    assert(frame(body).take(4) =~= be32(len));
    assert(frame(body).skip(4) =~= body);
    law_header_round_trip(len, be32(len));
}

/// What is read stands on the stream.
///
/// Nothing is read off a stream exactly if it is empty. A body that is read is
/// within the limit, stands on the stream as a frame, and what follows it is
/// left. Reading fails inside the header exactly if the stream ends there,
/// and inside the body exactly if the stream ends there; a length over the
/// limit is told as it was announced, and nothing behind the header is read.
pub proof fn law_what_is_read_stands_on_the_stream(
    stream: Seq<u8>,
    limit: usize,
    piece: nat,
    fault: String,
)
    requires
        piece <= HEADER_BYTES,
    ensures
        ({
            let (outcome, rest) = read_stream(FrameState::Start, limit, stream, piece, fault);
            let announced = be32_value(stream.take(4));
            match outcome {
                Ok(None) => stream.len() == 0 && rest == stream,
                Ok(Some(body)) => body.len() <= limit && stream == frame(body) + rest,
                Err(TransportError::TruncatedHeader(e)) => 0 < stream.len() < HEADER_BYTES && e
                    == fault,
                Err(TransportError::FrameTooLong { len, limit: allowed }) => {
                    &&& stream.len() >= HEADER_BYTES
                    &&& announced > limit
                    &&& len == announced
                    &&& allowed == limit
                    &&& rest == stream.skip(4)
                },
                Err(TransportError::TruncatedFrame(e)) => {
                    &&& stream.len() >= HEADER_BYTES
                    &&& announced <= limit
                    &&& stream.len() < HEADER_BYTES + announced
                    &&& e == fault
                },
                Err(_) => false,
            }
        }),
{
    law_reading_ignores_fragmentation(stream, limit, piece, fault);
    if stream.len() >= HEADER_BYTES {
        let header = stream.take(4);
        let rest = stream.skip(4);
        let len = be32_value(header);
        law_header_round_trip(0, header);
        if len <= limit && rest.len() >= len {
            let body = rest.take(len);
            assert(be32(body.len() as int) == header);
            assert(stream =~= header + body + rest.skip(len));
            assert(stream =~= frame(body) + rest.skip(len));
        }
    }
}

/// Every read can fail, and else yields bytes: exactly as many as were asked for,
/// or up to that many, where the stream may also be found finished.
pub proof fn law_reads_get_their_replies(request: ReadRequest, reply: ReplyView)
    ensures
        answers(request, reply) <==> match reply {
            ReplyView::Failed(_) => true,
            ReplyView::Finished => request is UpTo,
            ReplyView::Bytes(bytes) => match request {
                ReadRequest::UpTo { max } => bytes.len() <= max,
                ReadRequest::Exact { len } => bytes.len() == len,
            },
        },
{
}

/// A read that fails ends the frame with an error that holds the text of the
/// fault and tells where it came: before anything was read, in the header, or
/// in the body.
pub proof fn law_read_faults_are_told_by_place(state: FrameState, limit: usize, e: String)
    requires
        frame_request(state) is Some,
    ensures
        ({
            let (next, outcome) = frame_step(state, limit, ReplyView::Failed(e));
            &&& frame_request(next) is None
            &&& outcome == Some(
                Err::<Option<Seq<u8>>, TransportError>(
                    if state is Start {
                        TransportError::Read(e)
                    } else if state is Header {
                        TransportError::TruncatedHeader(e)
                    } else {
                        TransportError::TruncatedFrame(e)
                    },
                ),
            )
        }),
{
}

} // verus!
