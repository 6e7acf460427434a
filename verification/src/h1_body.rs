//! The HTTP/1 request body: the decoder that turns buffered bytes into body
//! frames, and the state of the stream that hands those frames on.
use vstd::prelude::*;
use crate::error::{Error, ErrorConfig, ErrorModel, ErrorScope, ErrorSeverity};
use crate::headers::{HeaderList, HeaderModel};
use crate::proto::{header_map_of, header_parse_error, parse_headers, parsed_header_block};

verus! {

/// How a request body is framed.
#[derive(Debug, Clone, Copy, PartialEq, Eq, Structural)]
pub enum BodyEncoding {
    Chunked { max_headers: usize },
    ContentLength(u64),
}

/// What `httparse::parse_chunk_size` makes of a buffer: `None` when the
/// chunk-size line is malformed, `Some(None)` when it is incomplete, else the
/// length of the line and the size it gives.
pub uninterp spec fn parsed_chunk_size(buf: Seq<u8>) -> Option<Option<(nat, nat)>>;

/// Reads a chunk-size line with `httparse::parse_chunk_size`. The outcome is
/// the name `parsed_chunk_size`; that a complete line lies inside the buffer
/// and is at least the two bytes of its CRLF is what httparse's source shows.
#[verifier::external_body]
fn chunk_size(buf: &[u8]) -> (r: Result<Option<(usize, u64)>, ()>)
    ensures
        match r {
            Err(_) => parsed_chunk_size(buf@) is None,
            Ok(None) => parsed_chunk_size(buf@) == Some(None::<(nat, nat)>),
            Ok(Some((n, size))) => parsed_chunk_size(buf@) == Some(Some((n as nat, size as nat)))
                && 2 <= n <= buf@.len(),
        },
{
    match httparse::parse_chunk_size(buf) {
        Ok(httparse::Status::Complete((n, size))) => Ok(Some((n, size))),
        Ok(httparse::Status::Partial) => Ok(None),
        Err(_) => Err(()),
    }
}

/// Where the body decoder stands.
#[derive(Debug, Clone, Copy, PartialEq, Eq, Structural)]
pub enum DecodeState {
    /// About to read a chunk-size line.
    SizeLine,
    /// Copying the data of a chunk of which `remaining` bytes are owed.
    Chunk { remaining: u64 },
    /// As `Chunk`, right after the buffer was empty and has been refilled.
    ChunkRefilled { remaining: u64 },
    /// About to read the trailer block.
    Trailers,
    /// As `Trailers`, right after a refill of a buffer that held `before` bytes.
    TrailersRefilled { before: usize },
    /// Copying a body of known length of which `remaining` bytes are owed.
    Length { remaining: u64 },
    /// As `Length`, right after a refill.
    LengthRefilled { remaining: u64 },
    /// The body has been read.
    Finished,
}

/// What the reader of the connection does next.
pub enum DecodeAction {
    /// Fill the read buffer from the connection, then step again.
    Fill,
    /// Step again without touching the buffer.
    Continue,
    /// Drop the first `n` buffered bytes.
    Consume(usize),
    /// Send the first `n` buffered bytes on as a data frame and drop them.
    Data(usize),
    /// Drop the first `n` buffered bytes and send the trailers on.
    Trailers(usize, HeaderList),
    /// The body has been read.
    Done,
    /// Reading failed.
    Fail(Error),
}

/// The error a decoder failure of this connection is reported with.
pub open spec fn connection_error(e: ErrorModel, context: Seq<char>) -> bool {
    &&& e.kind is None
    &&& e.severity == ErrorSeverity::Debug
    &&& e.scope == ErrorScope::Connection
    &&& e.context == seq![context]
}

/// The state a body starts in.
pub open spec fn initial_state(encoding: BodyEncoding) -> DecodeState {
    match encoding {
        BodyEncoding::Chunked { .. } => DecodeState::SizeLine,
        BodyEncoding::ContentLength(n) => DecodeState::Length { remaining: n },
    }
}

/// The state the decoder of a body framed as `encoding` starts in.
pub fn start_state(encoding: BodyEncoding) -> (r: DecodeState)
    ensures
        r == initial_state(encoding),
{
    match encoding {
        BodyEncoding::Chunked { .. } => DecodeState::SizeLine,
        BodyEncoding::ContentLength(n) => DecodeState::Length { remaining: n },
    }
}

/// The action a step takes, with the header map and error left out.
pub enum ActionKind {
    Fill,
    Continue,
    Consume(nat),
    Data(nat),
    Trailers(nat),
    Done,
    Fail,
}

pub open spec fn action_kind(a: DecodeAction) -> ActionKind {
    match a {
        DecodeAction::Fill => ActionKind::Fill,
        DecodeAction::Continue => ActionKind::Continue,
        DecodeAction::Consume(n) => ActionKind::Consume(n as nat),
        DecodeAction::Data(n) => ActionKind::Data(n as nat),
        DecodeAction::Trailers(n, _) => ActionKind::Trailers(n as nat),
        DecodeAction::Done => ActionKind::Done,
        DecodeAction::Fail(_) => ActionKind::Fail,
    }
}

/// The error a failing step reports.
pub open spec fn step_error(state: DecodeState, buf: Seq<u8>, max_headers: usize, e: ErrorModel) -> bool {
    match state {
        DecodeState::SizeLine => if parsed_chunk_size(buf) is None {
            connection_error(e, "parse chunk size"@)
        } else {
            connection_error(e, "chunk header too large"@)
        },
        DecodeState::Trailers => trailer_error(buf, max_headers, e),
        DecodeState::TrailersRefilled { before } => if buf.len() == before {
            connection_error(e, "Request too short"@)
        } else {
            trailer_error(buf, max_headers, e)
        },
        _ => connection_error(e, "Request too short"@),
    }
}

/// The error a failing step on the trailer block reports.
pub open spec fn trailer_error(buf: Seq<u8>, max_headers: usize, e: ErrorModel) -> bool {
    if parsed_header_block(buf, max_headers as nat) is None {
        header_parse_error(e)
    } else {
        connection_error(e, "trailers too large"@)
    }
}

/// One step of the decoder on the bytes `buf` now buffered: the state it
/// goes to and the action it takes.
pub open spec fn decode_step(state: DecodeState, buf: Seq<u8>, max_headers: usize) -> (
    DecodeState,
    ActionKind,
) {
    let len = buf.len();
    match state {
        DecodeState::SizeLine => match parsed_chunk_size(buf) {
            None => (DecodeState::SizeLine, ActionKind::Fail),
            Some(None) => if len > 128 {
                (DecodeState::SizeLine, ActionKind::Fail)
            } else {
                (DecodeState::SizeLine, ActionKind::Fill)
            },
            Some(Some((n, size))) => if size == 0 {
                (DecodeState::Trailers, ActionKind::Consume(n))
            } else {
                (DecodeState::Chunk { remaining: size as u64 }, ActionKind::Consume(n))
            },
        },
        DecodeState::Chunk { remaining } => if len < remaining {
            if len == 0 {
                (DecodeState::ChunkRefilled { remaining }, ActionKind::Fill)
            } else {
                (DecodeState::Chunk { remaining: (remaining - len) as u64 }, ActionKind::Data(len))
            }
        } else if remaining != 0 {
            (DecodeState::SizeLine, ActionKind::Data(remaining as nat))
        } else {
            (DecodeState::SizeLine, ActionKind::Continue)
        },
        DecodeState::ChunkRefilled { remaining } => if len == 0 {
            (DecodeState::ChunkRefilled { remaining }, ActionKind::Fail)
        } else {
            let n = if len < remaining { len } else { remaining as nat };
            (DecodeState::Chunk { remaining: (remaining - n) as u64 }, ActionKind::Data(n))
        },
        DecodeState::Trailers => trailer_step(buf, max_headers),
        DecodeState::TrailersRefilled { before } => if len == before {
            (DecodeState::TrailersRefilled { before }, ActionKind::Fail)
        } else {
            trailer_step(buf, max_headers)
        },
        DecodeState::Length { remaining } => if remaining == 0 {
            (DecodeState::Finished, ActionKind::Done)
        } else {
            (DecodeState::LengthRefilled { remaining }, ActionKind::Fill)
        },
        DecodeState::LengthRefilled { remaining } => if len == 0 {
            (DecodeState::LengthRefilled { remaining }, ActionKind::Fail)
        } else {
            let n = if len < remaining { len } else { remaining as nat };
            (DecodeState::Length { remaining: (remaining - n) as u64 }, ActionKind::Data(n))
        },
        DecodeState::Finished => (DecodeState::Finished, ActionKind::Done),
    }
}

/// A step on the trailer block.
pub open spec fn trailer_step(buf: Seq<u8>, max_headers: usize) -> (DecodeState, ActionKind) {
    match parsed_header_block(buf, max_headers as nat) {
        None => (DecodeState::Trailers, ActionKind::Fail),
        Some(None) => if buf.len() > 1024 {
            (DecodeState::Trailers, ActionKind::Fail)
        } else {
            (DecodeState::TrailersRefilled { before: buf.len() as usize }, ActionKind::Fill)
        },
        Some(Some((n, _))) => (DecodeState::Finished, ActionKind::Trailers(n)),
    }
}

/// The bytes a body of known length still owes in a state, if it is one.
pub open spec fn owed(state: DecodeState) -> Option<nat> {
    match state {
        DecodeState::Length { remaining } => Some(remaining as nat),
        DecodeState::LengthRefilled { remaining } => Some(remaining as nat),
        DecodeState::Finished => Some(0),
        _ => None,
    }
}

/// A body of known length is handed on byte for byte: a step hands on no
/// more than is owed, what it hands on comes off what is owed, it reads on
/// only while bytes are owed, and it ends only when none are.
pub proof fn law_length_body_accounting(state: DecodeState, buf: Seq<u8>, max_headers: usize)
    requires
        owed(state) is Some,
    ensures
        owed(decode_step(state, buf, max_headers).0) is Some,
        ({
            let (next, action) = decode_step(state, buf, max_headers);
            let before = owed(state).unwrap();
            let after = owed(next).unwrap();
            match action {
                ActionKind::Data(n) => n <= before && n <= buf.len() && after == before - n,
                ActionKind::Done => before == 0 && after == 0,
                ActionKind::Fill => before > 0 && after == before,
                ActionKind::Fail => after == before,
                _ => false,
            }
        }),
{
}

/// The state the decoder reaches after one step on each of the buffers.
pub open spec fn decode_run(state: DecodeState, bufs: Seq<Seq<u8>>, max_headers: usize) -> DecodeState
    decreases bufs.len(),
{
    if bufs.len() == 0 {
        state
    } else {
        decode_run(decode_step(state, bufs[0], max_headers).0, bufs.drop_first(), max_headers)
    }
}

/// How many bytes the decoder hands on as data over those steps.
pub open spec fn data_handed(state: DecodeState, bufs: Seq<Seq<u8>>, max_headers: usize) -> nat
    decreases bufs.len(),
{
    if bufs.len() == 0 {
        0
    } else {
        let (next, action) = decode_step(state, bufs[0], max_headers);
        (match action {
            ActionKind::Data(n) => n,
            _ => 0,
        }) + data_handed(next, bufs.drop_first(), max_headers)
    }
}

/// Over any run of steps, a body of known length hands on exactly the bytes
/// it no longer owes; once it has finished it has handed on its whole length.
pub proof fn law_length_body_total(state: DecodeState, bufs: Seq<Seq<u8>>, max_headers: usize)
    requires
        owed(state) is Some,
    ensures
        owed(decode_run(state, bufs, max_headers)) is Some,
        data_handed(state, bufs, max_headers) + owed(decode_run(state, bufs, max_headers)).unwrap()
            == owed(state).unwrap(),
        decode_run(state, bufs, max_headers) == DecodeState::Finished ==> data_handed(
            state,
            bufs,
            max_headers,
        ) == owed(state).unwrap(),
    decreases bufs.len(),
{
    if bufs.len() > 0 {
        law_length_body_accounting(state, bufs[0], max_headers);
        law_length_body_total(decode_step(state, bufs[0], max_headers).0, bufs.drop_first(), max_headers);
    }
}

/// The bytes a chunk still owes in a state, if it is one.
pub open spec fn chunk_owed(state: DecodeState) -> Option<nat> {
    match state {
        DecodeState::Chunk { remaining } => Some(remaining as nat),
        DecodeState::ChunkRefilled { remaining } => Some(remaining as nat),
        DecodeState::SizeLine => Some(0),
        _ => None,
    }
}

/// The data of a chunk is handed on byte for byte: what a step hands on
/// comes off what the chunk owes, never more, and the chunk ends when
/// nothing is owed.
pub proof fn law_chunk_accounting(state: DecodeState, buf: Seq<u8>, max_headers: usize)
    requires
        state is Chunk || state is ChunkRefilled,
    ensures
        ({
            let (next, action) = decode_step(state, buf, max_headers);
            let before = chunk_owed(state).unwrap();
            &&& chunk_owed(next) is Some
            &&& match action {
                ActionKind::Data(n) => n <= before && n <= buf.len() && chunk_owed(next).unwrap()
                    == before - n,
                ActionKind::Continue => before == 0 && next == DecodeState::SizeLine,
                ActionKind::Fill => before > 0 && chunk_owed(next).unwrap() == before,
                ActionKind::Fail => chunk_owed(next).unwrap() == before,
                _ => false,
            }
        }),
{
}

fn connection_fail(context: &'static str) -> (r: DecodeAction)
    ensures
        r matches DecodeAction::Fail(e) && connection_error(e@, context@),
{
    let e = ErrorConfig {
        severity: ErrorSeverity::Debug,
        scope: ErrorScope::Connection,
        context,
    }.build();
    DecodeAction::Fail(e)
}

fn trailer_block(buf: &[u8], max_headers: usize) -> (r: (DecodeState, DecodeAction))
    ensures
        (r.0, action_kind(r.1)) == trailer_step(buf@, max_headers),
        r.1 matches DecodeAction::Trailers(n, h) ==> parsed_header_block(buf@, max_headers as nat)
            matches Some(Some((m, fields))) && m == n && h@ == header_map_of(fields) && n
            <= buf@.len(),
        r.1 matches DecodeAction::Fail(e) ==> trailer_error(buf@, max_headers, e@),
{
    match parse_headers(buf, max_headers) {
        Err(e) => (DecodeState::Trailers, DecodeAction::Fail(e)),
        Ok(None) => {
            if buf.len() > 1024 {
                (DecodeState::Trailers, connection_fail("trailers too large"))
            } else {
                (DecodeState::TrailersRefilled { before: buf.len() }, DecodeAction::Fill)
            }
        },
        Ok(Some((n, headers))) => (DecodeState::Finished, DecodeAction::Trailers(n, headers)),
    }
}

/// One step of the body decoder on the bytes now buffered, as
/// [`decode_step`] describes. Every byte count it names lies within the
/// buffer; the trailers it hands on are the header map of the trailer block.
pub fn body_step(state: DecodeState, buf: &[u8], max_headers: usize) -> (r: (DecodeState, DecodeAction))
    ensures
        (r.0, action_kind(r.1)) == decode_step(state, buf@, max_headers),
        r.1 matches DecodeAction::Consume(n) ==> n <= buf@.len(),
        r.1 matches DecodeAction::Data(n) ==> n <= buf@.len(),
        r.1 matches DecodeAction::Trailers(n, h) ==> parsed_header_block(buf@, max_headers as nat)
            matches Some(Some((m, fields))) && m == n && h@ == header_map_of(fields) && n
            <= buf@.len(),
        r.1 matches DecodeAction::Fail(e) ==> step_error(state, buf@, max_headers, e@),
{
    let len = buf.len();
    proof {
        reveal_strlit("Request too short");
        reveal_strlit("trailers too large");
    }
    match state {
        DecodeState::SizeLine => match chunk_size(buf) {
            Err(_) => (DecodeState::SizeLine, connection_fail("parse chunk size")),
            Ok(None) => {
                if len > 128 {
                    (DecodeState::SizeLine, connection_fail("chunk header too large"))
                } else {
                    (DecodeState::SizeLine, DecodeAction::Fill)
                }
            },
            Ok(Some((n, size))) => {
                if size == 0 {
                    (DecodeState::Trailers, DecodeAction::Consume(n))
                } else {
                    (DecodeState::Chunk { remaining: size }, DecodeAction::Consume(n))
                }
            },
        },
        DecodeState::Chunk { remaining } => {
            if (len as u64) < remaining {
                if len == 0 {
                    (DecodeState::ChunkRefilled { remaining }, DecodeAction::Fill)
                } else {
                    (DecodeState::Chunk { remaining: remaining - len as u64 }, DecodeAction::Data(len))
                }
            } else if remaining != 0 {
                (DecodeState::SizeLine, DecodeAction::Data(remaining as usize))
            } else {
                (DecodeState::SizeLine, DecodeAction::Continue)
            }
        },
        DecodeState::ChunkRefilled { remaining } => {
            if len == 0 {
                (DecodeState::ChunkRefilled { remaining }, connection_fail("Request too short"))
            } else {
                let n = if (len as u64) < remaining {
                    len
                } else {
                    remaining as usize
                };
                (DecodeState::Chunk { remaining: remaining - n as u64 }, DecodeAction::Data(n))
            }
        },
        DecodeState::Trailers => trailer_block(buf, max_headers),
        DecodeState::TrailersRefilled { before } => {
            if len == before {
                (DecodeState::TrailersRefilled { before }, connection_fail("Request too short"))
            } else {
                trailer_block(buf, max_headers)
            }
        },
        DecodeState::Length { remaining } => {
            if remaining == 0 {
                (DecodeState::Finished, DecodeAction::Done)
            } else {
                (DecodeState::LengthRefilled { remaining }, DecodeAction::Fill)
            }
        },
        DecodeState::LengthRefilled { remaining } => {
            if len == 0 {
                (DecodeState::LengthRefilled { remaining }, connection_fail("Request too short"))
            } else {
                let n = if (len as u64) < remaining {
                    len
                } else {
                    remaining as usize
                };
                (DecodeState::Length { remaining: remaining - n as u64 }, DecodeAction::Data(n))
            }
        },
        DecodeState::Finished => (DecodeState::Finished, DecodeAction::Done),
    }
}


/// Where a received body stands, as seen by the side that reads it.
#[derive(Debug, Clone, Copy, PartialEq, Eq, Structural)]
pub enum RecvState {
    /// `remaining` more bytes are expected.
    SizeKnown(u64),
    SizeUnknown,
    BodyComplete,
    TrailerComplete,
}

/// A bound on the size of a body: at least `lower` bytes, at most `upper`.
#[derive(Debug, Clone, Copy, PartialEq, Eq, Structural)]
pub struct SizeHint {
    pub lower: u64,
    pub upper: Option<u64>,
}

impl SizeHint {
    /// The bound that holds of every body.
    pub fn new() -> (r: Self)
        ensures
            r == (SizeHint { lower: 0, upper: None }),
    {
        SizeHint { lower: 0, upper: None }
    }

    /// The bound of a body of exactly `n` bytes.
    pub fn with_exact(n: u64) -> (r: Self)
        ensures
            r == (SizeHint { lower: n, upper: Some(n) }),
    {
        SizeHint { lower: n, upper: Some(n) }
    }

    /// The exact size, when the bound pins it.
    pub fn exact(&self) -> (r: Option<u64>)
        ensures
            r == (if self.upper == Some(self.lower) { Some(self.lower) } else { None }),
    {
        match self.upper {
            Some(u) => if u == self.lower {
                Some(u)
            } else {
                None
            },
            None => None,
        }
    }
}

/// What came out of the channel the body decoder feeds.
#[derive(Debug, Clone, Copy, PartialEq, Eq, Structural)]
pub enum RecvEvent {
    /// A data frame of `len` bytes.
    Data(u64),
    /// The trailers.
    Trailers,
    /// The channel closed.
    Closed,
}

/// What the reader of the body is handed.
#[derive(Debug, Clone, Copy, PartialEq, Eq, Structural)]
pub enum RecvOutcome {
    /// The frame that came in.
    Frame,
    /// The end of the body.
    End,
    /// The error "Request too short" of kind unexpected end of file.
    TooShort,
}

/// The state after a frame of `len` data bytes.
pub open spec fn after_data(state: RecvState, len: u64) -> RecvState {
    match state {
        RecvState::SizeKnown(r) => if r >= len {
            RecvState::SizeKnown((r - len) as u64)
        } else {
            RecvState::BodyComplete
        },
        _ => state,
    }
}

impl RecvState {
    /// A body of `size` bytes, or of unknown size.
    pub fn new(size: Option<u64>) -> (r: Self)
        ensures
            r == (match size {
                Some(n) => RecvState::SizeKnown(n),
                None => RecvState::SizeUnknown,
            }),
    {
        match size {
            Some(n) => RecvState::SizeKnown(n),
            None => RecvState::SizeUnknown,
        }
    }

    /// Whether the channel is read at all: after the trailers the body has
    /// ended and nothing more is read.
    pub fn must_poll(&self) -> (r: bool)
        ensures
            r == (*self != RecvState::TrailerComplete),
    {
        !matches!(self, RecvState::TrailerComplete)
    }

    /// Takes in what the channel gave: a data frame counts against a known
    /// size (a frame larger than what is owed completes the body), trailers
    /// complete it, and a channel that closes before the body completed is
    /// an error.
    pub fn on_event(&mut self, event: RecvEvent) -> (r: RecvOutcome)
        requires
            *old(self) != RecvState::TrailerComplete,
        ensures
            match event {
                RecvEvent::Data(len) => *final(self) == after_data(*old(self), len) && r
                    == RecvOutcome::Frame,
                RecvEvent::Trailers => *final(self) == RecvState::TrailerComplete && r
                    == RecvOutcome::Frame,
                RecvEvent::Closed => *final(self) == *old(self) && r == (if *old(self)
                    == RecvState::BodyComplete {
                    RecvOutcome::End
                } else {
                    RecvOutcome::TooShort
                }),
            },
    {
        match event {
            RecvEvent::Data(len) => {
                match *self {
                    RecvState::SizeKnown(r) => {
                        if r >= len {
                            *self = RecvState::SizeKnown(r - len);
                        } else {
                            *self = RecvState::BodyComplete;
                        }
                    },
                    _ => {},
                }
                RecvOutcome::Frame
            },
            RecvEvent::Trailers => {
                *self = RecvState::TrailerComplete;
                RecvOutcome::Frame
            },
            RecvEvent::Closed => {
                if matches!(self, RecvState::BodyComplete | RecvState::TrailerComplete) {
                    RecvOutcome::End
                } else {
                    RecvOutcome::TooShort
                }
            },
        }
    }

    /// Whether the body has ended.
    pub fn is_end_stream(&self) -> (r: bool)
        ensures
            r == (*self == RecvState::BodyComplete || *self == RecvState::TrailerComplete),
    {
        matches!(self, RecvState::BodyComplete | RecvState::TrailerComplete)
    }

    /// The size still to come.
    pub fn size_hint(&self) -> (r: SizeHint)
        ensures
            r == (match *self {
                RecvState::SizeKnown(n) => SizeHint { lower: n, upper: Some(n) },
                RecvState::SizeUnknown => SizeHint { lower: 0, upper: None },
                _ => SizeHint { lower: 0, upper: Some(0) },
            }),
    {
        match self {
            RecvState::SizeKnown(n) => SizeHint::with_exact(*n),
            RecvState::SizeUnknown => SizeHint::new(),
            RecvState::BodyComplete => SizeHint::with_exact(0),
            RecvState::TrailerComplete => SizeHint::with_exact(0),
        }
    }
}

} // verus!
