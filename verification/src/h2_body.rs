//! HTTP/2 bodies: the state of a received body, the reading of its
//! declared length, and the framing of a body being sent.
use vstd::prelude::*;
use crate::error::{Error, ErrorConfig, ErrorKind, ErrorModel, ErrorScope, ErrorSeverity};
use crate::h1_body::{RecvState, SizeHint};
use crate::proto::visible_text;

verus! {

/// What the next poll of a received HTTP/2 body reads.
#[derive(Debug, Clone, Copy, PartialEq, Eq, Structural)]
pub enum H2Read {
    /// The body has ended: nothing is read.
    Nothing,
    /// The next data frame.
    Data,
    /// The trailers.
    Trailers,
}

/// What a poll of the data of the stream gave.
#[derive(Debug, Clone, Copy, PartialEq, Eq, Structural)]
pub enum DataPoll {
    Pending,
    Data,
    Failed,
    Ended,
}

/// What a poll of the trailers of the stream gave.
#[derive(Debug, Clone, Copy, PartialEq, Eq, Structural)]
pub enum TrailerPoll {
    Pending,
    Absent,
    Present,
    Failed,
}

/// What the reader of the body is handed.
#[derive(Debug, Clone, Copy, PartialEq, Eq, Structural)]
pub enum H2Outcome {
    Pending,
    /// The frame that came in.
    Frame,
    /// The error that came in, with context `http2 body data`.
    DataError,
    /// The error that came in, with context `http2 body trailers`.
    TrailerError,
    /// The data is over: read the trailers within the same poll.
    ReadTrailers,
    /// The end of the body.
    End,
}

/// What the next poll reads.
pub open spec fn next_read(state: RecvState) -> H2Read {
    match state {
        RecvState::TrailerComplete => H2Read::Nothing,
        RecvState::BodyComplete => H2Read::Trailers,
        _ => H2Read::Data,
    }
}

/// What the next poll of a received body reads: nothing once the trailers
/// came, the trailers once the data is over, else the data.
pub fn h2_next_read(state: RecvState) -> (r: H2Read)
    ensures
        r == next_read(state),
{
    match state {
        RecvState::TrailerComplete => H2Read::Nothing,
        RecvState::BodyComplete => H2Read::Trailers,
        _ => H2Read::Data,
    }
}

/// Takes in a poll of the data: the end of the data completes the body and
/// the trailers are read next; data and errors leave the state as it was.
pub fn h2_on_data(state: &mut RecvState, poll: DataPoll) -> (r: H2Outcome)
    ensures
        match poll {
            DataPoll::Pending => r == H2Outcome::Pending && *final(state) == *old(state),
            DataPoll::Data => r == H2Outcome::Frame && *final(state) == *old(state),
            DataPoll::Failed => r == H2Outcome::DataError && *final(state) == *old(state),
            DataPoll::Ended => r == H2Outcome::ReadTrailers && *final(state)
                == RecvState::BodyComplete,
        },
{
    match poll {
        DataPoll::Pending => H2Outcome::Pending,
        DataPoll::Data => H2Outcome::Frame,
        DataPoll::Failed => H2Outcome::DataError,
        DataPoll::Ended => {
            *state = RecvState::BodyComplete;
            H2Outcome::ReadTrailers
        },
    }
}

/// Takes in a poll of the trailers: trailers or their absence complete the
/// body; an error leaves the data complete.
pub fn h2_on_trailers(state: &mut RecvState, poll: TrailerPoll) -> (r: H2Outcome)
    ensures
        match poll {
            TrailerPoll::Pending => r == H2Outcome::Pending && *final(state) == *old(state),
            TrailerPoll::Absent => r == H2Outcome::End && *final(state) == RecvState::TrailerComplete,
            TrailerPoll::Present => r == H2Outcome::Frame && *final(state)
                == RecvState::TrailerComplete,
            TrailerPoll::Failed => r == H2Outcome::TrailerError && *final(state)
                == RecvState::BodyComplete,
        },
{
    match poll {
        TrailerPoll::Pending => H2Outcome::Pending,
        TrailerPoll::Absent => {
            *state = RecvState::TrailerComplete;
            H2Outcome::End
        },
        TrailerPoll::Present => {
            *state = RecvState::TrailerComplete;
            H2Outcome::Frame
        },
        TrailerPoll::Failed => {
            *state = RecvState::BodyComplete;
            H2Outcome::TrailerError
        },
    }
}

/// Whether a received body has ended: the stream says so, or the trailers
/// came.
pub fn h2_is_end_stream(state: RecvState, stream_ended: bool) -> (r: bool)
    ensures
        r == (stream_ended || state == RecvState::TrailerComplete),
{
    stream_ended || matches!(state, RecvState::TrailerComplete)
}

/// The size still to come of a received body.
pub fn h2_size_hint(state: RecvState) -> (r: SizeHint)
    ensures
        r == (match state {
            RecvState::SizeKnown(n) => SizeHint { lower: n, upper: Some(n) },
            RecvState::SizeUnknown => SizeHint { lower: 0, upper: None },
            _ => SizeHint { lower: 0, upper: Some(0) },
        }),
{
    state.size_hint()
}

/// The error a failed read of a received body is reported with: the cause,
/// of unknown severity, in the request, with the context of what was read.
pub fn h2_body_error(cause: String, trailers: bool) -> (r: Error)
    ensures
        r@.kind == Some(ErrorKind::Unknown(cause)),
        r@.severity == ErrorSeverity::Unknown,
        r@.scope == ErrorScope::Request,
        r@.context == seq![if trailers { "http2 body trailers"@ } else { "http2 body data"@ }],
{
    let context = if trailers {
        "http2 body trailers"
    } else {
        "http2 body data"
    };
    Error::with_kind(ErrorKind::Unknown(cause)).with_config(
        ErrorConfig { severity: ErrorSeverity::Unknown, scope: ErrorScope::Request, context },
    )
}

/// The length a `content-length` field declares, if it is visible text and
/// a decimal number.
pub open spec fn declared_length(value: Seq<u8>) -> Option<u64> {
    if visible_text(value) {
        crate::h1::decimal_text(crate::h1::chars_of(value))
    } else {
        None
    }
}

/// Reads the `content-length` field of a request: its absence is no length;
/// a value that is not a decimal number is refused.
pub fn h2_content_length(value: Option<&[u8]>) -> (r: Result<Option<u64>, Error>)
    ensures
        match value {
            None => r == Ok::<Option<u64>, Error>(None),
            Some(v) => match declared_length(v@) {
                Some(n) => r == Ok::<Option<u64>, Error>(Some(n)),
                None => r matches Err(e) && e@.kind is None && e@.severity == ErrorSeverity::Debug
                    && e@.scope == ErrorScope::Request && e@.context == seq![
                    "bad content length header"@,
                ],
            },
        },
{
    match value {
        None => Ok(None),
        Some(v) => match crate::h1::content_length_value(v) {
            Some(n) => Ok(Some(n)),
            None => Err(
                Error::new().with_config(
                    ErrorConfig {
                        severity: ErrorSeverity::Debug,
                        scope: ErrorScope::Request,
                        context: "bad content length header",
                    },
                ),
            ),
        },
    }
}

/// The HTTP/2 settings a connection is served with: a server without them
/// cannot serve HTTP/2, which is an error of the connection.
pub fn http2_settings(settings: Option<h2::server::Builder>) -> (r: Result<h2::server::Builder, Error>)
    ensures
        match settings {
            Some(b) => r matches Ok(x) && x == b,
            None => r matches Err(e) && e@.kind is None && e@.severity == ErrorSeverity::Debug
                && e@.scope == ErrorScope::Connection && e@.context == seq![
                "http2 builder not configured"@,
            ],
        },
{
    match settings {
        Some(b) => Ok(b),
        None => Err(
            ErrorConfig {
                severity: ErrorSeverity::Debug,
                scope: ErrorScope::Connection,
                context: "http2 builder not configured",
            }.build(),
        ),
    }
}

/// The frame sent next on a stream carrying a response body.
#[derive(Debug, Clone, Copy, PartialEq, Eq, Structural)]
pub enum SendFrame {
    /// A data frame, marked as the last when `end` holds.
    Data { end: bool },
    /// The trailers, which end the stream.
    Trailers,
    /// Nothing.
    Skip,
}

/// What the body yielded.
#[derive(Debug, Clone, Copy, PartialEq, Eq, Structural)]
pub enum BodyYield {
    /// Data; `body_ended` tells whether the body says it has ended.
    Data { body_ended: bool },
    Trailers,
    /// A frame that is neither.
    Other,
}

/// Whether a body being sent has closed its stream.
pub struct H2Sender {
    pub closed: bool,
}

impl H2Sender {
    pub fn new() -> (r: Self)
        ensures
            !r.closed,
    {
        H2Sender { closed: false }
    }

    /// The frame to send for what the body yielded, and whether sending stops
    /// after it: data is sent as the last frame when the body has ended,
    /// trailers close the stream.
    pub fn on_yield(&mut self, y: BodyYield) -> (r: (SendFrame, bool))
        ensures
            match y {
                BodyYield::Data { body_ended } => r == (SendFrame::Data { end: body_ended }, body_ended)
                    && final(self).closed == body_ended,
                BodyYield::Trailers => r == (SendFrame::Trailers, true) && final(self).closed,
                BodyYield::Other => r == (SendFrame::Skip, false) && final(self).closed
                    == old(self).closed,
            },
    {
        match y {
            BodyYield::Data { body_ended } => {
                self.closed = body_ended;
                (SendFrame::Data { end: body_ended }, body_ended)
            },
            BodyYield::Trailers => {
                self.closed = true;
                (SendFrame::Trailers, true)
            },
            BodyYield::Other => (SendFrame::Skip, false),
        }
    }

    /// Whether an empty last data frame is needed to end the stream.
    pub fn needs_final_frame(&self) -> (r: bool)
        ensures
            r == !self.closed,
    {
        !self.closed
    }
}

} // verus!
