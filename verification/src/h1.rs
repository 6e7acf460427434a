//! HTTP/1 request handling: reading a request head, deciding how its body
//! is framed and whether the connection stays open, and preparing the
//! response head.
use vstd::prelude::*;
use crate::bytes_util::{all_ascii, ascii};
use crate::error::{Error, ErrorConfig, ErrorKind, ErrorModel, ErrorScope, ErrorSeverity};
use crate::h1_body::BodyEncoding;
use crate::headers::{
    header_get, header_insert, header_without, Header, HeaderList, HeaderModel,
};
use crate::proto::{
    ascii_vec, canonical_header_name, header_block, header_name, header_value_ok,
    lemma_insert_visible, lemma_without_visible, response_headers, status_line,
    valid_header_value, values_visible, visible_text, write_response, HttpVersion, ResponseHead,
};
use crate::text::{all_chunked, eq_ignore_ascii_case, eq_ignore_case, lemma_split_nonempty, only_chunked};

verus! {

/// Whether the connection stays open after a request.
#[derive(Debug, Clone, Copy, PartialEq, Eq, Structural)]
pub enum ConnectionState {
    KeepAlive,
    Close,
    Upgrade,
    NotSpecified(HttpVersion),
}

/// The head of a request.
#[derive(Debug)]
pub struct RequestHead {
    pub method: Vec<u8>,
    pub version: HttpVersion,
    pub uri: Vec<u8>,
    pub headers: HeaderList,
}

/// How a request is to be handled: what becomes of the connection, how the
/// body is framed when the method has one, and the declared content length.
#[derive(Debug, Clone, Copy, PartialEq, Eq, Structural)]
pub struct RequestPlan {
    pub connection: ConnectionState,
    pub body: Option<BodyEncoding>,
    pub content_length: Option<u64>,
}

/// The value of a decimal text as `u64::from_str` reads it: an optional `+`
/// and then one or more digits, of a value that fits in 64 bits.
pub open spec fn digits_value(d: Seq<char>) -> nat
    decreases d.len(),
{
    if d.len() == 0 {
        0
    } else {
        digits_value(d.drop_last()) * 10 + (d.last() as nat - 48) as nat
    }
}

pub open spec fn decimal_text(s: Seq<char>) -> Option<u64> {
    let d = if s.len() > 0 && s[0] == '+' { s.drop_first() } else { s };
    if d.len() > 0 && (forall|i: int| 0 <= i < d.len() ==> '0' <= #[trigger] d[i] <= '9')
        && digits_value(d) <= u64::MAX {
        Some(digits_value(d) as u64)
    } else {
        None
    }
}

/// The characters of bytes that are ASCII.
pub open spec fn chars_of(v: Seq<u8>) -> Seq<char> {
    v.map_values(|b: u8| b as char)
}

/// Reads a header value as text with `http::HeaderValue::to_str`, which
/// succeeds exactly on visible ASCII (and tab). The text it gives is the
/// value's bytes; a refusal comes with the text of the error, not stated.
#[verifier::external_body]
fn header_to_str(value: &[u8]) -> (r: Result<String, String>)
    ensures
        match r {
            Ok(t) => visible_text(value@) && t@ == chars_of(value@),
            Err(_) => !visible_text(value@),
        },
{
    match http::HeaderValue::from_bytes(value) {
        Ok(v) => v.to_str().map(|s| s.to_string()).map_err(|e| e.to_string()),
        Err(e) => Err(e.to_string()),
    }
}

/// Reads a decimal number with `str::parse::<u64>`, which takes an optional
/// `+` followed by digits only and refuses values beyond `u64::MAX`. A
/// refusal comes with the text of the error, not stated.
#[verifier::external_body]
fn parse_u64(s: &str) -> (r: Result<u64, String>)
    ensures
        match r {
            Ok(n) => decimal_text(s@) == Some(n),
            Err(_) => decimal_text(s@) is None,
        },
{
    s.parse::<u64>().map_err(|e| e.to_string())
}

/// How a failed request is reported: its context, and whether it carries the
/// error that caused it.
pub open spec fn request_error(e: ErrorModel, context: Seq<char>, caused: bool) -> bool {
    &&& (e.kind is Some) == caused
    &&& caused ==> (e.kind matches Some(ErrorKind::Unknown(_)))
    &&& e.severity == ErrorSeverity::Debug
    &&& e.scope == ErrorScope::Request
    &&& e.context == seq![context]
}

/// The outcome of planning a request: a plan, or the context of the error and
/// whether a cause comes with it.
pub enum PlanOutcome {
    Plan(RequestPlan),
    Refuse(Seq<char>, bool),
}

/// How a request with header fields `h` is handled, as its `connection`,
/// `content-length` and `transfer-encoding` fields decide.
pub open spec fn plan_of(h: Seq<HeaderModel>, version: HttpVersion, has_body: bool, max_headers: usize) -> PlanOutcome {
    let conn = header_get(h, ascii("connection"@));
    let cl = header_get(h, ascii("content-length"@));
    let te = header_get(h, ascii("transfer-encoding"@));
    if conn matches Some(c) && !visible_text(c) {
        PlanOutcome::Refuse("bad connection header"@, true)
    } else if cl matches Some(c) && !visible_text(c) {
        PlanOutcome::Refuse("bad content length header"@, true)
    } else if cl matches Some(c) && decimal_text(chars_of(c)) is None {
        PlanOutcome::Refuse("bad content length header"@, true)
    } else if te matches Some(t) && !visible_text(t) {
        PlanOutcome::Refuse("bad transfer encoding header"@, true)
    } else if te matches Some(t) && !all_chunked(t) {
        PlanOutcome::Refuse("bad transfer encoding header"@, false)
    } else if conn matches Some(c) && !(eq_ignore_case(c, ascii("keep-alive"@)) || eq_ignore_case(
        c,
        ascii("close"@),
    ) || eq_ignore_case(c, ascii("upgrade"@))) {
        PlanOutcome::Refuse("bad connection header"@, false)
    } else if has_body && cl is Some && te is Some {
        PlanOutcome::Refuse("cannot have both content length and chunked transfer encoding"@, false)
    } else if has_body && cl is None && te is None {
        PlanOutcome::Refuse("no content length or transfer encoding specified"@, false)
    } else {
        let content_length = match cl {
            Some(c) => decimal_text(chars_of(c)),
            None => None,
        };
        let connection = match conn {
            Some(c) => if eq_ignore_case(c, ascii("keep-alive"@)) {
                ConnectionState::KeepAlive
            } else if eq_ignore_case(c, ascii("close"@)) {
                ConnectionState::Close
            } else {
                ConnectionState::Upgrade
            },
            None => ConnectionState::NotSpecified(version),
        };
        let body = if !has_body {
            None
        } else if te is Some {
            Some(BodyEncoding::Chunked { max_headers })
        } else {
            Some(BodyEncoding::ContentLength(content_length.unwrap()))
        };
        PlanOutcome::Plan(RequestPlan { connection, body, content_length })
    }
}

fn refuse(context: &'static str) -> (r: Error)
    ensures
        request_error(r@, context@, false),
{
    ErrorConfig { severity: ErrorSeverity::Debug, scope: ErrorScope::Request, context }.build()
}

fn refuse_caused(cause: String, context: &'static str) -> (r: Error)
    ensures
        request_error(r@, context@, true),
{
    Error::with_kind(ErrorKind::Unknown(cause)).with_config(
        ErrorConfig { severity: ErrorSeverity::Debug, scope: ErrorScope::Request, context },
    )
}

/// Decides how a request is handled, from its header fields, its version,
/// whether its method carries a body and the number of trailer fields
/// allowed, as [`plan_of`] describes.
pub fn plan_request(head: &RequestHead, has_body: bool, max_headers: usize) -> (r: Result<RequestPlan, Error>)
    ensures
        match plan_of(head.headers@, head.version, has_body, max_headers) {
            PlanOutcome::Plan(p) => r == Ok::<RequestPlan, Error>(p),
            PlanOutcome::Refuse(context, caused) => r matches Err(e) && request_error(
                e@,
                context,
                caused,
            ),
        },
{
    proof {
        reveal_strlit("connection");
        reveal_strlit("content-length");
        reveal_strlit("transfer-encoding");
        reveal_strlit("keep-alive");
        reveal_strlit("close");
        reveal_strlit("upgrade");
    }
    let connection_name = ascii_vec("connection");
    let length_name = ascii_vec("content-length");
    let coding_name = ascii_vec("transfer-encoding");
    let conn = head.headers.get(connection_name.as_slice());
    if let Some(c) = conn {
        if let Err(e) = header_to_str(c.as_slice()) {
            return Err(refuse_caused(e, "bad connection header"));
        }
    }
    let cl = head.headers.get(length_name.as_slice());
    let mut content_length: Option<u64> = None;
    if let Some(c) = cl {
        match header_to_str(c.as_slice()) {
            Err(e) => {
                return Err(refuse_caused(e, "bad content length header"));
            },
            Ok(text) => match parse_u64(text.as_str()) {
                Err(e) => {
                    return Err(refuse_caused(e, "bad content length header"));
                },
                Ok(n) => {
                    content_length = Some(n);
                },
            },
        }
    }
    let te = head.headers.get(coding_name.as_slice());
    let mut is_chunked = false;
    if let Some(t) = te {
        if let Err(e) = header_to_str(t.as_slice()) {
            return Err(refuse_caused(e, "bad transfer encoding header"));
        }
        if !only_chunked(t.as_slice()) {
            return Err(refuse("bad transfer encoding header"));
        }
        is_chunked = true;
    }
    let keep_alive = ascii_vec("keep-alive");
    let close = ascii_vec("close");
    let upgrade = ascii_vec("upgrade");
    let connection = match conn {
        Some(c) => {
            if eq_ignore_ascii_case(c.as_slice(), keep_alive.as_slice()) {
                ConnectionState::KeepAlive
            } else if eq_ignore_ascii_case(c.as_slice(), close.as_slice()) {
                ConnectionState::Close
            } else if eq_ignore_ascii_case(c.as_slice(), upgrade.as_slice()) {
                ConnectionState::Upgrade
            } else {
                return Err(refuse("bad connection header"));
            }
        },
        None => ConnectionState::NotSpecified(head.version),
    };
    let body = if has_body {
        match (content_length, is_chunked) {
            (Some(_), true) => {
                return Err(refuse("cannot have both content length and chunked transfer encoding"));
            },
            (None, true) => Some(BodyEncoding::Chunked { max_headers }),
            (Some(n), false) => Some(BodyEncoding::ContentLength(n)),
            (None, false) => {
                return Err(refuse("no content length or transfer encoding specified"));
            },
        }
    } else {
        None
    };
    Ok(RequestPlan { connection, body, content_length })
}


/// The state a `connection` field of the handler's response moves the
/// connection to.
pub open spec fn response_connection(state: ConnectionState, h: Seq<HeaderModel>) -> ConnectionState {
    match header_get(h, ascii("connection"@)) {
        Some(v) => if !visible_text(v) {
            state
        } else if eq_ignore_case(v, ascii("close"@)) {
            ConnectionState::Close
        } else if eq_ignore_case(v, ascii("keep-alive"@)) {
            ConnectionState::KeepAlive
        } else if eq_ignore_case(v, ascii("upgrade"@)) {
            ConnectionState::Upgrade
        } else {
            state
        },
        None => state,
    }
}

/// The `connection` value a response is sent with, and the state the
/// connection ends in.
pub open spec fn connection_reply(state: ConnectionState) -> (Seq<u8>, ConnectionState) {
    match state {
        ConnectionState::KeepAlive => (ascii("keep-alive"@), state),
        ConnectionState::Close => (ascii("close"@), state),
        ConnectionState::NotSpecified(HttpVersion::Http10) => (ascii("close"@), state),
        ConnectionState::NotSpecified(HttpVersion::Http11) => (ascii("keep-alive"@), state),
        ConnectionState::Upgrade => (ascii("upgrade"@), state),
        ConnectionState::NotSpecified(_) => (ascii("close"@), ConnectionState::Close),
    }
}

/// The `connection` value a response is sent with and the state the
/// connection ends in, when the server does or does not let connections be
/// reused: without reuse, a connection that would be kept alive is closed.
pub open spec fn final_connection(state: ConnectionState, h: Seq<HeaderModel>, keep_alive: bool) -> (
    Seq<u8>,
    ConnectionState,
) {
    let reply = connection_reply(response_connection(state, h));
    if !keep_alive && reply.0 == ascii("keep-alive"@) {
        (ascii("close"@), ConnectionState::Close)
    } else {
        reply
    }
}

/// The header fields a response head is completed with: a `date` and a
/// `server` field unless the handler set them (the latter only when the
/// server has a name), and the `connection` field of [`final_connection`]
/// in place of the handler's.
pub open spec fn completed_headers(
    h: Seq<HeaderModel>,
    state: ConnectionState,
    date: Seq<u8>,
    server_name: Option<Seq<u8>>,
    keep_alive: bool,
) -> Seq<HeaderModel> {
    let h1 = if header_get(h, ascii("date"@)) is Some {
        h
    } else {
        header_insert(h, ascii("date"@), date)
    };
    let h2 = if header_get(h1, ascii("server"@)) is None && server_name is Some {
        header_insert(h1, ascii("server"@), server_name.unwrap())
    } else {
        h1
    };
    let h3 = header_without(h2, ascii("connection"@));
    header_insert(h3, ascii("connection"@), final_connection(state, h, keep_alive).0)
}

/// Completes the handler's response head as [`completed_headers`] describes
/// and returns the state the connection ends in.
pub fn complete_response(
    headers: &mut HeaderList,
    state: ConnectionState,
    date: Vec<u8>,
    server_name: Option<&[u8]>,
    keep_alive: bool,
) -> (r: ConnectionState)
    requires
        values_visible(old(headers)@),
        visible_text(date@),
        server_name matches Some(n) ==> visible_text(n@),
    ensures
        final(headers)@ == completed_headers(
            old(headers)@,
            state,
            date@,
            match server_name {
                Some(n) => Some(n@),
                None => None,
            },
            keep_alive,
        ),
        r == final_connection(state, old(headers)@, keep_alive).1,
        values_visible(final(headers)@),
{
    proof {
        reveal_strlit("date");
        reveal_strlit("server");
        reveal_strlit("connection");
        reveal_strlit("keep-alive");
        reveal_strlit("close");
        reveal_strlit("upgrade");
    }
    let ghost h0 = headers@;
    let reuse = keep_alive;
    let connection_name = ascii_vec("connection");
    let close = ascii_vec("close");
    let keep_alive = ascii_vec("keep-alive");
    let upgrade = ascii_vec("upgrade");
    // The handler's own `connection` field (the date and server fields set
    // below do not touch it) may move the connection state.
    let mut state = state;
    if let Some(v) = headers.get(connection_name.as_slice()) {
        if header_to_str(v.as_slice()).is_ok() {
            if eq_ignore_ascii_case(v.as_slice(), close.as_slice()) {
                state = ConnectionState::Close;
            } else if eq_ignore_ascii_case(v.as_slice(), keep_alive.as_slice()) {
                state = ConnectionState::KeepAlive;
            } else if eq_ignore_ascii_case(v.as_slice(), upgrade.as_slice()) {
                state = ConnectionState::Upgrade;
            }
        }
    }
    let date_name = ascii_vec("date");
    if !headers.contains_key(date_name.as_slice()) {
        proof {
            lemma_insert_visible(headers@, date_name@, date@);
        }
        headers.insert(date_name, date);
    }
    let server = ascii_vec("server");
    if !headers.contains_key(server.as_slice()) {
        if let Some(n) = server_name {
            let mut v: Vec<u8> = Vec::new();
            crate::bytes_util::put_slice(&mut v, n);
            proof {
                lemma_insert_visible(headers@, server@, v@);
            }
            headers.insert(server, v);
        }
    }
    let ghost h2 = headers@;
    headers.remove(connection_name.as_slice());
    proof {
        lemma_without_visible(h2, connection_name@);
    }
    let (value, end) = match state {
        ConnectionState::KeepAlive => if reuse {
            (keep_alive, state)
        } else {
            (close, ConnectionState::Close)
        },
        ConnectionState::Close => (close, state),
        ConnectionState::NotSpecified(HttpVersion::Http10) => (close, state),
        ConnectionState::NotSpecified(HttpVersion::Http11) => if reuse {
            (keep_alive, state)
        } else {
            (close, ConnectionState::Close)
        },
        ConnectionState::Upgrade => (upgrade, state),
        ConnectionState::NotSpecified(_) => (close, ConnectionState::Close),
    };
    proof {
        assert(ascii("close"@) != ascii("keep-alive"@));
        assert(ascii("upgrade"@) != ascii("keep-alive"@));
        assert(visible_text(value@));
        lemma_insert_visible(headers@, connection_name@, value@);
    }
    headers.insert(connection_name, value);
    end
}


/// Encodes the head of the handler's response: completed as
/// [`completed_headers`] describes, with the framing fields
/// [`response_headers`] sets for a body of `size` bytes (or of unknown
/// size), after the status line. Also returns the state the connection ends
/// in.
pub fn encode_response_head(
    head: ResponseHead,
    state: ConnectionState,
    date: Vec<u8>,
    server_name: Option<&[u8]>,
    size: Option<u64>,
    keep_alive: bool,
) -> (r: (Vec<u8>, ConnectionState))
    requires
        100 <= head.status <= 999,
        values_visible(head.headers@),
        visible_text(date@),
        server_name matches Some(n) ==> visible_text(n@),
    ensures
        r.0@ == status_line(head.version, head.status) + header_block(
            response_headers(
                completed_headers(
                    head.headers@,
                    state,
                    date@,
                    match server_name {
                        Some(n) => Some(n@),
                        None => None,
                    },
                    keep_alive,
                ),
                size,
            ),
        ),
        r.1 == final_connection(state, head.headers@, keep_alive).1,
{
    let mut head = head;
    let end = complete_response(&mut head.headers, state, date, server_name, keep_alive);
    let mut buf: Vec<u8> = Vec::new();
    write_response(&mut buf, head, size);
    assert(buf@ =~= status_line(head.version, head.status) + header_block(
        response_headers(head.headers@, size),
    ));
    (buf, end)
}

/// What `httparse::Request::parse` makes of a buffer with room for
/// `max_headers` fields: `None` when it rejects the bytes, `Some(None)` when
/// the head is incomplete, else the length of the head, its method, path,
/// minor version and fields.
pub uninterp spec fn parsed_request_head(buf: Seq<u8>, max_headers: nat) -> Option<
    Option<(nat, Option<Seq<u8>>, Option<Seq<u8>>, Option<u8>, Seq<HeaderModel>)>,
>;

/// The outcome of parsing a request head.
pub enum HeadParse {
    Complete {
        len: usize,
        method: Option<Vec<u8>>,
        path: Option<Vec<u8>>,
        version: Option<u8>,
        fields: Vec<Header>,
    },
    Partial,
    Invalid(String),
}

pub open spec fn opt_view(v: Option<Vec<u8>>) -> Option<Seq<u8>> {
    match v {
        Some(x) => Some(x@),
        None => None,
    }
}

/// Parses a request head with `httparse::Request::parse` and room for
/// `max_headers` fields. The outcome is the name `parsed_request_head`; that
/// a complete head lies inside the buffer and has at most `max_headers`
/// fields is what httparse's source shows. The error text is not stated.
#[verifier::external_body]
fn httparse_request(buf: &[u8], max_headers: usize) -> (r: HeadParse)
    ensures
        match r {
            HeadParse::Complete { len, method, path, version, fields } => parsed_request_head(
                buf@,
                max_headers as nat,
            ) == Some(Some((len as nat, opt_view(method), opt_view(path), version, fields@.map_values(|h: Header| h@))))
                && len <= buf@.len() && fields@.len() <= max_headers,
            HeadParse::Partial => parsed_request_head(buf@, max_headers as nat) is Some
                && parsed_request_head(buf@, max_headers as nat).unwrap() is None,
            HeadParse::Invalid(_) => parsed_request_head(buf@, max_headers as nat) is None,
        },
{
    let mut slots = vec![httparse::EMPTY_HEADER; max_headers];
    let mut req = httparse::Request::new(&mut slots);
    match req.parse(buf) {
        Ok(httparse::Status::Complete(len)) => HeadParse::Complete {
            len,
            method: req.method.map(|m| m.as_bytes().to_vec()),
            path: req.path.map(|p| p.as_bytes().to_vec()),
            version: req.version,
            fields: req.headers.iter().map(|h| Header { name: h.name.as_bytes().to_vec(), value: h.value.to_vec() }).collect(),
        },
        Ok(httparse::Status::Partial) => HeadParse::Partial,
        Err(e) => HeadParse::Invalid(e.to_string()),
    }
}

/// Whether a method is a token: at least one byte, each a method byte.
pub open spec fn valid_method(m: Seq<u8>) -> bool {
    m.len() > 0 && forall|i: int| 0 <= i < m.len() ==> crate::text::token_byte(#[trigger] m[i])
}

/// Checks a method with `http::Method::from_bytes`, which accepts exactly
/// the tokens that `valid_method` describes.
#[verifier::external_body]
fn method_ok(m: &[u8]) -> (r: bool)
    ensures
        r == valid_method(m@),
{
    http::Method::from_bytes(m).is_ok()
}

/// Whether `http::Uri` accepts a request target.
pub uninterp spec fn valid_uri(path: Seq<u8>) -> bool;

/// Checks a request target with `http::Uri::try_from`; the outcome is the
/// name `valid_uri`, and a refusal comes with the text of the error, which
/// is not stated.
#[verifier::external_body]
fn uri_ok(path: &[u8]) -> (r: Result<(), String>)
    ensures
        r is Ok == valid_uri(path@),
{
    http::Uri::try_from(path).map(|_| ()).map_err(|e| e.to_string())
}

/// What one attempt at reading a request head comes to.
pub enum RequestStep {
    /// A head of `len` bytes was read.
    Parsed(usize, RequestHead),
    /// The head is incomplete: fill the buffer and try again.
    NeedMore,
    /// The peer sent nothing more: the connection is done.
    Closed,
    /// The head is malformed.
    Fail(Error),
}

/// Whether each field has a name and value `http` accepts.
pub open spec fn fields_ok(fields: Seq<HeaderModel>) -> bool {
    forall|i: int|
        0 <= i < fields.len() ==> canonical_header_name((#[trigger] fields[i]).0) is Some
            && valid_header_value(fields[i].1)
}

/// The fields with their names in canonical form.
pub open spec fn canonical_fields(fields: Seq<HeaderModel>) -> Seq<HeaderModel> {
    fields.map_values(|f: HeaderModel| (canonical_header_name(f.0).unwrap(), f.1))
}

/// The version a minor version number stands for.
pub open spec fn minor_version(v: Option<u8>) -> Option<HttpVersion> {
    match v {
        Some(0) => Some(HttpVersion::Http10),
        Some(1) => Some(HttpVersion::Http11),
        _ => None,
    }
}

/// The outcome of a step, with the head's parts and the error left abstract.
pub enum StepKind {
    Parsed(nat, Seq<u8>, HttpVersion, Seq<u8>, Seq<HeaderModel>),
    NeedMore,
    Closed,
    Refused(Seq<char>),
    Malformed,
    Invalid,
}

/// One attempt at reading a request head from the buffered bytes `buf`;
/// `before` is the number of bytes buffered before the last fill, if one
/// was made.
pub open spec fn request_step(buf: Seq<u8>, before: Option<usize>, max_headers: usize) -> StepKind {
    match parsed_request_head(buf, max_headers as nat) {
        None => StepKind::Malformed,
        Some(None) => if buf.len() >= 8000 {
            StepKind::Refused("incoming request headers too long"@)
        } else if before == Some(buf.len() as usize) {
            StepKind::Closed
        } else {
            StepKind::NeedMore
        },
        Some(Some((len, method, path, version, fields))) => if !(method matches Some(m)
            && valid_method(m)) {
            StepKind::Refused("invalid incoming request method"@)
        } else if minor_version(version) is None {
            StepKind::Refused("invalid incoming request HTTP version"@)
        } else {
            let uri = match path {
                Some(p) => p,
                None => ascii("/"@),
            };
            if !valid_uri(uri) || !fields_ok(fields) {
                StepKind::Invalid
            } else {
                StepKind::Parsed(len, method.unwrap(), minor_version(version).unwrap(), uri, canonical_fields(fields))
            }
        },
    }
}

pub open spec fn step_kind(r: RequestStep) -> StepKind {
    match r {
        RequestStep::Parsed(len, head) => StepKind::Parsed(len as nat, head.method@, head.version, head.uri@, head.headers@),
        RequestStep::NeedMore => StepKind::NeedMore,
        RequestStep::Closed => StepKind::Closed,
        RequestStep::Fail(e) => if e@.context.len() == 1 && e@.kind is None {
            StepKind::Refused(e@.context[0])
        } else if e@.kind matches Some(ErrorKind::Http(_)) {
            StepKind::Invalid
        } else {
            StepKind::Malformed
        },
    }
}

fn builder_fields(fields: &Vec<Header>) -> (r: Result<HeaderList, String>)
    ensures
        match r {
            Ok(h) => fields_ok(fields@.map_values(|f: Header| f@)) && h@ == canonical_fields(fields@.map_values(|f: Header| f@)),
            Err(_) => !fields_ok(fields@.map_values(|f: Header| f@)),
        },
{
    let ghost fs = fields@.map_values(|f: Header| f@);
    let mut headers = HeaderList::new();
    let mut i: usize = 0;
    while i < fields.len()
        invariant
            i <= fields@.len(),
            fs == fields@.map_values(|f: Header| f@),
            fields_ok(fs.take(i as int)),
            headers@ == canonical_fields(fs.take(i as int)),
        decreases fields@.len() - i,
    {
        let f = &fields[i];
        assert(fs[i as int] == f@);
        let name = match header_name(f.name.as_slice()) {
            Ok(n) => n,
            Err(e) => {
                assert(!fields_ok(fs) ) by {
                    assert(fs[i as int] == f@);
                }
                return Err(e);
            },
        };
        if let Err(e) = header_value_ok(f.value.as_slice()) {
            assert(!fields_ok(fs)) by {
                assert(fs[i as int] == f@);
            }
            return Err(e);
        }
        headers.append(name, f.value.clone());
        proof {
            assert(fs.take(i + 1) =~= fs.take(i as int).push(f@));
            assert(canonical_fields(fs.take(i + 1)) =~= canonical_fields(fs.take(i as int)).push(
                (canonical_header_name(f@.0).unwrap(), f@.1),
            ));
            assert forall|k: int| 0 <= k < i + 1 implies canonical_header_name((#[trigger] fs.take(i + 1)[k]).0) is Some
                && valid_header_value(fs.take(i + 1)[k].1) by {
                if k < i {
                    assert(fs.take(i + 1)[k] == fs.take(i as int)[k]);
                }
            }
        }
        i = i + 1;
    }
    assert(fs.take(fields@.len() as int) =~= fs);
    Ok(headers)
}

fn request_refused(context: &'static str) -> (r: Error)
    ensures
        r@.kind is None,
        r@.context == seq![context@],
        r@.severity == ErrorSeverity::Debug,
        r@.scope == ErrorScope::Request,
{
    ErrorConfig { severity: ErrorSeverity::Debug, scope: ErrorScope::Request, context }.build()
}

/// One attempt at reading a request head, as [`request_step`] describes. A
/// malformed head fails with httparse's error; a target or field `http`
/// refuses fails with its error; the other refusals carry no cause.
pub fn parse_request_step(buf: &[u8], before: Option<usize>, max_headers: usize) -> (r: RequestStep)
    ensures
        step_kind(r) == request_step(buf@, before, max_headers),
        r matches RequestStep::Parsed(len, _) ==> len <= buf@.len(),
        r matches RequestStep::Fail(e) ==> e@.severity == (if e@.kind matches Some(ErrorKind::Http(_)) { ErrorSeverity::Error } else { ErrorSeverity::Debug }),
{
    proof {
        reveal_strlit("/");
        reveal_strlit("incoming request headers too long");
        reveal_strlit("invalid incoming request method");
        reveal_strlit("invalid incoming request HTTP version");
        reveal_strlit("parse request headers");
    }
    match httparse_request(buf, max_headers) {
        HeadParse::Invalid(text) => RequestStep::Fail(
            Error::with_kind(ErrorKind::Unknown(text)).with_config(
                ErrorConfig {
                    severity: ErrorSeverity::Debug,
                    scope: ErrorScope::Request,
                    context: "parse request headers",
                },
            ),
        ),
        HeadParse::Partial => {
            let size = buf.len();
            if size >= 8000 {
                RequestStep::Fail(request_refused("incoming request headers too long"))
            } else if before == Some(size) {
                RequestStep::Closed
            } else {
                RequestStep::NeedMore
            }
        },
        HeadParse::Complete { len, method, path, version, fields } => {
            let method = match method {
                Some(m) => {
                    if method_ok(m.as_slice()) {
                        m
                    } else {
                        return RequestStep::Fail(request_refused("invalid incoming request method"));
                    }
                },
                None => {
                    return RequestStep::Fail(request_refused("invalid incoming request method"));
                },
            };
            let version = match version {
                Some(0) => HttpVersion::Http10,
                Some(1) => HttpVersion::Http11,
                _ => {
                    return RequestStep::Fail(
                        request_refused("invalid incoming request HTTP version"),
                    );
                },
            };
            let uri = match path {
                Some(p) => p,
                None => ascii_vec("/"),
            };
            if let Err(e) = uri_ok(uri.as_slice()) {
                return RequestStep::Fail(Error::with_kind(ErrorKind::Http(e)));
            }
            match builder_fields(&fields) {
                Err(e) => RequestStep::Fail(Error::with_kind(ErrorKind::Http(e))),
                Ok(headers) => RequestStep::Parsed(len, RequestHead { method, version, uri, headers }),
            }
        },
    }
}


/// Reads a `content-length` value as a length: it must be visible text and a
/// decimal number.
pub fn content_length_value(value: &[u8]) -> (r: Option<u64>)
    ensures
        r == (if visible_text(value@) { decimal_text(chars_of(value@)) } else { None }),
{
    match header_to_str(value) {
        Err(_) => None,
        Ok(text) => match parse_u64(text.as_str()) {
            Ok(n) => Some(n),
            Err(_) => None,
        },
    }
}

/// The HTTP/1 settings a connection is served with: a server without them
/// cannot serve HTTP/1, which is an error of the connection.
pub fn http1_settings(settings: Option<crate::tcp_config::Http1Builder>) -> (r: Result<
    crate::tcp_config::Http1Builder,
    Error,
>)
    ensures
        match settings {
            Some(b) => r == Ok::<crate::tcp_config::Http1Builder, Error>(b),
            None => r matches Err(e) && e@.kind is None && e@.severity == ErrorSeverity::Error
                && e@.scope == ErrorScope::Connection && e@.context == seq!["http1 builder not configured"@],
        },
{
    match settings {
        Some(b) => Ok(b),
        None => Err(
            ErrorConfig {
                severity: ErrorSeverity::Error,
                scope: ErrorScope::Connection,
                context: "http1 builder not configured",
            }.build(),
        ),
    }
}

/// Whether a connection reads another request after one was answered: only
/// when the settings let connections be reused and it is kept alive.
pub fn keeps_serving(settings: crate::tcp_config::Http1Builder, state: ConnectionState) -> (r: bool)
    ensures
        r == (settings.keep_alive && state == ConnectionState::KeepAlive),
{
    if !settings.keep_alive {
        return false;
    }
    match state {
        ConnectionState::KeepAlive => true,
        _ => false,
    }
}

/// With connection reuse switched off, a completed response says
/// `connection: close` (or `upgrade`), never `keep-alive`, and the
/// connection does not end kept alive, so it is not served again.
pub proof fn law_no_reuse_without_keep_alive(
    settings: crate::tcp_config::Http1Builder,
    state: ConnectionState,
    h: Seq<HeaderModel>,
)
    requires
        !settings.keep_alive,
    ensures
        final_connection(state, h, settings.keep_alive).0 == ascii("close"@)
            || final_connection(state, h, settings.keep_alive).0 == ascii("upgrade"@),
        final_connection(state, h, settings.keep_alive).1 != ConnectionState::KeepAlive,
{
    reveal_strlit("close");
    reveal_strlit("upgrade");
    reveal_strlit("keep-alive");
    let reply = connection_reply(response_connection(state, h));
    if reply.0 != ascii("keep-alive"@) {
        assert(reply.1 != ConnectionState::KeepAlive);
    }
}

/// A value equal up to ASCII case to visible text is visible text.
proof fn lemma_eq_ignore_case_visible(c: Seq<u8>, t: Seq<u8>)
    requires
        eq_ignore_case(c, t),
        visible_text(t),
    ensures
        visible_text(c),
{
    assert forall|j: int| 0 <= j < c.len() implies crate::proto::visible_byte(#[trigger] c[j]) by {
        assert(crate::text::lower(c[j]) == crate::text::lower(t[j]));
        assert(crate::proto::visible_byte(t[j]));
    }
}

/// The connection tokens, their lengths, and that they are visible text.
proof fn lemma_connection_tokens()
    ensures
        ascii("keep-alive"@).len() == 10,
        ascii("close"@).len() == 5,
        ascii("upgrade"@).len() == 7,
        visible_text(ascii("keep-alive"@)),
        visible_text(ascii("close"@)),
        visible_text(ascii("upgrade"@)),
{
    reveal_strlit("keep-alive");
    reveal_strlit("close");
    reveal_strlit("upgrade");
    assert forall|j: int| 0 <= j < 10 implies crate::proto::visible_byte(
        #[trigger] ascii("keep-alive"@)[j],
    ) by {}
    assert forall|j: int| 0 <= j < 5 implies crate::proto::visible_byte(
        #[trigger] ascii("close"@)[j],
    ) by {}
    assert forall|j: int| 0 <= j < 7 implies crate::proto::visible_byte(
        #[trigger] ascii("upgrade"@)[j],
    ) by {}
}

/// The connection state a request is planned with follows its `connection`
/// field alone: kept alive exactly when the field is `keep-alive`, closed
/// exactly when it is `close`, upgraded exactly when it is `upgrade` (each in
/// any ASCII case), and left to the version exactly when there is no such
/// field. A request asking for an upgrade, without a body to frame, is
/// planned, and planned as an upgrade.
pub proof fn law_planned_connection(
    head: &RequestHead,
    has_body: bool,
    max_headers: usize,
    r: Result<RequestPlan, Error>,
)
    requires
        call_ensures(plan_request, (head, has_body, max_headers), r),
    ensures
        r matches Ok(p) ==> {
            let conn = header_get(head.headers@, ascii("connection"@));
            &&& (conn is None <==> p.connection == ConnectionState::NotSpecified(head.version))
            &&& (p.connection == ConnectionState::KeepAlive <==> (conn matches Some(c)
                && eq_ignore_case(c, ascii("keep-alive"@))))
            &&& (p.connection == ConnectionState::Close <==> (conn matches Some(c) && eq_ignore_case(
                c,
                ascii("close"@),
            )))
            &&& (p.connection == ConnectionState::Upgrade <==> (conn matches Some(c)
                && eq_ignore_case(c, ascii("upgrade"@))))
        },
        (header_get(head.headers@, ascii("connection"@)) matches Some(c) && eq_ignore_case(
            c,
            ascii("upgrade"@),
        )) && !has_body && header_get(head.headers@, ascii("content-length"@)) is None && header_get(
            head.headers@,
            ascii("transfer-encoding"@),
        ) is None ==> (r matches Ok(p) && p.connection == ConnectionState::Upgrade),
{
    lemma_connection_tokens();
    let conn = header_get(head.headers@, ascii("connection"@));
    if let Some(c) = conn {
        if eq_ignore_case(c, ascii("keep-alive"@)) {
            lemma_eq_ignore_case_visible(c, ascii("keep-alive"@));
        }
        if eq_ignore_case(c, ascii("close"@)) {
            lemma_eq_ignore_case_visible(c, ascii("close"@));
        }
        if eq_ignore_case(c, ascii("upgrade"@)) {
            lemma_eq_ignore_case_visible(c, ascii("upgrade"@));
        }
    }
}

/// When the handler answers with a `connection` field equal to `keep-alive`
/// (in any ASCII case) and the server lets connections be reused, the
/// completed head says `connection: keep-alive` and the connection ends kept
/// alive, whatever the request asked for.
pub proof fn law_handler_keeps_alive(
    h: Seq<HeaderModel>,
    state: ConnectionState,
    date: Seq<u8>,
    server_name: Option<Seq<u8>>,
)
    requires
        header_get(h, ascii("connection"@)) matches Some(v) && eq_ignore_case(v, ascii("keep-alive"@)),
    ensures
        final_connection(state, h, true) == (ascii("keep-alive"@), ConnectionState::KeepAlive),
        header_get(completed_headers(h, state, date, server_name, true), ascii("connection"@))
            == Some(ascii("keep-alive"@)),
{
    lemma_connection_tokens();
    let v = header_get(h, ascii("connection"@)).unwrap();
    lemma_eq_ignore_case_visible(v, ascii("keep-alive"@));
    assert(!eq_ignore_case(v, ascii("close"@)));
    assert(response_connection(state, h) == ConnectionState::KeepAlive);
    let h1 = if header_get(h, ascii("date"@)) is Some {
        h
    } else {
        header_insert(h, ascii("date"@), date)
    };
    let h2 = if header_get(h1, ascii("server"@)) is None && server_name is Some {
        header_insert(h1, ascii("server"@), server_name.unwrap())
    } else {
        h1
    };
    let h3 = header_without(h2, ascii("connection"@));
    crate::headers::law_get_after_insert(h3, ascii("connection"@), ascii("keep-alive"@));
}

/// When the handler answers with a `connection` field equal to `close` or
/// `upgrade` (in any ASCII case), the completed head says so and the
/// connection ends closed or upgraded, whatever the request asked for and
/// whatever the reuse setting.
pub proof fn law_handler_closes_or_upgrades(
    h: Seq<HeaderModel>,
    state: ConnectionState,
    date: Seq<u8>,
    server_name: Option<Seq<u8>>,
    keep_alive: bool,
)
    requires
        header_get(h, ascii("connection"@)) matches Some(v) && (eq_ignore_case(v, ascii("close"@))
            || eq_ignore_case(v, ascii("upgrade"@))),
    ensures
        header_get(h, ascii("connection"@)) matches Some(v) && eq_ignore_case(v, ascii("close"@)) ==> (
        final_connection(state, h, keep_alive) == (ascii("close"@), ConnectionState::Close)),
        header_get(h, ascii("connection"@)) matches Some(v) && eq_ignore_case(v, ascii("upgrade"@))
            ==> (final_connection(state, h, keep_alive) == (ascii("upgrade"@), ConnectionState::Upgrade)),
        header_get(completed_headers(h, state, date, server_name, keep_alive), ascii("connection"@))
            == Some(final_connection(state, h, keep_alive).0),
{
    lemma_connection_tokens();
    let v = header_get(h, ascii("connection"@)).unwrap();
    if eq_ignore_case(v, ascii("close"@)) {
        lemma_eq_ignore_case_visible(v, ascii("close"@));
    } else {
        lemma_eq_ignore_case_visible(v, ascii("upgrade"@));
        assert(!eq_ignore_case(v, ascii("keep-alive"@)));
    }
    let h1 = if header_get(h, ascii("date"@)) is Some {
        h
    } else {
        header_insert(h, ascii("date"@), date)
    };
    let h2 = if header_get(h1, ascii("server"@)) is None && server_name is Some {
        header_insert(h1, ascii("server"@), server_name.unwrap())
    } else {
        h1
    };
    let h3 = header_without(h2, ascii("connection"@));
    crate::headers::law_get_after_insert(h3, ascii("connection"@), final_connection(state, h, keep_alive).0);
}

/// Whether the settings let a request of version `version` be served: an
/// HTTP/1.0 request only when HTTP/1.0 is allowed.
pub open spec fn version_admitted(settings: crate::tcp_config::Http1Builder, version: HttpVersion) -> bool {
    version != HttpVersion::Http10 || settings.allow_http10
}

/// Admits a request head under the settings: an HTTP/1.0 request is refused
/// unless HTTP/1.0 is allowed, as a debug error of the request.
pub fn admit_request(settings: crate::tcp_config::Http1Builder, head: &RequestHead) -> (r: Result<(), Error>)
    ensures
        r is Ok == version_admitted(settings, head.version),
        r matches Err(e) ==> e@.kind is None && e@.severity == ErrorSeverity::Debug && e@.scope
            == ErrorScope::Request && e@.context == seq!["http/1.0 requests are not allowed"@],
{
    match head.version {
        HttpVersion::Http10 => {
            if settings.allow_http10 {
                Ok(())
            } else {
                Err(
                    ErrorConfig {
                        severity: ErrorSeverity::Debug,
                        scope: ErrorScope::Request,
                        context: "http/1.0 requests are not allowed",
                    }.build(),
                )
            }
        },
        _ => Ok(()),
    }
}

} // verus!
