//! HTTP/1 wire format: the response head and header blocks.
use vstd::prelude::*;
use crate::bytes_util::{all_ascii, ascii, put_ascii, put_slice};
use crate::error::{Error, ErrorConfig, ErrorKind, ErrorModel, ErrorScope, ErrorSeverity};
use crate::headers::{Header, 
    first_index, header_insert, header_without, lemma_first_index, HeaderList, HeaderModel,
};

verus! {

/// The HTTP version of a message.
#[derive(Debug, Clone, Copy, PartialEq, Eq, Structural)]
pub enum HttpVersion {
    Http09,
    Http10,
    Http11,
    Http2,
    Http3,
}

/// The head of a response: its version, status code and header fields.
#[derive(Debug)]
pub struct ResponseHead {
    pub version: HttpVersion,
    pub status: u16,
    pub headers: HeaderList,
}

/// The decimal digits of `n`, most significant first.
pub open spec fn decimal(n: nat) -> Seq<u8>
    decreases n,
{
    if n < 10 {
        seq![(48 + n) as u8]
    } else {
        decimal(n / 10).push((48 + n % 10) as u8)
    }
}

/// The reason phrase that `http` gives a status code, if it knows one.
pub uninterp spec fn canonical_reason_of(status: u16) -> Option<Seq<char>>;

/// Formats `n` in decimal with `itoa::Buffer::format`, which writes the
/// decimal digits of the number without sign or padding.
#[verifier::external_body]
pub(crate) fn format_decimal(n: u64) -> (r: Vec<u8>)
    ensures
        r@ == decimal(n as nat),
{
    itoa::Buffer::new().format(n).as_bytes().to_vec()
}

/// The reason phrase of a status code, from
/// `http::StatusCode::canonical_reason`. The phrases of that table are
/// ASCII; which code has which phrase is left to the name
/// `canonical_reason_of`.
#[verifier::external_body]
fn canonical_reason(status: u16) -> (r: Option<&'static str>)
    requires
        100 <= status <= 999,
    ensures
        match r {
            Some(s) => canonical_reason_of(status) == Some(s@) && all_ascii(s@),
            None => canonical_reason_of(status) is None,
        },
{
    http::StatusCode::from_u16(status).ok().and_then(|s| s.canonical_reason())
}

/// Whether `b` may stand in a header value that is written out as text.
pub open spec fn visible_byte(b: u8) -> bool {
    (32 <= b && b < 127) || b == 9
}

pub open spec fn visible_text(v: Seq<u8>) -> bool {
    forall|j: int| 0 <= j < v.len() ==> visible_byte(#[trigger] v[j])
}

/// Whether every header value is visible text.
pub open spec fn values_visible(s: Seq<HeaderModel>) -> bool {
    forall|i: int| 0 <= i < s.len() ==> visible_text(#[trigger] s[i].1)
}

/// The lines `name: value` of the fields, each ended by CRLF.
pub open spec fn header_lines(s: Seq<HeaderModel>) -> Seq<u8>
    decreases s.len(),
{
    if s.len() == 0 {
        Seq::empty()
    } else {
        header_lines(s.drop_last()) + s.last().0 + ascii(": "@) + s.last().1 + ascii("\r\n"@)
    }
}

/// A header block: the header lines and an empty line.
pub open spec fn header_block(s: Seq<HeaderModel>) -> Seq<u8> {
    header_lines(s) + ascii("\r\n"@)
}

/// Every field that survives a removal was there before.
pub proof fn lemma_without_members(s: Seq<HeaderModel>, name: Seq<u8>)
    ensures
        forall|k: int|
            0 <= k < header_without(s, name).len() ==> exists|j: int|
                0 <= j < s.len() && #[trigger] header_without(s, name)[k] == s[j],
        forall|k: int|
            0 <= k < header_without(s, name).len() ==> (#[trigger] header_without(s, name)[k]).0
                != name,
        header_without(s, name).len() <= s.len(),
    decreases s.len(),
{
    if s.len() > 0 {
        lemma_without_members(s.drop_last(), name);
        let r = header_without(s.drop_last(), name);
        assert forall|k: int| 0 <= k < r.len() implies exists|j: int|
            0 <= j < s.len() && #[trigger] r[k] == s[j] by {
            let j = choose|j: int| 0 <= j < s.drop_last().len() && r[k] == s.drop_last()[j];
            assert(s.drop_last()[j] == s[j]);
        }
        if s.last().0 != name {
            let t = r.push(s.last());
            assert forall|k: int| 0 <= k < t.len() implies exists|j: int|
                0 <= j < s.len() && #[trigger] t[k] == s[j] by {
                if k == r.len() {
                    assert(t[k] == s[s.len() - 1]);
                } else {
                    assert(t[k] == r[k]);
                }
            }
        }
    }
}

pub proof fn lemma_without_visible(s: Seq<HeaderModel>, name: Seq<u8>)
    requires
        values_visible(s),
    ensures
        values_visible(header_without(s, name)),
{
    lemma_without_members(s, name);
    let r = header_without(s, name);
    assert forall|k: int| 0 <= k < r.len() implies visible_text(#[trigger] r[k].1) by {
        let j = choose|j: int| 0 <= j < s.len() && r[k] == s[j];
    }
}

pub proof fn lemma_insert_visible(s: Seq<HeaderModel>, name: Seq<u8>, value: Seq<u8>)
    requires
        values_visible(s),
        visible_text(value),
    ensures
        values_visible(header_insert(s, name, value)),
{
    lemma_first_index(s, name);
    let i = first_index(s, name);
    if i >= 0 {
        let rest = s.skip(i + 1);
        assert forall|k: int| 0 <= k < rest.len() implies visible_text(#[trigger] rest[k].1) by {
            assert(rest[k] == s[k + i + 1]);
        }
        lemma_without_visible(rest, name);
        let head = s.take(i).push((name, value));
        let t = head + header_without(rest, name);
        assert forall|k: int| 0 <= k < t.len() implies visible_text(#[trigger] t[k].1) by {
            if k < i {
                assert(t[k] == s[k]);
            } else if k == i {
                assert(t[k] == (name, value));
            } else {
                assert(t[k] == header_without(rest, name)[k - i - 1]);
            }
        }
    } else {
        let t = s.push((name, value));
        assert forall|k: int| 0 <= k < t.len() implies visible_text(#[trigger] t[k].1) by {
            if k < s.len() {
                assert(t[k] == s[k]);
            }
        }
    }
}

/// Writes the header fields, each as `name: value` and CRLF, and an empty
/// line.
pub fn write_headers(buf: &mut Vec<u8>, headers: &HeaderList)
    requires
        values_visible(headers@),
    ensures
        final(buf)@ == old(buf)@ + header_block(headers@),
{
    let ghost s = headers@;
    let n = headers.entries.len();
    let mut i: usize = 0;
    proof {
        reveal_strlit(": ");
        reveal_strlit("\r\n");
    }
    while i < n
        invariant
            n == headers.entries@.len(),
            s == headers@,
            i <= n,
            buf@ == old(buf)@ + header_lines(s.take(i as int)),
            all_ascii(": "@),
            all_ascii("\r\n"@),
        decreases n - i,
    {
        let h = &headers.entries[i];
        put_slice(buf, h.name.as_slice());
        put_ascii(buf, ": ");
        put_slice(buf, h.value.as_slice());
        put_ascii(buf, "\r\n");
        proof {
            let t = s.take(i + 1);
            assert(t.drop_last() =~= s.take(i as int));
            assert(t.last() == h@);
            assert(buf@ =~= old(buf)@ + header_lines(t));
        }
        i = i + 1;
    }
    put_ascii(buf, "\r\n");
    assert(s.take(n as int) =~= s);
}

/// The status line of a response: version, code, reason phrase if there is
/// one, CRLF.
pub open spec fn status_line(version: HttpVersion, status: u16) -> Seq<u8> {
    (if version == HttpVersion::Http10 { ascii("HTTP/1.0 "@) } else { ascii("HTTP/1.1 "@) })
        + decimal(status as nat) + (match canonical_reason_of(status) {
        Some(reason) => ascii(" "@) + ascii(reason),
        None => Seq::empty(),
    }) + ascii("\r\n"@)
}

/// The header fields a response is sent with: any length or transfer
/// coding the handler set is dropped, and the body's exact size becomes its
/// `content-length`; a body of unknown size is sent `chunked`.
pub open spec fn response_headers(headers: Seq<HeaderModel>, size: Option<u64>) -> Seq<HeaderModel> {
    let h = header_without(header_without(headers, ascii("content-length"@)), ascii("transfer-encoding"@));
    match size {
        Some(n) => header_insert(h, ascii("content-length"@), decimal(n as nat)),
        None => header_insert(h, ascii("transfer-encoding"@), ascii("chunked"@)),
    }
}

/// Every decimal digit is visible text.
pub proof fn lemma_decimal_visible(n: nat)
    ensures
        visible_text(decimal(n)),
        decimal(n).len() >= 1,
    decreases n,
{
    if n >= 10 {
        lemma_decimal_visible(n / 10);
        let d = decimal(n);
        assert forall|j: int| 0 <= j < d.len() implies visible_byte(#[trigger] d[j]) by {
            if j < d.len() - 1 {
                assert(d[j] == decimal(n / 10)[j]);
            }
        }
    }
}

/// An owned copy of the bytes of an ASCII text.
pub fn ascii_vec(s: &str) -> (r: Vec<u8>)
    requires
        all_ascii(s@),
    ensures
        r@ == ascii(s@),
{
    let mut v: Vec<u8> = Vec::new();
    put_ascii(&mut v, s);
    assert(v@ =~= ascii(s@));
    v
}

/// Writes the status line and the header block of a response whose body has
/// `size` bytes, or an unknown number of bytes when `size` is `None`.
pub fn write_response(buf: &mut Vec<u8>, response: ResponseHead, size: Option<u64>)
    requires
        100 <= response.status <= 999,
        values_visible(response.headers@),
    ensures
        final(buf)@ == old(buf)@ + status_line(response.version, response.status) + header_block(
            response_headers(response.headers@, size),
        ),
{
    proof {
        reveal_strlit("HTTP/1.0 ");
        reveal_strlit("HTTP/1.1 ");
        reveal_strlit(" ");
        reveal_strlit("\r\n");
        reveal_strlit("content-length");
        reveal_strlit("transfer-encoding");
        reveal_strlit("chunked");
    }
    let ghost start = buf@;
    match response.version {
        HttpVersion::Http10 => put_ascii(buf, "HTTP/1.0 "),
        _ => put_ascii(buf, "HTTP/1.1 "),
    }
    let digits = format_decimal(response.status as u64);
    put_slice(buf, digits.as_slice());
    match canonical_reason(response.status) {
        Some(reason) => {
            put_ascii(buf, " ");
            put_ascii(buf, reason);
        },
        None => {},
    }
    put_ascii(buf, "\r\n");
    assert(buf@ =~= start + status_line(response.version, response.status));
    let mut headers = response.headers;
    let cl = ascii_vec("content-length");
    let te = ascii_vec("transfer-encoding");
    let ghost h0 = headers@;
    headers.remove(cl.as_slice());
    proof {
        lemma_without_visible(h0, cl@);
    }
    let ghost h1 = headers@;
    headers.remove(te.as_slice());
    proof {
        lemma_without_visible(h1, te@);
    }
    match size {
        Some(n) => {
            let v = format_decimal(n);
            proof {
                lemma_decimal_visible(n as nat);
                lemma_insert_visible(headers@, cl@, v@);
            }
            headers.insert(cl, v);
        },
        None => {
            let v = ascii_vec("chunked");
            proof {
                assert(visible_text(v@));
                lemma_insert_visible(headers@, te@, v@);
            }
            headers.insert(te, v);
        },
    }
    write_headers(buf, &headers);
}


/// What `httparse::parse_headers` makes of a buffer: `None` when it rejects
/// the bytes, `Some(None)` when the block is not complete yet, and
/// `Some(Some((length, fields)))` for a complete block of `length` bytes.
pub uninterp spec fn parsed_header_block(buf: Seq<u8>, max_headers: nat) -> Option<
    Option<(nat, Seq<HeaderModel>)>,
>;

/// The outcome of parsing a header block.
pub enum BlockParse {
    Complete(usize, Vec<Header>),
    Partial,
    Invalid(String),
}

/// Parses a header block with `httparse::parse_headers` and room for
/// `max_headers` fields. The fields come back as the name and value bytes
/// httparse found; on a rejection, the text of httparse's error. The
/// outcome is the name `parsed_header_block`; that a complete block lies
/// inside the buffer and has at most `max_headers` fields is what
/// httparse's source shows of it. The error text is not stated.
#[verifier::external_body]
fn httparse_headers(buf: &[u8], max_headers: usize) -> (r: BlockParse)
    ensures
        match r {
            BlockParse::Complete(n, fields) => parsed_header_block(buf@, max_headers as nat)
                == Some(Some((n as nat, fields@.map_values(|h: Header| h@)))) && n <= buf@.len()
                && fields@.len() <= max_headers,
            BlockParse::Partial => parsed_header_block(buf@, max_headers as nat) == Some(
                None::<(nat, Seq<HeaderModel>)>,
            ),
            BlockParse::Invalid(_) => parsed_header_block(buf@, max_headers as nat) is None,
        },
{
    let mut slots = vec![httparse::EMPTY_HEADER; max_headers];
    match httparse::parse_headers(buf, &mut slots) {
        Ok(httparse::Status::Complete((n, fields))) => BlockParse::Complete(
            n,
            fields.iter().map(|h| Header { name: h.name.as_bytes().to_vec(), value: h.value.to_vec() }).collect(),
        ),
        Ok(httparse::Status::Partial) => BlockParse::Partial,
        Err(e) => BlockParse::Invalid(e.to_string()),
    }
}

/// The canonical form of a header name: a name of 1 to 65535 token bytes
/// is taken in ASCII lower case; any other is refused (`None`).
pub open spec fn canonical_header_name(name: Seq<u8>) -> Option<Seq<u8>> {
    if 0 < name.len() <= 65535 && forall|i: int|
        0 <= i < name.len() ==> crate::text::token_byte(#[trigger] name[i]) {
        Some(name.map_values(|b: u8| crate::text::lower(b)))
    } else {
        None
    }
}

/// Parses a header name with `http::HeaderName::from_bytes`, which gives
/// `canonical_header_name` of it; a refusal comes with the text of the
/// error, which is not stated.
#[verifier::external_body]
pub(crate) fn header_name(name: &[u8]) -> (r: Result<Vec<u8>, String>)
    ensures
        match r {
            Ok(n) => canonical_header_name(name@) == Some(n@),
            Err(_) => canonical_header_name(name@) is None,
        },
{
    http::HeaderName::from_bytes(name).map(|n| n.as_str().as_bytes().to_vec()).map_err(|e| e.to_string())
}

/// Whether `http::HeaderValue::from_bytes` accepts a byte.
pub open spec fn header_value_byte(b: u8) -> bool {
    (b >= 32 && b != 127) || b == 9
}

pub open spec fn valid_header_value(v: Seq<u8>) -> bool {
    forall|j: int| 0 <= j < v.len() ==> header_value_byte(#[trigger] v[j])
}

/// Checks a header value with `http::HeaderValue::from_bytes`, which accepts
/// exactly the values all of whose bytes are tab or at least 32 and not 127.
/// A refusal comes with the text of the error, which is not stated.
#[verifier::external_body]
pub(crate) fn header_value_ok(value: &[u8]) -> (r: Result<(), String>)
    ensures
        r is Ok == valid_header_value(value@),
{
    http::HeaderValue::from_bytes(value).map(|_| ()).map_err(|e| e.to_string())
}

/// The header map built from parsed fields: fields whose value or name
/// `http` refuses are skipped, the others are set one after the other, a
/// later field of a name replacing an earlier one.
pub open spec fn header_map_of(fields: Seq<HeaderModel>) -> Seq<HeaderModel>
    decreases fields.len(),
{
    if fields.len() == 0 {
        Seq::empty()
    } else {
        let acc = header_map_of(fields.drop_last());
        let f = fields.last();
        if valid_header_value(f.1) && canonical_header_name(f.0) is Some {
            header_insert(acc, canonical_header_name(f.0).unwrap(), f.1)
        } else {
            acc
        }
    }
}

/// The error a malformed header block is reported with.
pub open spec fn header_parse_error(e: ErrorModel) -> bool {
    &&& e.kind matches Some(ErrorKind::Unknown(_))
    &&& e.severity == ErrorSeverity::Debug
    &&& e.scope == ErrorScope::Request
    &&& e.context == seq!["parse request headers"@]
}

/// Parses a header block (of trailers, say) with room for `max_headers`
/// fields: `None` while the block is incomplete, else its length and the
/// header map it gives.
pub fn parse_headers(buffer: &[u8], max_headers: usize) -> (r: Result<Option<(usize, HeaderList)>, Error>)
    ensures
        match parsed_header_block(buffer@, max_headers as nat) {
            None => r matches Err(e) && header_parse_error(e@),
            Some(None) => r matches Ok(None),
            Some(Some((n, fields))) => r matches Ok(Some((m, h))) && m == n && h@ == header_map_of(
                fields,
            ) && m <= buffer@.len(),
        },
{
    match httparse_headers(buffer, max_headers) {
        BlockParse::Invalid(text) => Err(
            Error::with_kind(ErrorKind::Unknown(text)).with_config(
                ErrorConfig {
                    severity: ErrorSeverity::Debug,
                    scope: ErrorScope::Request,
                    context: "parse request headers",
                },
            ),
        ),
        BlockParse::Partial => Ok(None),
        BlockParse::Complete(n, fields) => {
            let ghost fs = fields@.map_values(|h: Header| h@);
            let mut headers = HeaderList::new();
            let mut i: usize = 0;
            while i < fields.len()
                invariant
                    i <= fields@.len(),
                    fs == fields@.map_values(|h: Header| h@),
                    headers@ == header_map_of(fs.take(i as int)),
                decreases fields@.len() - i,
            {
                let f = &fields[i];
                assert(fs.take(i + 1).drop_last() =~= fs.take(i as int));
                assert(fs.take(i + 1).last() == f@);
                if header_value_ok(f.value.as_slice()).is_ok() {
                    match header_name(f.name.as_slice()) {
                        Ok(name) => {
                            headers.insert(name, f.value.clone());
                        },
                        Err(_) => {},
                    }
                }
                i = i + 1;
            }
            assert(fs.take(fields@.len() as int) =~= fs);
            Ok(Some((n, headers)))
        },
    }
}

} // verus!
