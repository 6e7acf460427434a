use scuffle::error::{Error, ErrorConfig, ErrorKind, ErrorScope, ErrorSeverity};
use scuffle::h1::{
    admit_request, http1_settings, keeps_serving,
    complete_response, content_length_value, encode_response_head, parse_request_step,
    plan_request, ConnectionState, RequestHead, RequestStep,
};
use scuffle::h1_body::{body_step, BodyEncoding, DecodeAction, DecodeState};
use scuffle::h1_send::{format_hex, BodyWriter};
use scuffle::headers::HeaderList;
use scuffle::proto::{parse_headers, write_response, HttpVersion, ResponseHead};
use scuffle::text::{eq_ignore_ascii_case, only_chunked, split_bytes, str_eq, trim_range};

fn list(fields: &[(&str, &str)]) -> HeaderList {
    let mut h = HeaderList::new();
    for (n, v) in fields {
        h.append(n.as_bytes().to_vec(), v.as_bytes().to_vec());
    }
    h
}

fn fields(h: &HeaderList) -> Vec<(String, String)> {
    h.entries
        .iter()
        .map(|f| (String::from_utf8(f.name.clone()).unwrap(), String::from_utf8(f.value.clone()).unwrap()))
        .collect()
}

fn pairs(v: &[(&str, &str)]) -> Vec<(String, String)> {
    v.iter().map(|(a, b)| (a.to_string(), b.to_string())).collect()
}

#[test]
fn error_render_shows_scope_context_and_kind() {
    let e = Error::with_kind(ErrorKind::Io("broken pipe".to_string()))
        .with_config(ErrorConfig { severity: ErrorSeverity::Debug, scope: ErrorScope::Request, context: "read" })
        .with_context("serve");
    assert_eq!(e.render(), "request: serve: read: broken pipe");
    assert_eq!(e.severity(), ErrorSeverity::Debug);
    assert_eq!(e.scope(), ErrorScope::Request);
    assert_eq!(e.context(), &["read", "serve"]);
}

#[test]
fn error_new_has_defaults() {
    let e = Error::new();
    assert!(e.kind().is_none());
    assert_eq!(e.severity(), ErrorSeverity::Error);
    assert_eq!(e.scope(), ErrorScope::Unknown);
    assert!(e.context().is_empty());
    assert_eq!(e.render(), "");
}

#[test]
fn error_latest_context_is_shown_first() {
    let e = Error::new().with_context("first").with_context("second");
    assert_eq!(e.render(), "second: first");
    let e = e.with_scope(ErrorScope::Connection);
    assert_eq!(e.render(), "connection: second: first");
}

#[test]
fn error_texts() {
    assert_eq!(ErrorScope::Protocol.as_str(), "protocol");
    assert_eq!(ErrorScope::Unknown.as_str(), "unknown");
    assert_eq!(ErrorKind::Closed.message(), "closed");
    assert_eq!(ErrorKind::Timeout.message(), "timeout");
    assert_eq!(ErrorKind::Configuration.message(), "configuration");
    assert_eq!(ErrorKind::Http("bad uri".to_string()).message(), "bad uri");
    let e = ErrorConfig { severity: ErrorSeverity::Warning, scope: ErrorScope::Response, context: "x" }.build();
    assert_eq!(e.render(), "response: x");
    assert!(matches!(Error::with_kind(ErrorKind::Closed).into_kind(), Some(ErrorKind::Closed)));
}

#[test]
fn header_insert_replaces_all_of_a_name() {
    let mut h = list(&[("a", "1"), ("b", "2"), ("a", "3")]);
    h.insert(b"a".to_vec(), b"x".to_vec());
    assert_eq!(fields(&h), pairs(&[("a", "x"), ("b", "2")]));
    assert_eq!(h.get(b"a").unwrap(), &b"x".to_vec());
    assert_eq!(h.get(b"b").unwrap(), &b"2".to_vec());
    h.insert(b"c".to_vec(), b"9".to_vec());
    assert_eq!(fields(&h), pairs(&[("a", "x"), ("b", "2"), ("c", "9")]));
}

#[test]
fn header_remove_takes_every_field_of_a_name() {
    let mut h = list(&[("a", "1"), ("b", "2"), ("a", "3")]);
    assert_eq!(h.remove(b"a"), Some(b"1".to_vec()));
    assert!(!h.contains_key(b"a"));
    assert!(h.contains_key(b"b"));
    assert_eq!(h.remove(b"z"), None);
    assert_eq!(h.len(), 1);
    assert_eq!(h.position(b"b"), Some(0));
}

#[test]
fn write_response_known_size() {
    let mut buf = Vec::new();
    let head = ResponseHead { version: HttpVersion::Http11, status: 200, headers: list(&[("x-a", "1"), ("content-length", "99")]) };
    write_response(&mut buf, head, Some(5));
    assert_eq!(String::from_utf8(buf).unwrap(), "HTTP/1.1 200 OK\r\nx-a: 1\r\ncontent-length: 5\r\n\r\n");
}

#[test]
fn write_response_unknown_size_is_chunked() {
    let mut buf = b"prefix".to_vec();
    let head = ResponseHead { version: HttpVersion::Http10, status: 404, headers: HeaderList::new() };
    write_response(&mut buf, head, None);
    assert_eq!(String::from_utf8(buf).unwrap(), "prefixHTTP/1.0 404 Not Found\r\ntransfer-encoding: chunked\r\n\r\n");
}

#[test]
fn write_response_status_without_reason() {
    let mut buf = Vec::new();
    let head = ResponseHead { version: HttpVersion::Http11, status: 599, headers: HeaderList::new() };
    write_response(&mut buf, head, Some(12345));
    assert_eq!(String::from_utf8(buf).unwrap(), "HTTP/1.1 599\r\ncontent-length: 12345\r\n\r\n");
}

#[test]
fn parse_headers_complete_partial_and_invalid() {
    let r = parse_headers(b"Host: example.com\r\nX-Num: 5\r\n\r\nrest", 10).unwrap().unwrap();
    assert_eq!(r.0, 31);
    assert_eq!(fields(&r.1), pairs(&[("host", "example.com"), ("x-num", "5")]));
    assert!(parse_headers(b"Host: a\r\n", 10).unwrap().is_none());
    assert!(parse_headers(b"Ho st: a\r\n\r\n", 10).is_err());
    assert!(parse_headers(b"A: 1\r\nB: 2\r\n\r\n", 1).is_err());
    let empty = parse_headers(b"\r\n", 10).unwrap().unwrap();
    assert_eq!(empty.0, 2);
    assert_eq!(empty.1.len(), 0);
}

fn head(version: HttpVersion, h: &[(&str, &str)]) -> RequestHead {
    RequestHead { method: b"POST".to_vec(), version, uri: b"/".to_vec(), headers: list(h) }
}

#[test]
fn plan_request_with_content_length() {
    let p = plan_request(&head(HttpVersion::Http11, &[("content-length", "5")]), true, 64).unwrap();
    assert_eq!(p.connection, ConnectionState::NotSpecified(HttpVersion::Http11));
    assert_eq!(p.body, Some(BodyEncoding::ContentLength(5)));
    assert_eq!(p.content_length, Some(5));
}

#[test]
fn plan_request_chunked_and_connection() {
    let p = plan_request(&head(HttpVersion::Http11, &[("transfer-encoding", "Chunked"), ("connection", "Close")]), true, 64)
        .unwrap();
    assert_eq!(p.connection, ConnectionState::Close);
    assert_eq!(p.body, Some(BodyEncoding::Chunked { max_headers: 64 }));
    assert_eq!(p.content_length, None);
    let p = plan_request(&head(HttpVersion::Http10, &[("connection", "keep-alive")]), false, 64).unwrap();
    assert_eq!(p.connection, ConnectionState::KeepAlive);
    assert_eq!(p.body, None);
}

#[test]
fn plan_request_refusals() {
    let e = plan_request(&head(HttpVersion::Http11, &[("content-length", "5"), ("transfer-encoding", "chunked")]), true, 8)
        .unwrap_err();
    assert_eq!(e.context(), &["cannot have both content length and chunked transfer encoding"]);
    assert!(e.kind().is_none());
    let e = plan_request(&head(HttpVersion::Http11, &[]), true, 8).unwrap_err();
    assert_eq!(e.context(), &["no content length or transfer encoding specified"]);
    let e = plan_request(&head(HttpVersion::Http11, &[("content-length", "abc")]), true, 8).unwrap_err();
    assert_eq!(e.context(), &["bad content length header"]);
    assert!(e.kind().is_some());
    assert_eq!(e.severity(), ErrorSeverity::Debug);
    assert_eq!(e.scope(), ErrorScope::Request);
    let e = plan_request(&head(HttpVersion::Http11, &[("transfer-encoding", "gzip")]), true, 8).unwrap_err();
    assert_eq!(e.context(), &["bad transfer encoding header"]);
    assert!(e.kind().is_none());
    let e = plan_request(&head(HttpVersion::Http11, &[("connection", "foo")]), false, 8).unwrap_err();
    assert_eq!(e.context(), &["bad connection header"]);
    // Without a body, both framing fields are accepted.
    assert!(plan_request(&head(HttpVersion::Http11, &[("content-length", "1"), ("transfer-encoding", "chunked")]), false, 8).is_ok());
}

#[test]
fn parse_request_step_parsed() {
    match parse_request_step(b"GET /path HTTP/1.1\r\nHost: a\r\n\r\nbody", None, 100) {
        RequestStep::Parsed(len, h) => {
            assert_eq!(len, 31);
            assert_eq!(h.method, b"GET".to_vec());
            assert_eq!(h.version, HttpVersion::Http11);
            assert_eq!(h.uri, b"/path".to_vec());
            assert_eq!(fields(&h.headers), pairs(&[("host", "a")]));
        }
        _ => panic!("expected a parsed head"),
    }
    match parse_request_step(b"GET / HTTP/1.0\r\n\r\n", None, 100) {
        RequestStep::Parsed(len, h) => {
            assert_eq!(len, 18);
            assert_eq!(h.version, HttpVersion::Http10);
        }
        _ => panic!("expected a parsed head"),
    }
}

#[test]
fn parse_request_step_incomplete_closed_and_malformed() {
    assert!(matches!(parse_request_step(b"GET / HTTP/1.1\r\n", None, 100), RequestStep::NeedMore));
    assert!(matches!(parse_request_step(b"GET / HTTP/1.1\r\n", Some(16), 100), RequestStep::Closed));
    match parse_request_step(b"GET / HTTP/1.1\r\nHo st: x\r\n\r\n", None, 100) {
        RequestStep::Fail(e) => {
            assert_eq!(e.context(), &["parse request headers"]);
            assert_eq!(e.severity(), ErrorSeverity::Debug);
        }
        _ => panic!("expected a failure"),
    }
    let long = vec![b'a'; 8000];
    match parse_request_step(&long, None, 100) {
        RequestStep::Fail(e) => assert!(!e.context().is_empty()),
        _ => panic!("expected a failure"),
    }
}

#[test]
fn content_length_values() {
    assert_eq!(content_length_value(b"42"), Some(42));
    assert_eq!(content_length_value(b"+7"), Some(7));
    assert_eq!(content_length_value(b"-1"), None);
    assert_eq!(content_length_value(b""), None);
    assert_eq!(content_length_value(b"18446744073709551615"), Some(u64::MAX));
    assert_eq!(content_length_value(b"18446744073709551616"), None);
}

#[test]
fn complete_response_adds_date_server_and_connection() {
    let date = b"Thu, 01 Jan 1970 00:00:00 GMT".to_vec();
    let mut h = HeaderList::new();
    let s = complete_response(&mut h, ConnectionState::NotSpecified(HttpVersion::Http11), date.clone(), Some(b"scuffle"), true);
    assert_eq!(s, ConnectionState::NotSpecified(HttpVersion::Http11));
    assert_eq!(
        fields(&h),
        pairs(&[("date", "Thu, 01 Jan 1970 00:00:00 GMT"), ("server", "scuffle"), ("connection", "keep-alive")])
    );
    let mut h = list(&[("connection", "close"), ("date", "yesterday")]);
    let s = complete_response(&mut h, ConnectionState::KeepAlive, date.clone(), None, true);
    assert_eq!(s, ConnectionState::Close);
    assert_eq!(fields(&h), pairs(&[("date", "yesterday"), ("connection", "close")]));
    let mut h = HeaderList::new();
    let s = complete_response(&mut h, ConnectionState::NotSpecified(HttpVersion::Http2), date, None, true);
    assert_eq!(s, ConnectionState::Close);
}

#[test]
fn encode_response_head_bytes() {
    let date = b"Thu, 01 Jan 1970 00:00:00 GMT".to_vec();
    let head = ResponseHead { version: HttpVersion::Http11, status: 204, headers: HeaderList::new() };
    let (bytes, state) = encode_response_head(head, ConnectionState::KeepAlive, date, None, Some(0), true);
    assert_eq!(state, ConnectionState::KeepAlive);
    assert_eq!(
        String::from_utf8(bytes).unwrap(),
        "HTTP/1.1 204 No Content\r\ndate: Thu, 01 Jan 1970 00:00:00 GMT\r\nconnection: keep-alive\r\ncontent-length: 0\r\n\r\n"
    );
}

#[test]
fn body_step_known_length() {
    let (s, a) = body_step(DecodeState::Length { remaining: 5 }, b"", 8);
    assert_eq!(s, DecodeState::LengthRefilled { remaining: 5 });
    assert!(matches!(a, DecodeAction::Fill));
    let (s, a) = body_step(DecodeState::LengthRefilled { remaining: 5 }, b"abcdefg", 8);
    assert_eq!(s, DecodeState::Length { remaining: 0 });
    assert!(matches!(a, DecodeAction::Data(5)));
    let (s, a) = body_step(DecodeState::LengthRefilled { remaining: 5 }, b"ab", 8);
    assert_eq!(s, DecodeState::Length { remaining: 3 });
    assert!(matches!(a, DecodeAction::Data(2)));
    let (s, a) = body_step(DecodeState::Length { remaining: 0 }, b"xyz", 8);
    assert_eq!(s, DecodeState::Finished);
    assert!(matches!(a, DecodeAction::Done));
    match body_step(DecodeState::LengthRefilled { remaining: 5 }, b"", 8).1 {
        DecodeAction::Fail(e) => assert_eq!(e.render(), "connection: Request too short"),
        _ => panic!("expected a failure"),
    }
}

#[test]
fn body_step_chunked() {
    let (s, a) = body_step(DecodeState::SizeLine, b"5\r\nhello", 8);
    assert_eq!(s, DecodeState::Chunk { remaining: 5 });
    assert!(matches!(a, DecodeAction::Consume(3)));
    let (s, a) = body_step(DecodeState::SizeLine, b"1a;ext=1\r\n", 8);
    assert_eq!(s, DecodeState::Chunk { remaining: 26 });
    assert!(matches!(a, DecodeAction::Consume(10)));
    let (s, a) = body_step(DecodeState::Chunk { remaining: 5 }, b"hello\r\n", 8);
    assert_eq!(s, DecodeState::SizeLine);
    assert!(matches!(a, DecodeAction::Data(5)));
    let (s, a) = body_step(DecodeState::Chunk { remaining: 5 }, b"hel", 8);
    assert_eq!(s, DecodeState::Chunk { remaining: 2 });
    assert!(matches!(a, DecodeAction::Data(3)));
    let (s, a) = body_step(DecodeState::SizeLine, b"5", 8);
    assert_eq!(s, DecodeState::SizeLine);
    assert!(matches!(a, DecodeAction::Fill));
    let (s, a) = body_step(DecodeState::SizeLine, b"0\r\n", 8);
    assert_eq!(s, DecodeState::Trailers);
    assert!(matches!(a, DecodeAction::Consume(3)));
    match body_step(DecodeState::SizeLine, b"zz\r\n", 8).1 {
        DecodeAction::Fail(e) => assert_eq!(e.render(), "connection: parse chunk size"),
        _ => panic!("expected a failure"),
    }
    let (s, a) = body_step(DecodeState::ChunkRefilled { remaining: 2 }, b"abcd", 8);
    assert_eq!(s, DecodeState::Chunk { remaining: 0 });
    assert!(matches!(a, DecodeAction::Data(2)));
    let long = vec![b'1'; 129];
    match body_step(DecodeState::SizeLine, &long[..15], 8).1 {
        DecodeAction::Fill => {}
        _ => panic!("expected a fill"),
    }
}

#[test]
fn body_step_trailers() {
    let (s, a) = body_step(DecodeState::Trailers, b"x-t: 1\r\n\r\n", 8);
    assert_eq!(s, DecodeState::Finished);
    match a {
        DecodeAction::Trailers(n, h) => {
            assert_eq!(n, 10);
            assert_eq!(fields(&h), pairs(&[("x-t", "1")]));
        }
        _ => panic!("expected trailers"),
    }
    let (s, a) = body_step(DecodeState::Trailers, b"x-t: 1\r\n", 8);
    assert_eq!(s, DecodeState::TrailersRefilled { before: 8 });
    assert!(matches!(a, DecodeAction::Fill));
    match body_step(DecodeState::TrailersRefilled { before: 8 }, b"x-t: 1\r\n", 8).1 {
        DecodeAction::Fail(e) => assert_eq!(e.render(), "connection: Request too short"),
        _ => panic!("expected a failure"),
    }
    let (s, a) = body_step(DecodeState::Finished, b"", 8);
    assert_eq!(s, DecodeState::Finished);
    assert!(matches!(a, DecodeAction::Done));
}

#[test]
fn body_writer_known_length_cuts_to_length() {
    let mut w = BodyWriter::new(Some(5));
    assert_eq!(w.data(b"abc"), b"abc".to_vec());
    assert_eq!(w.remaining, Some(2));
    assert_ne!(w.remaining, Some(0));
    assert_eq!(w.data(b"defg"), b"de".to_vec());
    assert_eq!(w.remaining, Some(0));
    assert_eq!(w.data(b"x"), Vec::<u8>::new());
    assert!(w.finish().is_empty());
    match w.trailers(&list(&[("x-t", "1")])) {
        Err(e) => assert_eq!(e.render(), "connection: Trailers specified with non-chunked encoding"),
        Ok(_) => panic!("trailers on a sized body"),
    }
    assert!(w.trailers(&list(&[("x-t", "\u{1}")])).is_err());
}

#[test]
fn body_writer_chunked_frames() {
    let mut w = BodyWriter::new(None);
    assert_eq!(w.data(b"hello"), b"5\r\nhello\r\n".to_vec());
    let data = vec![b'z'; 26];
    let mut expected = b"1a\r\n".to_vec();
    expected.extend_from_slice(&data);
    expected.extend_from_slice(b"\r\n");
    assert_eq!(w.data(&data), expected);
    assert_ne!(w.remaining, Some(0));
    assert_eq!(w.finish(), b"0\r\n\r\n".to_vec());
    assert_eq!(w.trailers(&list(&[("x-t", "1")])).unwrap(), b"0\r\nx-t: 1\r\n\r\n".to_vec());
}

#[test]
fn hex_digits() {
    assert_eq!(format_hex(0), b"0".to_vec());
    assert_eq!(format_hex(255), b"ff".to_vec());
    assert_eq!(format_hex(4096), b"1000".to_vec());
    assert_eq!(format_hex(u64::MAX), b"ffffffffffffffff".to_vec());
}

#[test]
fn text_helpers() {
    assert!(eq_ignore_ascii_case(b"Chunked", b"chunked"));
    assert!(!eq_ignore_ascii_case(b"chunk", b"chunked"));
    assert_eq!(trim_range(b"  ab c \t", 0, 8), (2, 6));
    assert_eq!(
        split_bytes(b"a,b,,c", b','),
        vec![b"a".to_vec(), b"b".to_vec(), b"".to_vec(), b"c".to_vec()]
    );
    assert!(only_chunked(b"chunked"));
    assert!(only_chunked(b" chunked , CHUNKED"));
    assert!(!only_chunked(b"gzip, chunked"));
    assert!(str_eq("abc", "abc"));
    assert!(!str_eq("abc", "abd"));
}

#[test]
fn known_length_body_hands_on_its_whole_length() {
    // Step the decoder through refills of 3 bytes each over a body of 8.
    let input = b"abcdefghXYZ";
    let mut state = DecodeState::Length { remaining: 8 };
    let mut handed = Vec::new();
    let mut pos = 0;
    let mut buffered: Vec<u8> = Vec::new();
    for _ in 0..20 {
        let (next, action) = body_step(state, &buffered, 8);
        state = next;
        match action {
            DecodeAction::Fill => {
                let end = (pos + 3).min(input.len());
                buffered.extend_from_slice(&input[pos..end]);
                pos = end;
            }
            DecodeAction::Data(n) => {
                handed.extend_from_slice(&buffered[..n]);
                buffered.drain(..n);
            }
            DecodeAction::Done => break,
            _ => panic!("unexpected action"),
        }
    }
    assert_eq!(state, DecodeState::Finished);
    assert_eq!(handed, b"abcdefgh".to_vec());
}

#[test]
fn chunk_data_comes_off_what_the_chunk_owes() {
    let (s, a) = body_step(DecodeState::ChunkRefilled { remaining: 4 }, b"abc", 8);
    assert_eq!(s, DecodeState::Chunk { remaining: 1 });
    assert!(matches!(a, DecodeAction::Data(3)));
    let (s, a) = body_step(DecodeState::Chunk { remaining: 0 }, b"\r\n", 8);
    assert_eq!(s, DecodeState::SizeLine);
    assert!(matches!(a, DecodeAction::Continue));
}

#[test]
fn plan_request_refuses_a_field_that_is_not_text() {
    let mut h = HeaderList::new();
    h.append(b"connection".to_vec(), vec![0x80, b'a']);
    let head = RequestHead { method: b"GET".to_vec(), version: HttpVersion::Http11, uri: b"/".to_vec(), headers: h };
    let e = plan_request(&head, false, 8).unwrap_err();
    assert_eq!(e.context(), &["bad connection header"]);
    assert!(e.kind().is_some());
}

#[test]
fn http1_serving_decisions() {

    let b = scuffle::tcp_config::Http1Builder::new();
    assert_eq!(http1_settings(Some(b)).unwrap(), b);
    let e = http1_settings(None).unwrap_err();
    assert_eq!(e.render(), "connection: http1 builder not configured");
    assert_eq!(e.severity(), ErrorSeverity::Error);
    assert!(keeps_serving(b, ConnectionState::KeepAlive));
    assert!(!keeps_serving(b, ConnectionState::Close));
    assert!(!keeps_serving(b, ConnectionState::NotSpecified(HttpVersion::Http11)));
    assert!(!keeps_serving(b.with_keep_alive(false), ConnectionState::KeepAlive));
}

#[test]
fn keep_alive_off_closes_the_connection() {
    let date = b"Thu, 01 Jan 1970 00:00:00 GMT".to_vec();
    let settings = scuffle::tcp_config::Http1Builder::new().with_keep_alive(false);
    let req = head(HttpVersion::Http11, &[("connection", "keep-alive")]);
    let plan = plan_request(&req, false, 8).unwrap();
    let mut h = HeaderList::new();
    let s = complete_response(&mut h, plan.connection, date.clone(), None, settings.keep_alive);
    assert_eq!(s, ConnectionState::Close);
    assert_eq!(h.get(b"connection").unwrap(), &b"close".to_vec());
    assert!(!keeps_serving(settings, s));
    let mut h = list(&[("connection", "keep-alive")]);
    let s = complete_response(&mut h, ConnectionState::NotSpecified(HttpVersion::Http11), date, None, false);
    assert_eq!(s, ConnectionState::Close);
    assert_eq!(h.get(b"connection").unwrap(), &b"close".to_vec());
}

#[test]
fn http10_needs_to_be_allowed() {
    let settings = scuffle::tcp_config::Http1Builder::new();
    let old = head(HttpVersion::Http10, &[]);
    let e = admit_request(settings, &old).unwrap_err();
    assert_eq!(e.render(), "request: http/1.0 requests are not allowed");
    assert!(admit_request(settings.with_allow_http10(true), &old).is_ok());
    assert!(admit_request(settings, &head(HttpVersion::Http11, &[])).is_ok());
}
