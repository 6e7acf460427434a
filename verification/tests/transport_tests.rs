use scuffle::headers::HeaderList;
use scuffle::tcp_util::apply_server_name;
use scuffle::h1_body::{RecvEvent, RecvOutcome, RecvState, SizeHint};
use scuffle::h2_body::{
    h2_body_error, h2_content_length, http2_settings, h2_is_end_stream, h2_next_read, h2_on_data, h2_on_trailers, h2_size_hint,
    BodyYield, DataPoll, H2Outcome, H2Read, H2Sender, SendFrame, TrailerPoll,
};
use scuffle::server::{choose_backends, set_alpn_protocols, Backends};
use scuffle::tcp_config::{set_alpn, tcp_alpn_protocols, Http1Builder, TcpServerConfigBuilder};
use scuffle::tcp_util::{
    bad_response_with_date, find_bytes, is_fatal_errno, is_fatal_tcp_error, probe_tls,
    read_version, Rewind, TlsProbe, Version, BAD_REQUEST_BODY, BAD_REQUEST_PLAIN_ON_TLS,
};

const PREFACE: &[u8; 24] = b"PRI * HTTP/2.0\r\n\r\nSM\r\n\r\n";

#[test]
fn recv_state_counts_known_size() {
    let mut s = RecvState::new(Some(10));
    assert_eq!(s, RecvState::SizeKnown(10));
    assert_eq!(s.size_hint(), SizeHint { lower: 10, upper: Some(10) });
    assert_eq!(s.on_event(RecvEvent::Data(4)), RecvOutcome::Frame);
    assert_eq!(s, RecvState::SizeKnown(6));
    assert_eq!(s.size_hint().exact(), Some(6));
    assert!(!s.is_end_stream());
    assert_eq!(s.on_event(RecvEvent::Data(7)), RecvOutcome::Frame);
    assert_eq!(s, RecvState::BodyComplete);
    assert!(s.is_end_stream());
    assert_eq!(s.on_event(RecvEvent::Closed), RecvOutcome::End);
}

#[test]
fn recv_state_closed_early_is_too_short() {
    let mut s = RecvState::new(Some(10));
    assert_eq!(s.on_event(RecvEvent::Data(4)), RecvOutcome::Frame);
    assert_eq!(s.on_event(RecvEvent::Closed), RecvOutcome::TooShort);
    let mut s = RecvState::new(None);
    assert_eq!(s.size_hint(), SizeHint::new());
    assert_eq!(s.size_hint().exact(), None);
    assert_eq!(s.on_event(RecvEvent::Trailers), RecvOutcome::Frame);
    assert_eq!(s, RecvState::TrailerComplete);
    assert!(!s.must_poll());
    assert_eq!(s.size_hint(), SizeHint::with_exact(0));
}

#[test]
fn h2_receive_flow() {
    let mut s = RecvState::new(None);
    assert_eq!(h2_next_read(s), H2Read::Data);
    assert_eq!(h2_on_data(&mut s, DataPoll::Data), H2Outcome::Frame);
    assert_eq!(h2_on_data(&mut s, DataPoll::Pending), H2Outcome::Pending);
    assert_eq!(h2_on_data(&mut s, DataPoll::Ended), H2Outcome::ReadTrailers);
    assert_eq!(s, RecvState::BodyComplete);
    assert_eq!(h2_next_read(s), H2Read::Trailers);
    assert_eq!(h2_on_trailers(&mut s, TrailerPoll::Absent), H2Outcome::End);
    assert_eq!(s, RecvState::TrailerComplete);
    assert_eq!(h2_next_read(s), H2Read::Nothing);
    assert!(h2_is_end_stream(s, false));
    assert!(h2_is_end_stream(RecvState::SizeUnknown, true));
    assert!(!h2_is_end_stream(RecvState::SizeUnknown, false));
    let mut t = RecvState::BodyComplete;
    assert_eq!(h2_on_trailers(&mut t, TrailerPoll::Failed), H2Outcome::TrailerError);
    assert_eq!(t, RecvState::BodyComplete);
    assert_eq!(h2_size_hint(RecvState::SizeKnown(3)), SizeHint { lower: 3, upper: Some(3) });
}

#[test]
fn h2_errors_and_length() {
    let e = h2_body_error("reset".to_string(), false);
    assert_eq!(e.render(), "request: http2 body data: reset");
    let e = h2_body_error("reset".to_string(), true);
    assert_eq!(e.render(), "request: http2 body trailers: reset");
    assert_eq!(h2_content_length(None).unwrap(), None);
    assert_eq!(h2_content_length(Some(b"12")).unwrap(), Some(12));
    let e = h2_content_length(Some(b"twelve")).unwrap_err();
    assert_eq!(e.render(), "request: bad content length header");
}

#[test]
fn h2_sender_closes_on_last_frame() {
    let mut s = H2Sender::new();
    assert!(s.needs_final_frame());
    assert_eq!(s.on_yield(BodyYield::Data { body_ended: false }), (SendFrame::Data { end: false }, false));
    assert_eq!(s.on_yield(BodyYield::Other), (SendFrame::Skip, false));
    assert!(s.needs_final_frame());
    assert_eq!(s.on_yield(BodyYield::Data { body_ended: true }), (SendFrame::Data { end: true }, true));
    assert!(!s.needs_final_frame());
    let mut s = H2Sender::new();
    assert_eq!(s.on_yield(BodyYield::Trailers), (SendFrame::Trailers, true));
    assert!(!s.needs_final_frame());
}

#[test]
fn fatal_errors() {
    assert!(is_fatal_errno(Some(12), &[22, 12]));
    assert!(!is_fatal_errno(Some(11), &[22, 12]));
    assert!(!is_fatal_errno(None, &[22, 12]));
    assert!(!is_fatal_tcp_error(None));
    assert!(is_fatal_tcp_error(Some(libc::EMFILE)));
    assert!(is_fatal_tcp_error(Some(libc::ENOMEM)));
    assert!(!is_fatal_tcp_error(Some(libc::ECONNABORTED)));
}

#[test]
fn tls_probe() {
    assert_eq!(probe_tls(PREFACE), TlsProbe::Http2Preface);
    assert_eq!(probe_tls(b"GET / HTTP/1.1\r\nHost: x\r\n\r\n"), TlsProbe::PlainHttp);
    assert_eq!(probe_tls(&[0x16, 0x03, 0x01, 0x02, 0x00]), TlsProbe::Tls);
    assert_eq!(probe_tls(&[0x16, 0x03, 0x00]), TlsProbe::NotTls);
    assert_eq!(probe_tls(&[0x16]), TlsProbe::NotTls);
    assert_eq!(probe_tls(b"hello"), TlsProbe::NotTls);
    // Not UTF-8, so not taken for plain HTTP even with the marker in it.
    let mut bytes = vec![0x16, 0x03, 0x03, 0xff];
    bytes.extend_from_slice(b"HTTP/1.1");
    assert_eq!(probe_tls(&bytes), TlsProbe::Tls);
    assert!(find_bytes(b"abcHTTP/1.1", b"HTTP/1.1"));
    assert!(!find_bytes(b"HTTP/1.", b"HTTP/1.1"));
}

#[test]
fn bad_responses() {
    let r = bad_response_with_date("oops", b"Thu, 01 Jan 1970 00:00:00 GMT");
    assert_eq!(
        String::from_utf8(r).unwrap(),
        "HTTP/1.1 400 Bad Request\r\nContent-Type: text/html\r\nDate: Thu, 01 Jan 1970 00:00:00 GMT\r\nConnection: close\r\nContent-Length: 4\r\n\r\noops"
    );
    let r = bad_response_with_date(BAD_REQUEST_BODY, b"Thu, 01 Jan 1970 00:00:00 GMT");
    let text = String::from_utf8(r).unwrap();
    assert!(text.starts_with("HTTP/1.1 400 Bad Request\r\nContent-Type: text/html\r\nDate: "));
    assert!(text.ends_with(&format!("Content-Length: {}\r\n\r\n{}", BAD_REQUEST_BODY.len(), BAD_REQUEST_BODY)));
    assert!(BAD_REQUEST_PLAIN_ON_TLS.contains("Sent plain HTTP request to an HTTPS port"));
}

#[test]
fn rewind_hands_out_the_peeked_bytes_first() {
    let mut r = Rewind::new(7u32, *PREFACE);
    let (a, more) = r.replay(10);
    assert_eq!(a, PREFACE[..10].to_vec());
    assert!(!more);
    let (b, more) = r.replay(100);
    assert_eq!(b, PREFACE[10..].to_vec());
    assert!(more);
    let (c, more) = r.replay(100);
    assert!(c.is_empty());
    assert!(more);
    assert_eq!(*r.get_mut(), 7);
}

#[test]
fn version_from_preface() {
    let (v, mut r) = read_version("io", *PREFACE);
    assert_eq!(v, Version::H2);
    assert_eq!(r.replay(24).0, PREFACE.to_vec());
    let (v, _) = read_version("io", *b"GET / HTTP/1.1\r\nHost: ab");
    assert_eq!(v, Version::H1);
}

#[test]
fn http1_builder_settings() {
    let b = Http1Builder::new();
    assert_eq!(b, Http1Builder::default());
    assert_eq!(b.recv_buffer_size, 32 * 1024);
    assert_eq!(b.send_buffer_size, 32 * 1024);
    assert_eq!(b.max_headers, 100);
    assert!(!b.half_close);
    assert!(b.keep_alive);
    assert!(!b.allow_http10);
    let b = b
        .with_recv_buffer_size(1)
        .with_send_buffer_size(2)
        .with_max_header(3)
        .with_half_close(true)
        .with_keep_alive(false)
        .with_allow_http10(true);
    assert_eq!(
        b,
        Http1Builder {
            recv_buffer_size: 1,
            send_buffer_size: 2,
            max_headers: 3,
            half_close: true,
            keep_alive: false,
            allow_http10: true
        }
    );
}

#[test]
fn tcp_alpn() {
    let h1 = Http1Builder::new();
    assert_eq!(tcp_alpn_protocols(Some(h1), true), vec![b"h2".to_vec(), b"http/1.1".to_vec()]);
    assert_eq!(
        tcp_alpn_protocols(Some(h1.with_allow_http10(true)), false),
        vec![b"http/1.1".to_vec(), b"http/1.0".to_vec()]
    );
    assert!(tcp_alpn_protocols(None, false).is_empty());
    let mut current = Vec::new();
    set_alpn(&mut current, vec![b"h2".to_vec()]);
    assert_eq!(current, vec![b"h2".to_vec()]);
    set_alpn(&mut current, vec![b"http/1.1".to_vec()]);
    assert_eq!(current, vec![b"h2".to_vec()]);
}

#[test]
fn server_alpn_and_backends() {
    let mut alpn = Some(Vec::new());
    set_alpn_protocols(&mut alpn, true, true, true);
    assert_eq!(
        alpn,
        Some(vec![b"http/1.0".to_vec(), b"http/1.1".to_vec(), b"h2".to_vec(), b"h2c".to_vec(), b"h3".to_vec()])
    );
    let mut alpn = Some(vec![b"x".to_vec()]);
    set_alpn_protocols(&mut alpn, true, true, true);
    assert_eq!(alpn, Some(vec![b"x".to_vec()]));
    let mut alpn = None;
    set_alpn_protocols(&mut alpn, true, false, false);
    assert_eq!(alpn, None);
    assert_eq!(choose_backends(true, false, true, true), Backends::SecureTcpAndHttp3);
    assert_eq!(choose_backends(false, false, true, true), Backends::Http3);
    assert_eq!(choose_backends(false, true, false, true), Backends::SecureTcp);
    assert_eq!(choose_backends(false, false, false, true), Backends::Nothing);
    assert_eq!(choose_backends(true, true, true, false), Backends::InsecureTcp);
    assert_eq!(choose_backends(false, false, true, false), Backends::Nothing);
}

#[test]
fn server_name_replaces_the_handlers_field() {
    let mut h = HeaderList::new();
    h.append(b"server".to_vec(), b"handler".to_vec());
    h.append(b"x".to_vec(), b"1".to_vec());
    apply_server_name(&mut h, Some(b"scuffle"));
    assert_eq!(h.get(b"server").unwrap(), &b"scuffle".to_vec());
    assert_eq!(h.len(), 2);
    let mut h = HeaderList::new();
    apply_server_name(&mut h, None);
    assert_eq!(h.len(), 0);
    apply_server_name(&mut h, Some(b"s"));
    assert_eq!(h.get(b"server").unwrap(), &b"s".to_vec());
}

#[test]
fn rewind_replays_exactly_the_peeked_bytes() {
    let mut r = Rewind::new((), *PREFACE);
    let mut all = Vec::new();
    for room in [1usize, 5, 3, 100] {
        all.extend(r.replay(room).0);
    }
    assert_eq!(all, PREFACE.to_vec());
}

#[test]
fn tcp_server_config_defaults() {
    let c = TcpServerConfigBuilder::new();
    assert!(c.http2_builder.is_some());
    assert_eq!(c.http1_builder, Some(Http1Builder::new()));
    assert_eq!(c.connection_limit, None);
    assert_eq!(c.idle_timeout_ms, Some(30_000));
    assert_eq!(c.handshake_timeout_ms, Some(5_000));
    assert_eq!(c.server_name, None);
    assert_eq!(c.alpn_protocols(), vec![b"h2".to_vec(), b"http/1.1".to_vec()]);
    let d = TcpServerConfigBuilder::default();
    assert_eq!(d.idle_timeout_ms, Some(30_000));
}

#[test]
fn tcp_server_config_setters() {
    let c = TcpServerConfigBuilder::new()
        .disable_http2()
        .with_http1_builder(Http1Builder::new().with_allow_http10(true))
        .with_connection_limit(7)
        .with_idle_timeout(1_500)
        .with_handshake_timeout(250)
        .with_server_name("edge".to_string());
    assert!(c.http2_builder.is_none());
    assert_eq!(c.connection_limit, Some(7));
    assert_eq!(c.idle_timeout_ms, Some(1_500));
    assert_eq!(c.handshake_timeout_ms, Some(250));
    assert_eq!(c.server_name.as_deref(), Some("edge"));
    assert_eq!(c.alpn_protocols(), vec![b"http/1.1".to_vec(), b"http/1.0".to_vec()]);
    let c = c.disable_http1().with_http2_builder(h2::server::Builder::new());
    assert_eq!(c.alpn_protocols(), vec![b"h2".to_vec()]);
}

#[test]
fn http2_settings_need_a_builder() {
    assert!(http2_settings(Some(h2::server::Builder::new())).is_ok());
    let e = http2_settings(None).unwrap_err();
    assert_eq!(e.render(), "connection: http2 builder not configured");
}

#[test]
fn tcp_server_config_builder_functions() {
    let c = TcpServerConfigBuilder::new()
        .disable_http2()
        .with_http1_builder_fn(|| Http1Builder::new().with_max_header(8));
    assert_eq!(c.http1_builder.map(|b| b.max_headers), Some(8));
    assert!(c.http2_builder.is_none());
    let c = c.with_http2_builder_fn(h2::server::Builder::new);
    assert!(c.http2_builder.is_some());
    assert_eq!(c.idle_timeout_ms, Some(30_000));
}
