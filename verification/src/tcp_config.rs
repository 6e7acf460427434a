//! Configuration of the TCP backend: the HTTP/1 settings and the protocols
//! announced during the TLS handshake.
use vstd::prelude::*;
use crate::bytes_util::{ascii, put_ascii};

verus! {

/// Settings of HTTP/1 connections.
#[derive(Debug, Clone, Copy, PartialEq, Eq, Structural)]
pub struct Http1Builder {
    /// The buffer size to use for underlying TCP stream. (default: 32KiB)
    pub recv_buffer_size: usize,
    /// The buffer size to use for sending data. (default: 32KiB)
    pub send_buffer_size: usize,
    /// The maximum header length. (default: 100)
    pub max_headers: usize,
    /// Whether to use half-close for the HTTP/1.1 connection. (default: false)
    pub half_close: bool,
    /// Whether to allow reusing the connection after a request. (default: true)
    pub keep_alive: bool,
    /// Whether to allow HTTP/1.0 requests. (default: false)
    pub allow_http10: bool,
}

/// The default settings.
pub open spec fn default_http1() -> Http1Builder {
    Http1Builder {
        recv_buffer_size: 32768,
        send_buffer_size: 32768,
        max_headers: 100,
        half_close: false,
        keep_alive: true,
        allow_http10: false,
    }
}

impl Default for Http1Builder {
    fn default() -> (r: Self)
        ensures
            r == default_http1(),
    {
        Self::new()
    }
}

impl Http1Builder {
    pub fn new() -> (r: Self)
        ensures
            r == default_http1(),
    {
        Self {
            recv_buffer_size: 32 * 1024,
            send_buffer_size: 32 * 1024,
            max_headers: 100,
            half_close: false,
            keep_alive: true,
            allow_http10: false,
        }
    }

    pub fn with_recv_buffer_size(self, size: usize) -> (r: Self)
        ensures
            r == (Http1Builder { recv_buffer_size: size, ..self }),
    {
        let mut s = self;
        s.recv_buffer_size = size;
        s
    }

    pub fn with_send_buffer_size(self, size: usize) -> (r: Self)
        ensures
            r == (Http1Builder { send_buffer_size: size, ..self }),
    {
        let mut s = self;
        s.send_buffer_size = size;
        s
    }

    pub fn with_max_header(self, size: usize) -> (r: Self)
        ensures
            r == (Http1Builder { max_headers: size, ..self }),
    {
        let mut s = self;
        s.max_headers = size;
        s
    }

    pub fn with_half_close(self, half_close: bool) -> (r: Self)
        ensures
            r == (Http1Builder { half_close, ..self }),
    {
        let mut s = self;
        s.half_close = half_close;
        s
    }

    pub fn with_keep_alive(self, keep_alive: bool) -> (r: Self)
        ensures
            r == (Http1Builder { keep_alive, ..self }),
    {
        let mut s = self;
        s.keep_alive = keep_alive;
        s
    }

    pub fn with_allow_http10(self, allow_http10: bool) -> (r: Self)
        ensures
            r == (Http1Builder { allow_http10, ..self }),
    {
        let mut s = self;
        s.allow_http10 = allow_http10;
        s
    }
}

/// The application protocols the TCP backend announces during the TLS
/// handshake: `h2` when HTTP/2 is on, then `http/1.1` when HTTP/1 is on,
/// then `http/1.0` when HTTP/1 allows it.
pub open spec fn tcp_alpn(http1: Option<Http1Builder>, http2: bool) -> Seq<Seq<u8>> {
    (if http2 { seq![ascii("h2"@)] } else { Seq::empty() }) + (match http1 {
        Some(b) => if b.allow_http10 {
            seq![ascii("http/1.1"@), ascii("http/1.0"@)]
        } else {
            seq![ascii("http/1.1"@)]
        },
        None => Seq::empty(),
    })
}

pub open spec fn views(v: Seq<Vec<u8>>) -> Seq<Seq<u8>> {
    v.map_values(|x: Vec<u8>| x@)
}

fn protocol_id(s: &str) -> (r: Vec<u8>)
    requires
        crate::bytes_util::all_ascii(s@),
    ensures
        r@ == ascii(s@),
{
    let mut v: Vec<u8> = Vec::new();
    put_ascii(&mut v, s);
    assert(v@ =~= ascii(s@));
    v
}

/// Lists the protocols the TCP backend announces, as [`tcp_alpn`] says.
pub fn tcp_alpn_protocols(http1: Option<Http1Builder>, http2: bool) -> (r: Vec<Vec<u8>>)
    ensures
        views(r@) == tcp_alpn(http1, http2),
{
    proof {
        reveal_strlit("h2");
        reveal_strlit("http/1.1");
        reveal_strlit("http/1.0");
    }
    let mut alpn: Vec<Vec<u8>> = Vec::new();
    if http2 {
        alpn.push(protocol_id("h2"));
    }
    if let Some(b) = http1 {
        alpn.push(protocol_id("http/1.1"));
        if b.allow_http10 {
            alpn.push(protocol_id("http/1.0"));
        }
    }
    assert(views(alpn@) =~= tcp_alpn(http1, http2));
    alpn
}

#[verifier::external_type_specification]
#[verifier::external_body]
pub struct ExH2Builder(h2::server::Builder);

/// A fresh HTTP/2 server builder with h2's own defaults.
///
/// Calls `h2::server::Builder::new`; nothing is claimed of the builder.
#[verifier::external_body]
fn default_h2_builder() -> (r: h2::server::Builder) {
    h2::server::Builder::new()
}

/// Settings of the TCP server before its listener and TLS acceptor are
/// given; the timeouts are counted in milliseconds.
pub struct TcpServerConfigBuilder {
    /// The HTTP/2 settings; `None` when HTTP/2 is off.
    pub http2_builder: Option<h2::server::Builder>,
    /// The HTTP/1 settings; `None` when HTTP/1 is off.
    pub http1_builder: Option<Http1Builder>,
    /// The most connections served at once, if bounded.
    pub connection_limit: Option<usize>,
    /// The maximum time a connection can be idle before it is closed.
    /// (default: 30 seconds)
    pub idle_timeout_ms: Option<u64>,
    /// The maximum time a TLS handshake can take. (default: 5 seconds)
    pub handshake_timeout_ms: Option<u64>,
    /// The name the server gives in its responses.
    pub server_name: Option<String>,
}

/// The idle timeout a new configuration starts with: 30 seconds.
pub const DEFAULT_IDLE_TIMEOUT_MS: u64 = 30_000;

/// The handshake timeout a new configuration starts with: 5 seconds.
pub const DEFAULT_HANDSHAKE_TIMEOUT_MS: u64 = 5_000;

impl Default for TcpServerConfigBuilder {
    fn default() -> (r: Self)
        ensures
            r.http2_builder is Some,
            r.http1_builder == Some(default_http1()),
            r.connection_limit is None,
            r.idle_timeout_ms == Some(30_000u64),
            r.handshake_timeout_ms == Some(5_000u64),
            r.server_name is None,
    {
        Self::new()
    }
}

impl TcpServerConfigBuilder {
    /// A configuration that serves HTTP/2 and HTTP/1 with their default
    /// settings, bounds no connection count, closes a connection idle for
    /// 30 seconds, gives a TLS handshake 5 seconds and names no server.
    pub fn new() -> (r: Self)
        ensures
            r.http2_builder is Some,
            r.http1_builder == Some(default_http1()),
            r.connection_limit is None,
            r.idle_timeout_ms == Some(30_000u64),
            r.handshake_timeout_ms == Some(5_000u64),
            r.server_name is None,
    {
        Self {
            http2_builder: Some(default_h2_builder()),
            http1_builder: Some(Http1Builder::new()),
            connection_limit: None,
            idle_timeout_ms: Some(DEFAULT_IDLE_TIMEOUT_MS),
            handshake_timeout_ms: Some(DEFAULT_HANDSHAKE_TIMEOUT_MS),
            server_name: None,
        }
    }

    /// Serves HTTP/2 with `builder`.
    pub fn with_http2_builder(self, builder: h2::server::Builder) -> (r: Self)
        ensures
            r.http2_builder == Some(builder),
            r.http1_builder == self.http1_builder,
            r.connection_limit == self.connection_limit,
            r.idle_timeout_ms == self.idle_timeout_ms,
            r.handshake_timeout_ms == self.handshake_timeout_ms,
            r.server_name == self.server_name,
    {
        let mut s = self;
        s.http2_builder = Some(builder);
        s
    }

    /// Serves HTTP/2 with the builder that `builder` makes.
    pub fn with_http2_builder_fn<F: FnOnce() -> h2::server::Builder>(self, builder: F) -> (r: Self)
        requires
            builder.requires(()),
        ensures
            r.http2_builder matches Some(b) && builder.ensures((), b),
            r.http1_builder == self.http1_builder,
            r.connection_limit == self.connection_limit,
            r.idle_timeout_ms == self.idle_timeout_ms,
            r.handshake_timeout_ms == self.handshake_timeout_ms,
            r.server_name == self.server_name,
    {
        let b = builder();
        self.with_http2_builder(b)
    }

    /// Serves HTTP/1 with the settings that `builder` makes.
    pub fn with_http1_builder_fn<F: FnOnce() -> Http1Builder>(self, builder: F) -> (r: Self)
        requires
            builder.requires(()),
        ensures
            r.http1_builder matches Some(b) && builder.ensures((), b),
            r.http2_builder == self.http2_builder,
            r.connection_limit == self.connection_limit,
            r.idle_timeout_ms == self.idle_timeout_ms,
            r.handshake_timeout_ms == self.handshake_timeout_ms,
            r.server_name == self.server_name,
    {
        let b = builder();
        self.with_http1_builder(b)
    }

    /// Bounds the number of connections served at once.
    pub fn with_connection_limit(self, limit: usize) -> (r: Self)
        ensures
            r.connection_limit == Some(limit),
            r.http2_builder == self.http2_builder,
            r.http1_builder == self.http1_builder,
            r.idle_timeout_ms == self.idle_timeout_ms,
            r.handshake_timeout_ms == self.handshake_timeout_ms,
            r.server_name == self.server_name,
    {
        let mut s = self;
        s.connection_limit = Some(limit);
        s
    }

    /// Closes connections idle for `timeout_ms` milliseconds.
    pub fn with_idle_timeout(self, timeout_ms: u64) -> (r: Self)
        ensures
            r.idle_timeout_ms == Some(timeout_ms),
            r.http2_builder == self.http2_builder,
            r.http1_builder == self.http1_builder,
            r.connection_limit == self.connection_limit,
            r.handshake_timeout_ms == self.handshake_timeout_ms,
            r.server_name == self.server_name,
    {
        let mut s = self;
        s.idle_timeout_ms = Some(timeout_ms);
        s
    }

    /// Gives a TLS handshake `timeout_ms` milliseconds.
    pub fn with_handshake_timeout(self, timeout_ms: u64) -> (r: Self)
        ensures
            r.handshake_timeout_ms == Some(timeout_ms),
            r.http2_builder == self.http2_builder,
            r.http1_builder == self.http1_builder,
            r.connection_limit == self.connection_limit,
            r.idle_timeout_ms == self.idle_timeout_ms,
            r.server_name == self.server_name,
    {
        let mut s = self;
        s.handshake_timeout_ms = Some(timeout_ms);
        s
    }

    /// Serves HTTP/1 with `builder`.
    pub fn with_http1_builder(self, builder: Http1Builder) -> (r: Self)
        ensures
            r.http1_builder == Some(builder),
            r.http2_builder == self.http2_builder,
            r.connection_limit == self.connection_limit,
            r.idle_timeout_ms == self.idle_timeout_ms,
            r.handshake_timeout_ms == self.handshake_timeout_ms,
            r.server_name == self.server_name,
    {
        let mut s = self;
        s.http1_builder = Some(builder);
        s
    }

    /// Stops serving HTTP/2.
    pub fn disable_http2(self) -> (r: Self)
        ensures
            r.http2_builder is None,
            r.http1_builder == self.http1_builder,
            r.connection_limit == self.connection_limit,
            r.idle_timeout_ms == self.idle_timeout_ms,
            r.handshake_timeout_ms == self.handshake_timeout_ms,
            r.server_name == self.server_name,
    {
        let mut s = self;
        s.http2_builder = None;
        s
    }

    /// Stops serving HTTP/1.
    pub fn disable_http1(self) -> (r: Self)
        ensures
            r.http1_builder is None,
            r.http2_builder == self.http2_builder,
            r.connection_limit == self.connection_limit,
            r.idle_timeout_ms == self.idle_timeout_ms,
            r.handshake_timeout_ms == self.handshake_timeout_ms,
            r.server_name == self.server_name,
    {
        let mut s = self;
        s.http1_builder = None;
        s
    }

    /// Names the server in its responses.
    pub fn with_server_name(self, server_name: String) -> (r: Self)
        ensures
            r.server_name == Some(server_name),
            r.http2_builder == self.http2_builder,
            r.http1_builder == self.http1_builder,
            r.connection_limit == self.connection_limit,
            r.idle_timeout_ms == self.idle_timeout_ms,
            r.handshake_timeout_ms == self.handshake_timeout_ms,
    {
        let mut s = self;
        s.server_name = Some(server_name);
        s
    }

    /// The protocols this configuration announces during the TLS handshake,
    /// as [`tcp_alpn`] says.
    pub fn alpn_protocols(&self) -> (r: Vec<Vec<u8>>)
        ensures
            views(r@) == tcp_alpn(self.http1_builder, self.http2_builder is Some),
    {
        tcp_alpn_protocols(self.http1_builder, self.http2_builder.is_some())
    }
}

/// The protocols a TLS configuration announces once the backend sets them:
/// a configuration that already lists protocols keeps its own.
pub open spec fn set_alpn_of(current: Seq<Seq<u8>>, alpn: Seq<Seq<u8>>) -> Seq<Seq<u8>> {
    if current.len() == 0 {
        alpn
    } else {
        current
    }
}

/// Sets the protocols of a TLS configuration unless it lists some already.
pub fn set_alpn(current: &mut Vec<Vec<u8>>, alpn: Vec<Vec<u8>>)
    ensures
        views(final(current)@) == set_alpn_of(views(old(current)@), views(alpn@)),
{
    if current.len() == 0 {
        *current = alpn;
    }
}

} // verus!
