//! The decisions of the HTTP server front: which protocols a TLS
//! configuration announces and which backends a run starts.
use vstd::prelude::*;
use crate::bytes_util::{ascii, put_ascii};
use crate::tcp_config::views;

verus! {

/// The application protocols a server announces in its TLS configuration
/// when that lists none: `http/1.0` and `http/1.1` when HTTP/1 is enabled,
/// `h2` and `h2c` when HTTP/2 is, `h3` when HTTP/3 is.
pub open spec fn server_alpn(http1: bool, http2: bool, http3: bool) -> Seq<Seq<u8>> {
    (if http1 { seq![ascii("http/1.0"@), ascii("http/1.1"@)] } else { Seq::empty() })
        + (if http2 { seq![ascii("h2"@), ascii("h2c"@)] } else { Seq::empty() })
        + (if http3 { seq![ascii("h3"@)] } else { Seq::empty() })
}

fn protocol_id(s: &str) -> (r: Vec<u8>)
    requires
        crate::bytes_util::all_ascii(s@),
    ensures
        r@ == ascii(s@),
{
    let mut v: Vec<u8> = Vec::new();
    put_ascii(&mut v, s);
    assert(v@ =~= ascii(s@));
    v
}

/// Fills in the protocols of the server's TLS configuration, if it has one
/// and it lists none, as [`server_alpn`] says; a configuration that lists
/// protocols keeps them.
pub fn set_alpn_protocols(
    alpn: &mut Option<Vec<Vec<u8>>>,
    enable_http1: bool,
    enable_http2: bool,
    enable_http3: bool,
)
    ensures
        match *old(alpn) {
            None => *final(alpn) is None,
            Some(current) => *final(alpn) matches Some(now) && views(now@) == (if current@.len() == 0 {
                server_alpn(enable_http1, enable_http2, enable_http3)
            } else {
                views(current@)
            }),
        },
{
    proof {
        reveal_strlit("http/1.0");
        reveal_strlit("http/1.1");
        reveal_strlit("h2");
        reveal_strlit("h2c");
        reveal_strlit("h3");
    }
    match alpn {
        None => {},
        Some(list) => {
            if list.len() == 0 {
                if enable_http1 {
                    list.push(protocol_id("http/1.0"));
                    list.push(protocol_id("http/1.1"));
                }
                if enable_http2 {
                    list.push(protocol_id("h2"));
                    list.push(protocol_id("h2c"));
                }
                if enable_http3 {
                    list.push(protocol_id("h3"));
                }
                assert(views(list@) =~= server_alpn(enable_http1, enable_http2, enable_http3));
            }
        },
    }
}

/// The backends a run of the server starts.
#[derive(Debug, Clone, Copy, PartialEq, Eq, Structural)]
pub enum Backends {
    /// Nothing: the run ends at once.
    Nothing,
    /// HTTP/3 over QUIC alone.
    Http3,
    /// HTTP/1 and HTTP/2 over TLS.
    SecureTcp,
    /// Both of the above, until the first of them ends.
    SecureTcpAndHttp3,
    /// HTTP/1 and HTTP/2 without TLS.
    InsecureTcp,
}

/// Which backends a run starts: with TLS, the TCP backend when HTTP/1 or
/// HTTP/2 is enabled and the QUIC backend when HTTP/3 is; without TLS,
/// only the plain TCP backend, when HTTP/1 or HTTP/2 is enabled.
pub open spec fn backends_of(enable_http1: bool, enable_http2: bool, enable_http3: bool, tls: bool) -> Backends {
    let tcp = enable_http1 || enable_http2;
    if tls {
        if tcp && enable_http3 {
            Backends::SecureTcpAndHttp3
        } else if tcp {
            Backends::SecureTcp
        } else if enable_http3 {
            Backends::Http3
        } else {
            Backends::Nothing
        }
    } else if tcp {
        Backends::InsecureTcp
    } else {
        Backends::Nothing
    }
}

/// Decides which backends a run starts, as [`backends_of`] says.
pub fn choose_backends(enable_http1: bool, enable_http2: bool, enable_http3: bool, tls: bool) -> (r: Backends)
    ensures
        r == backends_of(enable_http1, enable_http2, enable_http3, tls),
{
    let start_tcp_backend = enable_http1 || enable_http2;
    if tls {
        match (start_tcp_backend, enable_http3) {
            (false, true) => Backends::Http3,
            (true, false) => Backends::SecureTcp,
            (true, true) => Backends::SecureTcpAndHttp3,
            _ => Backends::Nothing,
        }
    } else if start_tcp_backend {
        Backends::InsecureTcp
    } else {
        Backends::Nothing
    }
}

} // verus!
