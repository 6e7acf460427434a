//! Connection-level helpers of the TCP backend: which accept errors are
//! fatal, telling TLS from plain traffic, the canned bad-request response,
//! and the version sniffing that replays the bytes it peeked at.
use vstd::prelude::*;
use crate::bytes_util::{all_ascii, ascii, put_ascii, put_slice};
use crate::headers::{header_insert, HeaderList};
use crate::proto::{ascii_vec, decimal, format_decimal, visible_text};

verus! {

/// The connection preface of HTTP/2: `PRI * HTTP/2.0\r\n\r\nSM\r\n\r\n`.
pub open spec fn h2_preface() -> Seq<u8> {
    ascii("PRI * HTTP/2.0\r\n\r\nSM\r\n\r\n"@)
}

fn h2_preface_bytes() -> (r: Vec<u8>)
    ensures
        r@ == h2_preface(),
        r@.len() == 24,
{
    proof {
        reveal_strlit("PRI * HTTP/2.0\r\n\r\nSM\r\n\r\n");
    }
    let mut v: Vec<u8> = Vec::new();
    put_ascii(&mut v, "PRI * HTTP/2.0\r\n\r\nSM\r\n\r\n");
    v
}

/// The error numbers of `libc` that make accepting connections pointless to
/// retry: `EFAULT`, `EINVAL`, `ENFILE`, `EMFILE`, `ENOBUFS` and `ENOMEM`.
/// Their values depend on the platform and are not stated.
#[verifier::external_body]
pub fn fatal_errnos() -> (r: [i32; 6]) {
    [libc::EFAULT, libc::EINVAL, libc::ENFILE, libc::EMFILE, libc::ENOBUFS, libc::ENOMEM]
}

/// Whether an error number is among `fatal`.
pub fn is_fatal_errno(code: Option<i32>, fatal: &[i32]) -> (r: bool)
    ensures
        r == match code {
            Some(c) => fatal@.contains(c),
            None => false,
        },
{
    match code {
        None => false,
        Some(c) => {
            let mut i: usize = 0;
            let mut found = false;
            while i < fatal.len() && !found
                invariant
                    i <= fatal@.len(),
                    found ==> fatal@.contains(c),
                    !found ==> forall|j: int| 0 <= j < i ==> fatal@[j] != c,
                decreases fatal@.len() - i,
            {
                if fatal[i] == c {
                    found = true;
                }
                i = i + 1;
            }
            found
        },
    }
}

/// Whether an accept error with OS error number `raw_os_error` is fatal to
/// the listener: an error without a number never is; one with a number is
/// when `libc` gives that number to one of the six codes of
/// [`fatal_errnos`].
pub fn is_fatal_tcp_error(raw_os_error: Option<i32>) -> (r: bool)
    ensures
        raw_os_error is None ==> !r,
        exists|fatal: [i32; 6]|
            call_ensures(fatal_errnos, (), fatal) && r == match raw_os_error {
                Some(c) => fatal@.contains(c),
                None => false,
            },
{
    let codes = fatal_errnos;
    let fatal = codes();
    is_fatal_errno(raw_os_error, &fatal)
}

/// An accept error is fatal exactly when its OS error number is one of the
/// six codes that [`fatal_errnos`] gives (`EFAULT`, `EINVAL`, `ENFILE`,
/// `EMFILE`, `ENOBUFS`, `ENOMEM`), all of them, and never without a number.
pub proof fn law_fatal_accept_errors(raw_os_error: Option<i32>, r: bool)
    requires
        call_ensures(is_fatal_tcp_error, (raw_os_error,), r),
    ensures
        exists|fatal: [i32; 6]|
            call_ensures(fatal_errnos, (), fatal) && (r <==> (raw_os_error matches Some(c) && (c
                == fatal[0] || c == fatal[1] || c == fatal[2] || c == fatal[3] || c == fatal[4] || c
                == fatal[5]))),
{
    let fatal = choose|fatal: [i32; 6]|
        call_ensures(fatal_errnos, (), fatal) && r == match raw_os_error {
            Some(c) => fatal@.contains(c),
            None => false,
        };
    if let Some(c) = raw_os_error {
        if fatal@.contains(c) {
            let k = choose|k: int| 0 <= k < fatal@.len() && fatal@[k] == c;
            assert(fatal@[k] == fatal[k]);
        } else {
            assert(fatal@[0] == fatal[0]);
            assert(fatal@[1] == fatal[1]);
            assert(fatal@[2] == fatal[2]);
            assert(fatal@[3] == fatal[3]);
            assert(fatal@[4] == fatal[4]);
            assert(fatal@[5] == fatal[5]);
        }
    }
}

/// Checks bytes for UTF-8 with `std::str::from_utf8`, which succeeds exactly
/// on valid UTF-8.
#[verifier::external_body]
fn is_utf8(bytes: &[u8]) -> (r: bool)
    ensures
        r == vstd::utf8::valid_utf8(bytes@),
{
    std::str::from_utf8(bytes).is_ok()
}

/// Whether `pat` occurs in `s`.
pub open spec fn contains_bytes(s: Seq<u8>, pat: Seq<u8>) -> bool {
    exists|i: int| 0 <= i && i + pat.len() <= s.len() && #[trigger] s.subrange(i, i + pat.len()) == pat
}

/// Searches `pat` in `s`.
pub fn find_bytes(s: &[u8], pat: &[u8]) -> (r: bool)
    ensures
        r == contains_bytes(s@, pat@),
{
    if pat.len() > s.len() {
        return false;
    }
    let slen = s.len();
    let last = slen - pat.len();
    let mut i: usize = 0;
    loop
        invariant
            slen == s@.len(),
            last + pat@.len() == s@.len(),
            i <= last,
            forall|k: int| 0 <= k < i ==> #[trigger] s@.subrange(k, k + pat@.len()) != pat@,
        decreases last - i,
    {
        let mut j: usize = 0;
        let mut same = true;
        while j < pat.len()
            invariant
                slen == s@.len(),
                i <= last,
                last + pat@.len() == s@.len(),
                j <= pat@.len(),
                same == (forall|m: int| 0 <= m < j ==> s@[i + m] == pat@[m]),
            decreases pat@.len() - j,
        {
            assert(i + j < s@.len());
            if s[i + j] != pat[j] {
                same = false;
            }
            j = j + 1;
        }
        if same {
            assert(s@.subrange(i as int, i + pat@.len()) =~= pat@);
            return true;
        }
        proof {
            let m = choose|m: int| 0 <= m < pat@.len() && s@[i + m] != pat@[m];
            assert(s@.subrange(i as int, i + pat@.len())[m] != pat@[m]);
        }
        if i == last {
            proof {
                assert forall|k: int| 0 <= k && k + pat@.len() <= s@.len() implies #[trigger] s@.subrange(k, k + pat@.len()) != pat@ by {
                    assert(k <= i);
                }
            }
            return false;
        }
        i = i + 1;
    }
}

/// What the first bytes of a connection on a TLS port show.
#[derive(Debug, Clone, Copy, PartialEq, Eq, Structural)]
pub enum TlsProbe {
    /// The HTTP/2 preface in the clear: the connection is dropped.
    Http2Preface,
    /// A plain HTTP/1.1 request: answered with a bad request that says so.
    PlainHttp,
    /// Not a TLS handshake: answered with a bad request.
    NotTls,
    /// A TLS handshake record.
    Tls,
}

/// What the peeked bytes of a connection on a TLS port show.
pub open spec fn probe_of(peeked: Seq<u8>) -> TlsProbe {
    if peeked == h2_preface() {
        TlsProbe::Http2Preface
    } else if vstd::utf8::valid_utf8(peeked) && contains_bytes(peeked, ascii("HTTP/1.1"@)) {
        TlsProbe::PlainHttp
    } else if peeked.len() < 3 || peeked[0] != 0x16 || peeked[1] != 0x03 || peeked[2] < 0x01 {
        TlsProbe::NotTls
    } else {
        TlsProbe::Tls
    }
}

/// Classifies the bytes peeked from a connection on a TLS port.
pub fn probe_tls(peeked: &[u8]) -> (r: TlsProbe)
    ensures
        r == probe_of(peeked@),
{
    proof {
        reveal_strlit("HTTP/1.1");
    }
    let preface = h2_preface_bytes();
    if crate::headers::bytes_eq(peeked, preface.as_slice()) {
        return TlsProbe::Http2Preface;
    }
    let mut marker: Vec<u8> = Vec::new();
    put_ascii(&mut marker, "HTTP/1.1");
    if is_utf8(peeked) && find_bytes(peeked, marker.as_slice()) {
        return TlsProbe::PlainHttp;
    }
    if peeked.len() < 3 || peeked[0] != 0x16 || peeked[1] != 0x03 || peeked[2] < 0x01 {
        return TlsProbe::NotTls;
    }
    TlsProbe::Tls
}

/// The body of the bad request answered to traffic that is not TLS.
pub const BAD_REQUEST_BODY: &'static str = "\
<html>
<head><title>400 Bad Request</title></head>
<body>
<center><h1>400 Bad Request</h1></center>
</body>
</html>";

/// The body of the bad request answered to plain HTTP on a TLS port.
pub const BAD_REQUEST_PLAIN_ON_TLS: &'static str = "\
<html>
<head><title>400 Sent plain HTTP request to an HTTPS port</title></head>
<body>
<center><h1>400</h1></center>
<center>Sent plain HTTP request to an HTTPS port</center>
</body>
</html>";

/// The bad-request response sent with `message` as its body on a day
/// `date`.
pub open spec fn bad_response(message: Seq<char>, date: Seq<u8>) -> Seq<u8> {
    ascii("HTTP/1.1 400 Bad Request\r\n"@) + ascii("Content-Type: text/html\r\n"@) + ascii("Date: "@)
        + date + ascii("\r\n"@) + ascii("Connection: close\r\n"@) + ascii("Content-Length: "@)
        + decimal(message.len()) + ascii("\r\n\r\n"@) + ascii(message)
}

/// Builds a bad-request response with the given ASCII body, dated `date`.
pub fn bad_response_with_date(message: &str, date: &[u8]) -> (r: Vec<u8>)
    requires
        all_ascii(message@),
    ensures
        r@ == bad_response(message@, date@),
{
    proof {
        reveal_strlit("HTTP/1.1 400 Bad Request\r\n");
        reveal_strlit("Content-Type: text/html\r\n");
        reveal_strlit("Date: ");
        reveal_strlit("\r\n");
        reveal_strlit("Connection: close\r\n");
        reveal_strlit("Content-Length: ");
        reveal_strlit("\r\n\r\n");
        vstd::string::is_ascii_spec_bytes(message);
    }
    let mut buf: Vec<u8> = Vec::new();
    put_ascii(&mut buf, "HTTP/1.1 400 Bad Request\r\n");
    put_ascii(&mut buf, "Content-Type: text/html\r\n");
    put_ascii(&mut buf, "Date: ");
    put_slice(&mut buf, date);
    put_ascii(&mut buf, "\r\n");
    put_ascii(&mut buf, "Connection: close\r\n");
    put_ascii(&mut buf, "Content-Length: ");
    let n = message.as_bytes().len();
    assert(n == message@.len()) by {
        assert(vstd::string::is_ascii(message));
        vstd::string::is_ascii_spec_bytes(message);
    }
    let digits = format_decimal(n as u64);
    put_slice(&mut buf, digits.as_slice());
    put_ascii(&mut buf, "\r\n\r\n");
    put_ascii(&mut buf, message);
    buf
}


/// The protocol a plain connection speaks.
#[derive(Debug, Clone, Copy, PartialEq, Eq, Structural)]
pub enum Version {
    H2,
    H1,
}

/// A connection whose first 24 bytes were read ahead and are handed out
/// again before anything else is read from it.
pub struct Rewind<I> {
    inner: I,
    buf: [u8; 24],
    pos: u8,
}

impl<I> Rewind<I> {
    /// The connection underneath.
    pub closed spec fn io(&self) -> I {
        self.inner
    }

    /// The bytes read ahead.
    pub closed spec fn peeked(&self) -> Seq<u8> {
        self.buf@
    }

    /// How many of the bytes read ahead have yet to be handed out.
    pub closed spec fn pending(&self) -> nat {
        self.pos as nat
    }

    /// The bytes read ahead that have been handed out, in order.
    pub open spec fn replayed(&self) -> Seq<u8> {
        self.peeked().subrange(0, 24 - self.pending())
    }

    pub closed spec fn wf(&self) -> bool {
        self.pos <= 24 && self.buf@.len() == 24
    }

    /// A connection with the 24 bytes `buf` read ahead, none handed out yet.
    pub fn new(inner: I, buf: [u8; 24]) -> (r: Self)
        ensures
            r.wf(),
            r.io() == inner,
            r.peeked() == buf@,
            r.pending() == 24,
    {
        Rewind { inner, buf, pos: 24 }
    }

    /// Hands out the next bytes read ahead, at most `room` of them, and tells
    /// whether the connection itself is to be read after them: it is unless
    /// these bytes filled all the room there was.
    pub fn replay(&mut self, room: usize) -> (r: (Vec<u8>, bool))
        requires
            old(self).wf(),
        ensures
            final(self).wf(),
            final(self).peeked() == old(self).peeked(),
            final(self).io() == old(self).io(),
            r.0@.len() == (if old(self).pending() < room { old(self).pending() } else { room as nat }),
            final(self).pending() == old(self).pending() - r.0@.len(),
            final(self).replayed() == old(self).replayed() + r.0@,
            r.1 == (old(self).pending() == 0 || room > r.0@.len()),
    {
        if self.pos == 0 {
            assert(self.replayed() =~= self.replayed() + Seq::<u8>::empty());
            return (Vec::new(), true);
        }
        let pending = self.pos as usize;
        let n = if pending < room {
            pending
        } else {
            room
        };
        let start: usize = 24 - pending;
        let mut out: Vec<u8> = Vec::new();
        let mut i: usize = 0;
        while i < n
            invariant
                n <= pending <= 24,
                start == 24 - pending,
                self.buf@.len() == 24,
                i <= n,
                out@ == self.buf@.subrange(start as int, start + i),
            decreases n - i,
        {
            out.push(self.buf[start + i]);
            assert(self.buf@.subrange(start as int, start + i + 1) =~= self.buf@.subrange(
                start as int,
                start + i,
            ).push(self.buf@[start + i]));
            i = i + 1;
        }
        let ghost before = self.replayed();
        self.pos = (pending - n) as u8;
        assert(self.replayed() =~= before + out@);
        (out, room > n)
    }
}

impl<I> Rewind<I> {
    /// The connection underneath, to read from once the bytes read ahead are
    /// handed out, and to write to.
    pub fn get_mut(&mut self) -> (r: &mut I)
        ensures
            *r == old(self).io(),
            final(self).io() == *final(r),
            final(self).peeked() == old(self).peeked(),
            final(self).pending() == old(self).pending(),
            old(self).wf() ==> final(self).wf(),
    {
        &mut self.inner
    }
}

/// Sorts out the protocol from the first 24 bytes `buf` read off a
/// connection: the HTTP/2 preface means HTTP/2, anything else HTTP/1. The
/// bytes are kept to be read again.
pub fn read_version<I>(io: I, buf: [u8; 24]) -> (r: (Version, Rewind<I>))
    ensures
        r.0 == (if buf@ == h2_preface() { Version::H2 } else { Version::H1 }),
        r.1.wf(),
        r.1.io() == io,
        r.1.peeked() == buf@,
        r.1.pending() == 24,
{
    let preface = h2_preface_bytes();
    let is_h2 = crate::headers::bytes_eq(&buf, preface.as_slice());
    let rewind = Rewind::new(io, buf);
    if is_h2 {
        (Version::H2, rewind)
    } else {
        (Version::H1, rewind)
    }
}

/// The fields of a response that the TCP backend serves through `hyper`:
/// when the server has a name, it becomes the `server` field, in place of
/// any the handler set.
pub fn apply_server_name(headers: &mut HeaderList, server_name: Option<&[u8]>)
    requires
        server_name matches Some(n) ==> visible_text(n@),
    ensures
        final(headers)@ == match server_name {
            Some(n) => header_insert(old(headers)@, ascii("server"@), n@),
            None => old(headers)@,
        },
{
    if let Some(n) = server_name {
        proof {
            reveal_strlit("server");
        }
        let name = ascii_vec("server");
        let mut value: Vec<u8> = Vec::new();
        put_slice(&mut value, n);
        assert(value@ =~= n@);
        headers.insert(name, value);
    }
}

/// What a connection that rewinds hands out before reading on is the bytes
/// it read ahead, in order: a prefix of them at every point, and all of them
/// once none are pending.
pub proof fn law_replay_gives_back_peeked<I>(r: Rewind<I>)
    requires
        r.wf(),
    ensures
        r.replayed() == r.peeked().take(r.replayed().len() as int),
        r.replayed().len() + r.pending() == 24,
        r.pending() == 0 ==> r.replayed() == r.peeked(),
{
    assert(r.peeked().subrange(0, 24 - r.pending()) =~= r.peeked().take(24 - r.pending()));
    if r.pending() == 0 {
        assert(r.peeked().subrange(0, 24) =~= r.peeked());
    }
}

} // verus!
