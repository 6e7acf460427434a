//! Writing an HTTP/1 response body: as many bytes as a known length allows,
//! or in chunks with the trailers last.
use vstd::prelude::*;
use crate::bytes_util::{ascii, put_ascii, put_slice};
use crate::error::{Error, ErrorConfig, ErrorScope, ErrorSeverity};
use crate::h1_body::connection_error;
use crate::headers::HeaderList;
use crate::proto::{header_block, values_visible, write_headers};

verus! {

/// A lower-case hexadecimal digit.
pub open spec fn hex_digit(d: nat) -> u8 {
    if d < 10 {
        (48 + d) as u8
    } else {
        (87 + d) as u8
    }
}

/// The lower-case hexadecimal digits of `n`, most significant first.
pub open spec fn hex(n: nat) -> Seq<u8>
    decreases n,
{
    if n < 16 {
        seq![hex_digit(n)]
    } else {
        hex(n / 16).push(hex_digit(n % 16))
    }
}

/// Formats `n` in lower-case hexadecimal.
pub fn format_hex(n: u64) -> (r: Vec<u8>)
    ensures
        r@ == hex(n as nat),
    decreases n,
{
    let d = n % 16;
    let digit: u8 = if d < 10 {
        48 + d as u8
    } else {
        87 + d as u8
    };
    if n < 16 {
        let mut v: Vec<u8> = Vec::new();
        v.push(digit);
        assert(v@ =~= seq![hex_digit(n as nat)]);
        v
    } else {
        let mut v = format_hex(n / 16);
        v.push(digit);
        v
    }
}

/// One chunk of a chunked body: its size in hex, CRLF, the data, CRLF.
pub open spec fn chunk_frame(data: Seq<u8>) -> Seq<u8> {
    hex(data.len()) + ascii("\r\n"@) + data + ascii("\r\n"@)
}

/// What is written of a data frame when `owed` bytes of a body of known
/// length are still owed: the frame, cut to what is owed.
pub open spec fn sized_part(owed: nat, data: Seq<u8>) -> Seq<u8> {
    if data.len() < owed {
        data
    } else {
        data.take(owed as int)
    }
}

/// What is written of a run of data frames for a body of `owed` bytes.
pub open spec fn sized_written(owed: nat, frames: Seq<Seq<u8>>) -> Seq<u8>
    decreases frames.len(),
{
    if frames.len() == 0 {
        Seq::empty()
    } else {
        let part = sized_part(owed, frames[0]);
        part + sized_written((owed - part.len()) as nat, frames.drop_first())
    }
}

/// A body of known length is written as the data it was given, cut to that
/// length: never more than the length, and nothing dropped before it.
pub proof fn law_sized_body_is_prefix(owed: nat, frames: Seq<Seq<u8>>)
    ensures
        sized_written(owed, frames) == frames.flatten().take(
            if frames.flatten().len() < owed { frames.flatten().len() as int } else { owed as int },
        ),
    decreases frames.len(),
{
    if frames.len() > 0 {
        let f0 = frames[0];
        let rest = frames.drop_first();
        let part = sized_part(owed, f0);
        let left = (owed - part.len()) as nat;
        law_sized_body_is_prefix(left, rest);
        let all = frames.flatten();
        assert(all == f0 + rest.flatten());
        if f0.len() < owed {
            assert(all.take(
                if all.len() < owed { all.len() as int } else { owed as int },
            ) =~= f0 + rest.flatten().take(
                if rest.flatten().len() < left { rest.flatten().len() as int } else { left as int },
            ));
        } else {
            assert(left == 0);
            assert(all.take(owed as int) =~= f0.take(owed as int));
        }
    }
}

/// The state of a response body being written: `remaining` bytes still
/// owed to a body of known length, or `None` for a chunked body.
pub struct BodyWriter {
    pub remaining: Option<u64>,
}

impl BodyWriter {
    /// A writer for a body of `size` bytes, or of unknown size.
    pub fn new(size: Option<u64>) -> (r: Self)
        ensures
            r.remaining == size,
    {
        BodyWriter { remaining: size }
    }

    /// The bytes to write for a data frame: for a body of known length, the
    /// data up to what is still owed; for a chunked body, one chunk.
    pub fn data(&mut self, data: &[u8]) -> (r: Vec<u8>)
        ensures
            match old(self).remaining {
                Some(n) => {
                    &&& r@ == sized_part(n as nat, data@)
                    &&& final(self).remaining == Some((n - r@.len()) as u64)
                },
                None => r@ == chunk_frame(data@) && final(self).remaining is None,
            },
    {
        match self.remaining {
            Some(n) => {
                let k: usize = if (data.len() as u64) < n {
                    data.len()
                } else {
                    n as usize
                };
                let mut out: Vec<u8> = Vec::new();
                put_slice(&mut out, data);
                out.truncate(k);
                assert(out@ =~= data@.subrange(0, k as int));
                self.remaining = Some(n - k as u64);
                out
            },
            None => {
                proof {
                    reveal_strlit("\r\n");
                }
                let mut out = format_hex(data.len() as u64);
                put_ascii(&mut out, "\r\n");
                put_slice(&mut out, data);
                put_ascii(&mut out, "\r\n");
                out
            },
        }
    }

    /// The bytes to write for the trailers: the last chunk and the trailer
    /// block. Trailers cannot follow a body of known length.
    pub fn trailers(&self, trailers: &HeaderList) -> (r: Result<Vec<u8>, Error>)
        requires
            self.remaining is None ==> values_visible(trailers@),
        ensures
            match self.remaining {
                Some(_) => r matches Err(e) && connection_error(
                    e@,
                    "Trailers specified with non-chunked encoding"@,
                ),
                None => r matches Ok(b) && b@ == ascii("0\r\n"@) + header_block(trailers@),
            },
    {
        match self.remaining {
            Some(_) => Err(
                ErrorConfig {
                    severity: ErrorSeverity::Debug,
                    scope: ErrorScope::Connection,
                    context: "Trailers specified with non-chunked encoding",
                }.build(),
            ),
            None => {
                proof {
                    reveal_strlit("0\r\n");
                }
                let mut out: Vec<u8> = Vec::new();
                put_ascii(&mut out, "0\r\n");
                write_headers(&mut out, trailers);
                Ok(out)
            },
        }
    }

    /// The bytes that end a body that had no trailers: the last chunk and an
    /// empty trailer block for a chunked body, nothing otherwise.
    pub fn finish(&self) -> (r: Vec<u8>)
        ensures
            r@ == (if self.remaining is None { ascii("0\r\n\r\n"@) } else { Seq::empty() }),
    {
        let mut out: Vec<u8> = Vec::new();
        if self.remaining.is_none() {
            proof {
                reveal_strlit("0\r\n\r\n");
            }
            put_ascii(&mut out, "0\r\n\r\n");
        }
        out
    }
}

} // verus!
