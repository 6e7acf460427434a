//! Byte-level text helpers for header values: case-insensitive comparison,
//! trimming and splitting.
use vstd::prelude::*;

verus! {

/// ASCII lower case of a byte.
pub open spec fn lower(b: u8) -> u8 {
    if 65 <= b <= 90 {
        (b + 32) as u8
    } else {
        b
    }
}

/// Whether a byte may stand in a token (a method or a header name):
/// `!#$%&'*+-.^_`|~`, a digit or a letter.
pub open spec fn token_byte(b: u8) -> bool {
    b == 0x21 || (0x23 <= b <= 0x27) || b == 0x2a || b == 0x2b || b == 0x2d || b == 0x2e
        || (0x30 <= b <= 0x39) || (0x41 <= b <= 0x5a) || (0x5e <= b <= 0x7a) || b == 0x7c
        || b == 0x7e
}

/// Equality of two byte strings up to ASCII case.
pub open spec fn eq_ignore_case(a: Seq<u8>, b: Seq<u8>) -> bool {
    a.len() == b.len() && forall|i: int| 0 <= i < a.len() ==> lower(#[trigger] a[i]) == lower(b[i])
}

/// Compares two byte strings ignoring ASCII case.
pub fn eq_ignore_ascii_case(a: &[u8], b: &[u8]) -> (r: bool)
    ensures
        r == eq_ignore_case(a@, b@),
{
    if a.len() != b.len() {
        return false;
    }
    let mut i: usize = 0;
    while i < a.len()
        invariant
            a@.len() == b@.len(),
            i <= a@.len(),
            forall|j: int| 0 <= j < i ==> lower(#[trigger] a@[j]) == lower(b@[j]),
        decreases a@.len() - i,
    {
        let x = a[i];
        let y = b[i];
        let lx = if 65 <= x && x <= 90 {
            x + 32
        } else {
            x
        };
        let ly = if 65 <= y && y <= 90 {
            y + 32
        } else {
            y
        };
        if lx != ly {
            return false;
        }
        i = i + 1;
    }
    true
}

/// Whether `b` is a space or a tab.
pub open spec fn blank(b: u8) -> bool {
    b == 32 || b == 9
}

/// The index of the first byte that is not blank, or the length.
pub open spec fn trim_start_index(s: Seq<u8>) -> int
    decreases s.len(),
{
    if s.len() == 0 {
        0
    } else if blank(s[0]) {
        1 + trim_start_index(s.drop_first())
    } else {
        0
    }
}

/// A byte string without its leading and trailing spaces and tabs.
pub open spec fn trim(s: Seq<u8>) -> Seq<u8>
    decreases s.len(),
{
    if s.len() == 0 {
        s
    } else if blank(s[0]) {
        trim(s.drop_first())
    } else if blank(s.last()) {
        trim(s.drop_last())
    } else {
        s
    }
}

/// Drops the leading and trailing spaces and tabs of `s[start..end]`.
pub fn trim_range(s: &[u8], start: usize, end: usize) -> (r: (usize, usize))
    requires
        start <= end <= s@.len(),
    ensures
        start <= r.0 <= r.1 <= end,
        s@.subrange(r.0 as int, r.1 as int) == trim(s@.subrange(start as int, end as int)),
    decreases end - start,
{
    if start == end {
        proof {
            assert(s@.subrange(start as int, end as int).len() == 0);
        }
        (start, end)
    } else if s[start] == 32 || s[start] == 9 {
        let r = trim_range(s, start + 1, end);
        proof {
            assert(s@.subrange(start as int, end as int).drop_first() =~= s@.subrange(
                start + 1,
                end as int,
            ));
        }
        r
    } else if s[end - 1] == 32 || s[end - 1] == 9 {
        let r = trim_range(s, start, end - 1);
        proof {
            assert(s@.subrange(start as int, end as int).drop_last() =~= s@.subrange(
                start as int,
                end - 1,
            ));
        }
        r
    } else {
        (start, end)
    }
}

/// The pieces of a byte string between its bytes `sep`, empty pieces
/// included.
pub open spec fn split_on(s: Seq<u8>, sep: u8) -> Seq<Seq<u8>>
    decreases s.len(),
{
    if s.len() == 0 {
        seq![Seq::empty()]
    } else {
        let parts = split_on(s.drop_last(), sep);
        if s.last() == sep {
            parts.push(Seq::empty())
        } else {
            parts.update(parts.len() - 1, parts.last().push(s.last()))
        }
    }
}

/// The pieces of a byte string between its commas.
pub open spec fn split_commas(s: Seq<u8>) -> Seq<Seq<u8>> {
    split_on(s, 44)
}

/// Splits a byte string at every byte `sep`, as [`split_on`] says.
pub fn split_bytes(s: &[u8], sep: u8) -> (r: Vec<Vec<u8>>)
    ensures
        r@.map_values(|p: Vec<u8>| p@) == split_on(s@, sep),
{
    let mut out: Vec<Vec<u8>> = Vec::new();
    let mut cur: Vec<u8> = Vec::new();
    let mut i: usize = 0;
    assert(s@.take(0) =~= Seq::<u8>::empty());
    while i < s.len()
        invariant
            i <= s@.len(),
            split_on(s@.take(i as int), sep) == out@.map_values(|p: Vec<u8>| p@).push(cur@),
        decreases s@.len() - i,
    {
        assert(s@.take(i + 1).drop_last() =~= s@.take(i as int));
        assert(s@.take(i + 1).last() == s@[i as int]);
        let ghost prev = out@.map_values(|p: Vec<u8>| p@);
        let ghost prev_cur = cur@;
        if s[i] == sep {
            out.push(cur);
            cur = Vec::new();
            assert(out@.map_values(|p: Vec<u8>| p@) =~= prev.push(prev_cur));
            assert(cur@ =~= Seq::<u8>::empty());
        } else {
            cur.push(s[i]);
            assert(prev.push(prev_cur).update(prev.len() as int, prev_cur.push(s@[i as int])) =~= prev.push(cur@));
        }
        i = i + 1;
    }
    assert(s@.take(s@.len() as int) =~= s@);
    let ghost prev = out@.map_values(|p: Vec<u8>| p@);
    let ghost last = cur@;
    out.push(cur);
    assert(out@.map_values(|p: Vec<u8>| p@) =~= prev.push(last));
    out
}

pub proof fn lemma_split_nonempty(s: Seq<u8>, sep: u8)
    ensures
        split_on(s, sep).len() >= 1,
    decreases s.len(),
{
    if s.len() > 0 {
        lemma_split_nonempty(s.drop_last(), sep);
    }
}


/// Whether every comma-separated piece, trimmed, is `chunked` up to case.
pub open spec fn all_chunked(v: Seq<u8>) -> bool {
    forall|k: int|
        0 <= k < split_commas(v).len() ==> eq_ignore_case(
            trim(#[trigger] split_commas(v)[k]),
            seq![99u8, 104, 117, 110, 107, 101, 100],
        )
}

fn piece_is_chunked(v: &[u8], start: usize, end: usize) -> (r: bool)
    requires
        start <= end <= v@.len(),
    ensures
        r == eq_ignore_case(
            trim(v@.subrange(start as int, end as int)),
            seq![99u8, 104, 117, 110, 107, 101, 100],
        ),
{
    let (a, b) = trim_range(v, start, end);
    let word: [u8; 7] = [99u8, 104, 117, 110, 107, 101, 100];
    let mut piece: Vec<u8> = Vec::new();
    let mut i = a;
    while i < b
        invariant
            a <= i <= b <= v@.len(),
            piece@ == v@.subrange(a as int, i as int),
        decreases b - i,
    {
        piece.push(v[i]);
        assert(v@.subrange(a as int, i + 1) =~= v@.subrange(a as int, i as int).push(v@[i as int]));
        i = i + 1;
    }
    let r = eq_ignore_ascii_case(piece.as_slice(), &word);
    assert(word@ =~= seq![99u8, 104, 117, 110, 107, 101, 100]);
    r
}

/// Checks that a transfer-coding list names only `chunked`.
pub fn only_chunked(v: &[u8]) -> (r: bool)
    ensures
        r == all_chunked(v@),
{
    let ghost chunked = seq![99u8, 104, 117, 110, 107, 101, 100];
    let ghost mut segs: Seq<Seq<u8>> = Seq::empty();
    let mut ok = true;
    let mut start: usize = 0;
    let mut i: usize = 0;
    assert(v@.take(0) =~= Seq::<u8>::empty());
    assert(v@.subrange(0, 0) =~= Seq::<u8>::empty());
    while i < v.len()
        invariant
            start <= i <= v@.len(),
            split_commas(v@.take(i as int)) == segs.push(v@.subrange(start as int, i as int)),
            ok == (forall|k: int| 0 <= k < segs.len() ==> eq_ignore_case(trim(#[trigger] segs[k]), chunked)),
            chunked == seq![99u8, 104, 117, 110, 107, 101, 100],
        decreases v@.len() - i,
    {
        assert(v@.take(i + 1).drop_last() =~= v@.take(i as int));
        assert(v@.take(i + 1).last() == v@[i as int]);
        if v[i] == 44 {
            let good = piece_is_chunked(v, start, i);
            proof {
                let old_segs = segs;
                segs = segs.push(v@.subrange(start as int, i as int));
                assert(v@.subrange(i + 1, i + 1) =~= Seq::<u8>::empty());
                assert forall|k: int| 0 <= k < old_segs.len() implies #[trigger] segs[k] == old_segs[k] by {}
                if !(ok && good) {
                    if !good {
                        assert(!eq_ignore_case(trim(segs[old_segs.len() as int]), chunked));
                    } else {
                        let k = choose|k: int| 0 <= k < old_segs.len() && !eq_ignore_case(trim(#[trigger] old_segs[k]), chunked);
                        assert(segs[k] == old_segs[k]);
                    }
                }
            }
            ok = ok && good;
            start = i + 1;
        } else {
            assert(v@.subrange(start as int, i + 1) =~= v@.subrange(start as int, i as int).push(v@[i as int]));
            assert(segs.push(v@.subrange(start as int, i as int)).update(
                segs.len() as int,
                v@.subrange(start as int, i as int).push(v@[i as int]),
            ) =~= segs.push(v@.subrange(start as int, i + 1)));
        }
        i = i + 1;
    }
    let good = piece_is_chunked(v, start, v.len());
    proof {
        assert(v@.take(v@.len() as int) =~= v@);
        let all = segs.push(v@.subrange(start as int, v@.len() as int));
        assert forall|k: int| 0 <= k < segs.len() implies #[trigger] all[k] == segs[k] by {}
        if !(ok && good) {
            if !good {
                assert(!eq_ignore_case(trim(all[segs.len() as int]), chunked));
            } else {
                let k = choose|k: int| 0 <= k < segs.len() && !eq_ignore_case(trim(#[trigger] segs[k]), chunked);
                assert(all[k] == segs[k]);
            }
        }
    }
    ok && good
}


/// Equality of two texts.
pub fn str_eq(a: &str, b: &str) -> (r: bool)
    ensures
        r == (a@ == b@),
{
    let r = crate::headers::bytes_eq(a.as_bytes(), b.as_bytes());
    proof {
        vstd::utf8::encode_utf8_decode_utf8(a@);
        vstd::utf8::encode_utf8_decode_utf8(b@);
    }
    r
}

} // verus!
