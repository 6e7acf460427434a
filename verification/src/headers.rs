//! An ordered list of header fields, the model of an HTTP header map that
//! the protocol logic reads and writes. Names are kept in their canonical
//! (lower-case) form; a name may occur more than once.
use vstd::prelude::*;

verus! {

/// One header field.
#[derive(Debug)]
pub struct Header {
    pub name: Vec<u8>,
    pub value: Vec<u8>,
}

impl Clone for Header {
    fn clone(&self) -> (r: Self)
        ensures
            r@ == self@,
    {
        Header { name: self.name.clone(), value: self.value.clone() }
    }
}

/// The abstract value of a header field.
pub type HeaderModel = (Seq<u8>, Seq<u8>);

impl View for Header {
    type V = HeaderModel;

    open spec fn view(&self) -> HeaderModel {
        (self.name@, self.value@)
    }
}

/// An ordered list of header fields.
#[derive(Debug)]
pub struct HeaderList {
    pub entries: Vec<Header>,
}

impl View for HeaderList {
    type V = Seq<HeaderModel>;

    open spec fn view(&self) -> Seq<HeaderModel> {
        self.entries@.map_values(|h: Header| h@)
    }
}

/// The index of the first field named `name`, or -1.
pub open spec fn first_index(s: Seq<HeaderModel>, name: Seq<u8>) -> int
    decreases s.len(),
{
    if s.len() == 0 {
        -1
    } else if s[0].0 == name {
        0
    } else {
        let r = first_index(s.drop_first(), name);
        if r < 0 {
            -1
        } else {
            r + 1
        }
    }
}

/// The value of the first field named `name`.
pub open spec fn header_get(s: Seq<HeaderModel>, name: Seq<u8>) -> Option<Seq<u8>> {
    let i = first_index(s, name);
    if i < 0 {
        None
    } else {
        Some(s[i].1)
    }
}

/// The list without any field named `name`.
pub open spec fn header_without(s: Seq<HeaderModel>, name: Seq<u8>) -> Seq<HeaderModel>
    decreases s.len(),
{
    if s.len() == 0 {
        s
    } else {
        let r = header_without(s.drop_last(), name);
        if s.last().0 == name {
            r
        } else {
            r.push(s.last())
        }
    }
}

/// Setting `name` to `value`: the first field of that name takes the new
/// value and keeps its place, later fields of that name go; without such a
/// field the new one goes last.
pub open spec fn header_insert(s: Seq<HeaderModel>, name: Seq<u8>, value: Seq<u8>) -> Seq<
    HeaderModel,
> {
    let i = first_index(s, name);
    if i < 0 {
        s.push((name, value))
    } else {
        s.take(i).push((name, value)) + header_without(s.skip(i + 1), name)
    }
}

/// What `first_index` means.
pub proof fn lemma_first_index(s: Seq<HeaderModel>, name: Seq<u8>)
    ensures
        -1 <= first_index(s, name) < s.len(),
        first_index(s, name) >= 0 ==> s[first_index(s, name)].0 == name,
        forall|j: int| 0 <= j < first_index(s, name) ==> s[j].0 != name,
        first_index(s, name) < 0 ==> forall|j: int| 0 <= j < s.len() ==> s[j].0 != name,
    decreases s.len(),
{
    if s.len() > 0 && s[0].0 != name {
        lemma_first_index(s.drop_first(), name);
        let r = first_index(s.drop_first(), name);
        assert forall|j: int| 0 < j < s.len() && (r < 0 || j < r + 1) implies s[j].0 != name by {
            assert(s[j] == s.drop_first()[j - 1]);
        }
    }
}

/// A field index found by a scan from the front is the first index.
pub proof fn lemma_first_index_at(s: Seq<HeaderModel>, name: Seq<u8>, i: int)
    requires
        0 <= i <= s.len(),
        forall|j: int| 0 <= j < i ==> s[j].0 != name,
        i < s.len() ==> s[i].0 == name,
    ensures
        first_index(s, name) == (if i < s.len() { i } else { -1 }),
    decreases i,
{
    if i > 0 {
        assert(s[0].0 != name);
        assert forall|j: int| 0 <= j < i - 1 implies s.drop_first()[j].0 != name by {
            assert(s.drop_first()[j] == s[j + 1]);
        }
        if i < s.len() {
            assert(s.drop_first()[i - 1] == s[i]);
        }
        lemma_first_index_at(s.drop_first(), name, i - 1);
    }
}

/// The value of `name` after one more field is appended.
proof fn lemma_get_push(s: Seq<HeaderModel>, x: HeaderModel, name: Seq<u8>)
    ensures
        header_get(s.push(x), name) == (if header_get(s, name) is Some {
            header_get(s, name)
        } else if x.0 == name {
            Some(x.1)
        } else {
            None
        }),
{
    let t = s.push(x);
    lemma_first_index(s, name);
    let f = first_index(s, name);
    assert forall|j: int| 0 <= j < s.len() implies t[j] == s[j] by {}
    if f >= 0 {
        lemma_first_index_at(t, name, f);
    } else if x.0 == name {
        lemma_first_index_at(t, name, s.len() as int);
    } else {
        lemma_first_index_at(t, name, t.len() as int);
    }
}

/// The value of `name` in two lists one after the other.
proof fn lemma_get_concat(a: Seq<HeaderModel>, b: Seq<HeaderModel>, name: Seq<u8>)
    ensures
        header_get(a + b, name) == (if header_get(a, name) is Some {
            header_get(a, name)
        } else {
            header_get(b, name)
        }),
    decreases b.len(),
{
    if b.len() == 0 {
        assert(a + b =~= a);
        lemma_first_index(b, name);
    } else {
        let x = b.last();
        let b0 = b.drop_last();
        assert(a + b =~= (a + b0).push(x));
        assert(b =~= b0.push(x));
        lemma_get_concat(a, b0, name);
        lemma_get_push(a + b0, x, name);
        lemma_get_push(b0, x, name);
    }
}

/// Removing the fields of one name leaves the value of another.
proof fn lemma_get_without(s: Seq<HeaderModel>, name: Seq<u8>, other: Seq<u8>)
    ensures
        header_get(header_without(s, name), other) == (if other == name {
            None
        } else {
            header_get(s, other)
        }),
    decreases s.len(),
{
    if s.len() == 0 {
        lemma_first_index(s, other);
    } else {
        let x = s.last();
        let s0 = s.drop_last();
        assert(s =~= s0.push(x));
        lemma_get_without(s0, name, other);
        lemma_get_push(s0, x, other);
        lemma_get_push(header_without(s0, name), x, other);
    }
}

/// The value of `name` in the fields before its first occurrence is none.
proof fn lemma_get_before_first(s: Seq<HeaderModel>, name: Seq<u8>)
    requires
        first_index(s, name) >= 0,
    ensures
        header_get(s.take(first_index(s, name)), name) is None,
        s =~= s.take(first_index(s, name)).push(s[first_index(s, name)]) + s.skip(
            first_index(s, name) + 1,
        ),
{
    lemma_first_index(s, name);
    let i = first_index(s, name);
    let p = s.take(i);
    assert forall|j: int| 0 <= j < p.len() implies p[j].0 != name by {}
    lemma_first_index_at(p, name, p.len() as int);
}

/// After `name` is set to `value`, reading `name` gives `value`.
pub proof fn law_get_after_insert(s: Seq<HeaderModel>, name: Seq<u8>, value: Seq<u8>)
    ensures
        header_get(header_insert(s, name, value), name) == Some(value),
{
    lemma_first_index(s, name);
    let i = first_index(s, name);
    if i < 0 {
        lemma_first_index_at(s, name, s.len() as int);
        lemma_get_push(s, (name, value), name);
    } else {
        lemma_get_before_first(s, name);
        lemma_get_push(s.take(i), (name, value), name);
        lemma_get_concat(s.take(i).push((name, value)), header_without(s.skip(i + 1), name), name);
    }
}

/// Setting one name leaves what every other name reads.
pub proof fn law_insert_keeps_others(
    s: Seq<HeaderModel>,
    name: Seq<u8>,
    value: Seq<u8>,
    other: Seq<u8>,
)
    requires
        other != name,
    ensures
        header_get(header_insert(s, name, value), other) == header_get(s, other),
{
    lemma_first_index(s, name);
    let i = first_index(s, name);
    if i < 0 {
        lemma_get_push(s, (name, value), other);
    } else {
        lemma_get_before_first(s, name);
        let p = s.take(i);
        let rest = s.skip(i + 1);
        lemma_get_push(p, (name, value), other);
        lemma_get_push(p, s[i], other);
        lemma_get_without(rest, name, other);
        lemma_get_concat(p.push((name, value)), header_without(rest, name), other);
        lemma_get_concat(p.push(s[i]), rest, other);
    }
}

/// After the fields of `name` are removed, `name` reads nothing and every
/// other name reads what it did.
pub proof fn law_get_after_remove(s: Seq<HeaderModel>, name: Seq<u8>, other: Seq<u8>)
    ensures
        header_get(header_without(s, name), name) is None,
        other != name ==> header_get(header_without(s, name), other) == header_get(s, other),
{
    lemma_get_without(s, name, name);
    lemma_get_without(s, name, other);
}

/// Setting a name twice to the same value is setting it once.
pub proof fn law_insert_idempotent(s: Seq<HeaderModel>, name: Seq<u8>, value: Seq<u8>, other: Seq<u8>)
    ensures
        header_get(header_insert(header_insert(s, name, value), name, value), other)
            == header_get(header_insert(s, name, value), other),
{
    let t = header_insert(s, name, value);
    if other == name {
        law_get_after_insert(t, name, value);
        law_get_after_insert(s, name, value);
    } else {
        law_insert_keeps_others(t, name, value, other);
    }
}

impl HeaderList {
    pub fn new() -> (r: Self)
        ensures
            r@ == Seq::<HeaderModel>::empty(),
    {
        let r = HeaderList { entries: Vec::new() };
        assert(r@ =~= Seq::<HeaderModel>::empty());
        r
    }

    pub fn len(&self) -> (r: usize)
        ensures
            r == self@.len(),
    {
        self.entries.len()
    }

    /// The index of the first field named `name`, if any.
    pub fn position(&self, name: &[u8]) -> (r: Option<usize>)
        ensures
            match r {
                Some(i) => first_index(self@, name@) == i && i < self@.len() && self@[i as int].0
                    == name@,
                None => first_index(self@, name@) == -1,
            },
    {
        let mut i: usize = 0;
        while i < self.entries.len()
            invariant
                i <= self.entries@.len(),
                forall|j: int| 0 <= j < i ==> self@[j].0 != name@,
            decreases self.entries@.len() - i,
        {
            if bytes_eq(self.entries[i].name.as_slice(), name) {
                proof {
                    lemma_first_index_at(self@, name@, i as int);
                }
                return Some(i);
            }
            i = i + 1;
        }
        proof {
            lemma_first_index_at(self@, name@, i as int);
        }
        None
    }

    /// The value of the first field named `name`.
    pub fn get(&self, name: &[u8]) -> (r: Option<&Vec<u8>>)
        ensures
            match r {
                Some(v) => header_get(self@, name@) == Some(v@),
                None => header_get(self@, name@) is None,
            },
    {
        match self.position(name) {
            Some(i) => Some(&self.entries[i].value),
            None => None,
        }
    }

    pub fn contains_key(&self, name: &[u8]) -> (r: bool)
        ensures
            r == (header_get(self@, name@) is Some),
    {
        self.position(name).is_some()
    }

    /// Adds a field after the others, keeping fields of the same name.
    pub fn append(&mut self, name: Vec<u8>, value: Vec<u8>)
        ensures
            final(self)@ == old(self)@.push((name@, value@)),
    {
        let h = Header { name, value };
        self.entries.push(h);
        assert(self@ =~= old(self)@.push(h@));
    }

    /// Removes every field named `name`, returning the value of the first.
    pub fn remove(&mut self, name: &[u8]) -> (r: Option<Vec<u8>>)
        ensures
            final(self)@ == header_without(old(self)@, name@),
            match r {
                Some(v) => header_get(old(self)@, name@) == Some(v@),
                None => header_get(old(self)@, name@) is None,
            },
    {
        let first = self.position(name);
        let ghost s = self@;
        proof {
            lemma_first_index(s, name@);
        }
        let mut kept: Vec<Header> = Vec::new();
        let mut found: Option<Vec<u8>> = None;
        let n = self.entries.len();
        let mut i: usize = 0;
        while i < n
            invariant
                n == self.entries@.len(),
                s == self@,
                i <= n,
                kept@.map_values(|h: Header| h@) == header_without(s.take(i as int), name@),
                forall|j: int| 0 <= j < first_index(s, name@) ==> s[j].0 != name@,
                first_index(s, name@) >= 0 ==> s[first_index(s, name@)].0 == name@,
                first_index(s, name@) < 0 ==> forall|j: int| 0 <= j < s.len() ==> s[j].0 != name@,
                match first {
                    Some(f) => first_index(s, name@) == f && f < n,
                    None => first_index(s, name@) == -1,
                },
                match first {
                    Some(f) => (i > f ==> found is Some && found.unwrap()@ == s[f as int].1)
                        && (i <= f ==> found is None),
                    None => found is None,
                },
            decreases n - i,
        {
            let h = self.entries[i].clone();
            assert(s.take(i + 1).drop_last() =~= s.take(i as int));
            assert(h@ == s[i as int]);
            if bytes_eq(h.name.as_slice(), name) {
                if found.is_none() {
                    let v = h.value.clone();
                    assert(v@ =~= h.value@);
                    found = Some(v);
                }
            } else {
                let ghost before = kept@;
                kept.push(h);
                assert(kept@.map_values(|h: Header| h@) =~= before.map_values(|h: Header| h@).push(
                    s[i as int],
                ));
            }
            i = i + 1;
        }
        assert(s.take(n as int) =~= s);
        self.entries = kept;
        found
    }

    /// Sets `name` to `value` as [`header_insert`] describes.
    pub fn insert(&mut self, name: Vec<u8>, value: Vec<u8>)
        ensures
            final(self)@ == header_insert(old(self)@, name@, value@),
    {
        let ghost s = self@;
        match self.position(name.as_slice()) {
            None => {
                self.append(name, value);
            },
            Some(f) => {
                let mut out: Vec<Header> = Vec::new();
                let n = self.entries.len();
                let mut i: usize = 0;
                while i < f
                    invariant
                        n == self.entries@.len(),
                        s == self@,
                        f < n,
                        i <= f,
                        out@.map_values(|h: Header| h@) == s.take(i as int),
                    decreases f - i,
                {
                    let h = self.entries[i].clone();
                    let ghost before = out@;
                    out.push(h);
                    assert(out@.map_values(|h: Header| h@) =~= before.map_values(|h: Header| h@).push(
                        s[i as int],
                    ));
                    assert(s.take(i + 1) =~= s.take(i as int).push(s[i as int]));
                    i = i + 1;
                }
                let ghost name_v = name@;
                let ghost value_v = value@;
                let ghost before = out@;
                out.push(Header { name: name.clone(), value });
                assert(out@.map_values(|h: Header| h@) =~= before.map_values(|h: Header| h@).push(
                    (name_v, value_v),
                ));
                let ghost prefix = out@.map_values(|h: Header| h@);
                let ghost rest = s.skip(f + 1);
                i = f + 1;
                while i < n
                    invariant
                        n == self.entries@.len(),
                        s == self@,
                        f < n,
                        f + 1 <= i <= n,
                        rest == s.skip(f + 1),
                        name_v == name@,
                        out@.map_values(|h: Header| h@) == prefix + header_without(
                            rest.take(i - f - 1),
                            name_v,
                        ),
                    decreases n - i,
                {
                    let h = self.entries[i].clone();
                    assert(rest.take(i - f).drop_last() =~= rest.take(i - f - 1));
                    assert(rest.take(i - f).last() == s[i as int]);
                    if !bytes_eq(h.name.as_slice(), name.as_slice()) {
                        let ghost b2 = out@;
                        out.push(h);
                        assert(out@.map_values(|h: Header| h@) =~= b2.map_values(|h: Header| h@).push(
                            s[i as int],
                        ));
                    }
                    i = i + 1;
                }
                assert(rest.take(n - f - 1) =~= rest);
                self.entries = out;
            },
        }
    }
}

/// Byte-wise equality of two slices.
pub fn bytes_eq(a: &[u8], b: &[u8]) -> (r: bool)
    ensures
        r == (a@ == b@),
{
    if a.len() != b.len() {
        return false;
    }
    let mut i: usize = 0;
    while i < a.len()
        invariant
            a@.len() == b@.len(),
            i <= a@.len(),
            forall|j: int| 0 <= j < i ==> a@[j] == b@[j],
        decreases a@.len() - i,
    {
        if a[i] != b[i] {
            return false;
        }
        i = i + 1;
    }
    assert(a@ =~= b@);
    true
}

} // verus!
