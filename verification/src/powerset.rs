//! The feature power set of the workspace tool: which feature combinations
//! of a package are tested. Feature names are byte strings; a set of them is
//! a vector without repeats, a map a vector of entries with distinct keys.
use vstd::prelude::*;
use crate::headers::bytes_eq;

verus! {

/// The byte strings a vector holds.
pub open spec fn names(v: Seq<Vec<u8>>) -> Seq<Seq<u8>> {
    v.map_values(|x: Vec<u8>| x@)
}

/// Whether no byte string occurs twice.
pub open spec fn distinct(s: Seq<Seq<u8>>) -> bool {
    forall|i: int, j: int| 0 <= i < j < s.len() ==> s[i] != s[j]
}

/// What a pushed sequence contains.
pub proof fn lemma_push_contains<A>(s: Seq<A>, y: A, x: A)
    ensures
        s.push(y).contains(x) <==> (s.contains(x) || x == y),
{
    if s.contains(x) {
        let q = choose|q: int| 0 <= q < s.len() && s[q] == x;
        assert(s.push(y)[q] == x);
    }
    if x == y {
        assert(s.push(y)[s.len() as int] == y);
    }
    if s.push(y).contains(x) {
        let q = choose|q: int| 0 <= q < s.push(y).len() && s.push(y)[q] == x;
        if q < s.len() {
            assert(s[q] == x);
        }
    }
}

/// Whether `x` is in `v`.
pub fn contains_name(v: &Vec<Vec<u8>>, x: &[u8]) -> (r: bool)
    ensures
        r == names(v@).contains(x@),
{
    let mut i: usize = 0;
    while i < v.len()
        invariant
            i <= v@.len(),
            forall|j: int| 0 <= j < i ==> names(v@)[j] != x@,
        decreases v@.len() - i,
    {
        if bytes_eq(v[i].as_slice(), x) {
            assert(names(v@)[i as int] == x@);
            return true;
        }
        i = i + 1;
    }
    false
}

/// Adds `x` to the set `v` unless it is there; tells whether it was added.
pub fn insert_name(v: &mut Vec<Vec<u8>>, x: Vec<u8>) -> (r: bool)
    requires
        distinct(names(old(v)@)),
    ensures
        distinct(names(final(v)@)),
        r == !names(old(v)@).contains(x@),
        names(final(v)@) == if r { names(old(v)@).push(x@) } else { names(old(v)@) },
{
    if contains_name(v, x.as_slice()) {
        false
    } else {
        let ghost before = names(v@);
        let ghost xv = x@;
        v.push(x);
        assert(names(v@) =~= before.push(xv));
        assert forall|i: int, j: int| 0 <= i < j < names(v@).len() implies names(v@)[i] != names(v@)[j] by {
            if j == before.len() {
                assert(names(v@)[i] == before[i]);
            }
        }
        true
    }
}

/// The part of a feature before its first `/`, and the rest after it, if it
/// has one.
pub open spec fn slash_index(f: Seq<u8>) -> int
    decreases f.len(),
{
    if f.len() == 0 {
        -1
    } else if f[0] == 47 {
        0
    } else {
        let k = slash_index(f.drop_first());
        if k < 0 {
            -1
        } else {
            k + 1
        }
    }
}

proof fn lemma_slash_index(f: Seq<u8>)
    ensures
        -1 <= slash_index(f) < f.len(),
        slash_index(f) >= 0 ==> f[slash_index(f)] == 47,
        forall|j: int| 0 <= j < f.len() && (slash_index(f) < 0 || j < slash_index(f)) ==> f[j] != 47,
    decreases f.len(),
{
    if f.len() > 0 && f[0] != 47 {
        lemma_slash_index(f.drop_first());
        assert forall|j: int| 0 < j < f.len() implies f[j] == f.drop_first()[j - 1] by {}
    }
}

proof fn lemma_slash_at(f: Seq<u8>, i: int)
    requires
        0 <= i <= f.len(),
        forall|j: int| 0 <= j < i ==> f[j] != 47,
        i < f.len() ==> f[i] == 47,
    ensures
        slash_index(f) == (if i < f.len() { i } else { -1 }),
    decreases i,
{
    if i > 0 {
        assert forall|j: int| 0 <= j < i - 1 implies f.drop_first()[j] != 47 by {
            assert(f.drop_first()[j] == f[j + 1]);
        }
        if i < f.len() {
            assert(f.drop_first()[i - 1] == f[i]);
        }
        lemma_slash_at(f.drop_first(), i - 1);
    }
}

/// The features without a `/`.
pub open spec fn generic_features(features: Seq<Seq<u8>>) -> Set<Seq<u8>> {
    Set::new(|f: Seq<u8>| features.contains(f) && slash_index(f) < 0)
}

/// The crate-scoped features: the pairs of crate and feature of the
/// features written `crate/feature`.
pub open spec fn crate_feature_pairs(features: Seq<Seq<u8>>) -> Set<(Seq<u8>, Seq<u8>)> {
    Set::new(
        |p: (Seq<u8>, Seq<u8>)|
            exists|i: int|
                0 <= i < features.len() && slash_index(#[trigger] features[i]) >= 0 && p == (
                    features[i].take(slash_index(features[i])),
                    features[i].skip(slash_index(features[i]) + 1),
                ),
    )
}

/// Sorting the features loses none and makes none up: each feature is
/// either one without a `/` or the pair of its parts around its first `/`,
/// and each pair joined back with a `/` is one of the features.
pub proof fn law_parse_features_partition(features: Seq<Seq<u8>>, f: Seq<u8>, p: (Seq<u8>, Seq<u8>))
    ensures
        features.contains(f) ==> (generic_features(features).contains(f) || crate_feature_pairs(
            features,
        ).contains((f.take(slash_index(f)), f.skip(slash_index(f) + 1)))),
        crate_feature_pairs(features).contains(p) ==> features.contains(p.0 + seq![47u8] + p.1),
        crate_feature_pairs(features).contains(p) ==> slash_index(p.0 + seq![47u8] + p.1)
            == p.0.len(),
{
    if features.contains(f) {
        let i = choose|i: int| 0 <= i < features.len() && features[i] == f;
        if slash_index(f) >= 0 {
            assert(slash_index(features[i]) >= 0);
        }
    }
    if crate_feature_pairs(features).contains(p) {
        let i = choose|i: int|
            0 <= i < features.len() && slash_index(#[trigger] features[i]) >= 0 && p == (
                features[i].take(slash_index(features[i])),
                features[i].skip(slash_index(features[i]) + 1),
            );
        let g = features[i];
        lemma_slash_index(g);
        let k = slash_index(g);
        assert(g =~= p.0 + seq![47u8] + p.1);
        assert(features.contains(p.0 + seq![47u8] + p.1));
        let j = p.0 + seq![47u8] + p.1;
        lemma_slash_at(j, k);
    }
}

/// A map from crate to its features.
pub struct CrateFeatures {
    pub entries: Vec<(Vec<u8>, Vec<Vec<u8>>)>,
}

/// The pairs a crate map holds.
pub open spec fn pairs_of(m: Seq<(Vec<u8>, Vec<Vec<u8>>)>) -> Set<(Seq<u8>, Seq<u8>)> {
    Set::new(
        |p: (Seq<u8>, Seq<u8>)|
            exists|i: int|
                0 <= i < m.len() && (#[trigger] m[i]).0@ == p.0 && names(m[i].1@).contains(p.1),
    )
}

/// Whether the crates of a map are distinct, every crate has at least one
/// feature, and the features of each are distinct.
pub open spec fn map_wf(m: Seq<(Vec<u8>, Vec<Vec<u8>>)>) -> bool {
    &&& forall|i: int, j: int| 0 <= i < j < m.len() ==> m[i].0@ != m[j].0@
    &&& forall|i: int| 0 <= i < m.len() ==> distinct(names((#[trigger] m[i]).1@))
    &&& forall|i: int| 0 <= i < m.len() ==> (#[trigger] m[i]).1@.len() > 0
}

fn add_pair(m: &mut Vec<(Vec<u8>, Vec<Vec<u8>>)>, key: Vec<u8>, value: Vec<u8>)
    requires
        map_wf(old(m)@),
    ensures
        map_wf(final(m)@),
        pairs_of(final(m)@) == pairs_of(old(m)@).insert((key@, value@)),
{
    let ghost old_m = m@;
    let mut i: usize = 0;
    let mut found = false;
    while i < m.len() && !found
        invariant
            i <= m@.len(),
            m@ == old_m,
            found ==> i < m@.len() && m@[i as int].0@ == key@,
            !found ==> forall|j: int| 0 <= j < i ==> m@[j].0@ != key@,
        decreases m@.len() - i, if found { 0int } else { 1int },
    {
        if bytes_eq(m[i].0.as_slice(), key.as_slice()) {
            found = true;
        } else {
            i = i + 1;
        }
    }
    if found {
        let (k, mut vals) = m.remove(i);
        let ghost old_vals = names(vals@);
        let ghost vv = value@;
        insert_name(&mut vals, value);
        proof {
            lemma_push_contains(old_vals, vv, vv);
            assert forall|x: Seq<u8>| names(vals@).contains(x) <==> (old_vals.contains(x) || x == vv) by {
                lemma_push_contains(old_vals, vv, x);
            }
        }
        m.insert(i, (k, vals));
        proof {
            assert(m@.len() == old_m.len());
            assert forall|j: int| 0 <= j < m@.len() && j != i implies #[trigger] m@[j] == old_m[j] by {}
            assert(pairs_of(m@) =~= pairs_of(old_m).insert((key@, value@))) by {
                assert forall|p: (Seq<u8>, Seq<u8>)| pairs_of(m@).contains(p) implies pairs_of(old_m).insert((key@, value@)).contains(p) by {
                    let j = choose|j: int| 0 <= j < m@.len() && (#[trigger] m@[j]).0@ == p.0 && names(m@[j].1@).contains(p.1);
                    if j != i {
                        assert(old_m[j] == m@[j]);
                    } else if p.1 != value@ {
                        let q = choose|q: int| 0 <= q < names(m@[j].1@).len() && names(m@[j].1@)[q] == p.1;
                        assert(names(m@[j].1@).contains(p.1));
                        assert(old_vals.contains(p.1));
                    }
                }
                assert forall|p: (Seq<u8>, Seq<u8>)| pairs_of(old_m).insert((key@, value@)).contains(p) implies pairs_of(m@).contains(p) by {
                    if p == (key@, value@) {
                        assert(m@[i as int].0@ == p.0);
                        if names(m@[i as int].1@).len() > old_vals.len() {
                            assert(names(m@[i as int].1@)[old_vals.len() as int] == value@);
                        }
                        assert(names(m@[i as int].1@).contains(p.1));
                    } else {
                        let j = choose|j: int| 0 <= j < old_m.len() && (#[trigger] old_m[j]).0@ == p.0 && names(old_m[j].1@).contains(p.1);
                        if j != i {
                            assert(m@[j] == old_m[j]);
                        } else {
                            let q = choose|q: int| 0 <= q < old_vals.len() && old_vals[q] == p.1;
                            assert(names(m@[j].1@)[q] == p.1);
                        }
                    }
                }
            }
        }
    } else {
        let mut vals: Vec<Vec<u8>> = Vec::new();
        let ghost vv = value@;
        vals.push(value);
        let ghost kv = key@;
        m.push((key, vals));
        proof {
            assert(names(m@[old_m.len() as int].1@) =~= seq![vv]);
            assert forall|j: int| 0 <= j < old_m.len() implies #[trigger] m@[j] == old_m[j] by {}
            assert(pairs_of(m@) =~= pairs_of(old_m).insert((kv, vv))) by {
                assert forall|p: (Seq<u8>, Seq<u8>)| pairs_of(m@).contains(p) implies pairs_of(old_m).insert((kv, vv)).contains(p) by {
                    let j = choose|j: int| 0 <= j < m@.len() && (#[trigger] m@[j]).0@ == p.0 && names(m@[j].1@).contains(p.1);
                    if j < old_m.len() {
                        assert(old_m[j] == m@[j]);
                    } else {
                        let q = choose|q: int| 0 <= q < names(m@[j].1@).len() && names(m@[j].1@)[q] == p.1;
                    }
                }
                assert forall|p: (Seq<u8>, Seq<u8>)| pairs_of(old_m).insert((kv, vv)).contains(p) implies pairs_of(m@).contains(p) by {
                    if p == (kv, vv) {
                        let j = old_m.len() as int;
                        assert(m@[j].0@ == p.0);
                        assert(names(m@[j].1@)[0] == vv);
                    } else {
                        let j = choose|j: int| 0 <= j < old_m.len() && (#[trigger] old_m[j]).0@ == p.0 && names(old_m[j].1@).contains(p.1);
                        assert(m@[j] == old_m[j]);
                    }
                }
            }
        }
    }
}

/// Sorts features into those without a `/` and those scoped to a crate as
/// `crate/feature`, grouped by crate.
pub fn parse_features(features: &Vec<Vec<u8>>) -> (r: (Vec<Vec<u8>>, CrateFeatures))
    ensures
        distinct(names(r.0@)),
        names(r.0@).to_set() == generic_features(names(features@)),
        map_wf(r.1.entries@),
        pairs_of(r.1.entries@) == crate_feature_pairs(names(features@)),
{
    let ghost fs = names(features@);
    let mut generic: Vec<Vec<u8>> = Vec::new();
    let mut crates: Vec<(Vec<u8>, Vec<Vec<u8>>)> = Vec::new();
    let mut i: usize = 0;
    while i < features.len()
        invariant
            i <= features@.len(),
            fs == names(features@),
            distinct(names(generic@)),
            names(generic@).to_set() == generic_features(fs.take(i as int)),
            map_wf(crates@),
            pairs_of(crates@) == crate_feature_pairs(fs.take(i as int)),
        decreases features@.len() - i,
    {
        let f = &features[i];
        let ghost fv = f@;
        assert(fs[i as int] == fv);
        let mut k: usize = 0;
        while k < f.len() && f[k] != 47
            invariant
                k <= f@.len(),
                forall|j: int| 0 <= j < k ==> f@[j] != 47,
            decreases f@.len() - k,
        {
            k = k + 1;
        }
        proof {
            lemma_slash_at(fv, k as int);
        }
        let ghost next = fs.take(i + 1);
        assert(next =~= fs.take(i as int).push(fv));
        if k == f.len() {
            let ghost before = names(generic@);
            insert_name(&mut generic, f.clone());
            proof {
                assert forall|x: Seq<u8>| names(generic@).contains(x) <==> (before.contains(x) || x == fv) by {
                    lemma_push_contains(before, fv, x);
                }
                assert forall|x: Seq<u8>| next.contains(x) <==> (fs.take(i as int).contains(x) || x == fv) by {
                    lemma_push_contains(fs.take(i as int), fv, x);
                }
                assert(names(generic@).to_set() =~= generic_features(next)) by {
                    assert forall|x: Seq<u8>| names(generic@).to_set().contains(x) <==> generic_features(next).contains(x) by {
                        assert(before.to_set().contains(x) == generic_features(fs.take(i as int)).contains(x));
                    }
                }
                assert(crate_feature_pairs(next) =~= crate_feature_pairs(fs.take(i as int))) by {
                    assert forall|p: (Seq<u8>, Seq<u8>)| crate_feature_pairs(next).contains(p) implies crate_feature_pairs(fs.take(i as int)).contains(p) by {
                        let q = choose|q: int| 0 <= q < next.len() && slash_index(#[trigger] next[q]) >= 0 && p == (next[q].take(slash_index(next[q])), next[q].skip(slash_index(next[q]) + 1));
                        assert(q < i);
                        assert(fs.take(i as int)[q] == next[q]);
                    }
                    assert forall|p: (Seq<u8>, Seq<u8>)| crate_feature_pairs(fs.take(i as int)).contains(p) implies crate_feature_pairs(next).contains(p) by {
                        let q = choose|q: int| 0 <= q < i && slash_index(#[trigger] fs.take(i as int)[q]) >= 0 && p == (fs.take(i as int)[q].take(slash_index(fs.take(i as int)[q])), fs.take(i as int)[q].skip(slash_index(fs.take(i as int)[q]) + 1));
                        assert(next[q] == fs.take(i as int)[q]);
                    }
                }
            }
        } else {
            let mut first: Vec<u8> = Vec::new();
            let mut j: usize = 0;
            while j < k
                invariant
                    j <= k < f@.len(),
                    first@ == fv.take(j as int),
                    fv == f@,
                decreases k - j,
            {
                first.push(f[j]);
                assert(fv.take(j + 1) =~= fv.take(j as int).push(fv[j as int]));
                j = j + 1;
            }
            let mut second: Vec<u8> = Vec::new();
            let mut j2: usize = k + 1;
            while j2 < f.len()
                invariant
                    k + 1 <= j2 <= f@.len(),
                    second@ == fv.subrange(k + 1, j2 as int),
                    fv == f@,
                decreases f@.len() - j2,
            {
                second.push(f[j2]);
                assert(fv.subrange(k + 1, j2 + 1) =~= fv.subrange(k + 1, j2 as int).push(fv[j2 as int]));
                j2 = j2 + 1;
            }
            assert(second@ =~= fv.skip(k + 1));
            let ghost pair = (first@, second@);
            add_pair(&mut crates, first, second);
            proof {
                assert(names(generic@).to_set() =~= generic_features(next)) by {
                    assert forall|x: Seq<u8>| generic_features(next).contains(x) implies names(generic@).to_set().contains(x) by {
                        let q = choose|q: int| 0 <= q < next.len() && next[q] == x;
                        if q < i {
                            assert(fs.take(i as int)[q] == x);
                        }
                    }
                    assert forall|x: Seq<u8>| names(generic@).to_set().contains(x) implies generic_features(next).contains(x) by {
                        let q = choose|q: int| 0 <= q < i && fs.take(i as int)[q] == x;
                        assert(next[q] == x);
                    }
                }
                assert(crate_feature_pairs(next) =~= crate_feature_pairs(fs.take(i as int)).insert(pair)) by {
                    assert forall|p: (Seq<u8>, Seq<u8>)| crate_feature_pairs(next).contains(p) implies crate_feature_pairs(fs.take(i as int)).insert(pair).contains(p) by {
                        let q = choose|q: int| 0 <= q < next.len() && slash_index(#[trigger] next[q]) >= 0 && p == (next[q].take(slash_index(next[q])), next[q].skip(slash_index(next[q]) + 1));
                        if q < i {
                            assert(fs.take(i as int)[q] == next[q]);
                        }
                    }
                    assert forall|p: (Seq<u8>, Seq<u8>)| crate_feature_pairs(fs.take(i as int)).insert(pair).contains(p) implies crate_feature_pairs(next).contains(p) by {
                        if p == pair {
                            assert(next[i as int] == fv);
                        } else {
                            let q = choose|q: int| 0 <= q < i && slash_index(#[trigger] fs.take(i as int)[q]) >= 0 && p == (fs.take(i as int)[q].take(slash_index(fs.take(i as int)[q])), fs.take(i as int)[q].skip(slash_index(fs.take(i as int)[q]) + 1));
                            assert(next[q] == fs.take(i as int)[q]);
                        }
                    }
                }
            }
        }
        i = i + 1;
    }
    assert(fs.take(features@.len() as int) =~= fs);
    (generic, CrateFeatures { entries: crates })
}


/// A map from feature to the features it enables.
pub type FeatureMap = Vec<(Vec<u8>, Vec<Vec<u8>>)>;

/// Whether the features of a map are distinct.
pub open spec fn keys_distinct(m: Seq<(Vec<u8>, Vec<Vec<u8>>)>) -> bool {
    forall|i: int, j: int| 0 <= i < j < m.len() ==> m[i].0@ != m[j].0@
}

/// Whether `x` is a feature of the map.
pub open spec fn is_key(m: Seq<(Vec<u8>, Vec<Vec<u8>>)>, x: Seq<u8>) -> bool {
    exists|i: int| 0 <= i < m.len() && (#[trigger] m[i]).0@ == x
}

/// The features `x` enables.
pub open spec fn enables(m: Seq<(Vec<u8>, Vec<Vec<u8>>)>, x: Seq<u8>) -> Seq<Seq<u8>> {
    names(m[choose|i: int| 0 <= i < m.len() && (#[trigger] m[i]).0@ == x].1@)
}

pub proof fn lemma_enables(m: Seq<(Vec<u8>, Vec<Vec<u8>>)>, x: Seq<u8>, i: int)
    requires
        keys_distinct(m),
        0 <= i < m.len(),
        m[i].0@ == x,
    ensures
        enables(m, x) == names(m[i].1@),
{
    let j = choose|j: int| 0 <= j < m.len() && (#[trigger] m[j]).0@ == x;
    if j != i {
        if j < i {
            assert(m[j].0@ != m[i].0@);
        } else {
            assert(m[i].0@ != m[j].0@);
        }
    }
}

/// A chain of features from one of `deps` on, each enabling the next.
pub open spec fn valid_chain(m: Seq<(Vec<u8>, Vec<Vec<u8>>)>, deps: Seq<Seq<u8>>, p: Seq<Seq<u8>>) -> bool {
    &&& p.len() >= 1
    &&& deps.contains(p[0])
    &&& forall|j: int|
        0 <= j < p.len() - 1 ==> is_key(m, #[trigger] p[j]) && enables(m, p[j]).contains(p[j + 1])
}

/// Whether a chain from `deps` leads to `x`.
pub open spec fn reachable(m: Seq<(Vec<u8>, Vec<Vec<u8>>)>, deps: Seq<Seq<u8>>, x: Seq<u8>) -> bool {
    exists|p: Seq<Seq<u8>>| valid_chain(m, deps, p) && p.last() == x
}

/// The features `deps` enable in the map, directly or through others: the
/// features of the map a chain from them leads to.
pub open spec fn flattened(m: Seq<(Vec<u8>, Vec<Vec<u8>>)>, deps: Seq<Seq<u8>>) -> Set<Seq<u8>> {
    Set::new(|x: Seq<u8>| is_key(m, x) && reachable(m, deps, x))
}

/// Whether two maps hold the same features with the same lists, in order.
pub open spec fn same_entries(a: Seq<(Vec<u8>, Vec<Vec<u8>>)>, b: Seq<(Vec<u8>, Vec<Vec<u8>>)>) -> bool {
    &&& a.len() == b.len()
    &&& forall|i: int| 0 <= i < a.len() ==> (#[trigger] a[i]).0@ == b[i].0@ && names(a[i].1@) == names(b[i].1@)
}

/// Flattening looks at what the entries of a map hold and nothing else.
pub proof fn lemma_flattened_same_entries(
    a: Seq<(Vec<u8>, Vec<Vec<u8>>)>,
    b: Seq<(Vec<u8>, Vec<Vec<u8>>)>,
    deps: Seq<Seq<u8>>,
)
    requires
        same_entries(a, b),
        keys_distinct(a),
    ensures
        keys_distinct(b),
        flattened(a, deps) == flattened(b, deps),
{
    assert forall|i: int, j: int| 0 <= i < j < b.len() implies b[i].0@ != b[j].0@ by {
        assert(a[i].0@ != a[j].0@);
        assert(a[j].0@ == b[j].0@);
    }
    assert forall|x: Seq<u8>| is_key(a, x) <==> is_key(b, x) by {
        if is_key(a, x) {
            let i = choose|i: int| 0 <= i < a.len() && (#[trigger] a[i]).0@ == x;
            assert(b[i].0@ == x);
        }
        if is_key(b, x) {
            let i = choose|i: int| 0 <= i < b.len() && (#[trigger] b[i]).0@ == x;
            assert(a[i].0@ == x);
        }
    }
    assert forall|x: Seq<u8>| is_key(a, x) implies enables(a, x) == enables(b, x) by {
        let i = choose|i: int| 0 <= i < a.len() && (#[trigger] a[i]).0@ == x;
        lemma_enables(a, x, i);
        assert(b[i].0@ == x);
        lemma_enables(b, x, i);
    }
    assert forall|p: Seq<Seq<u8>>| valid_chain(a, deps, p) <==> valid_chain(b, deps, p) by {
        if valid_chain(a, deps, p) {
            assert forall|j: int| 0 <= j < p.len() - 1 implies is_key(b, #[trigger] p[j]) && enables(b, p[j]).contains(p[j + 1]) by {
                assert(is_key(a, p[j]));
            }
        }
        if valid_chain(b, deps, p) {
            assert forall|j: int| 0 <= j < p.len() - 1 implies is_key(a, #[trigger] p[j]) && enables(a, p[j]).contains(p[j + 1]) by {
                assert(is_key(b, p[j]));
            }
        }
    }
    assert(flattened(a, deps) =~= flattened(b, deps));
}

pub(crate) fn find_key(m: &FeatureMap, x: &[u8]) -> (r: Option<usize>)
    ensures
        match r {
            Some(i) => i < m@.len() && m@[i as int].0@ == x@,
            None => !is_key(m@, x@),
        },
{
    let mut i: usize = 0;
    while i < m.len()
        invariant
            i <= m@.len(),
            forall|j: int| 0 <= j < i ==> m@[j].0@ != x@,
        decreases m@.len() - i,
    {
        if bytes_eq(m[i].0.as_slice(), x) {
            return Some(i);
        }
        i = i + 1;
    }
    None
}

/// A set of features of the map has no more members than the map.
proof fn lemma_subset_count(m: Seq<(Vec<u8>, Vec<Vec<u8>>)>, s: Seq<Seq<u8>>)
    requires
        distinct(s),
        forall|k: int| 0 <= k < s.len() ==> is_key(m, #[trigger] s[k]),
    ensures
        s.len() <= m.len(),
{
    let keys = m.map_values(|e: (Vec<u8>, Vec<Vec<u8>>)| e.0@);
    assert forall|x: Seq<u8>| s.to_set().contains(x) implies keys.to_set().contains(x) by {
        let k = choose|k: int| 0 <= k < s.len() && s[k] == x;
        assert(is_key(m, s[k]));
        let i = choose|i: int| 0 <= i < m.len() && (#[trigger] m[i]).0@ == x;
        assert(keys[i] == x);
    }
    s.unique_seq_to_set();
    keys.lemma_cardinality_of_set();
    vstd::set_lib::lemma_len_subset(s.to_set(), keys.to_set());
}

/// Every feature a chain leads to lies in a set that holds the start of
/// every chain and is closed under enabling.
proof fn lemma_closed_holds_chain(
    m: Seq<(Vec<u8>, Vec<Vec<u8>>)>,
    deps: Seq<Seq<u8>>,
    f: Seq<Seq<u8>>,
    p: Seq<Seq<u8>>,
    j: int,
)
    requires
        valid_chain(m, deps, p),
        0 <= j < p.len(),
        forall|k: int| 0 <= j <= k < p.len() ==> is_key(m, #[trigger] p[k]),
        forall|d: Seq<u8>| #[trigger] deps.contains(d) ==> !is_key(m, d) || f.contains(d),
        forall|x: Seq<u8>, d: Seq<u8>|
            f.contains(x) && #[trigger] enables(m, x).contains(d) ==> !is_key(m, d) || f.contains(d),
    ensures
        f.contains(p[j]),
    decreases j,
{
    if j > 0 {
        lemma_closed_holds_chain(m, deps, f, p, j - 1);
        assert(enables(m, p[j - 1]).contains(p[j]));
    }
}

/// Joining two chains where the first ends and the second starts.
proof fn lemma_chain_join(
    m: Seq<(Vec<u8>, Vec<Vec<u8>>)>,
    deps: Seq<Seq<u8>>,
    starts: Seq<Seq<u8>>,
    q: Seq<Seq<u8>>,
    p: Seq<Seq<u8>>,
)
    requires
        valid_chain(m, deps, q),
        valid_chain(m, starts, p),
        q.last() == p[0],
    ensures
        valid_chain(m, deps, q.drop_last() + p),
        (q.drop_last() + p).last() == p.last(),
{
    let r = q.drop_last() + p;
    let k = q.len() - 1;
    assert forall|j: int| 0 <= j < r.len() - 1 implies is_key(m, #[trigger] r[j]) && enables(
        m,
        r[j],
    ).contains(r[j + 1]) by {
        if j < k {
            assert(r[j] == q[j]);
            if j + 1 < k {
                assert(r[j + 1] == q[j + 1]);
            } else {
                assert(r[j + 1] == p[0]);
            }
        } else {
            assert(r[j] == p[j - k]);
            assert(r[j + 1] == p[j - k + 1]);
        }
    }
    if k == 0 {
        assert(r[0] == p[0]);
    } else {
        assert(r[0] == q[0]);
    }
}

/// Flattening what flattening gave changes nothing: the features of the map
/// that a flattened set leads to are that set.
pub proof fn law_flatten_idempotent(
    m: Seq<(Vec<u8>, Vec<Vec<u8>>)>,
    deps: Seq<Seq<u8>>,
    flat: Seq<Seq<u8>>,
)
    requires
        flat.to_set() == flattened(m, deps),
    ensures
        flattened(m, flat) == flattened(m, deps),
{
    assert forall|x: Seq<u8>| flattened(m, flat).contains(x) implies flattened(m, deps).contains(x) by {
        let p = choose|p: Seq<Seq<u8>>| valid_chain(m, flat, p) && p.last() == x;
        assert(flat.to_set().contains(p[0]));
        let q = choose|q: Seq<Seq<u8>>| valid_chain(m, deps, q) && q.last() == p[0];
        lemma_chain_join(m, deps, flat, q, p);
    }
    assert forall|x: Seq<u8>| flattened(m, deps).contains(x) implies flattened(m, flat).contains(x) by {
        assert(flat.to_set().contains(x));
        assert(flat.contains(x));
        let c = seq![x];
        assert(c[0] == x);
        assert(valid_chain(m, flat, c));
        assert(c.last() == x);
        assert(reachable(m, flat, x));
    }
    assert(flattened(m, flat) =~= flattened(m, deps));
}

/// The features `deps` enable in `package_features`, as [`flattened`]
/// says: a dependency that is not a feature of the map is passed over.
pub fn flatten_features(deps: &Vec<Vec<u8>>, package_features: &FeatureMap) -> (r: Vec<Vec<u8>>)
    requires
        keys_distinct(package_features@),
    ensures
        distinct(names(r@)),
        names(r@).to_set() == flattened(package_features@, names(deps@)),
{
    let ghost m = package_features@;
    let ghost ds = names(deps@);
    let mut next: Vec<Vec<u8>> = Vec::new();
    let mut i: usize = 0;
    while i < deps.len()
        invariant
            i <= deps@.len(),
            ds == names(deps@),
            names(next@) == ds.take(i as int),
        decreases deps@.len() - i,
    {
        let c = deps[i].clone();
        assert(c@ =~= deps@[i as int]@);
        let ghost before = next@;
        next.push(c);
        assert(names(next@) =~= names(before).push(c@));
        assert(ds.take(i + 1) =~= ds.take(i as int).push(ds[i as int]));
        assert(names(next@) =~= ds.take(i + 1));
        i = i + 1;
    }
    assert(ds.take(deps@.len() as int) =~= ds);
    let mut features: Vec<Vec<u8>> = Vec::new();
    assert forall|x: Seq<u8>| #[trigger] names(next@).contains(x) implies reachable(m, ds, x) by {
        let k = choose|k: int| 0 <= k < names(next@).len() && names(next@)[k] == x;
        assert(valid_chain(m, ds, seq![x]));
        assert(seq![x].last() == x);
    }
    while next.len() > 0
        invariant
            m == package_features@,
            ds == names(deps@),
            keys_distinct(m),
            distinct(names(features@)),
            names(features@).len() <= m.len(),
            forall|k: int| 0 <= k < names(features@).len() ==> is_key(m, #[trigger] names(features@)[k]),
            forall|x: Seq<u8>| #[trigger] names(features@).contains(x) ==> is_key(m, x) && reachable(m, ds, x),
            forall|x: Seq<u8>| #[trigger] names(next@).contains(x) ==> reachable(m, ds, x),
            forall|d: Seq<u8>| #[trigger] ds.contains(d) ==> !is_key(m, d) || names(features@).contains(d)
                || names(next@).contains(d),
            forall|x: Seq<u8>, d: Seq<u8>|
                names(features@).contains(x) && #[trigger] enables(m, x).contains(d) ==> !is_key(m, d)
                    || names(features@).contains(d) || names(next@).contains(d),
        decreases m.len() - names(features@).len(), next@.len(),
    {
        let ghost old_next = names(next@);
        let ghost old_features = names(features@);
        let dep = next.pop().unwrap();
        let ghost x = dep@;
        proof {
            assert(old_next =~= names(next@).push(x));
            assert forall|y: Seq<u8>| old_next.contains(y) implies names(next@).contains(y) || y == x by {
                lemma_push_contains(names(next@), x, y);
            }
            lemma_push_contains(names(next@), x, x);
            assert forall|y: Seq<u8>| #[trigger] names(next@).contains(y) implies reachable(m, ds, y) by {
                let q = choose|q: int| 0 <= q < names(next@).len() && names(next@)[q] == y;
                assert(old_next[q] == y);
                assert(old_next.contains(y));
            }
        }
        match find_key(package_features, dep.as_slice()) {
            None => {},
            Some(k) => {
                let fresh = insert_name(&mut features, dep);
                if fresh {
                    let enabled = &package_features[k].1;
                    let ghost pushed = names(enabled@);
                    let ghost base = names(next@);
                    let mut j: usize = 0;
                    while j < enabled.len()
                        invariant
                            j <= enabled@.len(),
                            pushed == names(enabled@),
                            names(next@) == base + pushed.take(j as int),
                        decreases enabled@.len() - j,
                    {
                        let c = enabled[j].clone();
                        assert(c@ =~= enabled@[j as int]@);
                        let ghost before = next@;
                        next.push(c);
                        assert(names(next@) =~= names(before).push(c@));
                        assert(pushed.take(j + 1) =~= pushed.take(j as int).push(pushed[j as int]));
                        assert(names(next@) =~= base + pushed.take(j + 1));
                        j = j + 1;
                    }
                    proof {
                        assert(pushed.take(enabled@.len() as int) =~= pushed);
                        lemma_enables(m, x, k as int);
                        let nf = names(features@);
                        let nn = names(next@);
                        assert forall|y: Seq<u8>| nf.contains(y) <==> (old_features.contains(y) || y == x) by {
                            lemma_push_contains(old_features, x, y);
                        }
                        assert forall|y: Seq<u8>| #[trigger] base.contains(y) implies nn.contains(y) by {
                            let q = choose|q: int| 0 <= q < base.len() && base[q] == y;
                            assert(nn[q] == y);
                        }
                        assert forall|y: Seq<u8>| #[trigger] pushed.contains(y) implies nn.contains(y) by {
                            let q = choose|q: int| 0 <= q < pushed.len() && pushed[q] == y;
                            assert(nn[base.len() + q] == y);
                        }
                        assert forall|y: Seq<u8>| #[trigger] nn.contains(y) implies reachable(m, ds, y) by {
                            let q = choose|q: int| 0 <= q < nn.len() && nn[q] == y;
                            if q < base.len() {
                                assert(base[q] == y);
                                assert(old_next[q] == y);
                                assert(old_next.contains(y));
                            } else {
                                assert(pushed[q - base.len()] == y);
                                assert(pushed.contains(y));
                                let p = choose|p: Seq<Seq<u8>>| valid_chain(m, ds, p) && p.last() == x;
                                let p2 = p.push(y);
                                assert forall|t: int| 0 <= t < p2.len() - 1 implies is_key(m, #[trigger] p2[t]) && enables(m, p2[t]).contains(p2[t + 1]) by {
                                    if t < p.len() - 1 {
                                        assert(p2[t] == p[t]);
                                        assert(p2[t + 1] == p[t + 1]);
                                    } else {
                                        assert(p2[t] == x);
                                        assert(is_key(m, x)) by {
                                            assert(m[k as int].0@ == x);
                                        }
                                    }
                                }
                                assert(valid_chain(m, ds, p2));
                                assert(p2.last() == y);
                            }
                        }
                        assert forall|y: Seq<u8>| #[trigger] nf.contains(y) implies is_key(m, y) && reachable(m, ds, y) by {
                            if y == x {
                                assert(m[k as int].0@ == x);
                            }
                        }
                        assert forall|t: int| 0 <= t < nf.len() implies is_key(m, #[trigger] nf[t]) by {
                            assert(nf.contains(nf[t]));
                        }
                        lemma_subset_count(m, nf);
                    }
                } else {
                    proof {
                        assert(names(features@) == old_features);
                    }
                }
            },
        }
    }
    proof {
        let nf = names(features@);
        assert(names(next@) =~= Seq::<Seq<u8>>::empty());
        assert(nf.to_set() =~= flattened(m, ds)) by {
            assert forall|x: Seq<u8>| flattened(m, ds).contains(x) implies nf.to_set().contains(x) by {
                let p = choose|p: Seq<Seq<u8>>| valid_chain(m, ds, p) && p.last() == x;
                assert forall|t: int| 0 <= t < p.len() implies is_key(m, #[trigger] p[t]) by {
                    if t < p.len() - 1 {
                    }
                }
                lemma_closed_holds_chain(m, ds, nf, p, p.len() - 1);
            }
        }
    }
    features
}

} // verus!
