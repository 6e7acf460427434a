//! The feature combinations of a package that the workspace tool tests:
//! the package's features, less the implicit features of optional
//! dependencies that nothing uses, narrowed by an allow or a deny list,
//! searched from the features always included, with the additive features
//! added on top of each combination found.
use vstd::prelude::*;
use crate::combinations::{
    abstract_map, children, combination_wf, flat_of, lemma_search_ends, lemma_search_result,
    next_combination, search_result, search_run, search_step, set_of, sets_of, AbstractMap, Entry,
};
use crate::combinations::{copy_names, find_permutations, flat_names, lemma_sets_of_push};
use crate::powerset::lemma_push_contains;
use crate::headers::bytes_eq;
use crate::powerset::{
    contains_name, distinct, flatten_features, flattened, insert_name, is_key, keys_distinct,
    lemma_flattened_same_entries, names, same_entries, FeatureMap,
};

verus! {

/// The power-set settings a package gives in its metadata.
#[derive(Debug)]
pub struct XTaskMetadata {
    /// Combinations that are skipped, and with them their supersets.
    pub skip_feature_sets: Vec<Vec<Vec<u8>>>,
    /// Whether the implicit features of optional dependencies are left out.
    pub skip_optional_dependencies: bool,
    /// Implicit features to keep all the same.
    pub extra_features: Vec<Vec<u8>>,
    /// Features never tested.
    pub deny_list: Vec<Vec<u8>>,
    /// Features in every combination.
    pub always_include_features: Vec<Vec<u8>>,
    /// How many features may be added to the features always included.
    pub max_combination_size: Option<usize>,
    /// The only features tested, when not empty.
    pub allow_list: Vec<Vec<u8>>,
    /// Features that only add to the crate and so are not combined with
    /// each other.
    pub additive_features: Vec<Vec<u8>>,
    /// Whether the package is left out of the power set.
    pub skip: bool,
}

impl XTaskMetadata {
    /// The invariant of the metadata: each list is a set, in which nothing
    /// occurs twice, and so is the list of skipped combinations, each of them
    /// a set too.
    pub open spec fn wf(self) -> bool {
        &&& distinct(names(self.extra_features@))
        &&& distinct(names(self.deny_list@))
        &&& distinct(names(self.always_include_features@))
        &&& distinct(names(self.allow_list@))
        &&& distinct(names(self.additive_features@))
        &&& forall|i: int|
            0 <= i < self.skip_feature_sets@.len() ==> distinct(
                names(#[trigger] self.skip_feature_sets@[i]@),
            )
        &&& forall|i: int, j: int|
            0 <= i < j < self.skip_feature_sets@.len() ==> names(
                self.skip_feature_sets@[i]@,
            ).to_set() != names(self.skip_feature_sets@[j]@).to_set()
    }
}

impl Default for XTaskMetadata {
    fn default() -> (r: Self)
        ensures
            r.wf(),
            r.skip_feature_sets@.len() == 0,
            r.skip_optional_dependencies,
            r.extra_features@.len() == 0,
            r.deny_list@.len() == 0,
            r.always_include_features@.len() == 0,
            r.max_combination_size is None,
            r.allow_list@.len() == 0,
            r.additive_features@.len() == 0,
            !r.skip,
    {
        XTaskMetadata {
            skip_feature_sets: Vec::new(),
            skip_optional_dependencies: true,
            extra_features: Vec::new(),
            deny_list: Vec::new(),
            always_include_features: Vec::new(),
            max_combination_size: None,
            allow_list: Vec::new(),
            additive_features: Vec::new(),
            skip: false,
        }
    }
}

/// Why the combinations of a package could not be worked out.
#[derive(Debug, Clone, Copy, PartialEq, Eq, Structural)]
pub enum PowersetError {
    /// The metadata gives both an allow list and a deny list.
    AllowAndDenyList,
}

impl PowersetError {
    /// The text the error is shown as.
    pub fn message(&self) -> (r: &'static str)
        ensures
            r@ == "Cannot specify both allow and deny lists, please specify only one."@,
    {
        "Cannot specify both allow and deny lists, please specify only one."
    }
}

/// The optional dependency an entry `dep:name` of a feature names.
pub open spec fn dep_name(d: Seq<u8>) -> Option<Seq<u8>> {
    if d.len() >= 4 && d.take(4) == seq![100u8, 101u8, 112u8, 58u8] {
        Some(d.skip(4))
    } else {
        None
    }
}

/// Whether feature `f` is the implicit feature of an optional dependency:
/// its one entry is `dep:` and its own name.
pub open spec fn is_implicit(m: Seq<(Vec<u8>, Vec<Vec<u8>>)>, f: Seq<u8>) -> bool {
    exists|i: int|
        0 <= i < m.len() && (#[trigger] m[i]).0@ == f && m[i].1@.len() == 1 && dep_name(
            m[i].1@[0]@,
        ) == Some(f)
}

/// Whether some feature enables the optional dependency `d` other than as
/// its implicit feature.
pub open spec fn is_used(m: Seq<(Vec<u8>, Vec<Vec<u8>>)>, d: Seq<u8>) -> bool {
    exists|i: int, t: int|
        0 <= i < m.len() && 0 <= t < m[i].1@.len() && dep_name((#[trigger] m[i].1@[t])@) == Some(d)
            && !(d == m[i].0@ && m[i].1@.len() == 1)
}

/// Whether a feature of the package stays: the implicit feature of an
/// optional dependency goes when such features are left out, unless the
/// dependency is used elsewhere or the feature is an extra one.
pub open spec fn keeps(m: Seq<(Vec<u8>, Vec<Vec<u8>>)>, md: XTaskMetadata, f: Seq<u8>) -> bool {
    !(md.skip_optional_dependencies && is_implicit(m, f) && !is_used(m, f) && !set_of(
        md.extra_features@,
    ).contains(f))
}

/// The entries of `m` whose feature `keep` holds of, in order.
pub open spec fn entries_where(
    m: Seq<(Vec<u8>, Vec<Vec<u8>>)>,
    keep: spec_fn(Seq<u8>) -> bool,
) -> Seq<(Vec<u8>, Vec<Vec<u8>>)>
    decreases m.len(),
{
    if m.len() == 0 {
        m
    } else {
        let r = entries_where(m.drop_last(), keep);
        if keep(m.last().0@) {
            r.push(m.last())
        } else {
            r
        }
    }
}

/// The features of the package that stay, with what each enables.
pub open spec fn kept_map(m: Seq<(Vec<u8>, Vec<Vec<u8>>)>, md: XTaskMetadata) -> Seq<
    (Vec<u8>, Vec<Vec<u8>>),
> {
    entries_where(m, |f: Seq<u8>| keeps(m, md, f))
}

/// Whether the allow and deny lists let feature `f` be tested.
pub open spec fn selected(md: XTaskMetadata, f: Seq<u8>) -> bool {
    &&& !(md.allow_list@.len() > 0 && !set_of(md.allow_list@).contains(f))
    &&& !(md.deny_list@.len() > 0 && set_of(md.deny_list@).contains(f))
}

/// Whether the metadata gives both an allow and a deny list.
pub open spec fn lists_conflict(md: XTaskMetadata) -> bool {
    md.allow_list@.len() > 0 && md.deny_list@.len() > 0
}

/// The entries of `src` whose feature `keep` holds of, each with the
/// features it enables in `m`, directly or through others.
pub open spec fn flattened_where(
    m: Seq<(Vec<u8>, Vec<Vec<u8>>)>,
    src: Seq<(Vec<u8>, Vec<Vec<u8>>)>,
    keep: spec_fn(Seq<u8>) -> bool,
) -> AbstractMap
    decreases src.len(),
{
    if src.len() == 0 {
        Seq::empty()
    } else {
        let r = flattened_where(m, src.drop_last(), keep);
        let e = src.last();
        if keep(e.0@) {
            r.push((e.0@, flattened(m, names(e.1@))))
        } else {
            r
        }
    }
}

/// The features combined with each other: those tested that are not
/// additive, each with what it enables.
pub open spec fn viable_map(m: Seq<(Vec<u8>, Vec<Vec<u8>>)>, md: XTaskMetadata) -> AbstractMap {
    flattened_where(
        kept_map(m, md),
        kept_map(m, md),
        |f: Seq<u8>| selected(md, f) && !set_of(md.additive_features@).contains(f),
    )
}

/// The additive features tested, each with what it enables.
pub open spec fn additive_map(m: Seq<(Vec<u8>, Vec<Vec<u8>>)>, md: XTaskMetadata) -> AbstractMap {
    flattened_where(
        kept_map(m, md),
        kept_map(m, md),
        |f: Seq<u8>| selected(md, f) && set_of(md.additive_features@).contains(f),
    )
}

/// The features of an abstract map.
pub open spec fn keys_of(am: AbstractMap) -> Set<Seq<u8>> {
    Set::new(|f: Seq<u8>| exists|i: int| 0 <= i < am.len() && (#[trigger] am[i]).0 == f)
}

/// The features always included that the package keeps.
pub open spec fn always_set(
    m: Seq<(Vec<u8>, Vec<Vec<u8>>)>,
    md: XTaskMetadata,
    added: Seq<Vec<u8>>,
) -> Set<Seq<u8>> {
    Set::new(
        |f: Seq<u8>|
            (set_of(md.always_include_features@).contains(f) || set_of(added).contains(f)) && is_key(
                kept_map(m, md),
                f,
            ),
    )
}

/// The sets to skip: each excluded feature alone, and those of the metadata.
pub open spec fn skip_sets(md: XTaskMetadata, excluded: Seq<Vec<u8>>) -> Set<Set<Seq<u8>>> {
    Set::new(
        |k: Set<Seq<u8>>|
            (exists|x: Seq<u8>| set_of(excluded).contains(x) && k == Set::<Seq<u8>>::empty().insert(x))
                || sets_of(md.skip_feature_sets@).contains(k),
    )
}

/// How many features the search may add to the features always included.
pub open spec fn search_depth(m: Seq<(Vec<u8>, Vec<Vec<u8>>)>, md: XTaskMetadata) -> nat {
    match md.max_combination_size {
        Some(n) => n as nat,
        None => viable_map(m, md).len() + 1,
    }
}

/// The combinations of non-additive features found.
pub open spec fn non_additive(
    m: Seq<(Vec<u8>, Vec<Vec<u8>>)>,
    md: XTaskMetadata,
    added: Seq<Vec<u8>>,
    excluded: Seq<Vec<u8>>,
) -> Set<Set<Seq<u8>>> {
    search_result(
        viable_map(m, md),
        skip_sets(md, excluded),
        seq![(always_set(m, md, added), search_depth(m, md))],
        Set::empty(),
    )
}

/// The combinations the additive features from entry `i` on make on top of
/// `q`: each one that the combination does not enable is added in turn,
/// dropping what it enables, and every combination on the way counts.
pub open spec fn additive_steps(
    add: AbstractMap,
    flat: Set<Seq<u8>>,
    q: Set<Seq<u8>>,
    i: nat,
) -> Set<Set<Seq<u8>>>
    decreases add.len() - i,
{
    if i >= add.len() {
        Set::empty()
    } else if flat.contains(add[i as int].0) {
        additive_steps(add, flat, q, i + 1)
    } else {
        let q2 = q.insert(add[i as int].0).difference(add[i as int].1);
        additive_steps(add, flat, q2, i + 1).insert(q2)
    }
}

/// The combinations found with the additive features on top of each.
pub open spec fn with_additive(
    found: Set<Set<Seq<u8>>>,
    viable: AbstractMap,
    add: AbstractMap,
) -> Set<Set<Seq<u8>>> {
    Set::new(
        |c: Set<Seq<u8>>|
            exists|p: Set<Seq<u8>>|
                #[trigger] found.contains(p) && (c == p || additive_steps(
                    add,
                    flat_of(viable, p),
                    p,
                    0,
                ).contains(c)),
    )
}

/// The features always included with one additive feature they do not
/// enable.
pub open spec fn lone_additive(
    always: Set<Seq<u8>>,
    viable: AbstractMap,
    add: AbstractMap,
) -> Set<Set<Seq<u8>>> {
    Set::new(
        |c: Set<Seq<u8>>|
            exists|i: int|
                0 <= i < add.len() && !flat_of(viable, always).contains((#[trigger] add[i]).0) && c
                    == always.insert(add[i].0),
    )
}

/// The combinations to test of a package with features `m`.
pub open spec fn package_combinations(
    m: Seq<(Vec<u8>, Vec<Vec<u8>>)>,
    md: XTaskMetadata,
    added: Seq<Vec<u8>>,
    excluded: Seq<Vec<u8>>,
) -> Set<Set<Seq<u8>>> {
    with_additive(non_additive(m, md, added, excluded), viable_map(m, md), additive_map(m, md))
        + lone_additive(always_set(m, md, added), viable_map(m, md), additive_map(m, md))
}

/// The dependency an entry `dep:name` names.
fn strip_dep(d: &Vec<u8>) -> (r: Option<Vec<u8>>)
    ensures
        match r {
            Some(x) => dep_name(d@) == Some(x@),
            None => dep_name(d@) is None,
        },
{
    if d.len() >= 4 && d[0] == 100 && d[1] == 101 && d[2] == 112 && d[3] == 58 {
        let mut x: Vec<u8> = Vec::new();
        let mut i: usize = 4;
        while i < d.len()
            invariant
                4 <= i <= d@.len(),
                x@ == d@.subrange(4, i as int),
            decreases d@.len() - i,
        {
            x.push(d[i]);
            assert(d@.subrange(4, i + 1) =~= d@.subrange(4, i as int).push(d@[i as int]));
            i = i + 1;
        }
        assert(d@.take(4) =~= seq![100u8, 101u8, 112u8, 58u8]);
        assert(x@ =~= d@.skip(4));
        Some(x)
    } else {
        proof {
            if d@.len() >= 4 && d@.take(4) == seq![100u8, 101u8, 112u8, 58u8] {
                assert(d@.take(4)[0] == d@[0]);
                assert(d@.take(4)[1] == d@[1]);
                assert(d@.take(4)[2] == d@[2]);
                assert(d@.take(4)[3] == d@[3]);
            }
        }
        None
    }
}

/// Whether entry `k` of the map is the implicit feature `f`.
pub open spec fn implicit_at(m: Seq<(Vec<u8>, Vec<Vec<u8>>)>, k: int, f: Seq<u8>) -> bool {
    m[k].0@ == f && m[k].1@.len() == 1 && dep_name(m[k].1@[0]@) == Some(f)
}

/// Whether item `t` of entry `k` enables dependency `d` other than as the
/// implicit feature of `d`.
pub open spec fn used_at(m: Seq<(Vec<u8>, Vec<Vec<u8>>)>, k: int, t: int, d: Seq<u8>) -> bool {
    0 <= t < m[k].1@.len() && dep_name(m[k].1@[t]@) == Some(d) && !(d == m[k].0@ && m[k].1@.len() == 1)
}

/// Whether one of the first `n` entries is the implicit feature `f`.
pub open spec fn implicit_upto(m: Seq<(Vec<u8>, Vec<Vec<u8>>)>, f: Seq<u8>, n: int) -> bool {
    exists|k: int| 0 <= k < n && #[trigger] implicit_at(m, k, f)
}

/// Whether an item before item `t` of entry `n`, or of an earlier entry,
/// uses dependency `d`.
pub open spec fn used_upto(m: Seq<(Vec<u8>, Vec<Vec<u8>>)>, d: Seq<u8>, n: int, t: int) -> bool {
    exists|k: int, u: int| (0 <= k < n || (k == n && u < t)) && #[trigger] used_at(m, k, u, d)
}

/// The implicit features of the map and the dependencies used elsewhere.
fn optional_dependencies(m: &FeatureMap) -> (r: (Vec<Vec<u8>>, Vec<Vec<u8>>))
    ensures
        forall|f: Seq<u8>| set_of(r.0@).contains(f) <==> is_implicit(m@, f),
        forall|d: Seq<u8>| set_of(r.1@).contains(d) <==> is_used(m@, d),
{
    let mut implicit: Vec<Vec<u8>> = Vec::new();
    let mut used: Vec<Vec<u8>> = Vec::new();
    let mut i: usize = 0;
    while i < m.len()
        invariant
            i <= m@.len(),
            forall|f: Seq<u8>| set_of(implicit@).contains(f) <==> implicit_upto(m@, f, i as int),
            forall|d: Seq<u8>| set_of(used@).contains(d) <==> used_upto(m@, d, i as int, 0),
        decreases m@.len() - i,
    {
        let key = &m[i].0;
        let deps = &m[i].1;
        let mut t: usize = 0;
        while t < deps.len()
            invariant
                i < m@.len(),
                key == &m@[i as int].0,
                deps == &m@[i as int].1,
                t <= deps@.len(),
                forall|f: Seq<u8>| set_of(implicit@).contains(f) <==> (implicit_upto(m@, f, i as int)
                    || (0 < t && implicit_at(m@, i as int, f))),
                forall|d: Seq<u8>| set_of(used@).contains(d) <==> used_upto(m@, d, i as int, t as int),
            decreases deps@.len() - t,
        {
            let ghost ib = names(implicit@);
            let ghost ub = names(used@);
            let ghost mut new_imp: Option<Seq<u8>> = None;
            let ghost mut new_used: Option<Seq<u8>> = None;
            proof {
                assert forall|x: Seq<u8>| ub.contains(x) <==> used_upto(m@, x, i as int, t as int) by {
                    assert(set_of(used@).contains(x) == ub.contains(x));
                }
                assert forall|x: Seq<u8>| ib.contains(x) <==> (implicit_upto(m@, x, i as int)
                    || (0 < t && implicit_at(m@, i as int, x))) by {
                    assert(set_of(implicit@).contains(x) == ib.contains(x));
                }
            }
            match strip_dep(&deps[t]) {
                None => {},
                Some(d) => {
                    let ghost dv = d@;
                    if bytes_eq(d.as_slice(), key.as_slice()) && deps.len() == 1 {
                        implicit.push(d);
                        proof {
                            new_imp = Some(dv);
                        }
                    } else {
                        used.push(d);
                        proof {
                            new_used = Some(dv);
                        }
                    }
                },
            }
            proof {
                assert(names(implicit@) =~= match new_imp {
                    Some(v) => ib.push(v),
                    None => ib,
                });
                assert(names(used@) =~= match new_used {
                    Some(v) => ub.push(v),
                    None => ub,
                });
                assert forall|x: Seq<u8>| used_at(m@, i as int, t as int, x) <==> new_used == Some(x) by {}
                assert forall|f: Seq<u8>| (t == 0 && implicit_at(m@, i as int, f)) <==> new_imp == Some(f) by {}
                assert forall|f: Seq<u8>| set_of(implicit@).contains(f) <==> (implicit_upto(m@, f, i as int)
                    || (0 < t + 1 && implicit_at(m@, i as int, f))) by {
                    if let Some(v) = new_imp {
                        lemma_push_contains(ib, v, f);
                    }
                }
                assert forall|x: Seq<u8>| set_of(used@).contains(x) <==> used_upto(m@, x, i as int, t + 1) by {
                    if let Some(v) = new_used {
                        lemma_push_contains(ub, v, x);
                    }
                    if used_upto(m@, x, i as int, t + 1) {
                        let (k, u) = choose|k: int, u: int| (0 <= k < i || (k == i && u < t + 1)) && #[trigger] used_at(m@, k, u, x);
                        if !(k == i && u == t) {
                            assert(used_upto(m@, x, i as int, t as int));
                        }
                    }
                    if used_upto(m@, x, i as int, t as int) {
                        let (k, u) = choose|k: int, u: int| (0 <= k < i || (k == i && u < t)) && #[trigger] used_at(m@, k, u, x);
                        assert(used_upto(m@, x, i as int, t + 1));
                    }
                    if new_used == Some(x) {
                        assert(used_at(m@, i as int, t as int, x));
                    }
                }
            }
            t = t + 1;
        }
        proof {
            assert forall|f: Seq<u8>| set_of(implicit@).contains(f) <==> implicit_upto(m@, f, i + 1) by {
                if implicit_at(m@, i as int, f) {
                    assert(m@[i as int].1@.len() == 1);
                }
                if implicit_upto(m@, f, i + 1) {
                    let k = choose|k: int| 0 <= k < i + 1 && #[trigger] implicit_at(m@, k, f);
                    if k < i {
                        assert(implicit_upto(m@, f, i as int));
                    }
                }
                if implicit_upto(m@, f, i as int) {
                    let k = choose|k: int| 0 <= k < i && #[trigger] implicit_at(m@, k, f);
                    assert(implicit_upto(m@, f, i + 1));
                }
            }
            assert forall|d: Seq<u8>| set_of(used@).contains(d) <==> used_upto(m@, d, i + 1, 0) by {
                if used_upto(m@, d, i + 1, 0) {
                    let (k, u) = choose|k: int, u: int| (0 <= k < i + 1 || (k == i + 1 && u < 0)) && #[trigger] used_at(m@, k, u, d);
                    assert(used_upto(m@, d, i as int, deps@.len() as int));
                }
                if used_upto(m@, d, i as int, deps@.len() as int) {
                    let (k, u) = choose|k: int, u: int| (0 <= k < i || (k == i && u < deps@.len())) && #[trigger] used_at(m@, k, u, d);
                    assert(used_upto(m@, d, i + 1, 0));
                }
            }
        }
        i = i + 1;
    }
    proof {
        assert forall|f: Seq<u8>| implicit_upto(m@, f, m@.len() as int) <==> is_implicit(m@, f) by {
            if is_implicit(m@, f) {
                let k = choose|k: int| 0 <= k < m@.len() && (#[trigger] m@[k]).0@ == f && m@[k].1@.len() == 1 && dep_name(m@[k].1@[0]@) == Some(f);
                assert(implicit_at(m@, k, f));
            }
        }
        assert forall|d: Seq<u8>| used_upto(m@, d, m@.len() as int, 0) <==> is_used(m@, d) by {
            if is_used(m@, d) {
                let (k, u) = choose|k: int, u: int| 0 <= k < m@.len() && 0 <= u < m@[k].1@.len() && dep_name((#[trigger] m@[k].1@[u])@) == Some(d) && !(d == m@[k].0@ && m@[k].1@.len() == 1);
                assert(used_at(m@, k, u, d));
            }
            if used_upto(m@, d, m@.len() as int, 0) {
                let (k, u) = choose|k: int, u: int| (0 <= k < m@.len() || (k == m@.len() && u < 0)) && #[trigger] used_at(m@, k, u, d);
                assert(dep_name(m@[k].1@[u]@) == Some(d));
            }
        }
    }
    (implicit, used)
}

proof fn lemma_entries_where(m: Seq<(Vec<u8>, Vec<Vec<u8>>)>, keep: spec_fn(Seq<u8>) -> bool)
    requires
        keys_distinct(m),
    ensures
        keys_distinct(entries_where(m, keep)),
        forall|x: Seq<u8>| is_key(entries_where(m, keep), x) <==> (is_key(m, x) && keep(x)),
        entries_where(m, keep).len() <= m.len(),
    decreases m.len(),
{
    if m.len() > 0 {
        let m0 = m.drop_last();
        let e = m.last();
        assert(keys_distinct(m0)) by {
            assert forall|i: int, j: int| 0 <= i < j < m0.len() implies m0[i].0@ != m0[j].0@ by {
                assert(m0[i] == m[i] && m0[j] == m[j]);
            }
        }
        lemma_entries_where(m0, keep);
        let r = entries_where(m0, keep);
        assert forall|x: Seq<u8>| is_key(m, x) <==> (is_key(m0, x) || e.0@ == x) by {
            if is_key(m, x) {
                let i = choose|i: int| 0 <= i < m.len() && (#[trigger] m[i]).0@ == x;
                if i < m0.len() {
                    assert(m0[i] == m[i]);
                }
            }
            if is_key(m0, x) {
                let i = choose|i: int| 0 <= i < m0.len() && (#[trigger] m0[i]).0@ == x;
                assert(m[i] == m0[i]);
            }
            if e.0@ == x {
                assert(m[m.len() - 1] == e);
            }
        }
        assert(!is_key(m0, e.0@)) by {
            if is_key(m0, e.0@) {
                let i = choose|i: int| 0 <= i < m0.len() && (#[trigger] m0[i]).0@ == e.0@;
                assert(m[i] == m0[i]);
                assert(m[i].0@ != m[m.len() - 1].0@);
            }
        }
        if keep(e.0@) {
            let r2 = r.push(e);
            assert forall|x: Seq<u8>| is_key(r2, x) <==> (is_key(r, x) || e.0@ == x) by {
                if is_key(r2, x) {
                    let i = choose|i: int| 0 <= i < r2.len() && (#[trigger] r2[i]).0@ == x;
                    if i < r.len() {
                        assert(r[i] == r2[i]);
                    }
                }
                if is_key(r, x) {
                    let i = choose|i: int| 0 <= i < r.len() && (#[trigger] r[i]).0@ == x;
                    assert(r2[i] == r[i]);
                }
                if e.0@ == x {
                    assert(r2[r.len() as int] == e);
                }
            }
            assert forall|i: int, j: int| 0 <= i < j < r2.len() implies r2[i].0@ != r2[j].0@ by {
                if j == r.len() {
                    assert(r2[i] == r[i]);
                    assert(is_key(r, r[i].0@));
                } else {
                    assert(r2[i] == r[i] && r2[j] == r[j]);
                }
            }
        }
    }
}

/// The package's features with those left out taken away.
fn kept_features(m: &FeatureMap, md: &XTaskMetadata) -> (r: FeatureMap)
    requires
        keys_distinct(m@),
    ensures
        same_entries(r@, kept_map(m@, *md)),
{
    let (implicit, used) = optional_dependencies(m);
    let mut r: FeatureMap = Vec::new();
    let mut i: usize = 0;
    while i < m.len()
        invariant
            i <= m@.len(),
            forall|f: Seq<u8>| set_of(implicit@).contains(f) <==> is_implicit(m@, f),
            forall|d: Seq<u8>| set_of(used@).contains(d) <==> is_used(m@, d),
            same_entries(r@, entries_where(m@.take(i as int), |f: Seq<u8>| keeps(m@, *md, f))),
        decreases m@.len() - i,
    {
        let key = &m[i].0;
        let drop = md.skip_optional_dependencies && contains_name(&implicit, key.as_slice())
            && !contains_name(&used, key.as_slice()) && !contains_name(&md.extra_features, key.as_slice());
        proof {
            assert(set_of(implicit@).contains(key@) == names(implicit@).contains(key@));
            assert(set_of(used@).contains(key@) == names(used@).contains(key@));
            assert(set_of(md.extra_features@).contains(key@) == names(md.extra_features@).contains(key@));
            assert(drop == !keeps(m@, *md, key@));
            assert(m@.take(i + 1).drop_last() =~= m@.take(i as int));
            assert(m@.take(i + 1).last() == m@[i as int]);
        }
        if !drop {
            let k = key.clone();
            assert(k@ =~= key@);
            let deps = copy_names(&m[i].1);
            let ghost before = r@;
            r.push((k, deps));
            proof {
                let target = entries_where(m@.take(i + 1), |f: Seq<u8>| keeps(m@, *md, f));
                assert(target == entries_where(m@.take(i as int), |f: Seq<u8>| keeps(m@, *md, f)).push(m@[i as int]));
                assert forall|j: int| 0 <= j < r@.len() implies (#[trigger] r@[j]).0@ == target[j].0@ && names(r@[j].1@) == names(target[j].1@) by {
                    if j < before.len() {
                        assert(r@[j] == before[j]);
                    }
                }
            }
        }
        i = i + 1;
    }
    assert(m@.take(m@.len() as int) =~= m@);
    r
}

/// Whether the features of an abstract map are distinct.
pub open spec fn distinct_keys(am: AbstractMap) -> bool {
    forall|i: int, j: int| 0 <= i < j < am.len() ==> am[i].0 != am[j].0
}

proof fn lemma_flattened_where(
    m: Seq<(Vec<u8>, Vec<Vec<u8>>)>,
    src: Seq<(Vec<u8>, Vec<Vec<u8>>)>,
    keep: spec_fn(Seq<u8>) -> bool,
)
    requires
        keys_distinct(src),
    ensures
        distinct_keys(flattened_where(m, src, keep)),
        forall|x: Seq<u8>| keys_of(flattened_where(m, src, keep)).contains(x) <==> (is_key(src, x) && keep(x)),
        flattened_where(m, src, keep).len() <= src.len(),
    decreases src.len(),
{
    if src.len() > 0 {
        let s0 = src.drop_last();
        let e = src.last();
        assert(keys_distinct(s0)) by {
            assert forall|i: int, j: int| 0 <= i < j < s0.len() implies s0[i].0@ != s0[j].0@ by {
                assert(s0[i] == src[i] && s0[j] == src[j]);
            }
        }
        lemma_flattened_where(m, s0, keep);
        let r = flattened_where(m, s0, keep);
        assert forall|x: Seq<u8>| is_key(src, x) <==> (is_key(s0, x) || e.0@ == x) by {
            if is_key(src, x) {
                let i = choose|i: int| 0 <= i < src.len() && (#[trigger] src[i]).0@ == x;
                if i < s0.len() {
                    assert(s0[i] == src[i]);
                }
            }
            if is_key(s0, x) {
                let i = choose|i: int| 0 <= i < s0.len() && (#[trigger] s0[i]).0@ == x;
                assert(src[i] == s0[i]);
            }
            if e.0@ == x {
                assert(src[src.len() - 1] == e);
            }
        }
        assert(!is_key(s0, e.0@)) by {
            if is_key(s0, e.0@) {
                let i = choose|i: int| 0 <= i < s0.len() && (#[trigger] s0[i]).0@ == e.0@;
                assert(src[i] == s0[i]);
                assert(src[i].0@ != src[src.len() - 1].0@);
            }
        }
        if keep(e.0@) {
            let r2 = r.push((e.0@, flattened(m, names(e.1@))));
            assert forall|x: Seq<u8>| keys_of(r2).contains(x) <==> (keys_of(r).contains(x) || e.0@ == x) by {
                if keys_of(r2).contains(x) {
                    let i = choose|i: int| 0 <= i < r2.len() && (#[trigger] r2[i]).0 == x;
                    if i < r.len() {
                        assert(r[i] == r2[i]);
                    }
                }
                if keys_of(r).contains(x) {
                    let i = choose|i: int| 0 <= i < r.len() && (#[trigger] r[i]).0 == x;
                    assert(r2[i] == r[i]);
                }
                if e.0@ == x {
                    assert(r2[r.len() as int].0 == x);
                }
            }
            assert forall|i: int, j: int| 0 <= i < j < r2.len() implies r2[i].0 != r2[j].0 by {
                if j == r.len() {
                    assert(r2[i] == r[i]);
                    assert(keys_of(r).contains(r[i].0));
                } else {
                    assert(r2[i] == r[i] && r2[j] == r[j]);
                }
            }
        }
    }
}

proof fn lemma_flattened_where_same(
    m1: Seq<(Vec<u8>, Vec<Vec<u8>>)>,
    m2: Seq<(Vec<u8>, Vec<Vec<u8>>)>,
    s1: Seq<(Vec<u8>, Vec<Vec<u8>>)>,
    s2: Seq<(Vec<u8>, Vec<Vec<u8>>)>,
    keep: spec_fn(Seq<u8>) -> bool,
)
    requires
        same_entries(s1, s2),
        forall|d: Seq<Seq<u8>>| flattened(m1, d) == flattened(m2, d),
    ensures
        flattened_where(m1, s1, keep) == flattened_where(m2, s2, keep),
    decreases s1.len(),
{
    if s1.len() > 0 {
        let a = s1.drop_last();
        let b = s2.drop_last();
        assert(same_entries(a, b)) by {
            assert forall|i: int| 0 <= i < a.len() implies (#[trigger] a[i]).0@ == b[i].0@ && names(a[i].1@) == names(b[i].1@) by {
                assert(a[i] == s1[i] && b[i] == s2[i]);
            }
        }
        lemma_flattened_where_same(m1, m2, a, b, keep);
        assert(s1.last() == s1[s1.len() - 1]);
        assert(s2.last() == s2[s2.len() - 1]);
    }
}

/// The abstract map of a map with one more entry.
proof fn lemma_abstract_push(v: Seq<(Vec<u8>, Vec<Vec<u8>>)>, e: (Vec<u8>, Vec<Vec<u8>>))
    ensures
        abstract_map(v.push(e)) == abstract_map(v).push((e.0@, names(e.1@).to_set())),
{
    assert(abstract_map(v.push(e)) =~= abstract_map(v).push((e.0@, names(e.1@).to_set())));
}

/// The features the lists let be tested, split into those combined with
/// each other and the additive ones, each with what it enables in `kept`.
fn split_features(kept: &FeatureMap, md: &XTaskMetadata) -> (r: (FeatureMap, FeatureMap))
    requires
        keys_distinct(kept@),
    ensures
        abstract_map(r.0@) == flattened_where(
            kept@,
            kept@,
            |f: Seq<u8>| selected(*md, f) && !set_of(md.additive_features@).contains(f),
        ),
        abstract_map(r.1@) == flattened_where(
            kept@,
            kept@,
            |f: Seq<u8>| selected(*md, f) && set_of(md.additive_features@).contains(f),
        ),
{
    let mut viable: FeatureMap = Vec::new();
    let mut additive: FeatureMap = Vec::new();
    let use_allow = md.allow_list.len() > 0;
    let use_deny = md.deny_list.len() > 0;
    let mut i: usize = 0;
    while i < kept.len()
        invariant
            i <= kept@.len(),
            keys_distinct(kept@),
            use_allow == (md.allow_list@.len() > 0),
            use_deny == (md.deny_list@.len() > 0),
            abstract_map(viable@) == flattened_where(
                kept@,
                kept@.take(i as int),
                |f: Seq<u8>| selected(*md, f) && !set_of(md.additive_features@).contains(f),
            ),
            abstract_map(additive@) == flattened_where(
                kept@,
                kept@.take(i as int),
                |f: Seq<u8>| selected(*md, f) && set_of(md.additive_features@).contains(f),
            ),
        decreases kept@.len() - i,
    {
        let key = &kept[i].0;
        let sel = !(use_allow && !contains_name(&md.allow_list, key.as_slice())) && !(use_deny
            && contains_name(&md.deny_list, key.as_slice()));
        let is_additive = contains_name(&md.additive_features, key.as_slice());
        proof {
            assert(sel == selected(*md, key@));
            assert(is_additive == set_of(md.additive_features@).contains(key@));
            assert(kept@.take(i + 1).drop_last() =~= kept@.take(i as int));
            assert(kept@.take(i + 1).last() == kept@[i as int]);
        }
        if sel {
            let flat = flatten_features(&kept[i].1, kept);
            let k = key.clone();
            assert(k@ =~= key@);
            if !is_additive {
                proof {
                    lemma_abstract_push(viable@, (k, flat));
                }
                viable.push((k, flat));
            } else {
                proof {
                    lemma_abstract_push(additive@, (k, flat));
                }
                additive.push((k, flat));
            }
        }
        i = i + 1;
    }
    assert(kept@.take(kept@.len() as int) =~= kept@);
    (viable, additive)
}

/// Two maps with the same entries have the same features.
proof fn lemma_same_keys(a: Seq<(Vec<u8>, Vec<Vec<u8>>)>, b: Seq<(Vec<u8>, Vec<Vec<u8>>)>, x: Seq<u8>)
    requires
        same_entries(a, b),
    ensures
        is_key(a, x) <==> is_key(b, x),
{
    if is_key(a, x) {
        let i = choose|i: int| 0 <= i < a.len() && (#[trigger] a[i]).0@ == x;
        assert(b[i].0@ == x);
    }
    if is_key(b, x) {
        let i = choose|i: int| 0 <= i < b.len() && (#[trigger] b[i]).0@ == x;
        assert(a[i].0@ == x);
    }
}

/// Adds to the set `out` the names of `src` that are features of `kept`.
fn add_kept_names(out: &mut Vec<Vec<u8>>, src: &Vec<Vec<u8>>, kept: &FeatureMap)
    requires
        distinct(names(old(out)@)),
    ensures
        distinct(names(final(out)@)),
        forall|f: Seq<u8>| set_of(final(out)@).contains(f) <==> (set_of(old(out)@).contains(f) || (
            set_of(src@).contains(f) && is_key(kept@, f))),
{
    let ghost o0 = set_of(out@);
    let mut i: usize = 0;
    while i < src.len()
        invariant
            i <= src@.len(),
            distinct(names(out@)),
            forall|f: Seq<u8>| set_of(out@).contains(f) <==> (o0.contains(f) || (names(src@).take(i as int).contains(f) && is_key(kept@, f))),
        decreases src@.len() - i,
    {
        let ghost before = names(out@);
        let ghost fv = src@[i as int]@;
        proof {
            assert(names(src@).take(i + 1) =~= names(src@).take(i as int).push(fv));
            assert forall|f: Seq<u8>| before.contains(f) <==> (o0.contains(f) || (names(src@).take(i as int).contains(f) && is_key(kept@, f))) by {
                assert(set_of(out@).contains(f) == before.contains(f));
            }
        }
        match crate::powerset::find_key(kept, src[i].as_slice()) {
            Some(_) => {
                let c = src[i].clone();
                assert(c@ =~= fv);
                insert_name(out, c);
                proof {
                    assert forall|f: Seq<u8>| names(out@).contains(f) <==> (before.contains(f) || f == fv) by {
                        lemma_push_contains(before, fv, f);
                    }
                }
            },
            None => {},
        }
        proof {
            assert forall|f: Seq<u8>| set_of(out@).contains(f) <==> (o0.contains(f) || (names(src@).take(i + 1).contains(f) && is_key(kept@, f))) by {
                lemma_push_contains(names(src@).take(i as int), fv, f);
            }
        }
        i = i + 1;
    }
    assert(names(src@).take(src@.len() as int) =~= names(src@));
}

/// The sets to skip: each excluded feature alone, then those of the metadata.
fn skip_list(md: &XTaskMetadata, excluded: &Vec<Vec<u8>>) -> (r: Vec<Vec<Vec<u8>>>)
    ensures
        sets_of(r@) == skip_sets(*md, excluded@),
{
    let mut r: Vec<Vec<Vec<u8>>> = Vec::new();
    let mut i: usize = 0;
    while i < excluded.len()
        invariant
            i <= excluded@.len(),
            forall|k: Set<Seq<u8>>| sets_of(r@).contains(k) <==> exists|x: Seq<u8>| names(excluded@).take(i as int).contains(x) && k == Set::<Seq<u8>>::empty().insert(x),
        decreases excluded@.len() - i,
    {
        let c = excluded[i].clone();
        let ghost xv = excluded@[i as int]@;
        assert(c@ =~= xv);
        let mut one: Vec<Vec<u8>> = Vec::new();
        one.push(c);
        let ghost rv = r@;
        proof {
            assert(names(one@) =~= seq![xv]);
            assert(set_of(one@) =~= Set::<Seq<u8>>::empty().insert(xv)) by {
                assert forall|y: Seq<u8>| set_of(one@).contains(y) <==> y == xv by {
                    if y == xv {
                        assert(names(one@)[0] == y);
                    }
                }
            }
            assert(names(excluded@).take(i + 1) =~= names(excluded@).take(i as int).push(xv));
        }
        r.push(one);
        proof {
            crate::combinations::lemma_sets_of_push(rv, one);
            assert forall|k: Set<Seq<u8>>| sets_of(r@).contains(k) <==> exists|x: Seq<u8>| names(excluded@).take(i + 1).contains(x) && k == Set::<Seq<u8>>::empty().insert(x) by {
                if exists|x: Seq<u8>| names(excluded@).take(i + 1).contains(x) && k == Set::<Seq<u8>>::empty().insert(x) {
                    let x = choose|x: Seq<u8>| names(excluded@).take(i + 1).contains(x) && k == Set::<Seq<u8>>::empty().insert(x);
                    lemma_push_contains(names(excluded@).take(i as int), xv, x);
                }
                if sets_of(rv).contains(k) {
                    let x = choose|x: Seq<u8>| names(excluded@).take(i as int).contains(x) && k == Set::<Seq<u8>>::empty().insert(x);
                    lemma_push_contains(names(excluded@).take(i as int), xv, x);
                }
                if k == Set::<Seq<u8>>::empty().insert(xv) {
                    lemma_push_contains(names(excluded@).take(i as int), xv, xv);
                }
            }
        }
        i = i + 1;
    }
    assert(names(excluded@).take(excluded@.len() as int) =~= names(excluded@));
    let ghost singles = sets_of(r@);
    assert(forall|k: Set<Seq<u8>>| singles.contains(k) <==> exists|x: Seq<u8>| names(excluded@).contains(x) && k == Set::<Seq<u8>>::empty().insert(x));
    let mut j: usize = 0;
    while j < md.skip_feature_sets.len()
        invariant
            j <= md.skip_feature_sets@.len(),
            forall|k: Set<Seq<u8>>| sets_of(r@).contains(k) <==> (singles.contains(k) || exists|t: int| 0 <= t < j && set_of((#[trigger] md.skip_feature_sets@[t])@) == k),
        decreases md.skip_feature_sets@.len() - j,
    {
        let c = copy_names(&md.skip_feature_sets[j]);
        let ghost rv = r@;
        let ghost jo = j as int;
        proof {
            assert forall|k: Set<Seq<u8>>| #[trigger] sets_of(rv).contains(k) <==> (singles.contains(k) || exists|t: int| 0 <= t < jo && set_of((#[trigger] md.skip_feature_sets@[t])@) == k) by {
                assert(sets_of(r@).contains(k) == sets_of(rv).contains(k));
            }
        }
        r.push(c);
        j = j + 1;
        proof {
            crate::combinations::lemma_sets_of_push(rv, c);
            let cs = set_of(md.skip_feature_sets@[jo]@);
            assert(set_of(c@) == cs);
            assert forall|k: Set<Seq<u8>>| sets_of(r@).contains(k) <==> (singles.contains(k) || exists|t: int| 0 <= t < j && set_of((#[trigger] md.skip_feature_sets@[t])@) == k) by {
                if exists|t: int| 0 <= t < j && set_of((#[trigger] md.skip_feature_sets@[t])@) == k {
                    let t = choose|t: int| 0 <= t < j && set_of((#[trigger] md.skip_feature_sets@[t])@) == k;
                    if t < jo {
                        assert(exists|t: int| 0 <= t < jo && set_of((#[trigger] md.skip_feature_sets@[t])@) == k);
                        assert(sets_of(rv).contains(k));
                    } else {
                        assert(k == cs);
                    }
                }
                if sets_of(rv).contains(k) && !singles.contains(k) {
                    let t = choose|t: int| 0 <= t < jo && set_of((#[trigger] md.skip_feature_sets@[t])@) == k;
                    assert(exists|t: int| 0 <= t < j && set_of((#[trigger] md.skip_feature_sets@[t])@) == k);
                }
                if k == cs {
                    assert(set_of(md.skip_feature_sets@[jo]@) == k);
                    assert(0 <= jo < j);
                }
                if singles.contains(k) {
                    assert(sets_of(rv).contains(k));
                }
            }
        }
    }
    proof {
        assert forall|k: Set<Seq<u8>>| sets_of(r@).contains(k) <==> skip_sets(*md, excluded@).contains(k) by {
            if sets_of(md.skip_feature_sets@).contains(k) {
                let t = choose|t: int| 0 <= t < md.skip_feature_sets@.len() && set_of((#[trigger] md.skip_feature_sets@[t])@) == k;
            }
            if exists|t: int| 0 <= t < md.skip_feature_sets@.len() && set_of((#[trigger] md.skip_feature_sets@[t])@) == k {
                let t = choose|t: int| 0 <= t < md.skip_feature_sets@.len() && set_of((#[trigger] md.skip_feature_sets@[t])@) == k;
                assert(sets_of(md.skip_feature_sets@).contains(k));
            }
            if singles.contains(k) {
                let x = choose|x: Seq<u8>| names(excluded@).contains(x) && k == Set::<Seq<u8>>::empty().insert(x);
                assert(set_of(excluded@).contains(x));
            }
            if exists|x: Seq<u8>| set_of(excluded@).contains(x) && k == Set::<Seq<u8>>::empty().insert(x) {
                let x = choose|x: Seq<u8>| set_of(excluded@).contains(x) && k == Set::<Seq<u8>>::empty().insert(x);
                assert(names(excluded@).contains(x));
                assert(singles.contains(k));
            }
        }
        assert(sets_of(r@) =~= skip_sets(*md, excluded@));
    }
    r
}

/// Adds feature `key` to the set `q` and takes away the features `deps`.
fn apply_feature(q: &mut Vec<Vec<u8>>, key: &Vec<u8>, deps: &Vec<Vec<u8>>)
    requires
        distinct(names(old(q)@)),
    ensures
        distinct(names(final(q)@)),
        set_of(final(q)@) == set_of(old(q)@).insert(key@).difference(names(deps@).to_set()),
{
    let ghost before = names(q@);
    let k = key.clone();
    assert(k@ =~= key@);
    insert_name(q, k);
    proof {
        assert forall|x: Seq<u8>| set_of(q@).contains(x) <==> set_of(old(q)@).insert(key@).contains(x) by {
            lemma_push_contains(before, key@, x);
        }
        assert(set_of(q@) =~= set_of(old(q)@).insert(key@));
    }
    let ghost ds = names(deps@);
    let ghost s1 = set_of(q@);
    let mut t: usize = 0;
    while t < deps.len()
        invariant
            t <= deps@.len(),
            ds == names(deps@),
            distinct(names(q@)),
            set_of(q@) == s1.difference(ds.take(t as int).to_set()),
        decreases deps@.len() - t,
    {
        crate::combinations::remove_name(q, deps[t].as_slice());
        proof {
            assert forall|x: Seq<u8>| ds.take(t + 1).to_set().contains(x) <==> (ds.take(t as int).to_set().contains(x) || x == ds[t as int]) by {
                assert(ds.take(t + 1) =~= ds.take(t as int).push(ds[t as int]));
                lemma_push_contains(ds.take(t as int), ds[t as int], x);
            }
            assert(set_of(q@) =~= s1.difference(ds.take(t + 1).to_set()));
        }
        t = t + 1;
    }
    assert(ds.take(deps@.len() as int) =~= ds);
}

/// The combinations the first `k` of `ps` make with the additive features
/// on top of each.
pub open spec fn with_additive_upto(
    ps: Seq<Vec<Vec<u8>>>,
    viable: AbstractMap,
    add: AbstractMap,
    k: nat,
) -> Set<Set<Seq<u8>>>
    decreases k,
{
    if k == 0 {
        Set::empty()
    } else {
        let p = set_of(ps[k - 1]@);
        with_additive_upto(ps, viable, add, (k - 1) as nat).insert(p) + additive_steps(
            add,
            flat_of(viable, p),
            p,
            0,
        )
    }
}

proof fn lemma_with_additive_upto(ps: Seq<Vec<Vec<u8>>>, viable: AbstractMap, add: AbstractMap, k: nat)
    requires
        k <= ps.len(),
    ensures
        forall|c: Set<Seq<u8>>|
            #[trigger] with_additive_upto(ps, viable, add, k).contains(c) <==> exists|i: int|
                0 <= i < k && (c == set_of((#[trigger] ps[i])@) || additive_steps(
                    add,
                    flat_of(viable, set_of(ps[i]@)),
                    set_of(ps[i]@),
                    0,
                ).contains(c)),
    decreases k,
{
    if k > 0 {
        lemma_with_additive_upto(ps, viable, add, (k - 1) as nat);
        assert forall|c: Set<Seq<u8>>|
            #[trigger] with_additive_upto(ps, viable, add, k).contains(c) <==> exists|i: int|
                0 <= i < k && (c == set_of((#[trigger] ps[i])@) || additive_steps(
                    add,
                    flat_of(viable, set_of(ps[i]@)),
                    set_of(ps[i]@),
                    0,
                ).contains(c)) by {
            let j = k - 1;
            if exists|i: int|
                0 <= i < k && (c == set_of((#[trigger] ps[i])@) || additive_steps(
                    add,
                    flat_of(viable, set_of(ps[i]@)),
                    set_of(ps[i]@),
                    0,
                ).contains(c)) {
                let i = choose|i: int|
                    0 <= i < k && (c == set_of((#[trigger] ps[i])@) || additive_steps(
                        add,
                        flat_of(viable, set_of(ps[i]@)),
                        set_of(ps[i]@),
                        0,
                    ).contains(c));
                if i < j {
                    assert(with_additive_upto(ps, viable, add, (k - 1) as nat).contains(c));
                }
            }
            if with_additive_upto(ps, viable, add, (k - 1) as nat).contains(c) {
                let i = choose|i: int|
                    0 <= i < k - 1 && (c == set_of((#[trigger] ps[i])@) || additive_steps(
                        add,
                        flat_of(viable, set_of(ps[i]@)),
                        set_of(ps[i]@),
                        0,
                    ).contains(c));
            }
        }
    }
}

/// The combinations found with the additive features on top of each.
fn expand_additive(na: &Vec<Vec<Vec<u8>>>, viable: &FeatureMap, additive: &FeatureMap) -> (out: Vec<Vec<Vec<u8>>>)
    requires
        keys_distinct(viable@),
        forall|i: int| 0 <= i < na@.len() ==> combination_wf(viable@, (#[trigger] na@[i])@),
    ensures
        sets_of(out@) == with_additive(sets_of(na@), abstract_map(viable@), abstract_map(additive@)),
{
    let ghost av = abstract_map(viable@);
    let ghost aa = abstract_map(additive@);
    let mut out: Vec<Vec<Vec<u8>>> = Vec::new();
    proof {
        assert(sets_of(out@) =~= with_additive_upto(na@, av, aa, 0));
    }
    let mut idx: usize = 0;
    while idx < na.len()
        invariant
            idx <= na@.len(),
            av == abstract_map(viable@),
            aa == abstract_map(additive@),
            keys_distinct(viable@),
            forall|i: int| 0 <= i < na@.len() ==> combination_wf(viable@, (#[trigger] na@[i])@),
            sets_of(out@) == with_additive_upto(na@, av, aa, idx as nat),
        decreases na@.len() - idx,
    {
        let p = &na[idx];
        let ghost pv = set_of(p@);
        let ghost base = sets_of(out@);
        let flat = flat_names(p, viable);
        let ghost fl = flat_of(av, pv);
        let pc = copy_names(p);
        let ghost ov = out@;
        out.push(pc);
        proof {
            lemma_sets_of_push(ov, pc);
        }
        let mut q = copy_names(p);
        let mut i: usize = 0;
        while i < additive.len()
            invariant
                i <= additive@.len(),
                aa == abstract_map(additive@),
                set_of(flat@) == fl,
                distinct(names(q@)),
                sets_of(out@) + additive_steps(aa, fl, set_of(q@), i as nat) == base.insert(pv)
                    + additive_steps(aa, fl, pv, 0),
            decreases additive@.len() - i,
        {
            let ghost qv = set_of(q@);
            let ghost key = additive@[i as int].0@;
            let ghost deps = names(additive@[i as int].1@).to_set();
            assert(aa[i as int] == (key, deps));
            if !contains_name(&flat, additive[i].0.as_slice()) {
                proof {
                    assert(!fl.contains(key));
                }
                apply_feature(&mut q, &additive[i].0, &additive[i].1);
                let qc = copy_names(&q);
                let ghost ov2 = out@;
                out.push(qc);
                proof {
                    lemma_sets_of_push(ov2, qc);
                    let q2 = qv.insert(key).difference(deps);
                    assert(set_of(q@) == q2);
                    assert(additive_steps(aa, fl, qv, i as nat) == additive_steps(aa, fl, q2, (i + 1) as nat).insert(q2));
                    assert(sets_of(out@) + additive_steps(aa, fl, set_of(q@), (i + 1) as nat) =~= sets_of(ov2) + additive_steps(aa, fl, qv, i as nat));
                }
            } else {
                proof {
                    assert(fl.contains(key));
                    assert(additive_steps(aa, fl, qv, i as nat) == additive_steps(aa, fl, qv, (i + 1) as nat));
                }
            }
            i = i + 1;
        }
        proof {
            assert(additive_steps(aa, fl, set_of(q@), i as nat) =~= Set::<Set<Seq<u8>>>::empty());
            assert(sets_of(out@) =~= with_additive_upto(na@, av, aa, (idx + 1) as nat));
        }
        idx = idx + 1;
    }
    proof {
        lemma_with_additive_upto(na@, av, aa, na@.len() as nat);
        assert forall|c: Set<Seq<u8>>| sets_of(out@).contains(c) <==> with_additive(sets_of(na@), av, aa).contains(c) by {
            if sets_of(out@).contains(c) {
                assert(with_additive_upto(na@, av, aa, na@.len() as nat).contains(c));
                let i = choose|i: int|
                    0 <= i < na@.len() && (c == set_of((#[trigger] na@[i])@) || additive_steps(
                        aa,
                        flat_of(av, set_of(na@[i]@)),
                        set_of(na@[i]@),
                        0,
                    ).contains(c));
                assert(sets_of(na@).contains(set_of(na@[i]@)));
            }
            if with_additive(sets_of(na@), av, aa).contains(c) {
                let p = choose|p: Set<Seq<u8>>|
                    #[trigger] sets_of(na@).contains(p) && (c == p || additive_steps(
                        aa,
                        flat_of(av, p),
                        p,
                        0,
                    ).contains(c));
                let i = choose|i: int| 0 <= i < na@.len() && set_of((#[trigger] na@[i])@) == p;
                assert(with_additive_upto(na@, av, aa, na@.len() as nat).contains(c));
            }
        }
        assert(sets_of(out@) =~= with_additive(sets_of(na@), av, aa));
    }
    out
}

/// Adds the features always included with each additive feature they do
/// not enable.
fn add_lone_additive(
    out: &mut Vec<Vec<Vec<u8>>>,
    always: &Vec<Vec<u8>>,
    viable: &FeatureMap,
    additive: &FeatureMap,
)
    requires
        keys_distinct(viable@),
        combination_wf(viable@, always@),
    ensures
        sets_of(final(out)@) == sets_of(old(out)@) + lone_additive(
            set_of(always@),
            abstract_map(viable@),
            abstract_map(additive@),
        ),
{
    let ghost av = abstract_map(viable@);
    let ghost aa = abstract_map(additive@);
    let ghost al = set_of(always@);
    let ghost o0 = sets_of(out@);
    let flat = flat_names(always, viable);
    let mut i: usize = 0;
    while i < additive.len()
        invariant
            i <= additive@.len(),
            aa == abstract_map(additive@),
            av == abstract_map(viable@),
            al == set_of(always@),
            distinct(names(always@)),
            set_of(flat@) == flat_of(av, al),
            forall|c: Set<Seq<u8>>| #[trigger] sets_of(out@).contains(c) <==> (o0.contains(c) || exists|j: int|
                0 <= j < i && !flat_of(av, al).contains((#[trigger] aa[j]).0) && c == al.insert(aa[j].0)),
        decreases additive@.len() - i,
    {
        let ghost key = additive@[i as int].0@;
        assert(aa[i as int].0 == key);
        let ghost ov = out@;
        let ghost io = i as int;
        proof {
            assert forall|c: Set<Seq<u8>>| #[trigger] sets_of(ov).contains(c) <==> (o0.contains(c) || exists|j: int|
                0 <= j < io && !flat_of(av, al).contains((#[trigger] aa[j]).0) && c == al.insert(aa[j].0)) by {
                assert(sets_of(out@).contains(c) == sets_of(ov).contains(c));
            }
        }
        if !contains_name(&flat, additive[i].0.as_slice()) {
            let mut c = copy_names(always);
            let k = additive[i].0.clone();
            assert(k@ =~= key);
            let ghost cb = names(c@);
            insert_name(&mut c, k);
            proof {
                assert forall|x: Seq<u8>| set_of(c@).contains(x) <==> al.insert(key).contains(x) by {
                    lemma_push_contains(cb, key, x);
                }
                assert(set_of(c@) =~= al.insert(key));
            }
            out.push(c);
            proof {
                lemma_sets_of_push(ov, c);
            }
        }
        i = i + 1;
        proof {
            assert forall|c: Set<Seq<u8>>| #[trigger] sets_of(out@).contains(c) <==> (o0.contains(c) || exists|j: int|
                0 <= j < i && !flat_of(av, al).contains((#[trigger] aa[j]).0) && c == al.insert(aa[j].0)) by {
                if exists|j: int| 0 <= j < i && !flat_of(av, al).contains((#[trigger] aa[j]).0) && c == al.insert(aa[j].0) {
                    let j = choose|j: int| 0 <= j < i && !flat_of(av, al).contains((#[trigger] aa[j]).0) && c == al.insert(aa[j].0);
                    if j < io {
                        assert(sets_of(ov).contains(c));
                    }
                }
                if sets_of(ov).contains(c) && !o0.contains(c) {
                    let j = choose|j: int| 0 <= j < io && !flat_of(av, al).contains((#[trigger] aa[j]).0) && c == al.insert(aa[j].0);
                }
                if !flat_of(av, al).contains(key) && c == al.insert(key) {
                    assert(!flat_of(av, al).contains(aa[io].0));
                }
            }
        }
    }
    proof {
        assert(sets_of(out@) =~= o0 + lone_additive(al, av, aa));
    }
}

/// Each feature of the map the abstract map of a map holds is a feature of
/// the map.
proof fn lemma_abstract_keys(m: Seq<(Vec<u8>, Vec<Vec<u8>>)>)
    ensures
        forall|x: Seq<u8>| keys_of(abstract_map(m)).contains(x) <==> is_key(m, x),
        distinct_keys(abstract_map(m)) ==> keys_distinct(m),
        abstract_map(m).len() == m.len(),
{
    let am = abstract_map(m);
    assert forall|x: Seq<u8>| keys_of(am).contains(x) <==> is_key(m, x) by {
        if keys_of(am).contains(x) {
            let i = choose|i: int| 0 <= i < am.len() && (#[trigger] am[i]).0 == x;
            assert(m[i].0@ == x);
        }
        if is_key(m, x) {
            let i = choose|i: int| 0 <= i < m.len() && (#[trigger] m[i]).0@ == x;
            assert(am[i].0 == x);
        }
    }
    if distinct_keys(am) {
        assert forall|i: int, j: int| 0 <= i < j < m.len() implies m[i].0@ != m[j].0@ by {
            assert(am[i].0 == m[i].0@ && am[j].0 == m[j].0@);
        }
    }
}

/// Works out the feature combinations to test of a package whose features
/// are `package_features`, in the order the package lists them, with the
/// features of `added_features` always included too and each feature of
/// `excluded_features` skipped: as [`package_combinations`] describes,
/// none for a package without features, and an error where the metadata
/// gives both an allow and a deny list.
pub fn test_package_features(
    package_features: &FeatureMap,
    added_features: &Vec<Vec<u8>>,
    excluded_features: &Vec<Vec<u8>>,
    xtask_metadata: &XTaskMetadata,
) -> (r: Result<Vec<Vec<Vec<u8>>>, PowersetError>)
    requires
        keys_distinct(package_features@),
        package_features@.len() < usize::MAX,
        package_features@.len() > 0 && !lists_conflict(*xtask_metadata) ==> always_set(
            package_features@,
            *xtask_metadata,
            added_features@,
        ).subset_of(keys_of(viable_map(package_features@, *xtask_metadata))),
    ensures
        package_features@.len() == 0 ==> (r matches Ok(v) && sets_of(v@) == Set::<Set<Seq<u8>>>::empty()),
        package_features@.len() > 0 && lists_conflict(*xtask_metadata) ==> (r matches Err(e) && e
            == PowersetError::AllowAndDenyList),
        package_features@.len() > 0 && !lists_conflict(*xtask_metadata) ==> (r matches Ok(v) && sets_of(v@)
            == package_combinations(package_features@, *xtask_metadata, added_features@, excluded_features@)),
{
    let ghost m = package_features@;
    let ghost md = *xtask_metadata;
    if package_features.len() == 0 {
        let v: Vec<Vec<Vec<u8>>> = Vec::new();
        assert(sets_of(v@) =~= Set::<Set<Seq<u8>>>::empty());
        return Ok(v);
    }
    let kept = kept_features(package_features, xtask_metadata);
    let ghost km = kept_map(m, md);
    proof {
        lemma_entries_where(m, |f: Seq<u8>| keeps(m, md, f));
        assert forall|d: Seq<Seq<u8>>| flattened(km, d) == flattened(kept@, d) by {
            lemma_flattened_same_entries(km, kept@, d);
        }
        lemma_flattened_same_entries(km, kept@, Seq::empty());
    }
    if xtask_metadata.allow_list.len() > 0 && xtask_metadata.deny_list.len() > 0 {
        return Err(PowersetError::AllowAndDenyList);
    }
    let (viable, additive) = split_features(&kept, xtask_metadata);
    let ghost vp = |f: Seq<u8>| selected(md, f) && !set_of(md.additive_features@).contains(f);
    let ghost ap = |f: Seq<u8>| selected(md, f) && set_of(md.additive_features@).contains(f);
    proof {
        lemma_flattened_where_same(kept@, km, kept@, km, vp);
        lemma_flattened_where_same(kept@, km, kept@, km, ap);
        assert(abstract_map(viable@) == viable_map(m, md));
        assert(abstract_map(additive@) == additive_map(m, md));
        lemma_flattened_where(km, km, vp);
        lemma_abstract_keys(viable@);
    }
    let mut always: Vec<Vec<u8>> = Vec::new();
    add_kept_names(&mut always, &xtask_metadata.always_include_features, &kept);
    add_kept_names(&mut always, added_features, &kept);
    proof {
        assert forall|f: Seq<u8>| set_of(always@).contains(f) <==> always_set(m, md, added_features@).contains(f) by {
            lemma_same_keys(kept@, km, f);
        }
        assert(set_of(always@) =~= always_set(m, md, added_features@));
        assert(combination_wf(viable@, always@));
    }
    let skips = skip_list(xtask_metadata, excluded_features);
    let depth: usize = match xtask_metadata.max_combination_size {
        Some(n) => n,
        None => viable.len() + 1,
    };
    let mut na: Vec<Vec<Vec<u8>>> = Vec::new();
    let start = copy_names(&always);
    proof {
        assert(sets_of(na@) =~= Set::<Set<Seq<u8>>>::empty());
        assert(set_of(start@) == set_of(always@));
        assert(depth as nat == search_depth(m, md));
    }
    find_permutations(start, depth, &mut na, &viable, &skips);
    proof {
        assert(sets_of(na@) == non_additive(m, md, added_features@, excluded_features@));
    }
    let mut out = expand_additive(&na, &viable, &additive);
    add_lone_additive(&mut out, &always, &viable, &additive);
    Ok(out)
}

proof fn lemma_children_within(
    am: AbstractMap,
    skips: Set<Set<Seq<u8>>>,
    found: Set<Set<Seq<u8>>>,
    s: Set<Seq<u8>>,
    rem: nat,
    j: nat,
    k: Set<Seq<u8>>,
)
    requires
        j <= am.len(),
        s.subset_of(k),
        forall|i: int| 0 <= i < am.len() ==> k.contains((#[trigger] am[i]).0),
    ensures
        forall|i: int|
            0 <= i < children(am, skips, found, s, rem, j).len() ==> (#[trigger] children(
                am,
                skips,
                found,
                s,
                rem,
                j,
            )[i]).0.subset_of(k),
    decreases j,
{
    if j > 0 {
        lemma_children_within(am, skips, found, s, rem, (j - 1) as nat, k);
        let c = children(am, skips, found, s, rem, (j - 1) as nat);
        let next = next_combination(am, s, j - 1);
        assert(k.contains(am[j - 1].0));
        assert(next.subset_of(k));
        if !flat_of(am, s).contains(am[j - 1].0) && !found.contains(next) && !skips.contains(next) {
            let c2 = c.push((next, (rem - 1) as nat));
            assert forall|i: int| 0 <= i < c2.len() implies (#[trigger] c2[i]).0.subset_of(k) by {
                if i < c.len() {
                    assert(c2[i] == c[i]);
                }
            }
        }
    }
}

proof fn lemma_search_within(
    am: AbstractMap,
    skips: Set<Set<Seq<u8>>>,
    stack: Seq<Entry>,
    found: Set<Set<Seq<u8>>>,
    found0: Set<Set<Seq<u8>>>,
    k: Set<Seq<u8>>,
    n: nat,
)
    requires
        forall|i: int| 0 <= i < am.len() ==> k.contains((#[trigger] am[i]).0),
        forall|i: int| 0 <= i < stack.len() ==> (#[trigger] stack[i]).0.subset_of(k),
        forall|c: Set<Seq<u8>>| #[trigger] found.contains(c) && !found0.contains(c) ==> c.subset_of(k),
    ensures
        forall|c: Set<Seq<u8>>|
            #[trigger] search_run(am, skips, stack, found, n).1.contains(c) && !found0.contains(c)
                ==> c.subset_of(k),
    decreases n,
{
    if n > 0 && stack.len() > 0 {
        let (s2, f2) = search_step(am, skips, stack, found);
        let (s, rem) = stack.last();
        let rest = stack.drop_last();
        assert(stack[stack.len() - 1].0.subset_of(k));
        assert forall|i: int| 0 <= i < rest.len() implies (#[trigger] rest[i]).0.subset_of(k) by {
            assert(rest[i] == stack[i]);
        }
        if !(skipped_in(skips, s) || found.contains(s)) && rem > 0 {
            let now = found.insert(s);
            lemma_children_within(am, skips, now, s, rem, am.len(), k);
            let c = children(am, skips, now, s, rem, am.len());
            assert forall|i: int| 0 <= i < s2.len() implies (#[trigger] s2[i]).0.subset_of(k) by {
                assert(s2 == rest + c);
                if i < rest.len() {
                    assert(s2[i] == rest[i]);
                } else {
                    assert(s2[i] == c[i - rest.len()]);
                }
            }
        }
        assert forall|c: Set<Seq<u8>>| #[trigger] f2.contains(c) && !found0.contains(c) implies c.subset_of(k) by {
            if c != s {
                assert(found.contains(c));
            }
        }
        lemma_search_within(am, skips, s2, f2, found0, k, (n - 1) as nat);
        assert(search_run(am, skips, stack, found, n) == search_run(am, skips, s2, f2, (n - 1) as nat));
    } else if n > 0 {
        let (s2, f2) = search_step(am, skips, stack, found);
        assert(s2 == stack && f2 == found);
        lemma_search_within(am, skips, s2, f2, found0, k, (n - 1) as nat);
        assert(search_run(am, skips, stack, found, n) == search_run(am, skips, s2, f2, (n - 1) as nat));
    }
}

/// Whether one of the sets `skips` holds lies within `s`.
pub open spec fn skipped_in(skips: Set<Set<Seq<u8>>>, s: Set<Seq<u8>>) -> bool {
    crate::combinations::skipped(skips, s)
}

proof fn lemma_additive_within(add: AbstractMap, flat: Set<Seq<u8>>, q: Set<Seq<u8>>, i: nat, k: Set<Seq<u8>>)
    requires
        q.subset_of(k),
        forall|t: int| 0 <= t < add.len() ==> k.contains((#[trigger] add[t]).0),
    ensures
        forall|c: Set<Seq<u8>>| #[trigger] additive_steps(add, flat, q, i).contains(c) ==> c.subset_of(k),
    decreases add.len() - i,
{
    if i < add.len() {
        if flat.contains(add[i as int].0) {
            lemma_additive_within(add, flat, q, i + 1, k);
            assert(additive_steps(add, flat, q, i) == additive_steps(add, flat, q, i + 1));
        } else {
            let q2 = q.insert(add[i as int].0).difference(add[i as int].1);
            assert(k.contains(add[i as int].0));
            assert(q2.subset_of(k));
            lemma_additive_within(add, flat, q2, i + 1, k);
            assert(additive_steps(add, flat, q, i) == additive_steps(add, flat, q2, i + 1).insert(q2));
        }
    } else {
        assert(additive_steps(add, flat, q, i) == Set::<Set<Seq<u8>>>::empty());
    }
}

/// When no additive feature's dependencies name an additive feature, the
/// additive features from `i` on that `flat` lacks are added one after the
/// other: the last combination made holds them all, and keeps the features
/// of `q` that none of their dependencies name.
proof fn lemma_additive_cumulative(add: AbstractMap, flat: Set<Seq<u8>>, q: Set<Seq<u8>>, i: nat)
    requires
        forall|j: int, k: int| 0 <= j < add.len() && 0 <= k < add.len() ==> !add[j].1.contains(add[k].0),
        exists|j: int| i <= j < add.len() && !flat.contains(#[trigger] add[j].0),
    ensures
        exists|c: Set<Seq<u8>>|
            #[trigger] additive_steps(add, flat, q, i).contains(c) && (forall|j: int|
                i <= j < add.len() && !flat.contains(#[trigger] add[j].0) ==> c.contains(add[j].0))
                && (forall|x: Seq<u8>|
                q.contains(x) && (forall|t: int| i <= t < add.len() ==> !(#[trigger] add[t]).1.contains(x))
                    ==> #[trigger] c.contains(x)),
    decreases add.len() - i,
{
    let w = choose|j: int| i <= j < add.len() && !flat.contains(#[trigger] add[j].0);
    if flat.contains(add[i as int].0) {
        assert(w != i);
        lemma_additive_cumulative(add, flat, q, i + 1);
        assert(additive_steps(add, flat, q, i) == additive_steps(add, flat, q, i + 1));
        let c = choose|c: Set<Seq<u8>>|
            #[trigger] additive_steps(add, flat, q, i + 1).contains(c) && (forall|j: int|
                i + 1 <= j < add.len() && !flat.contains(#[trigger] add[j].0) ==> c.contains(add[j].0))
                && (forall|x: Seq<u8>|
                q.contains(x) && (forall|t: int| i + 1 <= t < add.len() ==> !(#[trigger] add[t]).1.contains(x))
                    ==> #[trigger] c.contains(x));
        assert(additive_steps(add, flat, q, i).contains(c));
        assert forall|x: Seq<u8>|
            q.contains(x) && (forall|t: int| i <= t < add.len() ==> !(#[trigger] add[t]).1.contains(x))
                implies #[trigger] c.contains(x) by {
            assert forall|t: int| i + 1 <= t < add.len() implies !(#[trigger] add[t]).1.contains(x) by {}
        }
    } else {
        let a = add[i as int].0;
        let q2 = q.insert(a).difference(add[i as int].1);
        assert(additive_steps(add, flat, q, i) == additive_steps(add, flat, q2, i + 1).insert(q2));
        assert(!add[i as int].1.contains(a));
        assert(q2.contains(a));
        if exists|j: int| i + 1 <= j < add.len() && !flat.contains(#[trigger] add[j].0) {
            lemma_additive_cumulative(add, flat, q2, i + 1);
            let c = choose|c: Set<Seq<u8>>|
                #[trigger] additive_steps(add, flat, q2, i + 1).contains(c) && (forall|j: int|
                    i + 1 <= j < add.len() && !flat.contains(#[trigger] add[j].0) ==> c.contains(add[j].0))
                    && (forall|x: Seq<u8>|
                    q2.contains(x) && (forall|t: int| i + 1 <= t < add.len() ==> !(#[trigger] add[t]).1.contains(x))
                        ==> #[trigger] c.contains(x));
            assert(additive_steps(add, flat, q, i).contains(c));
            assert forall|t: int| i + 1 <= t < add.len() implies !(#[trigger] add[t]).1.contains(a) by {}
            assert(c.contains(a));
            assert forall|x: Seq<u8>|
                q.contains(x) && (forall|t: int| i <= t < add.len() ==> !(#[trigger] add[t]).1.contains(x))
                    implies #[trigger] c.contains(x) by {
                assert(!add[i as int].1.contains(x));
                assert(q2.contains(x));
                assert forall|t: int| i + 1 <= t < add.len() implies !(#[trigger] add[t]).1.contains(x) by {}
            }
        } else {
            assert(additive_steps(add, flat, q, i).contains(q2));
            assert forall|j: int| i <= j < add.len() && !flat.contains(#[trigger] add[j].0) implies q2.contains(
                add[j].0,
            ) by {
                if j != i {
                    assert(!flat.contains(add[j].0));
                }
            }
            assert forall|x: Seq<u8>|
                q.contains(x) && (forall|t: int| i <= t < add.len() ==> !(#[trigger] add[t]).1.contains(x))
                    implies #[trigger] q2.contains(x) by {
                assert(!add[i as int].1.contains(x));
            }
        }
    }
}

/// Each combination found is also tested with the additive features it does
/// not enable added on top of it, all of them together, keeping the
/// combination's features that none of their dependencies name; this holds
/// whenever no additive feature's dependencies name an additive feature.
pub proof fn law_additive_on_top(
    found: Set<Set<Seq<u8>>>,
    viable: AbstractMap,
    add: AbstractMap,
    p: Set<Seq<u8>>,
)
    requires
        found.contains(p),
        forall|j: int, k: int| 0 <= j < add.len() && 0 <= k < add.len() ==> !add[j].1.contains(add[k].0),
    ensures
        exists|c: Set<Seq<u8>>|
            #[trigger] with_additive(found, viable, add).contains(c) && (forall|j: int|
                0 <= j < add.len() && !flat_of(viable, p).contains(#[trigger] add[j].0) ==> c.contains(
                    add[j].0,
                )) && (forall|x: Seq<u8>|
                p.contains(x) && (forall|t: int| 0 <= t < add.len() ==> !(#[trigger] add[t]).1.contains(x))
                    ==> #[trigger] c.contains(x)),
{
    let flat = flat_of(viable, p);
    if exists|j: int| 0 <= j < add.len() && !flat.contains(#[trigger] add[j].0) {
        lemma_additive_cumulative(add, flat, p, 0);
        let c = choose|c: Set<Seq<u8>>|
            #[trigger] additive_steps(add, flat, p, 0).contains(c) && (forall|j: int|
                0 <= j < add.len() && !flat.contains(#[trigger] add[j].0) ==> c.contains(add[j].0))
                && (forall|x: Seq<u8>|
                p.contains(x) && (forall|t: int| 0 <= t < add.len() ==> !(#[trigger] add[t]).1.contains(x))
                    ==> #[trigger] c.contains(x));
        assert(with_additive(found, viable, add).contains(c));
    } else {
        assert(with_additive(found, viable, add).contains(p));
    }
}

/// Of the combinations a package is tested with: every combination the
/// search finds is also tested with all the additive features it does not
/// enable on top of it, together, whenever no additive feature's
/// dependencies name an additive feature.
pub proof fn law_package_additive_on_top(
    m: Seq<(Vec<u8>, Vec<Vec<u8>>)>,
    md: XTaskMetadata,
    added: Seq<Vec<u8>>,
    excluded: Seq<Vec<u8>>,
    p: Set<Seq<u8>>,
)
    requires
        non_additive(m, md, added, excluded).contains(p),
        forall|j: int, k: int|
            0 <= j < additive_map(m, md).len() && 0 <= k < additive_map(m, md).len() ==> !additive_map(
                m,
                md,
            )[j].1.contains(additive_map(m, md)[k].0),
    ensures
        exists|c: Set<Seq<u8>>|
            #[trigger] package_combinations(m, md, added, excluded).contains(c) && (forall|j: int|
                0 <= j < additive_map(m, md).len() && !flat_of(viable_map(m, md), p).contains(
                    #[trigger] additive_map(m, md)[j].0,
                ) ==> c.contains(additive_map(m, md)[j].0)) && (forall|x: Seq<u8>|
                p.contains(x) && (forall|t: int|
                    0 <= t < additive_map(m, md).len() ==> !(#[trigger] additive_map(m, md)[t]).1.contains(x))
                    ==> #[trigger] c.contains(x)),
{
    let found = non_additive(m, md, added, excluded);
    let v = viable_map(m, md);
    let a = additive_map(m, md);
    law_additive_on_top(found, v, a, p);
    let c = choose|c: Set<Seq<u8>>|
        #[trigger] with_additive(found, v, a).contains(c) && (forall|j: int|
            0 <= j < a.len() && !flat_of(v, p).contains(#[trigger] a[j].0) ==> c.contains(a[j].0)) && (
        forall|x: Seq<u8>|
            p.contains(x) && (forall|t: int| 0 <= t < a.len() ==> !(#[trigger] a[t]).1.contains(x))
                ==> #[trigger] c.contains(x));
    assert(package_combinations(m, md, added, excluded).contains(c));
}

/// Every combination tested is made of features the package keeps and the
/// allow and deny lists let be tested: a denied feature, or one off the
/// allow list, is in none of them.
pub proof fn law_combinations_use_selected_features(
    m: Seq<(Vec<u8>, Vec<Vec<u8>>)>,
    md: XTaskMetadata,
    added: Seq<Vec<u8>>,
    excluded: Seq<Vec<u8>>,
    c: Set<Seq<u8>>,
    f: Seq<u8>,
)
    requires
        keys_distinct(m),
        always_set(m, md, added).subset_of(keys_of(viable_map(m, md))),
    ensures
        package_combinations(m, md, added, excluded).contains(c) && c.contains(f) ==> is_key(
            kept_map(m, md),
            f,
        ) && selected(md, f),
{
    let km = kept_map(m, md);
    let k = Set::new(|x: Seq<u8>| is_key(km, x) && selected(md, x));
    let vp = |x: Seq<u8>| selected(md, x) && !set_of(md.additive_features@).contains(x);
    let ap = |x: Seq<u8>| selected(md, x) && set_of(md.additive_features@).contains(x);
    lemma_entries_where(m, |x: Seq<u8>| keeps(m, md, x));
    lemma_flattened_where(km, km, vp);
    lemma_flattened_where(km, km, ap);
    let v = viable_map(m, md);
    let a = additive_map(m, md);
    assert forall|i: int| 0 <= i < v.len() implies k.contains((#[trigger] v[i]).0) by {
        assert(keys_of(v).contains(v[i].0));
    }
    assert forall|i: int| 0 <= i < a.len() implies k.contains((#[trigger] a[i]).0) by {
        assert(keys_of(a).contains(a[i].0));
    }
    let al = always_set(m, md, added);
    assert(al.subset_of(k));
    let skips = skip_sets(md, excluded);
    let init = seq![(al, search_depth(m, md))];
    lemma_search_ends(v, skips, init, Set::empty());
    let n = choose|n: nat| (#[trigger] search_run(v, skips, init, Set::empty(), n)).0.len() == 0;
    lemma_search_result(v, skips, init, Set::empty(), n);
    lemma_search_within(v, skips, init, Set::empty(), Set::empty(), k, n);
    let na = non_additive(m, md, added, excluded);
    assert forall|p: Set<Seq<u8>>| #[trigger] na.contains(p) implies p.subset_of(k) by {}
    if package_combinations(m, md, added, excluded).contains(c) && c.contains(f) {
        if with_additive(na, v, a).contains(c) {
            let p = choose|p: Set<Seq<u8>>| #[trigger] na.contains(p) && (c == p || additive_steps(a, flat_of(v, p), p, 0).contains(c));
            lemma_additive_within(a, flat_of(v, p), p, 0, k);
        } else {
            let i = choose|i: int| 0 <= i < a.len() && !flat_of(v, al).contains((#[trigger] a[i]).0) && c == al.insert(a[i].0);
            assert(k.contains(a[i].0));
        }
        assert(k.contains(f));
    }
}

/// Whether every feature always included that the package keeps is one of
/// the features combined with each other: [`test_package_features`] needs
/// it of a package with features and lists that do not conflict.
pub fn always_features_viable(
    package_features: &FeatureMap,
    added_features: &Vec<Vec<u8>>,
    xtask_metadata: &XTaskMetadata,
) -> (r: bool)
    requires
        keys_distinct(package_features@),
    ensures
        r == always_set(package_features@, *xtask_metadata, added_features@).subset_of(
            keys_of(viable_map(package_features@, *xtask_metadata)),
        ),
{
    let ghost m = package_features@;
    let ghost md = *xtask_metadata;
    let kept = kept_features(package_features, xtask_metadata);
    let ghost km = kept_map(m, md);
    proof {
        lemma_entries_where(m, |f: Seq<u8>| keeps(m, md, f));
        assert forall|d: Seq<Seq<u8>>| flattened(km, d) == flattened(kept@, d) by {
            lemma_flattened_same_entries(km, kept@, d);
        }
        lemma_flattened_same_entries(km, kept@, Seq::empty());
    }
    let (viable, _additive) = split_features(&kept, xtask_metadata);
    let ghost vp = |f: Seq<u8>| selected(md, f) && !set_of(md.additive_features@).contains(f);
    proof {
        lemma_flattened_where_same(kept@, km, kept@, km, vp);
        assert(abstract_map(viable@) == viable_map(m, md));
        lemma_abstract_keys(viable@);
    }
    let mut always: Vec<Vec<u8>> = Vec::new();
    add_kept_names(&mut always, &xtask_metadata.always_include_features, &kept);
    add_kept_names(&mut always, added_features, &kept);
    proof {
        assert forall|f: Seq<u8>| set_of(always@).contains(f) <==> always_set(m, md, added_features@).contains(f) by {
            lemma_same_keys(kept@, km, f);
        }
        assert(set_of(always@) =~= always_set(m, md, added_features@));
    }
    let mut i: usize = 0;
    while i < always.len()
        invariant
            i <= always@.len(),
            m == package_features@,
            md == *xtask_metadata,
            set_of(always@) == always_set(m, md, added_features@),
            abstract_map(viable@) == viable_map(m, md),
            forall|x: Seq<u8>| keys_of(abstract_map(viable@)).contains(x) <==> is_key(viable@, x),
            forall|k: int| 0 <= k < i ==> is_key(viable@, #[trigger] names(always@)[k]),
        decreases always@.len() - i,
    {
        if crate::powerset::find_key(&viable, always[i].as_slice()).is_none() {
            proof {
                let f = names(always@)[i as int];
                assert(set_of(always@).contains(f));
                assert(always_set(m, md, added_features@).contains(f));
                assert(!keys_of(abstract_map(viable@)).contains(f));
                assert(!keys_of(viable_map(m, md)).contains(f));
            }
            return false;
        }
        i = i + 1;
    }
    proof {
        assert forall|f: Seq<u8>| set_of(always@).contains(f) implies keys_of(abstract_map(viable@)).contains(f) by {
            let k = choose|k: int| 0 <= k < names(always@).len() && names(always@)[k] == f;
            assert(is_key(viable@, names(always@)[k]));
        }
    }
    true
}

} // verus!
