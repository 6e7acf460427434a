//! The search for the feature combinations of a package to test: starting
//! from the features always included, each step adds one feature that the
//! combination does not yet enable and drops the features that one enables.
//! A combination is a set of feature names, held as a vector without repeats.
use vstd::prelude::*;
use crate::powerset::{contains_name, distinct, find_key, insert_name, is_key, keys_distinct, lemma_push_contains, names, FeatureMap};
use crate::headers::bytes_eq;

verus! {

/// The set of names a vector holds.
pub open spec fn set_of(v: Seq<Vec<u8>>) -> Set<Seq<u8>> {
    names(v).to_set()
}

/// The sets a vector of name vectors holds.
pub open spec fn sets_of(v: Seq<Vec<Vec<u8>>>) -> Set<Set<Seq<u8>>> {
    Set::new(|s: Set<Seq<u8>>| exists|i: int| 0 <= i < v.len() && set_of((#[trigger] v[i])@) == s)
}

/// A copy of a vector of names.
pub fn copy_names(v: &Vec<Vec<u8>>) -> (r: Vec<Vec<u8>>)
    ensures
        names(r@) == names(v@),
{
    let mut r: Vec<Vec<u8>> = Vec::new();
    let mut i: usize = 0;
    while i < v.len()
        invariant
            i <= v@.len(),
            names(r@) == names(v@).take(i as int),
        decreases v@.len() - i,
    {
        let c = v[i].clone();
        assert(c@ =~= v@[i as int]@);
        let ghost before = r@;
        r.push(c);
        assert(names(r@) =~= names(before).push(c@));
        assert(names(v@).take(i + 1) =~= names(v@).take(i as int).push(names(v@)[i as int]));
        i = i + 1;
    }
    assert(names(v@).take(v@.len() as int) =~= names(v@));
    r
}

/// Whether every name of `a` is in `b`.
pub fn names_subset(a: &Vec<Vec<u8>>, b: &Vec<Vec<u8>>) -> (r: bool)
    ensures
        r == set_of(a@).subset_of(set_of(b@)),
{
    let mut i: usize = 0;
    while i < a.len()
        invariant
            i <= a@.len(),
            forall|j: int| 0 <= j < i ==> names(b@).contains(#[trigger] names(a@)[j]),
        decreases a@.len() - i,
    {
        if !contains_name(b, a[i].as_slice()) {
            proof {
                assert(set_of(a@).contains(names(a@)[i as int]));
            }
            return false;
        }
        i = i + 1;
    }
    proof {
        assert forall|x: Seq<u8>| set_of(a@).contains(x) implies set_of(b@).contains(x) by {
            let j = choose|j: int| 0 <= j < names(a@).len() && names(a@)[j] == x;
            assert(names(b@).contains(names(a@)[j]));
        }
    }
    true
}

/// Whether `a` and `b` hold the same names.
pub fn same_names(a: &Vec<Vec<u8>>, b: &Vec<Vec<u8>>) -> (r: bool)
    ensures
        r == (set_of(a@) == set_of(b@)),
{
    let r = names_subset(a, b) && names_subset(b, a);
    proof {
        if r {
            assert(set_of(a@) =~= set_of(b@));
        }
    }
    r
}

/// Whether one of the sets of `list` holds the same names as `a`.
pub fn contains_set(list: &Vec<Vec<Vec<u8>>>, a: &Vec<Vec<u8>>) -> (r: bool)
    ensures
        r == sets_of(list@).contains(set_of(a@)),
{
    let mut i: usize = 0;
    while i < list.len()
        invariant
            i <= list@.len(),
            forall|j: int| 0 <= j < i ==> set_of((#[trigger] list@[j])@) != set_of(a@),
        decreases list@.len() - i,
    {
        if same_names(&list[i], a) {
            return true;
        }
        i = i + 1;
    }
    false
}

/// Whether one of the sets `skips` holds is a subset of `s`.
pub open spec fn skipped(skips: Set<Set<Seq<u8>>>, s: Set<Seq<u8>>) -> bool {
    exists|k: Set<Seq<u8>>| skips.contains(k) && k.subset_of(s)
}

/// Whether one of the sets of `list` is a subset of `a`.
pub fn any_subset(list: &Vec<Vec<Vec<u8>>>, a: &Vec<Vec<u8>>) -> (r: bool)
    ensures
        r == skipped(sets_of(list@), set_of(a@)),
{
    let mut i: usize = 0;
    while i < list.len()
        invariant
            i <= list@.len(),
            forall|j: int| 0 <= j < i ==> !set_of((#[trigger] list@[j])@).subset_of(set_of(a@)),
        decreases list@.len() - i,
    {
        if names_subset(&list[i], a) {
            proof {
                assert(sets_of(list@).contains(set_of(list@[i as int]@)));
            }
            return true;
        }
        i = i + 1;
    }
    proof {
        assert forall|k: Set<Seq<u8>>| sets_of(list@).contains(k) implies !k.subset_of(set_of(a@)) by {
            let j = choose|j: int| 0 <= j < list@.len() && set_of((#[trigger] list@[j])@) == k;
        }
    }
    false
}

/// Takes `x` out of the set `v`.
pub fn remove_name(v: &mut Vec<Vec<u8>>, x: &[u8])
    requires
        distinct(names(old(v)@)),
    ensures
        distinct(names(final(v)@)),
        set_of(final(v)@) == set_of(old(v)@).remove(x@),
{
    let ghost s = names(v@);
    let mut kept: Vec<Vec<u8>> = Vec::new();
    let n = v.len();
    let mut i: usize = 0;
    while i < n
        invariant
            n == v@.len(),
            s == names(v@),
            distinct(s),
            i <= n,
            distinct(names(kept@)),
            forall|y: Seq<u8>| #[trigger] names(kept@).contains(y) <==> (s.take(i as int).contains(y)
                && y != x@),
        decreases n - i,
    {
        let c = v[i].clone();
        assert(c@ =~= v@[i as int]@);
        let ghost before = names(kept@);
        assert forall|y: Seq<u8>| s.take(i + 1).contains(y) <==> (s.take(i as int).contains(y) || y
            == s[i as int]) by {
            assert(s.take(i + 1) =~= s.take(i as int).push(s[i as int]));
            lemma_push_contains(s.take(i as int), s[i as int], y);
        }
        if !bytes_eq(c.as_slice(), x) {
            kept.push(c);
            assert(names(kept@) =~= before.push(s[i as int]));
            assert forall|y: Seq<u8>| names(kept@).contains(y) <==> (before.contains(y) || y
                == s[i as int]) by {
                lemma_push_contains(before, s[i as int], y);
            }
            assert forall|p: int, q: int| 0 <= p < q < names(kept@).len() implies names(kept@)[p]
                != names(kept@)[q] by {
                if q == before.len() {
                    assert(names(kept@)[p] == before[p]);
                    assert(before.contains(before[p]));
                    assert(s.take(i as int).contains(before[p]));
                    let t = choose|t: int| 0 <= t < s.take(i as int).len() && s.take(i as int)[t]
                        == before[p];
                    assert(s[t] == before[p]);
                }
            }
        }
        assert forall|y: Seq<u8>| names(kept@).contains(y) <==> (s.take(i + 1).contains(y) && y
            != x@) by {
            assert(s.take(i + 1) =~= s.take(i as int).push(s[i as int]));
            lemma_push_contains(s.take(i as int), s[i as int], y);
            lemma_push_contains(before, s[i as int], y);
            assert(before.contains(y) <==> (s.take(i as int).contains(y) && y != x@));
        }
        i = i + 1;
    }
    assert(s.take(n as int) =~= s);
    *v = kept;
    assert(set_of(v@) =~= set_of(old(v)@).remove(x@));
}

/// A map from feature to the set of features it enables.
pub type AbstractMap = Seq<(Seq<u8>, Set<Seq<u8>>)>;

/// The map a feature map stands for.
pub open spec fn abstract_map(m: Seq<(Vec<u8>, Vec<Vec<u8>>)>) -> AbstractMap {
    m.map_values(|e: (Vec<u8>, Vec<Vec<u8>>)| (e.0@, names(e.1@).to_set()))
}

/// The features `f` enables in the map.
pub open spec fn enabled_by(am: AbstractMap, f: Seq<u8>) -> Set<Seq<u8>> {
    am[choose|i: int| 0 <= i < am.len() && (#[trigger] am[i]).0 == f].1
}

/// What `enabled_by` gives for a feature of a map without repeated features.
pub proof fn lemma_enabled_by(m: Seq<(Vec<u8>, Vec<Vec<u8>>)>, f: Seq<u8>, k: int)
    requires
        keys_distinct(m),
        0 <= k < m.len(),
        m[k].0@ == f,
    ensures
        enabled_by(abstract_map(m), f) == names(m[k].1@).to_set(),
{
    let am = abstract_map(m);
    assert(am[k].0 == f);
    let i = choose|i: int| 0 <= i < am.len() && (#[trigger] am[i]).0 == f;
    if i != k {
        assert(am[i].0 == m[i].0@);
        if i < k {
            assert(m[i].0@ != m[k].0@);
        } else {
            assert(m[k].0@ != m[i].0@);
        }
    }
}

/// The features a combination enables: its own and those each of them
/// enables in the map.
pub open spec fn flat_of(am: AbstractMap, s: Set<Seq<u8>>) -> Set<Seq<u8>> {
    Set::new(|x: Seq<u8>| s.contains(x) || exists|f: Seq<u8>| s.contains(f) && #[trigger] enabled_by(am, f).contains(x))
}

/// The features the combination `start` enables in the map.
pub fn flat_names(start: &Vec<Vec<u8>>, m: &FeatureMap) -> (r: Vec<Vec<u8>>)
    requires
        keys_distinct(m@),
        forall|x: Seq<u8>| #[trigger] set_of(start@).contains(x) ==> is_key(m@, x),
    ensures
        set_of(r@) == flat_of(abstract_map(m@), set_of(start@)),
{
    let ghost am = abstract_map(m@);
    let ghost st = names(start@);
    let mut r: Vec<Vec<u8>> = Vec::new();
    let mut i: usize = 0;
    while i < start.len()
        invariant
            i <= start@.len(),
            st == names(start@),
            keys_distinct(m@),
            forall|x: Seq<u8>| #[trigger] set_of(start@).contains(x) ==> is_key(m@, x),
            am == abstract_map(m@),
            set_of(r@) == flat_of(am, st.take(i as int).to_set()),
        decreases start@.len() - i,
    {
        let f = &start[i];
        let ghost fv = f@;
        assert(st[i as int] == fv);
        assert(set_of(start@).contains(fv));
        let ghost before = names(r@);
        let ghost prev = st.take(i as int);
        let c = f.clone();
        assert(c@ =~= fv);
        r.push(c);
        assert(names(r@) =~= before.push(fv));
        let ghost mut es: Seq<Seq<u8>> = Seq::empty();
        match find_key(m, f.as_slice()) {
            None => {
                proof {
                    assert(false);
                }
            },
            Some(k) => {
                proof {
                    lemma_enabled_by(m@, fv, k as int);
                }
                let deps = &m[k].1;
                let mut j: usize = 0;
                let ghost mid = names(r@);
                while j < deps.len()
                    invariant
                        j <= deps@.len(),
                        names(r@) == mid + names(deps@).take(j as int),
                    decreases deps@.len() - j,
                {
                    let d = deps[j].clone();
                    assert(d@ =~= deps@[j as int]@);
                    let ghost b2 = names(r@);
                    r.push(d);
                    assert(names(r@) =~= b2.push(d@));
                    assert(names(deps@).take(j + 1) =~= names(deps@).take(j as int).push(
                        names(deps@)[j as int],
                    ));
                    j = j + 1;
                }
                assert(names(deps@).take(deps@.len() as int) =~= names(deps@));
                proof {
                    es = names(deps@);
                }
            },
        }
        proof {
            let now = st.take(i + 1);
            assert(now =~= prev.push(fv));
            let e = es;
            assert(names(r@) =~= before.push(fv) + e);
            assert(e.to_set() == enabled_by(am, fv));
            assert forall|x: Seq<u8>| set_of(r@).contains(x) <==> flat_of(am, now.to_set()).contains(x) by {
                lemma_push_contains(prev, fv, x);
                lemma_push_contains(before, fv, x);
                if set_of(r@).contains(x) {
                    let q = choose|q: int| 0 <= q < names(r@).len() && names(r@)[q] == x;
                    if q < before.len() + 1 {
                        assert(before.push(fv)[q] == x);
                        assert(before.push(fv).contains(x));
                        if x != fv {
                            assert(set_of(r@).contains(x) == flat_of(am, now.to_set()).contains(x)) by {
                                assert(before.contains(x));
                                assert(flat_of(am, prev.to_set()).contains(x));
                                if prev.contains(x) {
                                    lemma_push_contains(prev, fv, x);
                                } else {
                                    let f2 = choose|f2: Seq<u8>| prev.to_set().contains(f2) && #[trigger] enabled_by(am, f2).contains(x);
                                    lemma_push_contains(prev, fv, f2);
                                    assert(now.to_set().contains(f2));
                                }
                            }
                        }
                    } else {
                        assert(e[q - before.len() - 1] == x);
                        assert(e.contains(x));
                        assert(e.to_set().contains(x));
                        lemma_push_contains(prev, fv, fv);
                        assert(now.to_set().contains(fv));
                    }
                }
                if flat_of(am, now.to_set()).contains(x) {
                    if x == fv {
                        assert(names(r@)[before.len() as int] == fv);
                    } else if prev.contains(x) {
                        assert(flat_of(am, prev.to_set()).contains(x));
                        assert(before.contains(x));
                        let q = choose|q: int| 0 <= q < before.len() && before[q] == x;
                        assert(names(r@)[q] == x);
                    } else {
                        let f2 = choose|f2: Seq<u8>| now.to_set().contains(f2) && #[trigger] enabled_by(am, f2).contains(x);
                        if f2 == fv {
                            assert(e.to_set().contains(x));
                            let q = choose|q: int| 0 <= q < e.len() && e[q] == x;
                            assert(names(r@)[before.len() + 1 + q] == x);
                        } else {
                            assert(prev.contains(f2));
                            assert(flat_of(am, prev.to_set()).contains(x));
                            assert(before.contains(x));
                            let q = choose|q: int| 0 <= q < before.len() && before[q] == x;
                            assert(names(r@)[q] == x);
                        }
                    }
                }
            }
            assert(set_of(r@) =~= flat_of(am, now.to_set()));
        }
        i = i + 1;
    }
    assert(st.take(start@.len() as int) =~= st);
    assert(st.to_set() =~= set_of(start@));
    r
}

/// An entry of the search: a combination and how many more steps may
/// follow it.
pub type Entry = (Set<Seq<u8>>, nat);

/// The combination step `i` of the map leads to from `s`: the feature of
/// entry `i` added, the features it enables dropped.
pub open spec fn next_combination(am: AbstractMap, s: Set<Seq<u8>>, i: int) -> Set<Seq<u8>> {
    s.insert(am[i].0).difference(am[i].1)
}

/// The entries a combination `s` with `rem` steps left leads to through the
/// first `j` features of the map, in the map's order: each feature that `s`
/// does not enable, unless the combination it leads to is already found or
/// is one to skip.
pub open spec fn children(
    m: AbstractMap,
    skips: Set<Set<Seq<u8>>>,
    found: Set<Set<Seq<u8>>>,
    s: Set<Seq<u8>>,
    rem: nat,
    j: nat,
) -> Seq<Entry>
    decreases j,
{
    if j == 0 {
        Seq::empty()
    } else {
        let c = children(m, skips, found, s, rem, (j - 1) as nat);
        let next = next_combination(m, s, j - 1);
        if !flat_of(m, s).contains(m[j - 1].0) && !found.contains(next) && !skips.contains(next) {
            c.push((next, (rem - 1) as nat))
        } else {
            c
        }
    }
}

/// One step of the search: the last entry is taken off the stack; unless a
/// set to skip lies within its combination or the combination was found
/// already, the combination is found, and if steps are left the entries it
/// leads to go on the stack.
pub open spec fn search_step(
    m: AbstractMap,
    skips: Set<Set<Seq<u8>>>,
    stack: Seq<Entry>,
    found: Set<Set<Seq<u8>>>,
) -> (Seq<Entry>, Set<Set<Seq<u8>>>) {
    if stack.len() == 0 {
        (stack, found)
    } else {
        let (s, rem) = stack.last();
        let rest = stack.drop_last();
        if skipped(skips, s) || found.contains(s) {
            (rest, found)
        } else if rem == 0 {
            (rest, found.insert(s))
        } else {
            let now = found.insert(s);
            (rest + children(m, skips, now, s, rem, m.len()), now)
        }
    }
}

/// The stack and the combinations found after `n` steps of the search.
pub open spec fn search_run(
    m: AbstractMap,
    skips: Set<Set<Seq<u8>>>,
    stack: Seq<Entry>,
    found: Set<Set<Seq<u8>>>,
    n: nat,
) -> (Seq<Entry>, Set<Set<Seq<u8>>>)
    decreases n,
{
    if n == 0 {
        (stack, found)
    } else {
        let (s2, f2) = search_step(m, skips, stack, found);
        search_run(m, skips, s2, f2, (n - 1) as nat)
    }
}

proof fn lemma_run_succ(
    m: AbstractMap,
    skips: Set<Set<Seq<u8>>>,
    stack: Seq<Entry>,
    found: Set<Set<Seq<u8>>>,
    n: nat,
)
    ensures
        search_run(m, skips, stack, found, n + 1) == search_step(
            m,
            skips,
            search_run(m, skips, stack, found, n).0,
            search_run(m, skips, stack, found, n).1,
        ),
    decreases n,
{
    let (s2, f2) = search_step(m, skips, stack, found);
    assert(search_run(m, skips, stack, found, n + 1) == search_run(m, skips, s2, f2, n));
    if n > 0 {
        assert(search_run(m, skips, stack, found, n) == search_run(m, skips, s2, f2, (n - 1) as nat));
        lemma_run_succ(m, skips, s2, f2, (n - 1) as nat);
    } else {
        assert(search_run(m, skips, s2, f2, 0) == (s2, f2));
    }
}

/// `w` to the power `e`.
pub open spec fn power(w: nat, e: nat) -> nat
    decreases e,
{
    if e == 0 {
        1
    } else {
        w * power(w, (e - 1) as nat)
    }
}

proof fn lemma_power_positive(w: nat, e: nat)
    requires
        w >= 1,
    ensures
        power(w, e) >= 1,
    decreases e,
{
    if e > 0 {
        lemma_power_positive(w, (e - 1) as nat);
        assert(w * power(w, (e - 1) as nat) >= 1) by (nonlinear_arith)
            requires
                w >= 1,
                power(w, (e - 1) as nat) >= 1,
        ;
    }
}

/// The measure the search shrinks: each entry weighs `w` to the power of
/// the steps it has left.
pub open spec fn weight(stack: Seq<Entry>, w: nat) -> nat
    decreases stack.len(),
{
    if stack.len() == 0 {
        0
    } else {
        weight(stack.drop_last(), w) + power(w, stack.last().1)
    }
}

proof fn lemma_weight_push(stack: Seq<Entry>, e: Entry, w: nat)
    ensures
        weight(stack.push(e), w) == weight(stack, w) + power(w, e.1),
{
    assert(stack.push(e).drop_last() =~= stack);
}

/// The entries of the stack of the search as it runs.
pub open spec fn entries(v: Seq<(Vec<Vec<u8>>, usize)>) -> Seq<Entry> {
    v.map_values(|e: (Vec<Vec<u8>>, usize)| (set_of(e.0@), e.1 as nat))
}

/// Whether the names of a combination are distinct and features of the map.
pub open spec fn combination_wf(m: Seq<(Vec<u8>, Vec<Vec<u8>>)>, v: Seq<Vec<u8>>) -> bool {
    &&& distinct(names(v))
    &&& forall|x: Seq<u8>| #[trigger] set_of(v).contains(x) ==> is_key(m, x)
}

pub proof fn lemma_sets_of_push(v: Seq<Vec<Vec<u8>>>, a: Vec<Vec<u8>>)
    ensures
        sets_of(v.push(a)) == sets_of(v).insert(set_of(a@)),
{
    let w = v.push(a);
    assert forall|s: Set<Seq<u8>>| sets_of(w).contains(s) <==> sets_of(v).insert(set_of(a@)).contains(s) by {
        if sets_of(w).contains(s) {
            let i = choose|i: int| 0 <= i < w.len() && set_of((#[trigger] w[i])@) == s;
            if i < v.len() {
                assert(v[i] == w[i]);
            }
        }
        if sets_of(v).contains(s) {
            let i = choose|i: int| 0 <= i < v.len() && set_of((#[trigger] v[i])@) == s;
            assert(w[i] == v[i]);
        }
        if s == set_of(a@) {
            assert(w[v.len() as int] == a);
        }
    }
    assert(sets_of(w) =~= sets_of(v).insert(set_of(a@)));
}

/// The combination feature `j` of the map leads to from `start`.
fn step_combination(start: &Vec<Vec<u8>>, m: &FeatureMap, j: usize) -> (r: Vec<Vec<u8>>)
    requires
        j < m@.len(),
        combination_wf(m@, start@),
    ensures
        combination_wf(m@, r@),
        set_of(r@) == next_combination(abstract_map(m@), set_of(start@), j as int),
{
    let mut ns = copy_names(start);
    assert(set_of(ns@) == set_of(start@));
    let key = m[j].0.clone();
    assert(key@ =~= m@[j as int].0@);
    let ghost kv = key@;
    let ghost before = names(ns@);
    insert_name(&mut ns, key);
    proof {
        assert forall|x: Seq<u8>| set_of(ns@).contains(x) <==> set_of(start@).insert(kv).contains(x) by {
            lemma_push_contains(before, kv, x);
        }
        assert(set_of(ns@) =~= set_of(start@).insert(kv));
    }
    let deps = &m[j].1;
    let ghost ds = names(deps@);
    let mut t: usize = 0;
    while t < deps.len()
        invariant
            t <= deps@.len(),
            ds == names(deps@),
            distinct(names(ns@)),
            set_of(ns@) == set_of(start@).insert(kv).difference(ds.take(t as int).to_set()),
        decreases deps@.len() - t,
    {
        remove_name(&mut ns, deps[t].as_slice());
        proof {
            assert forall|x: Seq<u8>| ds.take(t + 1).to_set().contains(x) <==> (ds.take(t as int).to_set().contains(x) || x == ds[t as int]) by {
                assert(ds.take(t + 1) =~= ds.take(t as int).push(ds[t as int]));
                lemma_push_contains(ds.take(t as int), ds[t as int], x);
            }
            assert(set_of(ns@) =~= set_of(start@).insert(kv).difference(ds.take(t + 1).to_set()));
        }
        t = t + 1;
    }
    assert(ds.take(deps@.len() as int) =~= ds);
    assert(abstract_map(m@)[j as int] == (kv, ds.to_set()));
    proof {
        assert forall|x: Seq<u8>| #[trigger] set_of(ns@).contains(x) implies is_key(m@, x) by {
            if x == kv {
                assert(m@[j as int].0@ == x);
            } else {
                assert(set_of(start@).contains(x));
            }
        }
    }
    ns
}

/// Searches the combinations to test from `initial_start`, depth first, and
/// adds those found to `permutations`: the search of [`search_run`], run
/// until its stack is empty, with `remaining` steps allowed from the start.
/// The features of `viable_features` are taken in the order they are held.
pub fn find_permutations(
    initial_start: Vec<Vec<u8>>,
    remaining: usize,
    permutations: &mut Vec<Vec<Vec<u8>>>,
    viable_features: &FeatureMap,
    skip_feature_sets: &Vec<Vec<Vec<u8>>>,
)
    requires
        keys_distinct(viable_features@),
        combination_wf(viable_features@, initial_start@),
    ensures
        sets_of(final(permutations)@) == search_result(
            abstract_map(viable_features@),
            sets_of(skip_feature_sets@),
            seq![(set_of(initial_start@), remaining as nat)],
            sets_of(old(permutations)@),
        ),
        old(permutations)@.len() <= final(permutations)@.len(),
        forall|i: int| 0 <= i < old(permutations)@.len() ==> final(permutations)@[i] == old(permutations)@[i],
        forall|i: int|
            old(permutations)@.len() <= i < final(permutations)@.len() ==> combination_wf(
                viable_features@,
                (#[trigger] final(permutations)@[i])@,
            ),
{
    let ghost p0 = permutations@;
    let ghost m = viable_features@;
    let ghost am = abstract_map(m);
    let ghost skips = sets_of(skip_feature_sets@);
    let ghost init = seq![(set_of(initial_start@), remaining as nat)];
    let ghost found0 = sets_of(permutations@);
    let ghost w: nat = (m.len() + 1) as nat;
    let mut stack: Vec<(Vec<Vec<u8>>, usize)> = Vec::new();
    stack.push((initial_start, remaining));
    let ghost mut k: nat = 0;
    proof {
        assert(entries(stack@) =~= init);
    }
    while stack.len() > 0
        invariant
            m == viable_features@,
            am == abstract_map(m),
            skips == sets_of(skip_feature_sets@),
            keys_distinct(m),
            w == m.len() + 1,
            forall|i: int| 0 <= i < stack@.len() ==> combination_wf(m, (#[trigger] stack@[i]).0@),
            search_run(am, skips, init, found0, k) == (entries(stack@), sets_of(permutations@)),
            p0.len() <= permutations@.len(),
            forall|i: int| 0 <= i < p0.len() ==> permutations@[i] == p0[i],
            forall|i: int| p0.len() <= i < permutations@.len() ==> combination_wf(m, (#[trigger] permutations@[i])@),
        decreases weight(entries(stack@), w),
    {
        let ghost before = entries(stack@);
        let ghost old_stack = stack@;
        let top = stack.pop().unwrap();
        let (start, rem) = top;
        let ghost rest = entries(stack@);
        let ghost s = set_of(start@);
        proof {
            assert(old_stack =~= stack@.push((start, rem)));
            assert(combination_wf(m, start@)) by {
                assert(old_stack[old_stack.len() - 1] == (start, rem));
            }
            assert forall|i: int| 0 <= i < stack@.len() implies combination_wf(m, (#[trigger] stack@[i]).0@) by {
                assert(stack@[i] == old_stack[i]);
            }
            assert(before =~= rest.push((s, rem as nat)));
            lemma_run_succ(am, skips, init, found0, k);
            lemma_weight_push(rest, (s, rem as nat), w);
            lemma_power_positive(w, rem as nat);
            k = k + 1;
        }
        if any_subset(skip_feature_sets, &start) {
            continue;
        }
        if contains_set(permutations, &start) {
            continue;
        }
        let copy = copy_names(&start);
        let ghost found = sets_of(permutations@);
        let ghost pv = permutations@;
        permutations.push(copy);
        proof {
            lemma_sets_of_push(pv, copy);
            assert(set_of(copy@) == s);
            assert(combination_wf(m, copy@));
            assert forall|i: int| p0.len() <= i < permutations@.len() implies combination_wf(m, (#[trigger] permutations@[i])@) by {
                if i < pv.len() {
                    assert(permutations@[i] == pv[i]);
                }
            }
        }
        if rem == 0 {
            continue;
        }
        let flat = flat_names(&start, viable_features);
        let ghost now = sets_of(permutations@);
        let ghost p: nat = power(w, (rem - 1) as nat);
        let mut j: usize = 0;
        proof {
            assert(entries(stack@) =~= rest + children(am, skips, now, s, rem as nat, 0));
        }
        while j < viable_features.len()
            invariant
                j <= m.len(),
                m == viable_features@,
                am == abstract_map(m),
                skips == sets_of(skip_feature_sets@),
                now == sets_of(permutations@),
                keys_distinct(m),
                combination_wf(m, start@),
                s == set_of(start@),
                set_of(flat@) == flat_of(am, s),
                rem > 0,
                p == power(w, (rem - 1) as nat),
                forall|i: int| 0 <= i < stack@.len() ==> combination_wf(m, (#[trigger] stack@[i]).0@),
                p0.len() <= permutations@.len(),
                forall|i: int| 0 <= i < p0.len() ==> permutations@[i] == p0[i],
                forall|i: int| p0.len() <= i < permutations@.len() ==> combination_wf(m, (#[trigger] permutations@[i])@),
                entries(stack@) == rest + children(am, skips, now, s, rem as nat, j as nat),
                children(am, skips, now, s, rem as nat, j as nat).len() <= j,
                weight(entries(stack@), w) == weight(rest, w) + children(
                    am,
                    skips,
                    now,
                    s,
                    rem as nat,
                    j as nat,
                ).len() * p,
            decreases m.len() - j,
        {
            let ghost c = children(am, skips, now, s, rem as nat, j as nat);
            let ghost next = next_combination(am, s, j as int);
            if !contains_name(&flat, viable_features[j].0.as_slice()) {
                let ns = step_combination(&start, viable_features, j);
                if !contains_set(permutations, &ns) && !contains_set(skip_feature_sets, &ns) {
                    let ghost b = entries(stack@);
                    let ghost bs = stack@;
                    let ghost e = (set_of(ns@), (rem - 1) as nat);
                    stack.push((ns, rem - 1));
                    proof {
                        assert(entries(stack@) =~= b.push(e));
                        lemma_weight_push(b, e, w);
                        assert(c.len() * p + p == (c.len() + 1) * p) by (nonlinear_arith);
                        assert forall|i: int| 0 <= i < stack@.len() implies combination_wf(m, (#[trigger] stack@[i]).0@) by {
                            if i < bs.len() {
                                assert(stack@[i] == bs[i]);
                            }
                        }
                    }
                }
            }
            proof {
                assert(children(am, skips, now, s, rem as nat, (j + 1) as nat) == (if !flat_of(am, s).contains(am[j as int].0) && !now.contains(next) && !skips.contains(next) {
                    c.push((next, (rem - 1) as nat))
                } else {
                    c
                }));
            }
            j = j + 1;
        }
        proof {
            let cl = children(am, skips, now, s, rem as nat, m.len()).len();
            lemma_power_positive(w, (rem - 1) as nat);
            assert(power(w, rem as nat) == w * p);
            assert(cl * p < w * p) by (nonlinear_arith)
                requires
                    cl <= m.len(),
                    w == m.len() + 1,
                    p >= 1,
            ;
        }
    }
    proof {
        assert(entries(stack@) =~= Seq::<Entry>::empty());
        lemma_search_result(am, skips, init, found0, k);
    }
}

/// What a search comes to once its stack is empty.
pub open spec fn search_result(
    am: AbstractMap,
    skips: Set<Set<Seq<u8>>>,
    stack: Seq<Entry>,
    found: Set<Set<Seq<u8>>>,
) -> Set<Set<Seq<u8>>> {
    (choose|r: (nat, Set<Set<Seq<u8>>>)|
        search_run(am, skips, stack, found, r.0) == (Seq::<Entry>::empty(), r.1)).1
}

proof fn lemma_run_empty(
    m: AbstractMap,
    skips: Set<Set<Seq<u8>>>,
    found: Set<Set<Seq<u8>>>,
    n: nat,
)
    ensures
        search_run(m, skips, Seq::<Entry>::empty(), found, n) == (Seq::<Entry>::empty(), found),
    decreases n,
{
    if n > 0 {
        lemma_run_empty(m, skips, found, (n - 1) as nat);
    }
}

proof fn lemma_run_split(
    m: AbstractMap,
    skips: Set<Set<Seq<u8>>>,
    stack: Seq<Entry>,
    found: Set<Set<Seq<u8>>>,
    a: nat,
    b: nat,
)
    ensures
        search_run(m, skips, stack, found, a + b) == search_run(
            m,
            skips,
            search_run(m, skips, stack, found, a).0,
            search_run(m, skips, stack, found, a).1,
            b,
        ),
    decreases a,
{
    if a > 0 {
        let (s2, f2) = search_step(m, skips, stack, found);
        assert(search_run(m, skips, stack, found, a + b) == search_run(m, skips, s2, f2, (a - 1 + b) as nat));
        lemma_run_split(m, skips, s2, f2, (a - 1) as nat, b);
    }
}

/// A search that empties its stack comes to one result, whatever the
/// number of steps past that.
pub proof fn lemma_search_result(
    m: AbstractMap,
    skips: Set<Set<Seq<u8>>>,
    stack: Seq<Entry>,
    found: Set<Set<Seq<u8>>>,
    n: nat,
)
    requires
        search_run(m, skips, stack, found, n).0.len() == 0,
    ensures
        search_result(m, skips, stack, found) == search_run(m, skips, stack, found, n).1,
{
    let f = search_run(m, skips, stack, found, n).1;
    assert(search_run(m, skips, stack, found, n).0 =~= Seq::<Entry>::empty());
    let w = (n, f);
    assert(search_run(m, skips, stack, found, w.0) == (Seq::<Entry>::empty(), w.1));
    let r = choose|r: (nat, Set<Set<Seq<u8>>>)|
        search_run(m, skips, stack, found, r.0) == (Seq::<Entry>::empty(), r.1);
    if r.0 <= n {
        lemma_run_split(m, skips, stack, found, r.0, (n - r.0) as nat);
        lemma_run_empty(m, skips, r.1, (n - r.0) as nat);
    } else {
        lemma_run_split(m, skips, stack, found, n, (r.0 - n) as nat);
        lemma_run_empty(m, skips, f, (r.0 - n) as nat);
    }
}


proof fn lemma_weight_concat(a: Seq<Entry>, b: Seq<Entry>, w: nat)
    ensures
        weight(a + b, w) == weight(a, w) + weight(b, w),
    decreases b.len(),
{
    if b.len() > 0 {
        assert((a + b).drop_last() =~= a + b.drop_last());
        assert((a + b).last() == b.last());
        lemma_weight_concat(a, b.drop_last(), w);
    } else {
        assert(a + b =~= a);
    }
}

proof fn lemma_children_weight(
    m: AbstractMap,
    skips: Set<Set<Seq<u8>>>,
    found: Set<Set<Seq<u8>>>,
    s: Set<Seq<u8>>,
    rem: nat,
    j: nat,
    w: nat,
)
    requires
        rem > 0,
    ensures
        children(m, skips, found, s, rem, j).len() <= j,
        weight(children(m, skips, found, s, rem, j), w) == children(m, skips, found, s, rem, j).len()
            * power(w, (rem - 1) as nat),
    decreases j,
{
    if j > 0 {
        let c = children(m, skips, found, s, rem, (j - 1) as nat);
        lemma_children_weight(m, skips, found, s, rem, (j - 1) as nat, w);
        let next = next_combination(m, s, j - 1);
        if !flat_of(m, s).contains(m[j - 1].0) && !found.contains(next) && !skips.contains(next) {
            lemma_weight_push(c, (next, (rem - 1) as nat), w);
            let p = power(w, (rem - 1) as nat);
            assert(c.len() * p + p == (c.len() + 1) * p) by (nonlinear_arith);
        }
    }
}

/// Each step of the search on a stack that is not empty shrinks its weight.
proof fn lemma_step_shrinks(
    m: AbstractMap,
    skips: Set<Set<Seq<u8>>>,
    stack: Seq<Entry>,
    found: Set<Set<Seq<u8>>>,
)
    requires
        stack.len() > 0,
    ensures
        weight(search_step(m, skips, stack, found).0, (m.len() + 1) as nat) < weight(
            stack,
            (m.len() + 1) as nat,
        ),
{
    let w = (m.len() + 1) as nat;
    let (s, rem) = stack.last();
    let rest = stack.drop_last();
    lemma_power_positive(w, rem);
    if !(skipped(skips, s) || found.contains(s)) && rem > 0 {
        let now = found.insert(s);
        let c = children(m, skips, now, s, rem, m.len());
        lemma_weight_concat(rest, c, w);
        lemma_children_weight(m, skips, now, s, rem, m.len(), w);
        let p = power(w, (rem - 1) as nat);
        lemma_power_positive(w, (rem - 1) as nat);
        assert(power(w, rem) == w * p);
        assert(c.len() * p < w * p) by (nonlinear_arith)
            requires
                c.len() <= m.len(),
                w == m.len() + 1,
                p >= 1,
        ;
    }
}

/// The search always ends: some number of steps empties its stack.
pub proof fn lemma_search_ends(
    m: AbstractMap,
    skips: Set<Set<Seq<u8>>>,
    stack: Seq<Entry>,
    found: Set<Set<Seq<u8>>>,
)
    ensures
        exists|n: nat| (#[trigger] search_run(m, skips, stack, found, n)).0.len() == 0,
    decreases weight(stack, (m.len() + 1) as nat),
{
    if stack.len() == 0 {
        assert(search_run(m, skips, stack, found, 0).0.len() == 0);
    } else {
        let (s2, f2) = search_step(m, skips, stack, found);
        lemma_step_shrinks(m, skips, stack, found);
        lemma_search_ends(m, skips, s2, f2);
        let n = choose|n: nat| (#[trigger] search_run(m, skips, s2, f2, n)).0.len() == 0;
        assert(search_run(m, skips, stack, found, n + 1) == search_run(m, skips, s2, f2, n));
    }
}

/// A combination a step leads to has at most one feature more.
proof fn lemma_next_size(m: AbstractMap, s: Set<Seq<u8>>, i: int)
    requires
        s.finite(),
    ensures
        next_combination(m, s, i).finite(),
        next_combination(m, s, i).len() <= s.len() + 1,
{
    let t = s.insert(m[i].0);
    vstd::set::axiom_set_insert_finite(s, m[i].0);
    vstd::set::axiom_set_insert_len(s, m[i].0);
    vstd::set_lib::lemma_len_subset(t.difference(m[i].1), t);
}

proof fn lemma_children_size(
    m: AbstractMap,
    skips: Set<Set<Seq<u8>>>,
    found: Set<Set<Seq<u8>>>,
    s: Set<Seq<u8>>,
    rem: nat,
    j: nat,
)
    requires
        s.finite(),
        rem > 0,
        j <= m.len(),
    ensures
        forall|i: int|
            0 <= i < children(m, skips, found, s, rem, j).len() ==> (#[trigger] children(
                m,
                skips,
                found,
                s,
                rem,
                j,
            )[i]).0.finite() && children(m, skips, found, s, rem, j)[i].0.len() + children(
                m,
                skips,
                found,
                s,
                rem,
                j,
            )[i].1 <= s.len() + rem,
    decreases j,
{
    if j > 0 {
        lemma_children_size(m, skips, found, s, rem, (j - 1) as nat);
        lemma_next_size(m, s, j - 1);
        let c = children(m, skips, found, s, rem, (j - 1) as nat);
        let next = next_combination(m, s, j - 1);
        if !flat_of(m, s).contains(m[j - 1].0) && !found.contains(next) && !skips.contains(next) {
            let c2 = c.push((next, (rem - 1) as nat));
            assert forall|i: int| 0 <= i < c2.len() implies (#[trigger] c2[i]).0.finite() && c2[i].0.len()
                + c2[i].1 <= s.len() + rem by {
                if i < c.len() {
                    assert(c2[i] == c[i]);
                }
            }
        }
    }
}

proof fn lemma_search_size(
    m: AbstractMap,
    skips: Set<Set<Seq<u8>>>,
    stack: Seq<Entry>,
    found: Set<Set<Seq<u8>>>,
    found0: Set<Set<Seq<u8>>>,
    bound: nat,
    n: nat,
)
    requires
        forall|i: int| 0 <= i < stack.len() ==> (#[trigger] stack[i]).0.finite() && stack[i].0.len()
            + stack[i].1 <= bound,
        forall|c: Set<Seq<u8>>| #[trigger] found.contains(c) && !found0.contains(c) ==> c.len() <= bound,
    ensures
        forall|c: Set<Seq<u8>>|
            #[trigger] search_run(m, skips, stack, found, n).1.contains(c) && !found0.contains(c)
                ==> c.len() <= bound,
    decreases n,
{
    if n > 0 {
        let (s2, f2) = search_step(m, skips, stack, found);
        if stack.len() > 0 {
            let (s, rem) = stack.last();
            let rest = stack.drop_last();
            assert(stack[stack.len() - 1].0.len() + stack[stack.len() - 1].1 <= bound);
            assert forall|i: int| 0 <= i < rest.len() implies (#[trigger] rest[i]).0.finite() && rest[i].0.len()
                + rest[i].1 <= bound by {
                assert(rest[i] == stack[i]);
            }
            if !(skipped(skips, s) || found.contains(s)) && rem > 0 {
                let now = found.insert(s);
                lemma_children_size(m, skips, now, s, rem, m.len());
                let c = children(m, skips, now, s, rem, m.len());
                assert forall|i: int| 0 <= i < s2.len() implies (#[trigger] s2[i]).0.finite() && s2[i].0.len()
                    + s2[i].1 <= bound by {
                    if i < rest.len() {
                        assert(s2[i] == rest[i]);
                    } else {
                        assert(s2[i] == c[i - rest.len()]);
                    }
                }
            }
            assert forall|c: Set<Seq<u8>>| #[trigger] f2.contains(c) && !found0.contains(c) implies c.len() <= bound by {
                if c != s {
                    assert(found.contains(c));
                }
            }
        }
        lemma_search_size(m, skips, s2, f2, found0, bound, (n - 1) as nat);
        assert(search_run(m, skips, stack, found, n) == search_run(m, skips, s2, f2, (n - 1) as nat));
    }
}

/// The search adds at most as many features to the combination it starts
/// from as the steps it is allowed: every combination it finds has at most
/// that many features more.
pub proof fn law_search_size_bound(
    m: AbstractMap,
    skips: Set<Set<Seq<u8>>>,
    start: Set<Seq<u8>>,
    rem: nat,
    found: Set<Set<Seq<u8>>>,
    n: nat,
    c: Set<Seq<u8>>,
)
    requires
        start.finite(),
    ensures
        search_run(m, skips, seq![(start, rem)], found, n).1.contains(c) && !found.contains(c) ==> c.len()
            <= start.len() + rem,
{
    lemma_search_size(m, skips, seq![(start, rem)], found, found, start.len() + rem, n);
}
proof fn lemma_search_sound(
    m: AbstractMap,
    skips: Set<Set<Seq<u8>>>,
    stack: Seq<Entry>,
    found: Set<Set<Seq<u8>>>,
    found0: Set<Set<Seq<u8>>>,
    n: nat,
)
    requires
        found0.subset_of(found),
        forall|c: Set<Seq<u8>>| found.contains(c) && !found0.contains(c) ==> !skipped(skips, c),
    ensures
        found0.subset_of(search_run(m, skips, stack, found, n).1),
        forall|c: Set<Seq<u8>>|
            #[trigger] search_run(m, skips, stack, found, n).1.contains(c) && !found0.contains(c)
                ==> !skipped(skips, c),
    decreases n,
{
    if n > 0 {
        let (s2, f2) = search_step(m, skips, stack, found);
        lemma_search_sound(m, skips, s2, f2, found0, (n - 1) as nat);
    }
}

/// The search never loses a combination found before it, and every
/// combination it finds is one within which no set to skip lies.
pub proof fn law_search_avoids_skips(
    m: AbstractMap,
    skips: Set<Set<Seq<u8>>>,
    stack: Seq<Entry>,
    found: Set<Set<Seq<u8>>>,
    n: nat,
    c: Set<Seq<u8>>,
)
    ensures
        found.subset_of(search_run(m, skips, stack, found, n).1),
        search_run(m, skips, stack, found, n).1.contains(c) && !found.contains(c) ==> !skipped(skips, c),
{
    lemma_search_sound(m, skips, stack, found, found, n);
}

/// A search that takes at least one step finds the combination it starts
/// from, unless a set to skip lies within it.
pub proof fn law_search_finds_start(
    m: AbstractMap,
    skips: Set<Set<Seq<u8>>>,
    start: Set<Seq<u8>>,
    rem: nat,
    found: Set<Set<Seq<u8>>>,
    n: nat,
)
    requires
        n >= 1,
        !skipped(skips, start),
    ensures
        search_run(m, skips, seq![(start, rem)], found, n).1.contains(start),
{
    let init = seq![(start, rem)];
    let (s2, f2) = search_step(m, skips, init, found);
    assert(f2.contains(start));
    lemma_search_sound(m, skips, s2, f2, f2, (n - 1) as nat);
}

} // verus!
