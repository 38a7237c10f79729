use vstd::prelude::*;

verus! {

/// The map an association list denotes; on duplicate keys the later binding
/// wins.
pub open spec fn assoc_map<V>(s: Seq<(i32, V)>) -> Map<int, V>
    decreases s.len(),
{
    if s.len() == 0 {
        Map::empty()
    } else {
        assoc_map(s.drop_last()).insert(s.last().0 as int, s.last().1)
    }
}

/// No key appears twice.
pub open spec fn unique_keys<V>(s: Seq<(i32, V)>) -> bool {
    forall|i: int, j: int| 0 <= i < j < s.len() ==> (#[trigger] s[i]).0 != (#[trigger] s[j]).0
}

/// A key is in the map exactly when some binding carries it.
pub proof fn lemma_assoc_map_dom<V>(s: Seq<(i32, V)>, k: int)
    ensures
        assoc_map(s).dom().contains(k) <==> exists|j: int|
            0 <= j < s.len() && (#[trigger] s[j]).0 == k,
    decreases s.len(),
{
    if s.len() > 0 {
        lemma_assoc_map_dom(s.drop_last(), k);
        if s.last().0 == k {
            assert(s[s.len() - 1].0 == k);
        } else {
            if exists|j: int| 0 <= j < s.len() && (#[trigger] s[j]).0 == k {
                let j = choose|j: int| 0 <= j < s.len() && (#[trigger] s[j]).0 == k;
                if j < s.len() - 1 {
                    assert(s.drop_last()[j].0 == k);
                }
            }
        }
    }
}

/// In a list without duplicate keys, the binding at any index gives the
/// map's value for its key.
pub proof fn lemma_assoc_map_index<V>(s: Seq<(i32, V)>, i: int)
    requires
        unique_keys(s),
        0 <= i < s.len(),
    ensures
        assoc_map(s).dom().contains(s[i].0 as int),
        assoc_map(s)[s[i].0 as int] == s[i].1,
    decreases s.len(),
{
    if i == s.len() - 1 {
    } else {
        assert(unique_keys(s.drop_last()));
        assert(s.drop_last()[i] == s[i]);
        lemma_assoc_map_index(s.drop_last(), i);
        assert(s[s.len() - 1].0 != s[i].0);
    }
}

/// Looks a key up in an association list without duplicate keys.
pub fn assoc_get<V: Copy>(s: &Vec<(i32, V)>, key: i32) -> (r: Option<V>)
    requires
        unique_keys(s@),
    ensures
        match r {
            Some(v) => assoc_map(s@).dom().contains(key as int) && assoc_map(s@)[key as int] == v,
            None => !assoc_map(s@).dom().contains(key as int),
        },
{
    let n: usize = s.len();
    let mut i: usize = 0;
    while i < n
        invariant
            unique_keys(s@),
            n == s@.len(),
            0 <= i <= n,
            forall|j: int| 0 <= j < i ==> (#[trigger] s@[j]).0 != key,
        decreases n - i,
    {
        if s[i].0 == key {
            proof {
                lemma_assoc_map_index(s@, i as int);
            }
            return Some(s[i].1);
        }
        i = i + 1;
    }
    proof {
        lemma_assoc_map_dom(s@, key as int);
    }
    None
}

/// The bindings of `a` whose keys also stand in `mb`, each paired with the
/// value `mb` holds for its key, in the order of `a`.
pub open spec fn spec_common<V1, V2>(a: Seq<(i32, V1)>, mb: Map<int, V2>) -> Seq<(i32, (V1, V2))>
    decreases a.len(),
{
    if a.len() == 0 {
        Seq::empty()
    } else {
        let rest = spec_common(a.drop_last(), mb);
        let last = a.last();
        if mb.dom().contains(last.0 as int) {
            rest.push((last.0, (last.1, mb[last.0 as int])))
        } else {
            rest
        }
    }
}

/// Every element of a filtered sequence is an element of the original.
pub proof fn lemma_filter_elems<A>(s: Seq<A>, pred: spec_fn(A) -> bool)
    ensures
        forall|j: int| 0 <= j < s.filter(pred).len() ==> s.contains(#[trigger] s.filter(pred)[j]),
    decreases s.len(),
{
    reveal(Seq::filter);
    if s.len() > 0 {
        let dl = s.drop_last();
        lemma_filter_elems(dl, pred);
        assert forall|j: int| 0 <= j < s.filter(pred).len() implies s.contains(
            #[trigger] s.filter(pred)[j],
        ) by {
            let f = s.filter(pred);
            if pred(s.last()) && j == f.len() - 1 {
                assert(f[j] == s.last());
                assert(s[s.len() - 1] == s.last());
            } else {
                assert(f[j] == dl.filter(pred)[j]);
                assert(dl.contains(dl.filter(pred)[j]));
                let k = choose|k: int| 0 <= k < dl.len() && dl[k] == dl.filter(pred)[j];
                assert(s[k] == dl[k]);
            }
        }
    }
}

/// Filtering keeps keys unique.
pub proof fn lemma_filter_unique_keys<V>(s: Seq<(i32, V)>, pred: spec_fn((i32, V)) -> bool)
    requires
        unique_keys(s),
    ensures
        unique_keys(s.filter(pred)),
    decreases s.len(),
{
    reveal(Seq::filter);
    if s.len() > 0 {
        let dl = s.drop_last();
        assert(unique_keys(dl)) by {
            assert(forall|i: int| 0 <= i < dl.len() ==> dl[i] == s[i]);
        }
        lemma_filter_unique_keys(dl, pred);
        lemma_filter_elems(dl, pred);
        let f = s.filter(pred);
        assert forall|a: int, b: int| 0 <= a < b < f.len() implies (#[trigger] f[a]).0 != (
        #[trigger] f[b]).0 by {
            if pred(s.last()) && b == f.len() - 1 {
                assert(f[a] == dl.filter(pred)[a]);
                assert(dl.contains(dl.filter(pred)[a]));
                let k = choose|k: int| 0 <= k < dl.len() && dl[k] == dl.filter(pred)[a];
                assert(s[k] == dl[k]);
                assert(s[s.len() - 1] == s.last());
                assert(f[b] == s.last());
            } else {
                assert(f[a] == dl.filter(pred)[a]);
                assert(f[b] == dl.filter(pred)[b]);
            }
        }
    }
}

/// Every element of `spec_common(a, mb)` pairs a binding of `a` with the
/// value `mb` holds for its key.
pub proof fn lemma_spec_common_elems<V1, V2>(a: Seq<(i32, V1)>, mb: Map<int, V2>)
    ensures
        forall|j: int|
            0 <= j < spec_common(a, mb).len() ==> {
                let p = #[trigger] spec_common(a, mb)[j];
                a.contains((p.0, p.1.0)) && mb.dom().contains(p.0 as int) && mb[p.0 as int]
                    == p.1.1
            },
    decreases a.len(),
{
    broadcast use vstd::seq_lib::lemma_seq_contains_after_push;

    if a.len() > 0 {
        let dl = a.drop_last();
        lemma_spec_common_elems(dl, mb);
        assert(dl.push(a.last()) =~= a);
        assert forall|j: int| 0 <= j < spec_common(a, mb).len() implies {
            let p = #[trigger] spec_common(a, mb)[j];
            a.contains((p.0, p.1.0)) && mb.dom().contains(p.0 as int) && mb[p.0 as int] == p.1.1
        } by {
            let c = spec_common(a, mb);
            let r = spec_common(dl, mb);
            if mb.dom().contains(a.last().0 as int) && j == c.len() - 1 {
                assert(c[j] == (a.last().0, (a.last().1, mb[a.last().0 as int])));
                assert(a.contains(a.last()));
            } else {
                assert(c[j] == r[j]);
                let p = r[j];
                assert(dl.contains((p.0, p.1.0)));
            }
        }
    }
}

/// Every key of `a` that `mb` also holds appears in `spec_common(a, mb)`.
pub proof fn lemma_spec_common_complete<V1, V2>(a: Seq<(i32, V1)>, mb: Map<int, V2>, k: int)
    requires
        0 <= k < a.len(),
        mb.dom().contains(a[k].0 as int),
    ensures
        exists|j: int|
            0 <= j < spec_common(a, mb).len() && (#[trigger] spec_common(a, mb)[j]).0 == a[k].0,
    decreases a.len(),
{
    let dl = a.drop_last();
    let c = spec_common(a, mb);
    if k == a.len() - 1 {
        assert(c[c.len() - 1].0 == a.last().0);
    } else {
        assert(dl[k] == a[k]);
        lemma_spec_common_complete(dl, mb, k);
        let j = choose|j: int|
            0 <= j < spec_common(dl, mb).len() && (#[trigger] spec_common(dl, mb)[j]).0 == dl[k].0;
        assert(c[j] == spec_common(dl, mb)[j]);
    }
}

/// `spec_common` keeps keys unique when its input's keys are unique.
pub proof fn lemma_spec_common_unique<V1, V2>(a: Seq<(i32, V1)>, mb: Map<int, V2>)
    requires
        unique_keys(a),
    ensures
        unique_keys(spec_common(a, mb)),
    decreases a.len(),
{
    if a.len() > 0 {
        let dl = a.drop_last();
        assert(unique_keys(dl)) by {
            assert(forall|i: int| 0 <= i < dl.len() ==> dl[i] == a[i]);
        }
        lemma_spec_common_unique(dl, mb);
        lemma_spec_common_elems(dl, mb);
        let c = spec_common(a, mb);
        let r = spec_common(dl, mb);
        assert forall|x: int, y: int| 0 <= x < y < c.len() implies (#[trigger] c[x]).0 != (
        #[trigger] c[y]).0 by {
            if mb.dom().contains(a.last().0 as int) && y == c.len() - 1 {
                assert(c[x] == r[x]);
                let p = r[x];
                assert(dl.contains((p.0, p.1.0)));
                let k = choose|k: int| 0 <= k < dl.len() && dl[k] == (p.0, p.1.0);
                assert(a[k] == dl[k]);
                assert(a[a.len() - 1] == a.last());
                assert(c[y] == (a.last().0, (a.last().1, mb[a.last().0 as int])));
            } else {
                assert(c[x] == r[x]);
                assert(c[y] == r[y]);
            }
        }
    }
}

/// Three-way difference of two association lists without duplicate keys:
/// the bindings only in `a`, the keys in both (with both values), and the
/// bindings only in `b`, each in the order of the list it came from.
pub fn difference<V1: Copy, V2: Copy>(a: &Vec<(i32, V1)>, b: &Vec<(i32, V2)>) -> (r: (
    Vec<(i32, V1)>,
    Vec<(i32, (V1, V2))>,
    Vec<(i32, V2)>,
))
    requires
        unique_keys(a@),
        unique_keys(b@),
    ensures
        r.0@ == a@.filter(|p: (i32, V1)| !assoc_map(b@).dom().contains(p.0 as int)),
        r.1@ == spec_common(a@, assoc_map(b@)),
        r.2@ == b@.filter(|p: (i32, V2)| !assoc_map(a@).dom().contains(p.0 as int)),
{
    let ghost mb = assoc_map(b@);
    let ghost ma = assoc_map(a@);
    let ghost only_a_pred = |p: (i32, V1)| !assoc_map(b@).dom().contains(p.0 as int);
    let ghost only_b_pred = |p: (i32, V2)| !assoc_map(a@).dom().contains(p.0 as int);
    let mut only_a: Vec<(i32, V1)> = Vec::new();
    let mut common: Vec<(i32, (V1, V2))> = Vec::new();
    let mut only_b: Vec<(i32, V2)> = Vec::new();
    let n: usize = a.len();
    let mut i: usize = 0;
    proof {
        reveal(Seq::filter);
        assert(a@.take(0) =~= Seq::<(i32, V1)>::empty());
        assert(only_a@ =~= a@.take(0).filter(only_a_pred));
        assert(common@ =~= spec_common(a@.take(0), mb));
    }
    while i < n
        invariant
            unique_keys(a@),
            unique_keys(b@),
            mb == assoc_map(b@),
            only_a_pred == (|p: (i32, V1)| !assoc_map(b@).dom().contains(p.0 as int)),
            n == a@.len(),
            0 <= i <= n,
            only_a@ == a@.take(i as int).filter(only_a_pred),
            common@ == spec_common(a@.take(i as int), mb),
        decreases n - i,
    {
        proof {
            reveal(Seq::filter);
            assert(a@.take(i as int + 1).drop_last() =~= a@.take(i as int));
            assert(a@.take(i as int + 1).last() == a@[i as int]);
        }
        let entry: (i32, V1) = a[i];
        match assoc_get(b, entry.0) {
            Some(v2) => {
                common.push((entry.0, (entry.1, v2)));
            },
            None => {
                only_a.push(entry);
            },
        }
        i = i + 1;
    }
    let m: usize = b.len();
    let mut j: usize = 0;
    proof {
        reveal(Seq::filter);
        assert(a@.take(n as int) =~= a@);
        assert(b@.take(0) =~= Seq::<(i32, V2)>::empty());
        assert(only_b@ =~= b@.take(0).filter(only_b_pred));
    }
    while j < m
        invariant
            unique_keys(a@),
            unique_keys(b@),
            ma == assoc_map(a@),
            only_b_pred == (|p: (i32, V2)| !assoc_map(a@).dom().contains(p.0 as int)),
            m == b@.len(),
            0 <= j <= m,
            only_b@ == b@.take(j as int).filter(only_b_pred),
        decreases m - j,
    {
        proof {
            reveal(Seq::filter);
            assert(b@.take(j as int + 1).drop_last() =~= b@.take(j as int));
            assert(b@.take(j as int + 1).last() == b@[j as int]);
        }
        let entry: (i32, V2) = b[j];
        match assoc_get(a, entry.0) {
            Some(_) => {},
            None => {
                only_b.push(entry);
            },
        }
        j = j + 1;
    }
    proof {
        assert(b@.take(m as int) =~= b@);
    }
    (only_a, common, only_b)
}

} // verus!
