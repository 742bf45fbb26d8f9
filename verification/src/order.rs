use vstd::prelude::*;

use crate::text::{
    lemma_seq_lt_irreflexive, lemma_seq_lt_total, lemma_seq_lt_transitive, seq_lt, chars_eq,
    chars_lt,
};

verus! {

/// Index `a` is listed before index `b` when its name comes first, or when the
/// names are equal and `a` is the smaller index: the order that a stable sort
/// by name gives to items that started out in index order.
pub open spec fn key_before(names: Seq<Seq<char>>, a: usize, b: usize) -> bool {
    seq_lt(names[a as int], names[b as int]) || (names[a as int] == names[b as int] && a < b)
}

/// `s` is strictly increasing under [`key_before`].
pub open spec fn sorted_by_name(names: Seq<Seq<char>>, s: Seq<usize>) -> bool {
    forall|j: int, k: int| 0 <= j < k < s.len() ==> key_before(names, #[trigger] s[j], #[trigger] s[k])
}

/// Every element of `s` indexes `names`.
pub open spec fn indexes_into(names: Seq<Seq<char>>, s: Seq<usize>) -> bool {
    forall|j: int| 0 <= j < s.len() ==> (#[trigger] s[j]) < names.len()
}

pub proof fn lemma_key_before_irreflexive(names: Seq<Seq<char>>, a: usize)
    ensures
        !key_before(names, a, a),
{
    lemma_seq_lt_irreflexive(names[a as int]);
}

pub proof fn lemma_key_before_transitive(names: Seq<Seq<char>>, a: usize, b: usize, c: usize)
    requires
        key_before(names, a, b),
        key_before(names, b, c),
    ensures
        key_before(names, a, c),
{
    let (x, y, z) = (names[a as int], names[b as int], names[c as int]);
    if seq_lt(x, y) && seq_lt(y, z) {
        lemma_seq_lt_transitive(x, y, z);
    }
}

pub proof fn lemma_key_before_asymmetric(names: Seq<Seq<char>>, a: usize, b: usize)
    requires
        key_before(names, a, b),
    ensures
        !key_before(names, b, a),
{
    if key_before(names, b, a) {
        lemma_key_before_transitive(names, a, b, a);
        lemma_key_before_irreflexive(names, a);
    }
}

pub proof fn lemma_key_before_total(names: Seq<Seq<char>>, a: usize, b: usize)
    requires
        a != b,
    ensures
        key_before(names, a, b) || key_before(names, b, a),
{
    if names[a as int] != names[b as int] {
        lemma_seq_lt_total(names[a as int], names[b as int]);
    }
}

/// A sorted sequence holds no index twice.
pub proof fn lemma_sorted_distinct(names: Seq<Seq<char>>, s: Seq<usize>, j: int, k: int)
    requires
        sorted_by_name(names, s),
        0 <= j < s.len(),
        0 <= k < s.len(),
        j != k,
    ensures
        s[j] != s[k],
{
    if j < k {
        if s[j] == s[k] {
            lemma_key_before_irreflexive(names, s[j]);
        }
    } else {
        if s[j] == s[k] {
            lemma_key_before_irreflexive(names, s[k]);
        }
    }
}

/// Two sorted sequences that hold the same indices are equal: the sorted
/// arrangement of a set of indices is unique.
pub proof fn lemma_sorted_unique(names: Seq<Seq<char>>, s1: Seq<usize>, s2: Seq<usize>)
    requires
        sorted_by_name(names, s1),
        sorted_by_name(names, s2),
        forall|x: usize| s1.contains(x) <==> s2.contains(x),
    ensures
        s1 == s2,
    decreases s1.len(),
{
    if s1.len() == 0 {
        if s2.len() > 0 {
            assert(s2.contains(s2[0]));
        }
        assert(s1 =~= s2);
    } else {
        assert(s1.contains(s1[0]));
        assert(s2.len() > 0);
        assert(s2.contains(s2[0]));
        if s1[0] != s2[0] {
            let k = choose|k: int| 0 <= k < s2.len() && s2[k] == s1[0];
            let j = choose|j: int| 0 <= j < s1.len() && s1[j] == s2[0];
            assert(k != 0 && j != 0);
            assert(key_before(names, s2[0], s2[k]));
            assert(key_before(names, s1[0], s1[j]));
            lemma_key_before_asymmetric(names, s1[0], s2[0]);
        }
        let t1 = s1.drop_first();
        let t2 = s2.drop_first();
        assert forall|x: usize| t1.contains(x) <==> t2.contains(x) by {
            if t1.contains(x) {
                let j = choose|j: int| 0 <= j < t1.len() && t1[j] == x;
                lemma_sorted_distinct(names, s1, 0, j + 1);
                assert(s1.contains(x));
                let k = choose|k: int| 0 <= k < s2.len() && s2[k] == x;
                assert(k != 0);
                assert(t2[k - 1] == x);
            }
            if t2.contains(x) {
                let j = choose|j: int| 0 <= j < t2.len() && t2[j] == x;
                lemma_sorted_distinct(names, s2, 0, j + 1);
                assert(s2.contains(x));
                let k = choose|k: int| 0 <= k < s1.len() && s1[k] == x;
                assert(k != 0);
                assert(t1[k - 1] == x);
            }
        }
        lemma_sorted_unique(names, t1, t2);
        assert(s1 =~= seq![s1[0]] + t1);
        assert(s2 =~= seq![s2[0]] + t2);
    }
}

/// The names as character sequences.
pub open spec fn names_view(names: Seq<Vec<char>>) -> Seq<Seq<char>> {
    names.map_values(|v: Vec<char>| v@)
}

/// Whether index `a` goes before index `b`.
pub fn key_before_exec(names: &Vec<Vec<char>>, a: usize, b: usize) -> (res: bool)
    requires
        a < names.len(),
        b < names.len(),
    ensures
        res == key_before(names_view(names@), a, b),
{
    if chars_lt(&names[a], &names[b]) {
        true
    } else {
        a < b && chars_eq(&names[a], &names[b])
    }
}

/// Inserts `x` into the sorted sequence `s` at its place.
pub fn insert_by_name(names: &Vec<Vec<char>>, s: &mut Vec<usize>, x: usize)
    requires
        sorted_by_name(names_view(names@), old(s)@),
        indexes_into(names_view(names@), old(s)@),
        x < names.len(),
        !old(s)@.contains(x),
    ensures
        sorted_by_name(names_view(names@), final(s)@),
        indexes_into(names_view(names@), final(s)@),
        final(s)@.len() == old(s)@.len() + 1,
        forall|y: usize| final(s)@.contains(y) <==> (old(s)@.contains(y) || y == x),
{
    let ghost nv = names_view(names@);
    let ghost s0 = s@;
    let mut p: usize = 0;
    while p < s.len()
        invariant
            s@ == s0,
            nv == names_view(names@),
            indexes_into(nv, s0),
            x < names.len(),
            !s0.contains(x),
            p <= s0.len(),
            forall|j: int| 0 <= j < p ==> key_before(nv, #[trigger] s0[j], x),
        ensures
            p <= s0.len(),
            forall|j: int| 0 <= j < p ==> key_before(nv, #[trigger] s0[j], x),
            p < s0.len() ==> key_before(nv, x, s0[p as int]),
        decreases s0.len() - p,
    {
        if key_before_exec(names, x, s[p]) {
            break;
        }
        proof {
            assert(s0[p as int] != x) by {
                assert(s0.contains(s0[p as int]));
            }
            lemma_key_before_total(nv, x, s0[p as int]);
        }
        p = p + 1;
    }
    proof {
        lemma_insert_sorted(nv, s0, x, p as int);
    }
    s.insert(p, x);
}

/// Inserting `x` at a point where everything before it comes before `x` and
/// `x` comes before what follows keeps the sequence sorted.
pub proof fn lemma_insert_sorted(names: Seq<Seq<char>>, s0: Seq<usize>, x: usize, p: int)
    requires
        sorted_by_name(names, s0),
        indexes_into(names, s0),
        x < names.len(),
        0 <= p <= s0.len(),
        forall|j: int| 0 <= j < p ==> key_before(names, #[trigger] s0[j], x),
        p < s0.len() ==> key_before(names, x, s0[p]),
    ensures
        sorted_by_name(names, s0.insert(p, x)),
        indexes_into(names, s0.insert(p, x)),
        s0.insert(p, x).len() == s0.len() + 1,
        forall|y: usize| s0.insert(p, x).contains(y) <==> (s0.contains(y) || y == x),
{
    let s1 = s0.insert(p, x);
    assert forall|j: int, k: int| 0 <= j < k < s1.len() implies key_before(
        names,
        #[trigger] s1[j],
        #[trigger] s1[k],
    ) by {
        if k < p {
            assert(s1[j] == s0[j] && s1[k] == s0[k]);
        } else if k == p {
            assert(s1[j] == s0[j]);
        } else if j < p {
            assert(s1[j] == s0[j] && s1[k] == s0[k - 1]);
        } else if j == p {
            assert(s1[k] == s0[k - 1]);
            if k - 1 > p {
                assert(key_before(names, s0[p], s0[k - 1]));
                lemma_key_before_transitive(names, x, s0[p], s0[k - 1]);
            }
        } else {
            assert(s1[j] == s0[j - 1] && s1[k] == s0[k - 1]);
        }
    }
    assert forall|y: usize| s1.contains(y) <==> (s0.contains(y) || y == x) by {
        if s1.contains(y) {
            let k = choose|k: int| 0 <= k < s1.len() && s1[k] == y;
            if k < p {
                assert(s0[k] == y);
            } else if k > p {
                assert(s0[k - 1] == y);
            }
        }
        if s0.contains(y) {
            let k = choose|k: int| 0 <= k < s0.len() && s0[k] == y;
            if k < p {
                assert(s1[k] == y);
            } else {
                assert(s1[k + 1] == y);
            }
        }
        if y == x {
            assert(s1[p] == y);
        }
    }
    assert forall|j: int| 0 <= j < s1.len() implies (#[trigger] s1[j]) < names.len() by {
        if j < p {
            assert(s1[j] == s0[j]);
        } else if j > p {
            assert(s1[j] == s0[j - 1]);
        }
    }
}

/// Where `x` goes in the sorted sequence `s`.
pub proof fn lemma_insert_point(names: Seq<Seq<char>>, s: Seq<usize>, x: usize) -> (p: int)
    requires
        sorted_by_name(names, s),
        !s.contains(x),
    ensures
        0 <= p <= s.len(),
        forall|j: int| 0 <= j < p ==> key_before(names, #[trigger] s[j], x),
        p < s.len() ==> key_before(names, x, s[p]),
    decreases s.len(),
{
    if s.len() == 0 {
        0
    } else {
        let n = s.len() - 1;
        let l = s[n];
        assert(s.contains(l));
        if key_before(names, l, x) {
            assert forall|j: int| 0 <= j < s.len() implies key_before(names, #[trigger] s[j], x) by {
                if j < n {
                    lemma_key_before_transitive(names, s[j], l, x);
                }
            }
            s.len() as int
        } else {
            lemma_key_before_total(names, x, l);
            let t = s.drop_last();
            assert forall|y: usize| t.contains(y) implies s.contains(y) by {
                let k = choose|k: int| 0 <= k < t.len() && t[k] == y;
                assert(s[k] == y);
            }
            let q = lemma_insert_point(names, t, x);
            assert forall|j: int| 0 <= j < q implies key_before(names, #[trigger] s[j], x) by {
                assert(s[j] == t[j]);
            }
            if q < n {
                assert(s[q] == t[q]);
            }
            q
        }
    }
}

/// Every choice of indices has a sorted arrangement.
pub proof fn lemma_arrangement_exists(names: Seq<Seq<char>>, n: nat, sel: spec_fn(usize) -> bool)
    requires
        n <= names.len(),
        n <= usize::MAX,
    ensures
        is_arrangement(names, n, sel, arrangement(names, n, sel)),
        indexes_into(names, arrangement(names, n, sel)),
        (forall|i: usize| i < n ==> #[trigger] sel(i)) ==> arrangement(names, n, sel).len() == n,
    decreases n,
{
    if n == 0 {
        let s: Seq<usize> = seq![];
        assert(is_arrangement(names, n, sel, s));
        lemma_arrangement_is(names, n, sel, s);
    } else {
        let m = (n - 1) as nat;
        lemma_arrangement_exists(names, m, sel);
        let t = arrangement(names, m, sel);
        let x = m as usize;
        if sel(x) {
            assert(!t.contains(x));
            let p = lemma_insert_point(names, t, x);
            lemma_insert_sorted(names, t, x, p);
            let s = t.insert(p, x);
            assert forall|y: usize| s.contains(y) <==> (y < n && sel(y)) by {
                if y == x {
                } else {
                    assert(t.contains(y) <==> (y < m && sel(y)));
                }
            }
            assert(is_arrangement(names, n, sel, s));
            lemma_arrangement_is(names, n, sel, s);
        } else {
            assert forall|y: usize| t.contains(y) <==> (y < n && sel(y)) by {
                assert(t.contains(y) <==> (y < m && sel(y)));
            }
            assert(is_arrangement(names, n, sel, t));
            lemma_arrangement_is(names, n, sel, t);
        }
    }
}

/// `s` lists, sorted by name, exactly the indices below `n` that `sel` picks.
pub open spec fn is_arrangement(
    names: Seq<Seq<char>>,
    n: nat,
    sel: spec_fn(usize) -> bool,
    s: Seq<usize>,
) -> bool {
    &&& sorted_by_name(names, s)
    &&& forall|x: usize| s.contains(x) <==> (x < n && sel(x))
}

/// The indices below `n` that `sel` picks, sorted by name (ties by index).
pub open spec fn arrangement(names: Seq<Seq<char>>, n: nat, sel: spec_fn(usize) -> bool) -> Seq<
    usize,
> {
    choose|s: Seq<usize>| is_arrangement(names, n, sel, s)
}

/// A sequence that is an arrangement is the arrangement.
pub proof fn lemma_arrangement_is(
    names: Seq<Seq<char>>,
    n: nat,
    sel: spec_fn(usize) -> bool,
    s: Seq<usize>,
)
    requires
        is_arrangement(names, n, sel, s),
    ensures
        arrangement(names, n, sel) == s,
{
    let t = arrangement(names, n, sel);
    assert(is_arrangement(names, n, sel, t));
    lemma_sorted_unique(names, s, t);
}

} // verus!
