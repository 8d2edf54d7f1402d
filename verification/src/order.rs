//! The order of strings (`str`'s `Ord`: code point by code point) and a
//! stable sort by string keys.
use vstd::prelude::*;

verus! {

/// `a <= b` in the order of `str`: lexicographic on characters, a prefix
/// coming first.
pub open spec fn lex_le(a: Seq<char>, b: Seq<char>) -> bool
    decreases a.len(),
{
    if a.len() == 0 {
        true
    } else if b.len() == 0 {
        false
    } else if a[0] != b[0] {
        a[0] < b[0]
    } else {
        lex_le(a.drop_first(), b.drop_first())
    }
}

/// Any two strings are ordered one way or the other.
pub proof fn lemma_lex_le_total(a: Seq<char>, b: Seq<char>)
    ensures
        lex_le(a, b) || lex_le(b, a),
    decreases a.len(),
{
    if a.len() > 0 && b.len() > 0 && a[0] == b[0] {
        lemma_lex_le_total(a.drop_first(), b.drop_first());
    }
}

/// Two strings ordered both ways are equal.
pub proof fn lemma_lex_le_antisymmetric(a: Seq<char>, b: Seq<char>)
    requires
        lex_le(a, b),
        lex_le(b, a),
    ensures
        a == b,
    decreases a.len(),
{
    if a.len() > 0 && b.len() > 0 {
        if a[0] == b[0] {
            lemma_lex_le_antisymmetric(a.drop_first(), b.drop_first());
            assert(a == seq![a[0]] + a.drop_first());
            assert(b == seq![b[0]] + b.drop_first());
        }
    } else {
        assert(a =~= b);
    }
}

/// The order is transitive.
pub proof fn lemma_lex_le_transitive(a: Seq<char>, b: Seq<char>, c: Seq<char>)
    requires
        lex_le(a, b),
        lex_le(b, c),
    ensures
        lex_le(a, c),
    decreases a.len(),
{
    if a.len() > 0 && b.len() > 0 && c.len() > 0 {
        if a[0] == b[0] && b[0] == c[0] {
            lemma_lex_le_transitive(a.drop_first(), b.drop_first(), c.drop_first());
        }
    }
}

proof fn lemma_lex_le_common_prefix(a: Seq<char>, b: Seq<char>, i: int)
    requires
        0 <= i <= a.len(),
        i <= b.len(),
        a.take(i) == b.take(i),
    ensures
        lex_le(a, b) == lex_le(a.skip(i), b.skip(i)),
    decreases i,
{
    if i > 0 {
        assert(a[0] == a.take(i)[0]);
        assert(b[0] == b.take(i)[0]);
        assert(a.drop_first().take(i - 1) =~= a.take(i).drop_first());
        assert(b.drop_first().take(i - 1) =~= b.take(i).drop_first());
        lemma_lex_le_common_prefix(a.drop_first(), b.drop_first(), i - 1);
        assert(a.drop_first().skip(i - 1) =~= a.skip(i));
        assert(b.drop_first().skip(i - 1) =~= b.skip(i));
    } else {
        assert(a.skip(0) == a);
        assert(b.skip(0) == b);
    }
}

/// Compares two character sequences in the order of `str`.
pub fn lex_le_exec(a: &Vec<char>, b: &Vec<char>) -> (r: bool)
    ensures
        r == lex_le(a@, b@),
{
    let mut i: usize = 0;
    while i < a.len() && i < b.len() && a[i] == b[i]
        invariant
            i <= a@.len(),
            i <= b@.len(),
            a@.take(i as int) == b@.take(i as int),
        decreases a@.len() - i,
    {
        assert(a@.take(i + 1) == a@.take(i as int).push(a@[i as int]));
        assert(b@.take(i + 1) == b@.take(i as int).push(b@[i as int]));
        i = i + 1;
    }
    proof {
        lemma_lex_le_common_prefix(a@, b@, i as int);
    }
    let r = if i == a.len() {
        true
    } else if i == b.len() {
        false
    } else {
        a[i] < b[i]
    };
    proof {
        let sa = a@.skip(i as int);
        let sb = b@.skip(i as int);
        if sa.len() > 0 && sb.len() > 0 {
            assert(sa[0] == a@[i as int]);
            assert(sb[0] == b@[i as int]);
        }
    }
    r
}

/// `p` lists each index of `keys` once, in an order that sorts the keys and
/// keeps equal keys in the order they came in: the order that a stable sort
/// by these keys gives.
pub open spec fn is_stable_sort_order(keys: Seq<Seq<char>>, p: Seq<usize>) -> bool {
    &&& p.len() == keys.len()
    &&& forall|i: int| 0 <= i < p.len() ==> (#[trigger] p[i]) < keys.len()
    &&& forall|i: int, j: int| 0 <= i < j < p.len() ==> p[i] != p[j]
    &&& forall|i: int, j: int|
        #![trigger p[i], p[j]]
        0 <= i < j < p.len() ==> lex_le(keys[p[i] as int], keys[p[j] as int])
    &&& forall|i: int, j: int|
        #![trigger p[i], p[j]]
        0 <= i < j < p.len() && keys[p[i] as int] == keys[p[j] as int] ==> p[i] < p[j]
}

/// The order in which a stable sort by `keys` places the items: the result
/// `p` says that the item at `i` after sorting is the one at `p[i]` before.
pub fn stable_sort_order(keys: &Vec<Vec<char>>) -> (p: Vec<usize>)
    ensures
        is_stable_sort_order(keys@.map_values(|k: Vec<char>| k@), p@),
{
    let ghost ks = keys@.map_values(|k: Vec<char>| k@);
    let mut p: Vec<usize> = Vec::new();
    let n = keys.len();
    let mut i: usize = 0;
    while i < n
        invariant
            i <= n == keys@.len() == ks.len(),
            ks == keys@.map_values(|k: Vec<char>| k@),
            p@.len() == i,
            forall|a: int| 0 <= a < p@.len() ==> (#[trigger] p@[a]) < i,
            forall|a: int, b: int| 0 <= a < b < p@.len() ==> p@[a] != p@[b],
            forall|a: int, b: int|
                #![trigger p@[a], p@[b]]
                0 <= a < b < p@.len() ==> lex_le(ks[p@[a] as int], ks[p@[b] as int]),
            forall|a: int, b: int|
                #![trigger p@[a], p@[b]]
                0 <= a < b < p@.len() && ks[p@[a] as int] == ks[p@[b] as int] ==> p@[a] < p@[b],
        decreases n - i,
    {
        let mut j: usize = p.len();
        while j > 0 && !lex_le_exec(&keys[p[j - 1]], &keys[i])
            invariant
                j <= p@.len() == i < n == keys@.len() == ks.len(),
                ks == keys@.map_values(|k: Vec<char>| k@),
                forall|a: int| 0 <= a < p@.len() ==> (#[trigger] p@[a]) < i,
                forall|m: int| j <= m < p@.len() ==> !lex_le(ks[(#[trigger] p@[m]) as int], ks[i as int]),
            decreases j,
        {
            j = j - 1;
        }
        let ghost old_p = p@;
        proof {
            // everything before j is at most keys[i]
            assert forall|m: int| 0 <= m < j implies lex_le(ks[(#[trigger] old_p[m]) as int], ks[i as int]) by {
                if m < j - 1 {
                    assert(lex_le(ks[old_p[m] as int], ks[old_p[j - 1] as int]));
                    lemma_lex_le_transitive(ks[old_p[m] as int], ks[old_p[j - 1] as int], ks[i as int]);
                }
            }
        }
        p.insert(j, i);
        proof {
            assert forall|a: int| 0 <= a < p@.len() implies (#[trigger] p@[a]) < i + 1 by {
                if a < j {
                    assert(p@[a] == old_p[a]);
                } else if a > j {
                    assert(p@[a] == old_p[a - 1]);
                }
            }
            assert forall|a: int, b: int| 0 <= a < b < p@.len() implies p@[a] != p@[b] by {
                if a < j {
                    assert(p@[a] == old_p[a]);
                } else if a > j {
                    assert(p@[a] == old_p[a - 1]);
                }
                if b < j {
                    assert(p@[b] == old_p[b]);
                } else if b > j {
                    assert(p@[b] == old_p[b - 1]);
                }
            }
            assert forall|a: int, b: int|
                #![trigger p@[a], p@[b]]
                0 <= a < b < p@.len() implies lex_le(ks[p@[a] as int], ks[p@[b] as int]) && (ks[p@[a] as int] == ks[p@[b] as int] ==> p@[a] < p@[b]) by {
                if b < j {
                    assert(p@[a] == old_p[a]);
                    assert(p@[b] == old_p[b]);
                } else if b == j {
                    assert(p@[a] == old_p[a]);
                    assert(lex_le(ks[old_p[a] as int], ks[i as int]));
                } else if a < j {
                    assert(p@[a] == old_p[a]);
                    assert(p@[b] == old_p[b - 1]);
                } else if a == j {
                    assert(p@[b] == old_p[b - 1]);
                    let kb = ks[old_p[b - 1] as int];
                    assert(!lex_le(kb, ks[i as int]));
                    lemma_lex_le_total(kb, ks[i as int]);
                    if kb == ks[i as int] {
                        assert(lex_le(kb, kb)) by {
                            lemma_lex_le_total(kb, kb);
                        }
                    }
                } else {
                    assert(p@[a] == old_p[a - 1]);
                    assert(p@[b] == old_p[b - 1]);
                }
            }
        }
        i = i + 1;
    }
    p
}

/// Index `a` comes before index `b` in a stable sort by `keys`.
pub open spec fn sorts_before(keys: Seq<Seq<char>>, a: usize, b: usize) -> bool {
    &&& a != b
    &&& lex_le(keys[a as int], keys[b as int])
    &&& keys[a as int] == keys[b as int] ==> a < b
}

proof fn lemma_sorts_before_asymmetric(keys: Seq<Seq<char>>, a: usize, b: usize)
    ensures
        !(sorts_before(keys, a, b) && sorts_before(keys, b, a)),
{
    if sorts_before(keys, a, b) && sorts_before(keys, b, a) {
        lemma_lex_le_antisymmetric(keys[a as int], keys[b as int]);
    }
}

proof fn lemma_order_covers_all(p: Seq<usize>, n: nat)
    requires
        p.len() == n,
        forall|i: int| 0 <= i < p.len() ==> (#[trigger] p[i]) < n,
        forall|i: int, j: int| 0 <= i < j < p.len() ==> p[i] != p[j],
    ensures
        forall|v: usize| v < n ==> p.contains(v),
{
    let ps = p.map_values(|x: usize| x as int);
    assert(ps.no_duplicates()) by {
        assert forall|i: int, j: int| 0 <= i < ps.len() && 0 <= j < ps.len() && i != j implies ps[i]
            != ps[j] by {
            if i < j {
                assert(p[i] != p[j]);
            } else {
                assert(p[j] != p[i]);
            }
        }
    }
    ps.unique_seq_to_set();
    vstd::set_lib::lemma_int_range(0, n as int);
    let range = vstd::set_lib::set_int_range(0, n as int);
    assert(ps.to_set().subset_of(range)) by {
        assert forall|x: int| ps.to_set().contains(x) implies range.contains(x) by {
            let k = choose|k: int| 0 <= k < ps.len() && ps[k] == x;
            assert(p[k] < n);
        }
    }
    vstd::seq_lib::seq_to_set_is_finite(ps);
    vstd::set_lib::lemma_subset_equality(ps.to_set(), range);
    assert forall|v: usize| v < n implies p.contains(v) by {
        assert(range.contains(v as int));
        assert(ps.to_set().contains(v as int));
        let k = choose|k: int| 0 <= k < ps.len() && ps[k] == v as int;
        assert(p[k] == v);
    }
}

proof fn lemma_increasing_lists_equal(keys: Seq<Seq<char>>, p: Seq<usize>, q: Seq<usize>)
    requires
        p.len() == q.len(),
        forall|i: int, j: int|
            #![trigger p[i], p[j]]
            0 <= i < j < p.len() ==> sorts_before(keys, p[i], p[j]),
        forall|i: int, j: int|
            #![trigger q[i], q[j]]
            0 <= i < j < q.len() ==> sorts_before(keys, q[i], q[j]),
        forall|x: usize| p.contains(x) <==> q.contains(x),
    ensures
        p == q,
    decreases p.len(),
{
    if p.len() > 0 {
        assert(p.contains(p[0]));
        let k = choose|k: int| 0 <= k < q.len() && q[k] == p[0];
        assert(q.contains(q[0]));
        let m = choose|m: int| 0 <= m < p.len() && p[m] == q[0];
        if k > 0 {
            assert(sorts_before(keys, q[0], q[k]));
            if m > 0 {
                assert(sorts_before(keys, p[0], p[m]));
                lemma_sorts_before_asymmetric(keys, p[0], q[0]);
            }
        }
        assert(p[0] == q[0]);
        let p1 = p.drop_first();
        let q1 = q.drop_first();
        assert forall|x: usize| p1.contains(x) <==> q1.contains(x) by {
            if p1.contains(x) {
                let i = choose|i: int| 0 <= i < p1.len() && p1[i] == x;
                assert(p[i + 1] == x);
                assert(sorts_before(keys, p[0], p[i + 1]));
                assert(q.contains(x));
                let j = choose|j: int| 0 <= j < q.len() && q[j] == x;
                assert(j != 0);
                assert(q1[j - 1] == x);
            }
            if q1.contains(x) {
                let i = choose|i: int| 0 <= i < q1.len() && q1[i] == x;
                assert(q[i + 1] == x);
                assert(sorts_before(keys, q[0], q[i + 1]));
                assert(p.contains(x));
                let j = choose|j: int| 0 <= j < p.len() && p[j] == x;
                assert(j != 0);
                assert(p1[j - 1] == x);
            }
        }
        assert forall|i: int, j: int|
            #![trigger p1[i], p1[j]]
            0 <= i < j < p1.len() implies sorts_before(keys, p1[i], p1[j]) by {
            assert(p1[i] == p[i + 1] && p1[j] == p[j + 1]);
        }
        assert forall|i: int, j: int|
            #![trigger q1[i], q1[j]]
            0 <= i < j < q1.len() implies sorts_before(keys, q1[i], q1[j]) by {
            assert(q1[i] == q[i + 1] && q1[j] == q[j + 1]);
        }
        lemma_increasing_lists_equal(keys, p1, q1);
        assert(p =~= seq![p[0]] + p1);
        assert(q =~= seq![q[0]] + q1);
    } else {
        assert(p =~= q);
    }
}

/// There is only one stable sort order for given keys: a list that
/// follows it is fully determined by the items it sorts.
pub proof fn lemma_stable_sort_order_unique(keys: Seq<Seq<char>>, p: Seq<usize>, q: Seq<usize>)
    requires
        is_stable_sort_order(keys, p),
        is_stable_sort_order(keys, q),
    ensures
        p == q,
{
    lemma_order_covers_all(p, keys.len());
    lemma_order_covers_all(q, keys.len());
    assert forall|x: usize| p.contains(x) <==> q.contains(x) by {
        if p.contains(x) {
            let i = choose|i: int| 0 <= i < p.len() && p[i] == x;
            assert(p[i] < keys.len());
        }
        if q.contains(x) {
            let i = choose|i: int| 0 <= i < q.len() && q[i] == x;
            assert(q[i] < keys.len());
        }
    }
    assert forall|i: int, j: int|
        #![trigger p[i], p[j]]
        0 <= i < j < p.len() implies sorts_before(keys, p[i], p[j]) by {
        assert(p[i] != p[j]);
        assert(lex_le(keys[p[i] as int], keys[p[j] as int]));
    }
    assert forall|i: int, j: int|
        #![trigger q[i], q[j]]
        0 <= i < j < q.len() implies sorts_before(keys, q[i], q[j]) by {
        assert(q[i] != q[j]);
        assert(lex_le(keys[q[i] as int], keys[q[j] as int]));
    }
    lemma_increasing_lists_equal(keys, p, q);
}

} // verus!
