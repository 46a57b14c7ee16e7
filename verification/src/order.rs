//! Ordering of names: lexicographic order on characters, and a stable sort
//! that lists positions by key.
use vstd::prelude::*;

verus! {

/// `a` comes strictly before `b` in lexicographic order of code points
/// (the order of `str` comparison, since UTF-8 keeps code point order).
pub open spec fn seq_lt(a: Seq<char>, b: Seq<char>) -> bool
    decreases a.len(),
{
    if a.len() == 0 {
        b.len() > 0
    } else if b.len() == 0 {
        false
    } else if a[0] < b[0] {
        true
    } else if a[0] == b[0] {
        seq_lt(a.drop_first(), b.drop_first())
    } else {
        false
    }
}

pub proof fn lemma_seq_lt_irreflexive(a: Seq<char>)
    ensures
        !seq_lt(a, a),
    decreases a.len(),
{
    if a.len() > 0 {
        lemma_seq_lt_irreflexive(a.drop_first());
    }
}

pub proof fn lemma_seq_lt_transitive(a: Seq<char>, b: Seq<char>, c: Seq<char>)
    requires
        seq_lt(a, b),
        seq_lt(b, c),
    ensures
        seq_lt(a, c),
    decreases a.len(),
{
    if a.len() > 0 && b.len() > 0 && c.len() > 0 && a[0] == b[0] && b[0] == c[0] {
        lemma_seq_lt_transitive(a.drop_first(), b.drop_first(), c.drop_first());
    }
}

pub proof fn lemma_seq_lt_total(a: Seq<char>, b: Seq<char>)
    ensures
        a == b || seq_lt(a, b) || seq_lt(b, a),
    decreases a.len(),
{
    if a.len() > 0 && b.len() > 0 {
        if a[0] == b[0] {
            lemma_seq_lt_total(a.drop_first(), b.drop_first());
            if a.drop_first() == b.drop_first() {
                assert(a =~= b) by {
                    assert(a.len() == a.drop_first().len() + 1);
                    assert(b.len() == b.drop_first().len() + 1);
                    assert forall|k: int| 0 <= k < a.len() implies a[k] == b[k] by {
                        if k > 0 {
                            assert(a[k] == a.drop_first()[k - 1]);
                            assert(b[k] == b.drop_first()[k - 1]);
                        }
                    }
                }
            }
        }
    } else if a.len() == 0 && b.len() == 0 {
        assert(a =~= b);
    }
}

/// Whether `a` comes strictly before `b`.
pub fn seq_less(a: &Vec<char>, b: &Vec<char>) -> (res: bool)
    ensures
        res == seq_lt(a@, b@),
{
    let mut k: usize = 0;
    proof {
        assert(a@.skip(0) =~= a@);
        assert(b@.skip(0) =~= b@);
    }
    while k < a.len() && k < b.len() && a[k] == b[k]
        invariant
            k <= a.len(),
            k <= b.len(),
            seq_lt(a@, b@) == seq_lt(a@.skip(k as int), b@.skip(k as int)),
        decreases a.len() - k,
    {
        assert(a@.skip(k as int).drop_first() =~= a@.skip(k + 1));
        assert(b@.skip(k as int).drop_first() =~= b@.skip(k + 1));
        k = k + 1;
    }
    if k < a.len() && k < b.len() {
        assert(a@.skip(k as int)[0] == a@[k as int]);
        assert(b@.skip(k as int)[0] == b@[k as int]);
        a[k] < b[k]
    } else {
        k < b.len()
    }
}

/// Position `i` with key `ki` comes before position `j` with key `kj`:
/// smaller key first, equal keys in the order they are given.
pub open spec fn before(ki: Seq<char>, i: int, kj: Seq<char>, j: int) -> bool {
    seq_lt(ki, kj) || (ki == kj && i < j)
}

/// `order` lists every position of `keys` once, by key, equal keys keeping
/// their order of input: what a stable sort by key yields.
pub open spec fn is_stable_order(keys: Seq<Seq<char>>, order: Seq<usize>) -> bool {
    &&& order.len() == keys.len()
    &&& forall|k: int| 0 <= k < order.len() ==> #[trigger] order[k] < keys.len()
    &&& forall|k: int, l: int|
        0 <= k < l < order.len() ==> before(keys[order[k] as int], order[k] as int, keys[order[l] as int], order[l] as int)
}

/// The positions of `keys` in stable sorted order.
pub fn stable_order(keys: &Vec<Vec<char>>) -> (order: Vec<usize>)
    ensures
        is_stable_order(keys@.map_values(|k: Vec<char>| k@), order@),
{
    let ghost kv = keys@.map_values(|k: Vec<char>| k@);
    let mut order: Vec<usize> = Vec::new();
    let mut i: usize = 0;
    while i < keys.len()
        invariant
            i <= keys.len(),
            kv == keys@.map_values(|k: Vec<char>| k@),
            order.len() == i,
            forall|k: int| 0 <= k < order.len() ==> #[trigger] order@[k] < i,
            forall|k: int, l: int|
                0 <= k < l < order.len() ==> before(kv[order@[k] as int], order@[k] as int, kv[order@[l] as int], order@[l] as int),
        decreases keys.len() - i,
    {
        // Insert i after every position whose key is not greater.
        let mut p: usize = order.len();
        while p > 0 && seq_less(&keys[i], &keys[order[p - 1]])
            invariant
                p <= order.len(),
                order.len() == i,
                i < keys.len(),
                kv == keys@.map_values(|k: Vec<char>| k@),
                forall|k: int| 0 <= k < order.len() ==> #[trigger] order@[k] < i,
                forall|k: int| p <= k < order.len() ==> seq_lt(kv[i as int], #[trigger] kv[order@[k] as int]),
            decreases p,
        {
            p = p - 1;
        }
        let ghost old_order = order@;
        proof {
            if p > 0 {
                let q = old_order[p - 1] as int;
                assert(!seq_lt(kv[i as int], kv[q]));
                lemma_seq_lt_total(kv[i as int], kv[q]);
            }
        }
        order.insert(p, i);
        proof {
            assert forall|k: int| 0 <= k < order.len() implies #[trigger] order@[k] < i + 1 by {
                if k < p {
                    assert(order@[k] == old_order[k]);
                } else if k > p {
                    assert(order@[k] == old_order[k - 1]);
                }
            }
            assert forall|k: int, l: int| 0 <= k < l < order.len() implies before(
                kv[order@[k] as int],
                order@[k] as int,
                kv[order@[l] as int],
                order@[l] as int,
            ) by {
                let ok = order@[k] as int;
                let ol = order@[l] as int;
                if l < p {
                    assert(order@[k] == old_order[k]);
                    assert(order@[l] == old_order[l]);
                } else if k > p {
                    assert(order@[k] == old_order[k - 1]);
                    assert(order@[l] == old_order[l - 1]);
                } else if k == p {
                    // the new position i comes before every later key
                    assert(order@[l] == old_order[l - 1]);
                    assert(seq_lt(kv[i as int], kv[ol]));
                } else if l == p {
                    // every earlier key is not greater, and its position is smaller
                    assert(order@[k] == old_order[k]);
                    let q = old_order[p - 1] as int;
                    assert(!seq_lt(kv[i as int], kv[q]));
                    lemma_seq_lt_total(kv[i as int], kv[q]);
                    if k < p - 1 {
                        assert(before(kv[ok], ok, kv[q], q));
                        if seq_lt(kv[ok], kv[q]) {
                            if seq_lt(kv[q], kv[i as int]) {
                                lemma_seq_lt_transitive(kv[ok], kv[q], kv[i as int]);
                            }
                        }
                    }
                } else {
                    // k < p < l
                    assert(order@[k] == old_order[k]);
                    assert(order@[l] == old_order[l - 1]);
                    assert(before(kv[ok], ok, kv[ol], ol)) by {
                        assert(old_order[k] == order@[k] && old_order[l - 1] == order@[l]);
                    }
                }
            }
        }
        i = i + 1;
    }
    order
}

/// Position `i` appears in `order`.
pub open spec fn lists(order: Seq<usize>, i: int) -> bool {
    exists|k: int| 0 <= k < order.len() && order[k] == i
}

/// Law: a stable order lists every position exactly once, so a listing
/// neither loses nor repeats an entry.
pub proof fn law_stable_order_is_permutation(keys: Seq<Seq<char>>, order: Seq<usize>)
    requires
        is_stable_order(keys, order),
    ensures
        forall|k: int, l: int| 0 <= k < l < order.len() ==> order[k] != order[l],
        forall|i: int| 0 <= i < keys.len() ==> #[trigger] lists(order, i),
{
    assert forall|k: int, l: int| 0 <= k < l < order.len() implies order[k] != order[l] by {
        assert(before(keys[order[k] as int], order[k] as int, keys[order[l] as int], order[l] as int));
        if order[k] == order[l] {
            lemma_seq_lt_irreflexive(keys[order[k] as int]);
        }
    }
    let s = order.map_values(|x: usize| x as int);
    assert(s.no_duplicates()) by {
        assert forall|k: int, l: int| 0 <= k < s.len() && 0 <= l < s.len() && k != l implies s[k] != s[l] by {
            if k < l {
                assert(order[k] != order[l]);
            } else {
                assert(order[l] != order[k]);
            }
        }
    }
    s.unique_seq_to_set();
    let n = keys.len() as int;
    vstd::set_lib::lemma_int_range(0, n);
    let range = vstd::set_lib::set_int_range(0, n);
    assert(s.to_set().subset_of(range)) by {
        assert forall|x: int| s.to_set().contains(x) implies range.contains(x) by {
            assert(s.contains(x));
            let k = choose|k: int| 0 <= k < s.len() && s[k] == x;
            assert(order[k] < keys.len());
        }
    }
    vstd::set_lib::lemma_len_subset(s.to_set(), range);
    vstd::set_lib::lemma_subset_equality(s.to_set(), range);
    assert forall|i: int| 0 <= i < keys.len() implies #[trigger] lists(order, i) by {
        assert(range.contains(i));
        assert(s.to_set().contains(i));
        assert(s.contains(i));
        let k = choose|k: int| 0 <= k < s.len() && s[k] == i;
        assert(order[k] == i);
    }
}

proof fn lemma_empty_keys_prefix(keys: Seq<Seq<char>>, order: Seq<usize>, n: int, k: int)
    requires
        is_stable_order(keys, order),
        0 <= k <= n <= keys.len(),
        forall|i: int| 0 <= i < n ==> (#[trigger] keys[i]).len() == 0,
    ensures
        forall|j: int| 0 <= j < k ==> order[j] == j,
    decreases k,
{
    if k > 0 {
        lemma_empty_keys_prefix(keys, order, n, k - 1);
        law_stable_order_is_permutation(keys, order);
        let i = k - 1;
        assert(lists(order, i));
        let m = choose|m: int| 0 <= m < order.len() && order[m] == i;
        if m < i {
            assert(order[m] == m);
        } else if m > i {
            let p = order[i] as int;
            assert(p != i);
            if p < i {
                assert(order[p] == p);
                assert(order[p] != order[i]);
            } else {
                assert(before(keys[order[i] as int], order[i] as int, keys[order[m] as int], order[m] as int));
                assert(keys[i].len() == 0);
            }
        }
    }
}

/// Law: positions whose keys are empty, when they come first in the input,
/// come first in a stable order too, in the order given: the empty key is
/// the smallest, and a stable order keeps ties in input order.
pub proof fn law_empty_keys_lead(keys: Seq<Seq<char>>, order: Seq<usize>, n: int)
    requires
        is_stable_order(keys, order),
        0 <= n <= keys.len(),
        forall|i: int| 0 <= i < n ==> (#[trigger] keys[i]).len() == 0,
    ensures
        forall|j: int| 0 <= j < n ==> order[j] == j,
{
    lemma_empty_keys_prefix(keys, order, n, n);
}

/// Law: `seq_lt` is std's order on strings by code point: `a` comes
/// before `b` exactly when, after a common prefix of some length `k`, either
/// `a` ends while `b` goes on, or the character of `a` at `k` is smaller
/// than that of `b`.
pub proof fn law_seq_lt_is_code_point_order(a: Seq<char>, b: Seq<char>)
    ensures
        seq_lt(a, b) <==> exists|k: int|
            0 <= k <= a.len() && k <= b.len() && #[trigger] a.take(k) == b.take(k) && ((k == a.len() && k < b.len())
                || (k < a.len() && k < b.len() && a[k] < b[k])),
    decreases a.len(),
{
    if a.len() == 0 {
        if b.len() > 0 {
            assert(a.take(0) =~= b.take(0));
        }
    } else if b.len() == 0 {
    } else if a[0] < b[0] {
        assert(a.take(0) =~= b.take(0));
    } else if a[0] == b[0] {
        let a1 = a.drop_first();
        let b1 = b.drop_first();
        law_seq_lt_is_code_point_order(a1, b1);
        if seq_lt(a, b) {
            let k = choose|k: int|
                0 <= k <= a1.len() && k <= b1.len() && #[trigger] a1.take(k) == b1.take(k) && ((k == a1.len() && k
                    < b1.len()) || (k < a1.len() && k < b1.len() && a1[k] < b1[k]));
            assert(a.take(k + 1) =~= seq![a[0]] + a1.take(k));
            assert(b.take(k + 1) =~= seq![b[0]] + b1.take(k));
            assert(a.take(k + 1) == b.take(k + 1));
            if k < a1.len() && k < b1.len() {
                assert(a[k + 1] == a1[k] && b[k + 1] == b1[k]);
            }
        } else {
            assert forall|k: int|
                0 <= k <= a.len() && k <= b.len() && #[trigger] a.take(k) == b.take(k) implies !((k == a.len() && k
                    < b.len()) || (k < a.len() && k < b.len() && a[k] < b[k])) by {
                if k > 0 {
                    assert(a1.take(k - 1) =~= a.take(k).drop_first());
                    assert(b1.take(k - 1) =~= b.take(k).drop_first());
                    if k < a.len() && k < b.len() {
                        assert(a[k] == a1[k - 1] && b[k] == b1[k - 1]);
                    }
                }
            }
        }
    } else {
        assert forall|k: int|
            0 <= k <= a.len() && k <= b.len() && #[trigger] a.take(k) == b.take(k) implies !((k == a.len() && k
                < b.len()) || (k < a.len() && k < b.len() && a[k] < b[k])) by {
            if k > 0 {
                assert(a.take(k)[0] == a[0] && b.take(k)[0] == b[0]);
            }
        }
    }
}

} // verus!
