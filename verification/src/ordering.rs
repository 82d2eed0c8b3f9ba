//! Lexicographic order of texts, and a stable sort of indices by text keys.

use vstd::prelude::*;

use crate::text::chars_of;

verus! {

/// `a` comes before `b` in lexicographic order of code points (the order of
/// `str`, whose UTF-8 bytes compare as their code points do).
pub open spec fn text_lt(a: Seq<char>, b: Seq<char>) -> bool
    decreases a.len(),
{
    if a.len() == 0 {
        b.len() > 0
    } else if b.len() == 0 {
        false
    } else if a[0] != b[0] {
        a[0] < b[0]
    } else {
        text_lt(a.drop_first(), b.drop_first())
    }
}

pub proof fn lemma_text_lt_irreflexive(a: Seq<char>)
    ensures
        !text_lt(a, a),
    decreases a.len(),
{
    if a.len() > 0 {
        lemma_text_lt_irreflexive(a.drop_first());
    }
}

pub proof fn lemma_text_lt_trichotomy(a: Seq<char>, b: Seq<char>)
    ensures
        text_lt(a, b) || a == b || text_lt(b, a),
        !(text_lt(a, b) && text_lt(b, a)),
    decreases a.len(),
{
    if a.len() == 0 {
        if b.len() == 0 {
            assert(a =~= b);
        }
    } else if b.len() == 0 {
    } else if a[0] != b[0] {
    } else {
        let ta = a.drop_first();
        let tb = b.drop_first();
        lemma_text_lt_trichotomy(ta, tb);
        assert(text_lt(a, b) == text_lt(ta, tb));
        assert(text_lt(b, a) == text_lt(tb, ta));
        if ta == tb {
            assert forall|k: int| 0 <= k < a.len() implies a[k] == b[k] by {
                if k > 0 {
                    assert(a[k] == ta[k - 1]);
                    assert(b[k] == tb[k - 1]);
                }
            }
            assert(a =~= b);
        }
    }
}

pub proof fn lemma_text_lt_transitive(a: Seq<char>, b: Seq<char>, c: Seq<char>)
    requires
        text_lt(a, b),
        text_lt(b, c),
    ensures
        text_lt(a, c),
    decreases a.len(),
{
    if a.len() > 0 && b.len() > 0 && c.len() > 0 && a[0] == b[0] && b[0] == c[0] {
        lemma_text_lt_transitive(a.drop_first(), b.drop_first(), c.drop_first());
    }
}

/// Whether `a` comes before `b`.
pub fn str_lt(a: &str, b: &str) -> (r: bool)
    ensures
        r == text_lt(a@, b@),
{
    let av = chars_of(a);
    let bv = chars_of(b);
    let mut i: usize = 0;
    assert(av@.skip(0) =~= av@);
    assert(bv@.skip(0) =~= bv@);
    loop
        invariant
            i <= av@.len(),
            i <= bv@.len(),
            av@ == a@,
            bv@ == b@,
            text_lt(av@, bv@) == text_lt(av@.skip(i as int), bv@.skip(i as int)),
        decreases av@.len() - i,
    {
        let ghost ra = av@.skip(i as int);
        let ghost rb = bv@.skip(i as int);
        if i == av.len() {
            return i < bv.len();
        }
        if i == bv.len() {
            return false;
        }
        assert(ra[0] == av@[i as int]);
        assert(rb[0] == bv@[i as int]);
        if av[i] != bv[i] {
            return av[i] < bv[i];
        }
        assert(ra.drop_first() =~= av@.skip(i + 1));
        assert(rb.drop_first() =~= bv@.skip(i + 1));
        i = i + 1;
    }
}

/// Index `x` comes before index `y` when sorting by `keys`: its key is
/// smaller, or the keys are equal and `x` came first.
pub open spec fn key_before(keys: Seq<Seq<char>>, x: int, y: int) -> bool {
    text_lt(keys[x], keys[y]) || (keys[x] == keys[y] && x < y)
}

/// `order` lists every index of `keys` exactly once, sorted by key, equal
/// keys in the order they were given (what a stable sort gives).
pub open spec fn is_stable_sort_order(keys: Seq<Seq<char>>, order: Seq<usize>) -> bool {
    &&& order.len() == keys.len()
    &&& forall|i: int| 0 <= i < order.len() ==> #[trigger] order[i] < keys.len()
    &&& forall|i: int, j: int|
        0 <= i < j < order.len() ==> key_before(keys, #[trigger] order[i] as int, #[trigger] order[j] as int)
}

pub proof fn lemma_key_before_distinct(keys: Seq<Seq<char>>, x: int, y: int)
    requires
        key_before(keys, x, y),
    ensures
        x != y,
        !key_before(keys, y, x),
{
    lemma_text_lt_trichotomy(keys[x], keys[y]);
    if x == y {
        lemma_text_lt_irreflexive(keys[x]);
    }
}

/// The indices of `keys`, in the order of a stable sort by key.
pub fn stable_sort_order(keys: &Vec<String>) -> (r: Vec<usize>)
    ensures
        is_stable_sort_order(keys@.map_values(|k: String| k@), r@),
        forall|x: usize| x < keys@.len() ==> #[trigger] r@.contains(x),
{
    let ghost ks = keys@.map_values(|k: String| k@);
    let mut order: Vec<usize> = Vec::new();
    let n = keys.len();
    for k in 0..n
        invariant
            n == keys@.len(),
            ks == keys@.map_values(|k: String| k@),
            order@.len() == k,
            forall|x: usize| x < k ==> #[trigger] order@.contains(x),
            forall|i: int| 0 <= i < order@.len() ==> #[trigger] order@[i] < k,
            forall|i: int, j: int|
                0 <= i < j < order@.len() ==> key_before(ks, #[trigger] order@[i] as int, #[trigger] order@[j] as int),
    {
        let mut p = order.len();
        while p > 0 && str_lt(keys[k].as_str(), keys[order[p - 1]].as_str())
            invariant
                p <= order@.len(),
                order@.len() == k,
                k < n,
                n == keys@.len(),
                ks == keys@.map_values(|k: String| k@),
                forall|i: int| 0 <= i < order@.len() ==> #[trigger] order@[i] < k,
                forall|q: int| p <= q < order@.len() ==> text_lt(ks[k as int], #[trigger] ks[order@[q] as int]),
            decreases p,
        {
            p = p - 1;
        }
        let ghost before = order@;
        proof {
            assert forall|q: int| 0 <= q < p implies key_before(ks, #[trigger] before[q] as int, k as int) by {
                let last = before[p - 1] as int;
                assert(!text_lt(ks[k as int], ks[last]));
                lemma_text_lt_trichotomy(ks[k as int], ks[last]);
                if q < p - 1 {
                    assert(key_before(ks, before[q] as int, last));
                    if text_lt(ks[before[q] as int], ks[last]) {
                        if text_lt(ks[last], ks[k as int]) {
                            lemma_text_lt_transitive(ks[before[q] as int], ks[last], ks[k as int]);
                        }
                    } else {
                        lemma_text_lt_trichotomy(ks[before[q] as int], ks[k as int]);
                    }
                }
            }
        }
        order.insert(p, k);
        proof {
            assert(order@ == before.insert(p as int, k));
            assert(order@[p as int] == k);
            assert forall|x: usize| x < k + 1 implies #[trigger] order@.contains(x) by {
                if x < k {
                    assert(before.contains(x));
                    let i = choose|i: int| 0 <= i < before.len() && before[i] == x;
                    if i < p {
                        assert(order@[i] == before[i]);
                    } else {
                        assert(order@[i + 1] == before[i]);
                    }
                } else {
                    assert(order@[p as int] == x);
                }
            }
            assert forall|i: int| 0 <= i < order@.len() implies #[trigger] order@[i] < k + 1 by {
                if i < p {
                    assert(order@[i] == before[i]);
                } else if i > p {
                    assert(order@[i] == before[i - 1]);
                }
            }
            assert forall|i: int, j: int|
                0 <= i < j < order@.len() implies key_before(ks, #[trigger] order@[i] as int, #[trigger] order@[j] as int) by {
                if j < p {
                    assert(order@[i] == before[i] && order@[j] == before[j]);
                } else if j == p {
                    assert(order@[i] == before[i]);
                } else if i == p {
                    assert(order@[j] == before[j - 1]);
                    assert(text_lt(ks[k as int], ks[before[j - 1] as int]));
                } else if i < p {
                    assert(order@[i] == before[i] && order@[j] == before[j - 1]);
                } else {
                    assert(order@[i] == before[i - 1] && order@[j] == before[j - 1]);
                }
            }
        }
    }
    order
}


/// No index occurs twice in a stable sort order.
pub proof fn lemma_stable_sort_order_distinct(keys: Seq<Seq<char>>, order: Seq<usize>)
    requires
        is_stable_sort_order(keys, order),
    ensures
        forall|i: int, j: int| 0 <= i < j < order.len() ==> order[i] != order[j],
{
    assert forall|i: int, j: int| 0 <= i < j < order.len() implies order[i] != order[j] by {
        lemma_key_before_distinct(keys, order[i] as int, order[j] as int);
    }
}

} // verus!
