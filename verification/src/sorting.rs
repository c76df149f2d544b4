//! Stable sorting by precomputed keys, as `slice::sort_by` orders items.
//!
//! The sorts return the order as a list of indices into the key list; the
//! callers then arrange their items in that order.

use vstd::prelude::*;

verus! {

/// Lexicographic order on character sequences (how `str` / `String` compare).
pub open spec fn lex_lt(a: Seq<char>, b: Seq<char>) -> bool
    decreases a.len(),
{
    if a.len() == 0 {
        b.len() > 0
    } else if b.len() == 0 {
        false
    } else if a[0] != b[0] {
        a[0] < b[0]
    } else {
        lex_lt(a.drop_first(), b.drop_first())
    }
}

pub proof fn lemma_lex_irreflexive(a: Seq<char>)
    ensures
        !lex_lt(a, a),
    decreases a.len(),
{
    if a.len() > 0 {
        lemma_lex_irreflexive(a.drop_first());
    }
}

pub proof fn lemma_lex_total(a: Seq<char>, b: Seq<char>)
    ensures
        a == b || lex_lt(a, b) || lex_lt(b, a),
    decreases a.len(),
{
    if a.len() > 0 && b.len() > 0 && a[0] == b[0] {
        lemma_lex_total(a.drop_first(), b.drop_first());
        if a.drop_first() == b.drop_first() {
            assert(a =~= seq![a[0]] + a.drop_first());
            assert(b =~= seq![b[0]] + b.drop_first());
        }
    } else if a.len() == 0 && b.len() == 0 {
        assert(a =~= b);
    }
}

pub proof fn lemma_lex_asymmetric(a: Seq<char>, b: Seq<char>)
    ensures
        !(lex_lt(a, b) && lex_lt(b, a)),
    decreases a.len(),
{
    if a.len() > 0 && b.len() > 0 && a[0] == b[0] {
        lemma_lex_asymmetric(a.drop_first(), b.drop_first());
    }
}

pub proof fn lemma_lex_transitive(a: Seq<char>, b: Seq<char>, c: Seq<char>)
    requires
        lex_lt(a, b),
        lex_lt(b, c),
    ensures
        lex_lt(a, c),
    decreases a.len(),
{
    if a.len() > 0 && b.len() > 0 && c.len() > 0 {
        if a[0] == b[0] && b[0] == c[0] {
            lemma_lex_transitive(a.drop_first(), b.drop_first(), c.drop_first());
        }
    }
}

/// `i` comes before `j` in a stable ascending sort by `keys`.
pub open spec fn before_asc(keys: Seq<Seq<char>>, i: int, j: int) -> bool {
    lex_lt(keys[i], keys[j]) || (keys[i] == keys[j] && i < j)
}

/// `i` comes before `j` in a stable descending sort by `keys`.
pub open spec fn before_desc(keys: Seq<u64>, i: int, j: int) -> bool {
    keys[i] > keys[j] || (keys[i] == keys[j] && i < j)
}

/// `order` lists every index below `n` exactly once.
pub open spec fn is_permutation(order: Seq<usize>, n: nat) -> bool {
    &&& order.len() == n
    &&& forall|i: int| 0 <= i < order.len() ==> order[i] < n
    &&& forall|x: usize| x < n ==> order.contains(x)
    &&& forall|i: int, j: int| 0 <= i < j < order.len() ==> order[i] != order[j]
}

/// `order` is the stable ascending order of `keys`.
pub open spec fn sorted_asc(keys: Seq<Seq<char>>, order: Seq<usize>) -> bool {
    &&& is_permutation(order, keys.len())
    &&& forall|i: int, j: int|
        0 <= i < j < order.len() ==> before_asc(keys, order[i] as int, order[j] as int)
}

/// `order` is the stable descending order of `keys`.
pub open spec fn sorted_desc(keys: Seq<u64>, order: Seq<usize>) -> bool {
    &&& is_permutation(order, keys.len())
    &&& forall|i: int, j: int|
        0 <= i < j < order.len() ==> before_desc(keys, order[i] as int, order[j] as int)
}

pub fn lex_less(a: &Vec<char>, b: &Vec<char>) -> (r: bool)
    ensures
        r == lex_lt(a@, b@),
{
    let mut i: usize = 0;
    assert(a@.subrange(0, a.len() as int) =~= a@);
    assert(b@.subrange(0, b.len() as int) =~= b@);
    while i < a.len() && i < b.len() && a[i] == b[i]
        invariant
            i <= a.len(),
            i <= b.len(),
            lex_lt(a@, b@) == lex_lt(
                a@.subrange(i as int, a.len() as int),
                b@.subrange(i as int, b.len() as int),
            ),
        decreases a.len() - i,
    {
        proof {
            let sa = a@.subrange(i as int, a.len() as int);
            let sb = b@.subrange(i as int, b.len() as int);
            assert(sa.drop_first() =~= a@.subrange(i + 1, a.len() as int));
            assert(sb.drop_first() =~= b@.subrange(i + 1, b.len() as int));
        }
        i = i + 1;
    }
    let ghost sa = a@.subrange(i as int, a.len() as int);
    let ghost sb = b@.subrange(i as int, b.len() as int);
    if i == a.len() {
        i < b.len()
    } else if i == b.len() {
        false
    } else {
        assert(sa[0] == a@[i as int] && sb[0] == b@[i as int]);
        a[i] < b[i]
    }
}

proof fn lemma_insert_keeps_permutation(order: Seq<usize>, p: int, k: usize)
    requires
        is_permutation(order, k as nat),
        0 <= p <= order.len(),
    ensures
        is_permutation(order.insert(p, k), (k + 1) as nat),
{
    let o2 = order.insert(p, k);
    assert forall|x: usize| x < k + 1 implies o2.contains(x) by {
        if x == k {
            assert(o2[p] == k);
        } else {
            assert(order.contains(x));
            let i = choose|i: int| 0 <= i < order.len() && order[i] == x;
            if i < p {
                assert(o2[i] == x);
            } else {
                assert(o2[i + 1] == x);
            }
        }
    }
    assert forall|i: int, j: int| 0 <= i < j < o2.len() implies o2[i] != o2[j] by {
        if i == p {
            assert(o2[j] == order[j - 1]);
        } else if j == p {
            assert(o2[i] == order[i]);
        } else {
            let a = if i < p {
                i
            } else {
                i - 1
            };
            let b = if j < p {
                j
            } else {
                j - 1
            };
            assert(o2[i] == order[a]);
            assert(o2[j] == order[b]);
        }
    }
}

/// The stable ascending order of `keys`.
pub fn order_by_text(keys: &Vec<Vec<char>>) -> (order: Vec<usize>)
    ensures
        sorted_asc(keys@.map_values(|k: Vec<char>| k@), order@),
{
    let ghost ks = keys@.map_values(|k: Vec<char>| k@);
    let mut order: Vec<usize> = Vec::new();
    let mut k: usize = 0;
    while k < keys.len()
        invariant
            k <= keys.len(),
            ks == keys@.map_values(|k: Vec<char>| k@),
            is_permutation(order@, k as nat),
            forall|i: int, j: int|
                0 <= i < j < order@.len() ==> before_asc(ks, order@[i] as int, order@[j] as int),
        decreases keys.len() - k,
    {
        let mut p: usize = 0;
        while p < order.len() && !lex_less(&keys[k], &keys[order[p]])
            invariant
                k < keys.len(),
                ks == keys@.map_values(|k: Vec<char>| k@),
                is_permutation(order@, k as nat),
                p <= order.len(),
                forall|q: int| 0 <= q < p ==> !lex_lt(ks[k as int], ks[order@[q] as int]),
            decreases order.len() - p,
        {
            p = p + 1;
        }
        let ghost old_order = order@;
        proof {
            assert forall|q: int| 0 <= q < p implies before_asc(ks, old_order[q] as int, k as int) by {
                lemma_lex_total(ks[k as int], ks[old_order[q] as int]);
            }
            assert forall|q: int| p <= q < old_order.len() implies before_asc(
                ks,
                k as int,
                old_order[q] as int,
            ) by {
                assert(lex_lt(ks[k as int], ks[old_order[p as int] as int]));
                if q > p {
                    assert(before_asc(ks, old_order[p as int] as int, old_order[q] as int));
                    if lex_lt(ks[old_order[p as int] as int], ks[old_order[q] as int]) {
                        lemma_lex_transitive(
                            ks[k as int],
                            ks[old_order[p as int] as int],
                            ks[old_order[q] as int],
                        );
                    }
                }
            }
            lemma_insert_keeps_permutation(old_order, p as int, k);
        }
        order.insert(p, k);
        proof {
            let o2 = order@;
            assert(o2 == old_order.insert(p as int, k));
            assert forall|i: int, j: int| 0 <= i < j < o2.len() implies before_asc(
                ks,
                o2[i] as int,
                o2[j] as int,
            ) by {
                if i == p {
                    assert(o2[j] == old_order[j - 1]);
                } else if j == p {
                    assert(o2[i] == old_order[i]);
                } else {
                    let a = if i < p {
                        i
                    } else {
                        i - 1
                    };
                    let b = if j < p {
                        j
                    } else {
                        j - 1
                    };
                    assert(o2[i] == old_order[a]);
                    assert(o2[j] == old_order[b]);
                }
            }
        }
        k = k + 1;
    }
    order
}

/// The stable descending order of `keys`.
pub fn order_by_number_desc(keys: &Vec<u64>) -> (order: Vec<usize>)
    ensures
        sorted_desc(keys@, order@),
{
    let ghost ks = keys@;
    let mut order: Vec<usize> = Vec::new();
    let mut k: usize = 0;
    while k < keys.len()
        invariant
            k <= keys.len(),
            ks == keys@,
            is_permutation(order@, k as nat),
            forall|i: int, j: int|
                0 <= i < j < order@.len() ==> before_desc(ks, order@[i] as int, order@[j] as int),
        decreases keys.len() - k,
    {
        let mut p: usize = 0;
        while p < order.len() && !(keys[k] > keys[order[p]])
            invariant
                k < keys.len(),
                ks == keys@,
                is_permutation(order@, k as nat),
                p <= order.len(),
                forall|q: int| 0 <= q < p ==> !(ks[k as int] > ks[order@[q] as int]),
            decreases order.len() - p,
        {
            p = p + 1;
        }
        let ghost old_order = order@;
        proof {
            lemma_insert_keeps_permutation(old_order, p as int, k);
        }
        order.insert(p, k);
        proof {
            let o2 = order@;
            assert(o2 == old_order.insert(p as int, k));
            assert forall|i: int, j: int| 0 <= i < j < o2.len() implies before_desc(
                ks,
                o2[i] as int,
                o2[j] as int,
            ) by {
                if i == p {
                    assert(o2[j] == old_order[j - 1]);
                    if j - 1 > p {
                        assert(before_desc(ks, old_order[p as int] as int, old_order[j - 1] as int));
                    }
                } else if j == p {
                    assert(o2[i] == old_order[i]);
                } else {
                    let a = if i < p {
                        i
                    } else {
                        i - 1
                    };
                    let b = if j < p {
                        j
                    } else {
                        j - 1
                    };
                    assert(o2[i] == old_order[a]);
                    assert(o2[j] == old_order[b]);
                }
            }
        }
        k = k + 1;
    }
    order
}

} // verus!
