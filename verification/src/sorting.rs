//! Stable sorting of indices by sort key: a merge sort whose result is the
//! unique arrangement of the indices that orders them by key, then by index.
use vstd::prelude::*;

use crate::collator::{sort_key_slice, sort_key_tokens, CharToken, SortKey};
use crate::order::{
    compare_keys, key_order, lemma_key_order_antisymmetric, lemma_key_order_equal,
    lemma_key_order_transitive,
};

verus! {

/// The token sequences of a sequence of sort keys.
pub open spec fn key_views(keys: Seq<SortKey>) -> Seq<Seq<CharToken<u128>>> {
    keys.map_values(|k: SortKey| sort_key_tokens(k))
}

/// Index `i` sorts before index `j`: its key is smaller, or the keys are
/// equal and `i` came first in the input.
pub open spec fn index_before(keys: Seq<Seq<CharToken<u128>>>, i: int, j: int) -> bool {
    key_order(keys[i], keys[j]) < 0 || (key_order(keys[i], keys[j]) == 0 && i < j)
}

/// Every index of `p` sorts before every later one.
pub open spec fn sorted_by(keys: Seq<Seq<CharToken<u128>>>, p: Seq<usize>) -> bool {
    forall|a: int, b: int|
        0 <= a < b < p.len() ==> #[trigger] index_before(keys, p[a] as int, p[b] as int)
}

/// `p` lists each index in `lo..hi` exactly once.
pub open spec fn arranges(p: Seq<usize>, lo: int, hi: int) -> bool {
    &&& p.len() == hi - lo
    &&& forall|a: int| 0 <= a < p.len() ==> lo <= #[trigger] p[a] < hi
    &&& p.no_duplicates()
    &&& forall|x: usize| lo <= x < hi ==> #[trigger] p.contains(x)
}

/// `p` is a stable sorting permutation for `keys`: it lists every index
/// once, ordered by key and, among equal keys, by index.
pub open spec fn stable_order(keys: Seq<Seq<CharToken<u128>>>, p: Seq<usize>) -> bool {
    arranges(p, 0, keys.len() as int) && sorted_by(keys, p)
}

/// The stable sorting permutation for `keys` (there is exactly one).
pub open spec fn sorted_permutation(keys: Seq<Seq<CharToken<u128>>>) -> Seq<usize> {
    choose|p: Seq<usize>| stable_order(keys, p)
}

/// `items` rearranged by the stable sorting permutation of their keys.
pub open spec fn stable_sort_spec<A>(items: Seq<A>, keys: Seq<Seq<CharToken<u128>>>) -> Seq<A> {
    sorted_permutation(keys).map_values(|i: usize| items[i as int])
}

/// Two different indices are ordered one way or the other, never both.
pub proof fn lemma_before_total(keys: Seq<Seq<CharToken<u128>>>, i: int, j: int)
    requires
        i != j,
    ensures
        index_before(keys, i, j) != index_before(keys, j, i),
{
    lemma_key_order_antisymmetric(keys[i], keys[j]);
}

/// `index_before` is transitive.
pub proof fn lemma_before_transitive(keys: Seq<Seq<CharToken<u128>>>, i: int, j: int, k: int)
    requires
        index_before(keys, i, j),
        index_before(keys, j, k),
    ensures
        index_before(keys, i, k),
{
    lemma_key_order_transitive(keys[i], keys[j], keys[k]);
    lemma_key_order_equal(keys[i], keys[j]);
    lemma_key_order_equal(keys[j], keys[k]);
}

/// Two duplicate-free sequences with the same members, both sorted by
/// `index_before`, are the same sequence.
pub proof fn lemma_sorted_unique(keys: Seq<Seq<CharToken<u128>>>, p: Seq<usize>, q: Seq<usize>)
    requires
        p.no_duplicates(),
        q.no_duplicates(),
        forall|x: usize| p.contains(x) <==> q.contains(x),
        sorted_by(keys, p),
        sorted_by(keys, q),
    ensures
        p == q,
    decreases p.len(),
{
    if p.len() == 0 {
        if q.len() > 0 {
            assert(q.contains(q[0]));
        }
        assert(p =~= q);
    } else {
        assert(p.contains(p[0]));
        let j = choose|j: int| 0 <= j < q.len() && q[j] == p[0];
        assert(q.contains(q[0]));
        let i = choose|i: int| 0 <= i < p.len() && p[i] == q[0];
        if i > 0 && j > 0 {
            assert(index_before(keys, q[0] as int, q[j] as int));
            assert(index_before(keys, p[0] as int, p[i] as int));
            lemma_before_total(keys, p[0] as int, q[0] as int);
        }
        assert(p[0] == q[0]);
        let p1 = p.drop_first();
        let q1 = q.drop_first();
        assert forall|x: usize| p1.contains(x) <==> q1.contains(x) by {
            if p1.contains(x) {
                let a = choose|a: int| 0 <= a < p1.len() && p1[a] == x;
                assert(p[a + 1] == x);
                assert(x != p[0]);
                assert(p.contains(x));
                let b = choose|b: int| 0 <= b < q.len() && q[b] == x;
                assert(b != 0);
                assert(q1[b - 1] == x);
            }
            if q1.contains(x) {
                let a = choose|a: int| 0 <= a < q1.len() && q1[a] == x;
                assert(q[a + 1] == x);
                assert(x != q[0]);
                assert(q.contains(x));
                let b = choose|b: int| 0 <= b < p.len() && p[b] == x;
                assert(b != 0);
                assert(p1[b - 1] == x);
            }
        }
        assert forall|a: int, b: int| 0 <= a < b < p1.len() implies #[trigger] index_before(
            keys,
            p1[a] as int,
            p1[b] as int,
        ) by {
            assert(index_before(keys, p[a + 1] as int, p[b + 1] as int));
        }
        assert forall|a: int, b: int| 0 <= a < b < q1.len() implies #[trigger] index_before(
            keys,
            q1[a] as int,
            q1[b] as int,
        ) by {
            assert(index_before(keys, q[a + 1] as int, q[b + 1] as int));
        }
        lemma_sorted_unique(keys, p1, q1);
        assert(p =~= q) by {
            assert forall|a: int| 0 <= a < p.len() implies p[a] == q[a] by {
                if a > 0 {
                    assert(p[a] == p1[a - 1]);
                    assert(q[a] == q1[a - 1]);
                }
            }
        }
    }
}

/// Any stable sorting permutation is the one `sorted_permutation` names.
pub proof fn lemma_stable_order_is_sorted_permutation(
    keys: Seq<Seq<CharToken<u128>>>,
    p: Seq<usize>,
)
    requires
        stable_order(keys, p),
    ensures
        sorted_permutation(keys) == p,
{
    let q = sorted_permutation(keys);
    assert(stable_order(keys, q));
    assert forall|x: usize| p.contains(x) <==> q.contains(x) by {
        if p.contains(x) {
            let a = choose|a: int| 0 <= a < p.len() && p[a] == x;
            assert(0 <= p[a] < keys.len());
        }
        if q.contains(x) {
            let a = choose|a: int| 0 <= a < q.len() && q[a] == x;
            assert(0 <= q[a] < keys.len());
        }
    }
    lemma_sorted_unique(keys, p, q);
}

/// The first position `a >= from` of `p` whose index does not sort before
/// `x`, or the length of `p`.
pub open spec fn insertion_point(keys: Seq<Seq<CharToken<u128>>>, p: Seq<usize>, x: int, from: int) -> int
    decreases p.len() - from,
{
    if from >= p.len() || from < 0 {
        p.len() as int
    } else if !index_before(keys, p[from] as int, x) {
        from
    } else {
        insertion_point(keys, p, x, from + 1)
    }
}

proof fn lemma_insertion_point(keys: Seq<Seq<CharToken<u128>>>, p: Seq<usize>, x: int, from: int)
    requires
        0 <= from <= p.len(),
    ensures
        from <= insertion_point(keys, p, x, from) <= p.len(),
        forall|a: int|
            from <= a < insertion_point(keys, p, x, from) ==> index_before(keys, #[trigger] p[a] as int, x),
        insertion_point(keys, p, x, from) < p.len() ==> !index_before(
            keys,
            p[insertion_point(keys, p, x, from)] as int,
            x,
        ),
    decreases p.len() - from,
{
    if from < p.len() && index_before(keys, p[from] as int, x) {
        lemma_insertion_point(keys, p, x, from + 1);
    }
}

/// The indices `0..n` in stable sorted order, built by insertion.
proof fn lemma_stable_prefix(keys: Seq<Seq<CharToken<u128>>>, n: nat) -> (p: Seq<usize>)
    requires
        n <= keys.len(),
        keys.len() <= usize::MAX,
    ensures
        arranges(p, 0, n as int),
        sorted_by(keys, p),
    decreases n,
{
    if n == 0 {
        let p = Seq::<usize>::empty();
        assert(arranges(p, 0, 0));
        p
    } else {
        let m = (n - 1) as nat;
        let p = lemma_stable_prefix(keys, m);
        let x = m as int;
        lemma_insertion_point(keys, p, x, 0);
        let pos = insertion_point(keys, p, x, 0);
        let q = p.take(pos) + seq![m as usize] + p.skip(pos);
        assert(q.len() == n);
        assert forall|a: int| 0 <= a < q.len() implies 0 <= #[trigger] q[a] < n by {
            if a < pos {
                assert(q[a] == p[a]);
            } else if a > pos {
                assert(q[a] == p[a - 1]);
            }
        }
        assert forall|a: int, b: int| 0 <= a < b < q.len() implies #[trigger] index_before(
            keys,
            q[a] as int,
            q[b] as int,
        ) by {
            if b < pos {
                assert(q[a] == p[a] && q[b] == p[b]);
            } else if b == pos {
                assert(q[a] == p[a]);
                assert(q[b] == x);
            } else if a < pos {
                assert(q[a] == p[a] && q[b] == p[b - 1]);
            } else if a == pos {
                assert(q[a] == x && q[b] == p[b - 1]);
                assert(p[pos] != x);
                lemma_before_total(keys, p[pos] as int, x);
                if b - 1 > pos {
                    assert(index_before(keys, p[pos] as int, p[b - 1] as int));
                    lemma_before_transitive(keys, x, p[pos] as int, p[b - 1] as int);
                }
            } else {
                assert(q[a] == p[a - 1] && q[b] == p[b - 1]);
            }
        }
        assert(q.no_duplicates()) by {
            assert forall|a: int, b: int| 0 <= a < q.len() && 0 <= b < q.len() && a != b implies q[a]
                != q[b] by {
                let pa = if a < pos {
                    a
                } else {
                    a - 1
                };
                let pb = if b < pos {
                    b
                } else {
                    b - 1
                };
                if a != pos && b != pos {
                    assert(q[a] == p[pa] && q[b] == p[pb]);
                } else if a == pos {
                    assert(q[b] == p[pb]);
                } else {
                    assert(q[a] == p[pa]);
                }
            }
        }
        assert forall|y: usize| 0 <= y < n implies #[trigger] q.contains(y) by {
            if y == m {
                assert(q[pos] == y);
            } else {
                assert(p.contains(y));
                let a = choose|a: int| 0 <= a < p.len() && p[a] == y;
                if a < pos {
                    assert(q[a] == y);
                } else {
                    assert(q[a + 1] == y);
                }
            }
        }
        q
    }
}

/// Every sequence of keys has a stable sorting permutation, so
/// `sorted_permutation` names one.
pub proof fn lemma_sorted_permutation_exists(keys: Seq<Seq<CharToken<u128>>>)
    requires
        keys.len() <= usize::MAX,
    ensures
        stable_order(keys, sorted_permutation(keys)),
{
    let p = lemma_stable_prefix(keys, keys.len());
    lemma_stable_order_is_sorted_permutation(keys, p);
}

/// Rearranging a sequence by an arrangement of its indices keeps every
/// element, as often as it occurs.
pub proof fn lemma_arranged_multiset<A>(items: Seq<A>, p: Seq<usize>)
    requires
        arranges(p, 0, items.len() as int),
        items.len() <= usize::MAX,
    ensures
        p.map_values(|i: usize| items[i as int]).to_multiset() =~= items.to_multiset(),
    decreases items.len(),
{
    broadcast use vstd::seq_lib::group_to_multiset_ensures;

    let y = p.map_values(|i: usize| items[i as int]);
    if items.len() == 0 {
        assert(y =~= Seq::<A>::empty());
        assert(items =~= Seq::<A>::empty());
    } else {
        let n = items.len();
        let last = (n - 1) as usize;
        assert(p.contains(last));
        let j = choose|j: int| 0 <= j < p.len() && p[j] == last;
        assert(last as int == n - 1);
        let q = p.remove(j);
        let rest = items.drop_last();
        assert forall|a: int| 0 <= a < q.len() implies 0 <= #[trigger] q[a] < n - 1 by {
            if a < j {
                assert(q[a] == p[a]);
                assert(p[a] != p[j]);
            } else {
                assert(q[a] == p[a + 1]);
                assert(p[a + 1] != p[j]);
            }
        }
        assert(q.no_duplicates()) by {
            assert forall|a: int, b: int| 0 <= a < q.len() && 0 <= b < q.len() && a != b implies q[a]
                != q[b] by {
                let pa = if a < j {
                    a
                } else {
                    a + 1
                };
                let pb = if b < j {
                    b
                } else {
                    b + 1
                };
                assert(q[a] == p[pa] && q[b] == p[pb]);
            }
        }
        assert forall|x: usize| 0 <= x < n - 1 implies #[trigger] q.contains(x) by {
            assert(p.contains(x));
            let k = choose|k: int| 0 <= k < p.len() && p[k] == x;
            assert(k != j);
            if k < j {
                assert(q[k] == x);
            } else {
                assert(q[k - 1] == x);
            }
        }
        lemma_arranged_multiset(rest, q);
        assert(y.remove(j) =~= q.map_values(|i: usize| rest[i as int])) by {
            assert forall|a: int| 0 <= a < q.len() implies y.remove(j)[a] == rest[q[a] as int] by {
                if a < j {
                    assert(y.remove(j)[a] == y[a]);
                    assert(q[a] == p[a]);
                } else {
                    assert(y.remove(j)[a] == y[a + 1]);
                    assert(q[a] == p[a + 1]);
                }
            }
        }
        assert(y[j] == items[n - 1]);
        assert(items =~= rest.push(items[n - 1]));
        assert(y.to_multiset().count(y[j]) > 0) by {
            assert(y.contains(y[j]));
        }
        assert(y.to_multiset() =~= y.to_multiset().remove(y[j]).insert(y[j]));
    }
}

/// Sorting keeps every element as often as it occurs: the result is a
/// permutation of the input.
pub proof fn lemma_sort_is_permutation<A>(items: Seq<A>, keys: Seq<Seq<CharToken<u128>>>)
    requires
        keys.len() == items.len(),
        items.len() <= usize::MAX,
    ensures
        stable_sort_spec(items, keys).to_multiset() =~= items.to_multiset(),
        stable_sort_spec(items, keys).len() == items.len(),
{
    lemma_sorted_permutation_exists(keys);
    lemma_arranged_multiset(items, sorted_permutation(keys));
}

/// The sorted result is in key order: each entry's key is at most the key
/// of every later entry.
pub proof fn lemma_sorted_in_key_order<A>(items: Seq<A>, key: spec_fn(A) -> Seq<CharToken<u128>>)
    requires
        items.len() <= usize::MAX,
    ensures
        forall|a: int, b: int|
            0 <= a < b < stable_sort_spec(items, items.map_values(key)).len() ==> key_order(
                key(#[trigger] stable_sort_spec(items, items.map_values(key))[a]),
                key(#[trigger] stable_sort_spec(items, items.map_values(key))[b]),
            ) <= 0,
{
    let keys = items.map_values(key);
    lemma_sorted_permutation_exists(keys);
    let p = sorted_permutation(keys);
    let y = stable_sort_spec(items, keys);
    assert forall|a: int, b: int| 0 <= a < b < y.len() implies key_order(
        key(#[trigger] y[a]),
        key(#[trigger] y[b]),
    ) <= 0 by {
        assert(index_before(keys, p[a] as int, p[b] as int));
        assert(y[a] == items[p[a] as int]);
        assert(y[b] == items[p[b] as int]);
    }
}

/// The sort is stable: of two entries with equal keys, the one that came
/// first in the input comes first in the result.
pub proof fn lemma_sort_stable(keys: Seq<Seq<CharToken<u128>>>, a: int, b: int)
    requires
        keys.len() <= usize::MAX,
        0 <= a < b < keys.len(),
        keys[sorted_permutation(keys)[a] as int] == keys[sorted_permutation(keys)[b] as int],
    ensures
        sorted_permutation(keys)[a] < sorted_permutation(keys)[b],
{
    lemma_sorted_permutation_exists(keys);
    let p = sorted_permutation(keys);
    assert(index_before(keys, p[a] as int, p[b] as int));
    lemma_key_order_equal(keys[p[a] as int], keys[p[b] as int]);
}

/// Sorting an already sorted sequence changes nothing.
pub proof fn lemma_sort_idempotent<A>(items: Seq<A>, key: spec_fn(A) -> Seq<CharToken<u128>>)
    requires
        items.len() <= usize::MAX,
    ensures
        stable_sort_spec(
            stable_sort_spec(items, items.map_values(key)),
            stable_sort_spec(items, items.map_values(key)).map_values(key),
        ) == stable_sort_spec(items, items.map_values(key)),
{
    let keys = items.map_values(key);
    lemma_sorted_permutation_exists(keys);
    let p = sorted_permutation(keys);
    let y = stable_sort_spec(items, keys);
    let ky = y.map_values(key);
    let n = y.len();
    let q = Seq::new(n, |i: int| i as usize);
    assert forall|a: int, b: int| 0 <= a < b < q.len() implies #[trigger] index_before(
        ky,
        q[a] as int,
        q[b] as int,
    ) by {
        assert(index_before(keys, p[a] as int, p[b] as int));
        assert(ky[a] == keys[p[a] as int]);
        assert(ky[b] == keys[p[b] as int]);
    }
    assert forall|x: usize| 0 <= x < n implies #[trigger] q.contains(x) by {
        assert(q[x as int] == x);
    }
    assert(stable_order(ky, q));
    lemma_stable_order_is_sorted_permutation(ky, q);
    assert(stable_sort_spec(y, ky) =~= y);
}

/// Whether index `i` sorts before index `j`.
fn before(keys: &Vec<SortKey>, i: usize, j: usize) -> (r: bool)
    requires
        i < keys.len(),
        j < keys.len(),
    ensures
        r == index_before(key_views(keys@), i as int, j as int),
{
    let c = compare_keys(sort_key_slice(&keys[i]), sort_key_slice(&keys[j]));
    c < 0 || (c == 0 && i < j)
}

/// Merges two sorted arrangements of adjacent index ranges.
fn merge(
    keys: &Vec<SortKey>,
    left: Vec<usize>,
    right: Vec<usize>,
    Ghost(lo): Ghost<int>,
    Ghost(mid): Ghost<int>,
    Ghost(hi): Ghost<int>,
) -> (out: Vec<usize>)
    requires
        0 <= lo <= mid <= hi <= keys.len(),
        arranges(left@, lo, mid),
        arranges(right@, mid, hi),
        sorted_by(key_views(keys@), left@),
        sorted_by(key_views(keys@), right@),
    ensures
        arranges(out@, lo, hi),
        sorted_by(key_views(keys@), out@),
{
    let ghost kv = key_views(keys@);
    let mut out: Vec<usize> = Vec::new();
    let mut i: usize = 0;
    let mut j: usize = 0;
    while i < left.len() || j < right.len()
        invariant
            0 <= lo <= mid <= hi <= keys.len(),
            kv == key_views(keys@),
            arranges(left@, lo, mid),
            arranges(right@, mid, hi),
            sorted_by(kv, left@),
            sorted_by(kv, right@),
            i <= left.len(),
            j <= right.len(),
            out.len() == i + j,
            out@.no_duplicates(),
            sorted_by(kv, out@),
            forall|a: int|
                0 <= a < out.len() ==> (left@.take(i as int).contains(#[trigger] out@[a])
                    || right@.take(j as int).contains(out@[a])),
            forall|x: usize| left@.take(i as int).contains(x) ==> #[trigger] out@.contains(x),
            forall|x: usize| right@.take(j as int).contains(x) ==> #[trigger] out@.contains(x),
            out.len() > 0 && i < left.len() ==> index_before(
                kv,
                out@.last() as int,
                left@[i as int] as int,
            ),
            out.len() > 0 && j < right.len() ==> index_before(
                kv,
                out@.last() as int,
                right@[j as int] as int,
            ),
        decreases left.len() + right.len() - i - j,
    {
        let take_left = if i == left.len() {
            false
        } else if j == right.len() {
            true
        } else {
            before(keys, left[i], right[j])
        };
        let x = if take_left {
            left[i]
        } else {
            right[j]
        };
        let ghost old_out = out@;
        let ghost oi = i as int;
        let ghost oj = j as int;
        proof {
            if !take_left && i < left.len() {
                lemma_before_total(kv, left@[i as int] as int, right@[j as int] as int);
            }
            // `x` is new to the output.
            assert(!old_out.contains(x)) by {
                if old_out.contains(x) {
                    let a = choose|a: int| 0 <= a < old_out.len() && old_out[a] == x;
                    if left@.take(i as int).contains(x) {
                        let b = choose|b: int| 0 <= b < i && left@.take(i as int)[b] == x;
                        if take_left {
                            assert(left@[b] == left@[i as int]);
                        } else {
                            assert(left@[b] < mid);
                        }
                    } else {
                        let b = choose|b: int| 0 <= b < j && right@.take(j as int)[b] == x;
                        if take_left {
                            assert(right@[b] >= mid);
                        } else {
                            assert(right@[b] == right@[j as int]);
                        }
                    }
                }
            }
            // `x` sorts after everything already output.
            assert forall|a: int| 0 <= a < old_out.len() implies index_before(
                kv,
                old_out[a] as int,
                x as int,
            ) by {
                if a < old_out.len() - 1 {
                    assert(index_before(kv, old_out[a] as int, old_out.last() as int));
                    lemma_before_transitive(kv, old_out[a] as int, old_out.last() as int, x as int);
                }
            }
        }
        out.push(x);
        if take_left {
            i += 1;
        } else {
            j += 1;
        }
        proof {
            assert(left@.take(i as int) =~= if take_left {
                left@.take(i - 1).push(x)
            } else {
                left@.take(i as int)
            });
            assert(right@.take(j as int) =~= if take_left {
                right@.take(j as int)
            } else {
                right@.take(j - 1).push(x)
            });
            assert forall|a: int, b: int| 0 <= a < b < out.len() implies #[trigger] index_before(
                kv,
                out@[a] as int,
                out@[b] as int,
            ) by {
                if b < out.len() - 1 {
                    assert(index_before(kv, old_out[a] as int, old_out[b] as int));
                }
            }
            assert forall|x2: usize| left@.take(i as int).contains(x2) implies #[trigger] out@.contains(
                x2,
            ) by {
                if x2 == x {
                    assert(out@[out.len() - 1] == x);
                } else {
                    assert(old_out.contains(x2));
                    let a = choose|a: int| 0 <= a < old_out.len() && old_out[a] == x2;
                    assert(out@[a] == x2);
                }
            }
            assert forall|x2: usize| right@.take(j as int).contains(x2) implies #[trigger] out@.contains(
                x2,
            ) by {
                if x2 == x {
                    assert(out@[out.len() - 1] == x);
                } else {
                    assert(old_out.contains(x2));
                    let a = choose|a: int| 0 <= a < old_out.len() && old_out[a] == x2;
                    assert(out@[a] == x2);
                }
            }
            assert forall|a: int| 0 <= a < out.len() implies (left@.take(i as int).contains(
                #[trigger] out@[a],
            ) || right@.take(j as int).contains(out@[a])) by {
                if a == out.len() - 1 {
                    if take_left {
                        assert(left@.take(i as int)[i - 1] == x);
                    } else {
                        assert(right@.take(j as int)[j - 1] == x);
                    }
                } else {
                    assert(out@[a] == old_out[a]);
                    if left@.take(oi).contains(out@[a]) {
                        let b = choose|b: int| 0 <= b < oi && #[trigger] left@.take(oi)[b] == out@[a];
                        assert(left@.take(i as int)[b] == out@[a]);
                    } else {
                        let b = choose|b: int| 0 <= b < oj && #[trigger] right@.take(oj)[b] == out@[a];
                        assert(right@.take(j as int)[b] == out@[a]);
                    }
                }
            }
            if take_left && i < left.len() {
                assert(index_before(kv, left@[i - 1] as int, left@[i as int] as int));
            }
            if !take_left && j < right.len() {
                assert(index_before(kv, right@[j - 1] as int, right@[j as int] as int));
            }
        }
    }
    proof {
        assert(left@.take(i as int) =~= left@);
        assert(right@.take(j as int) =~= right@);
        assert forall|x: usize| lo <= x < hi implies #[trigger] out@.contains(x) by {
            if x < mid {
                assert(left@.contains(x));
            } else {
                assert(right@.contains(x));
            }
        }
        assert forall|a: int| 0 <= a < out.len() implies lo <= #[trigger] out@[a] < hi by {
            if left@.contains(out@[a]) {
                let b = choose|b: int| 0 <= b < left.len() && left@[b] == out@[a];
            } else {
                let b = choose|b: int| 0 <= b < right.len() && right@[b] == out@[a];
            }
        }
    }
    out
}

/// Sorts the indices `lo..hi`.
fn sort_range(keys: &Vec<SortKey>, lo: usize, hi: usize) -> (p: Vec<usize>)
    requires
        lo <= hi <= keys.len(),
    ensures
        arranges(p@, lo as int, hi as int),
        sorted_by(key_views(keys@), p@),
    decreases hi - lo,
{
    if hi - lo <= 1 {
        let mut p: Vec<usize> = Vec::new();
        if hi > lo {
            p.push(lo);
            assert(p@[0] == lo);
            assert(p@.contains(lo));
        }
        p
    } else {
        let mid = lo + (hi - lo) / 2;
        let left = sort_range(keys, lo, mid);
        let right = sort_range(keys, mid, hi);
        merge(keys, left, right, Ghost(lo as int), Ghost(mid as int), Ghost(hi as int))
    }
}

/// The stable sorting permutation of `keys`: the indices of `keys`, ordered
/// by key and, among equal keys, by index.
pub fn sort_key_indices(keys: &Vec<SortKey>) -> (p: Vec<usize>)
    ensures
        stable_order(key_views(keys@), p@),
        p@ == sorted_permutation(key_views(keys@)),
{
    let p = sort_range(keys, 0, keys.len());
    proof {
        lemma_stable_order_is_sorted_permutation(key_views(keys@), p@);
    }
    p
}

} // verus!
