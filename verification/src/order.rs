//! Stable ordering of items by lexicographic keys (lists of `u32`).
//!
//! Version lists are ordered newest first by their numeric components, and
//! names alphabetically by their character codes; both are a stable sort by
//! a `Seq<u32>` key, ascending or descending.

use vstd::prelude::*;
use crate::version::fuzzy::{lex_order, lemma_lex_order_antisym, lemma_lex_order_trans};

verus! {

/// Order of two keys in the requested direction: negative when `a` goes first.
pub open spec fn key_order(a: Seq<u32>, b: Seq<u32>, desc: bool) -> int {
    if desc {
        lex_order(b, a)
    } else {
        lex_order(a, b)
    }
}

/// `p` lists every position below `n` exactly once, ordered by the keys
/// (ascending, or descending when `desc`), equal keys in their input order.
pub open spec fn is_stable_order(keys: Seq<Seq<u32>>, p: Seq<int>, desc: bool) -> bool {
    &&& p.len() == keys.len()
    &&& forall|i: int| 0 <= i < p.len() ==> 0 <= #[trigger] p[i] < keys.len()
    &&& forall|i: int, j: int| 0 <= i < j < p.len() ==> #[trigger] p[i] != #[trigger] p[j]
    &&& forall|i: int, j: int| 0 <= i < j < p.len() ==> {
        let o = key_order(keys[#[trigger] p[i]], keys[#[trigger] p[j]], desc);
        o <= 0 && (o == 0 ==> p[i] < p[j])
    }
}

/// `r` holds the items of `items` rearranged by a stable order of their keys.
pub open spec fn is_stable_sort_of<T>(r: Seq<T>, items: Seq<T>, keys: Seq<Seq<u32>>, desc: bool) -> bool {
    &&& r.len() == items.len()
    &&& exists|p: Seq<int>| #[trigger] is_stable_order(keys, p, desc) && forall|i: int| 0 <= i < r.len() ==> r[i] == items[#[trigger] p[i]]
}

/// The views of a vector of key vectors.
pub open spec fn key_views(keys: Seq<Vec<u32>>) -> Seq<Seq<u32>> {
    keys.map_values(|k: Vec<u32>| k@)
}

/// `key_order` of two keys.
fn key_order_exec(a: &Vec<u32>, b: &Vec<u32>, desc: bool) -> (r: i8)
    ensures
        r as int == key_order(a@, b@, desc),
{
    if desc {
        crate::version::fuzzy::lex_order_exec(b, a)
    } else {
        crate::version::fuzzy::lex_order_exec(a, b)
    }
}

proof fn lemma_key_order(a: Seq<u32>, b: Seq<u32>, c: Seq<u32>, desc: bool)
    ensures
        key_order(a, b, desc) == -key_order(b, a, desc),
        -1 <= key_order(a, b, desc) <= 1,
        key_order(a, b, desc) <= 0 && key_order(b, c, desc) <= 0 ==> key_order(a, c, desc) <= 0,
        key_order(a, b, desc) < 0 && key_order(b, c, desc) <= 0 ==> key_order(a, c, desc) < 0,
        key_order(a, b, desc) <= 0 && key_order(b, c, desc) < 0 ==> key_order(a, c, desc) < 0,
{
    lemma_lex_order_antisym(a, b);
    lemma_lex_order_trans(a, b, c);
    lemma_lex_order_trans(c, b, a);
}

/// `p` lists every position below `n` exactly once.
pub open spec fn is_permutation(p: Seq<int>, n: int) -> bool {
    &&& p.len() == n
    &&& forall|i: int| 0 <= i < p.len() ==> 0 <= #[trigger] p[i] < n
    &&& forall|i: int, j: int| 0 <= i < j < p.len() ==> #[trigger] p[i] != #[trigger] p[j]
}

/// Every position below `n` occurs in a permutation of them.
pub proof fn lemma_permutation_covers(p: Seq<int>, n: int, x: int)
    requires
        is_permutation(p, n),
        0 <= x < n,
    ensures
        exists|i: int| 0 <= i < p.len() && p[i] == x,
{
    assert(p.no_duplicates()) by {
        assert forall|i: int, j: int| 0 <= i < p.len() && 0 <= j < p.len() && i != j implies p[i] != p[j] by {
            if i < j {
                assert(p[i] != p[j]);
            } else {
                assert(p[j] != p[i]);
            }
        }
    }
    p.unique_seq_to_set();
    let r = vstd::set_lib::set_int_range(0, n);
    vstd::set_lib::lemma_int_range(0, n);
    assert(p.to_set().subset_of(r));
    vstd::set_lib::lemma_subset_equality(p.to_set(), r);
    assert(r.contains(x));
    assert(p.to_set().contains(x));
}

/// Every position below `keys.len()` occurs in a stable order.
proof fn lemma_stable_order_covers(keys: Seq<Seq<u32>>, p: Seq<int>, desc: bool, x: int)
    requires
        is_stable_order(keys, p, desc),
        0 <= x < keys.len(),
    ensures
        exists|i: int| 0 <= i < p.len() && p[i] == x,
{
    lemma_permutation_covers(p, keys.len() as int, x);
}

/// Two stable orders of the same keys agree on their first `k` positions.
proof fn lemma_stable_prefix(keys: Seq<Seq<u32>>, p: Seq<int>, q: Seq<int>, desc: bool, k: int)
    requires
        is_stable_order(keys, p, desc),
        is_stable_order(keys, q, desc),
        0 <= k <= p.len(),
    ensures
        forall|j: int| 0 <= j < k ==> p[j] == q[j],
    decreases k,
{
    if k > 0 {
        let t = k - 1;
        lemma_stable_prefix(keys, p, q, desc, t);
        let a = p[t];
        let b = q[t];
        if a != b {
            lemma_stable_order_covers(keys, p, desc, b);
            lemma_stable_order_covers(keys, q, desc, a);
            let m = choose|i: int| 0 <= i < p.len() && p[i] == b;
            let n = choose|i: int| 0 <= i < q.len() && q[i] == a;
            if m < t {
                assert(q[m] == b);
                assert(q[m] != q[t]);
            }
            if n < t {
                assert(p[n] == a);
                assert(p[n] != p[t]);
            }
            assert(t < m && t < n);
            assert(key_order(keys[p[t]], keys[p[m]], desc) <= 0);
            assert(key_order(keys[q[t]], keys[q[n]], desc) <= 0);
            lemma_key_order(keys[a], keys[b], keys[a], desc);
            assert(false);
        }
    }
}

/// A stable order of a list of keys is unique: whatever sorted them, two
/// stable orders of the same keys in the same direction are the same
/// sequence of positions.
pub proof fn lemma_stable_order_unique(keys: Seq<Seq<u32>>, p: Seq<int>, q: Seq<int>, desc: bool)
    requires
        is_stable_order(keys, p, desc),
        is_stable_order(keys, q, desc),
    ensures
        p == q,
{
    lemma_stable_prefix(keys, p, q, desc, p.len() as int);
    assert(p =~= q);
}

/// Sorts `items` stably by `keys` (one key per item), ascending or, when
/// `desc`, descending.
pub fn stable_sort_by_keys<T>(items: Vec<T>, keys: Vec<Vec<u32>>, desc: bool) -> (r: Vec<T>)
    requires
        items@.len() == keys@.len(),
    ensures
        is_stable_sort_of(r@, items@, key_views(keys@), desc),
{
    let ghost orig = items@;
    let ghost ks = key_views(keys@);
    let ghost n = items@.len();
    let mut items = items;
    let mut keys = keys;
    let mut out: Vec<T> = Vec::new();
    let mut out_keys: Vec<Vec<u32>> = Vec::new();
    let ghost mut p: Seq<int> = Seq::empty();
    while items.len() > 0
        invariant
            items@.len() == keys@.len(),
            items@.len() <= n,
            n == orig.len(),
            ks.len() == n,
            items@ == orig.take(items@.len() as int),
            key_views(keys@) == ks.take(keys@.len() as int),
            out@.len() == p.len(),
            out_keys@.len() == p.len(),
            p.len() + items@.len() == n,
            forall|i: int| 0 <= i < p.len() ==> items@.len() <= #[trigger] p[i] < n,
            forall|i: int| 0 <= i < p.len() ==> out@[i] == orig[#[trigger] p[i]],
            forall|i: int| 0 <= i < p.len() ==> (#[trigger] out_keys@[i])@ == ks[p[i]],
            forall|i: int, j: int| 0 <= i < j < p.len() ==> #[trigger] p[i] != #[trigger] p[j],
            forall|i: int, j: int| 0 <= i < j < p.len() ==> {
                let o = key_order(ks[#[trigger] p[i]], ks[#[trigger] p[j]], desc);
                o <= 0 && (o == 0 ==> p[i] < p[j])
            },
        decreases items.len(),
    {
        let j = items.len() - 1;
        let ghost keys_before = keys@;
        let item = items.pop().unwrap();
        let key = keys.pop().unwrap();
        assert(item == orig[j as int]);
        assert(key@ == ks[j as int]) by {
            assert(keys_before[j as int] == key);
            assert(key_views(keys_before)[j as int] == key@);
            assert(ks.take(j + 1)[j as int] == ks[j as int]);
        }
        assert(items@ =~= orig.take(j as int));
        assert(key_views(keys@) =~= ks.take(j as int));
        let mut pos: usize = 0;
        while pos < out_keys.len() && key_order_exec(&out_keys[pos], &key, desc) < 0
            invariant
                pos <= out_keys@.len(),
                out_keys@.len() == p.len(),
                key@ == ks[j as int],
                forall|i: int| 0 <= i < p.len() ==> (#[trigger] out_keys@[i])@ == ks[p[i]],
                forall|i: int| 0 <= i < pos ==> key_order(ks[#[trigger] p[i]], ks[j as int], desc) < 0,
            decreases out_keys.len() - pos,
        {
            pos = pos + 1;
        }
        proof {
            assert forall|i: int| pos <= i < p.len() implies key_order(ks[j as int], ks[#[trigger] p[i]], desc) <= 0 by {
                lemma_key_order(ks[p[pos as int]], ks[j as int], ks[p[i]], desc);
                lemma_key_order(ks[j as int], ks[p[pos as int]], ks[p[i]], desc);
                if i > pos {
                    assert(key_order(ks[p[pos as int]], ks[p[i]], desc) <= 0);
                }
            }
        }
        let ghost old_p = p;
        out.insert(pos, item);
        out_keys.insert(pos, key);
        proof {
            p = old_p.insert(pos as int, j as int);
            assert forall|i: int| 0 <= i < p.len() implies (#[trigger] out_keys@[i])@ == ks[p[i]] by {
                if i < pos {
                } else if i == pos {
                } else {
                    assert(p[i] == old_p[i - 1]);
                }
            }
            assert forall|i: int| 0 <= i < p.len() implies out@[i] == orig[#[trigger] p[i]] by {
                if i > pos {
                    assert(p[i] == old_p[i - 1]);
                }
            }
            assert forall|i: int, k: int| 0 <= i < k < p.len() implies #[trigger] p[i] != #[trigger] p[k] by {
                if i < pos && k > pos {
                    assert(p[k] == old_p[k - 1]);
                } else if i > pos {
                    assert(p[i] == old_p[i - 1] && p[k] == old_p[k - 1]);
                } else if k > pos {
                    assert(p[k] == old_p[k - 1]);
                }
            }
            assert forall|i: int, k: int| 0 <= i < k < p.len() implies {
                let o = key_order(ks[#[trigger] p[i]], ks[#[trigger] p[k]], desc);
                o <= 0 && (o == 0 ==> p[i] < p[k])
            } by {
                if i < pos && k < pos {
                } else if i < pos && k == pos {
                } else if i < pos {
                    assert(p[k] == old_p[k - 1]);
                } else if i == pos {
                    assert(p[k] == old_p[k - 1]);
                } else {
                    assert(p[i] == old_p[i - 1] && p[k] == old_p[k - 1]);
                }
            }
        }
    }
    assert(is_stable_order(ks, p, desc));
    out
}

} // verus!
