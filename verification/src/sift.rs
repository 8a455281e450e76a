use crate::model::{
    below_parent, heap_of, heapified, is_heap, is_heap_from, largest_of, left_of, parent_of,
    right_of, sift_down, sift_up, swapped, with_pushed, without_root,
};
use crate::order::{ge, gt, lt, total_order};
use vstd::prelude::*;

verus! {

/// Exchanging two entries keeps the length and the bag of entries.
pub proof fn lemma_swapped<T>(s: Seq<T>, i: int, j: int)
    requires
        0 <= i < s.len(),
        0 <= j < s.len(),
    ensures
        swapped(s, i, j).len() == s.len(),
        swapped(s, i, j).to_multiset() == s.to_multiset(),
{
    broadcast use vstd::multiset::group_multiset_axioms;
    let mid = s.update(i, s[j]);
    vstd::seq_lib::to_multiset_update(s, i, s[j]);
    vstd::seq_lib::to_multiset_update(mid, j, s[i]);
    vstd::seq_lib::to_multiset_contains(s, s[i]);
    vstd::seq_lib::to_multiset_contains(s, s[j]);
    assert(s.contains(s[i]));
    assert(s.contains(s[j]));
    assert(swapped(s, i, j).to_multiset() =~= s.to_multiset());
}

/// `s` is a heap from `k` on, but for the entry at `p`, which may rank
/// below its children; these rank no higher than the parent of `p`.
pub open spec fn heap_but_parent<T: PartialOrd>(s: Seq<T>, k: int, p: int) -> bool {
    &&& forall|c: int|
        0 < c < s.len() && k <= parent_of(c) && parent_of(c) != p ==> #[trigger] below_parent(s, c)
    &&& 0 < p && k <= parent_of(p) ==> forall|c: int|
        0 < c < s.len() && parent_of(c) == p ==> #[trigger] ge(s[parent_of(p)], s[c])
}

/// Sifting down the one entry that may rank below its children restores the
/// heap property and keeps the bag of entries.
pub proof fn lemma_sift_down<T: PartialOrd>(s: Seq<T>, k: int, p: int)
    requires
        total_order::<T>(),
        0 <= k <= p,
        heap_but_parent(s, k, p),
    ensures
        is_heap_from(sift_down(s, p), k),
        sift_down(s, p).len() == s.len(),
        sift_down(s, p).to_multiset() == s.to_multiset(),
    decreases s.len() - p,
{
    let m = largest_of(s, p);
    if 0 <= p < m < s.len() {
        let t = swapped(s, m, p);
        assert forall|c: int|
            0 < c < t.len() && k <= parent_of(c) && parent_of(c) != m implies #[trigger] below_parent(
            t,
            c,
        ) by {
            if parent_of(c) == p {
                assert(c == left_of(p) || c == right_of(p));
                assert(t[p] == s[m]);
                if c == m {
                    assert(t[c] == s[p]);
                    if m == right_of(p) && gt(s[left_of(p)], s[p]) {
                        assert(ge(s[m], s[left_of(p)]) && ge(s[left_of(p)], s[p]));
                    }
                    assert(ge(s[m], s[p]));
                } else {
                    assert(t[c] == s[c]);
                    assert(ge(s[m], s[c]));
                }
            } else if c == p {
                assert(ge(s[parent_of(p)], s[m]));
            } else {
                assert(below_parent(s, c));
            }
        }
        assert forall|c: int| 0 < c < t.len() && parent_of(c) == m implies #[trigger] ge(
            t[parent_of(m)],
            t[c],
        ) by {
            assert(below_parent(s, c));
        }
        lemma_swapped(s, m, p);
        lemma_sift_down(t, k, m);
    } else {
        assert forall|c: int| 0 < c < s.len() && k <= parent_of(c) implies #[trigger] below_parent(
            s,
            c,
        ) by {
            if parent_of(c) == p {
                assert(c == left_of(p) || c == right_of(p));
            }
        }
    }
}

/// `s` is a heap, but for the entry at `i`, which may rank above its
/// parent; its children rank no higher than that parent.
pub open spec fn heap_but_child<T: PartialOrd>(s: Seq<T>, i: int) -> bool {
    &&& forall|c: int| 0 < c < s.len() && c != i ==> #[trigger] below_parent(s, c)
    &&& 0 < i ==> forall|c: int|
        0 < c < s.len() && parent_of(c) == i ==> #[trigger] ge(s[parent_of(i)], s[c])
}

/// Sifting up the one entry that may rank above its parent restores the
/// heap property and keeps the bag of entries.
pub proof fn lemma_sift_up<T: PartialOrd>(s: Seq<T>, i: int)
    requires
        total_order::<T>(),
        0 <= i < s.len(),
        heap_but_child(s, i),
    ensures
        is_heap(sift_up(s, i)),
        sift_up(s, i).len() == s.len(),
        sift_up(s, i).to_multiset() == s.to_multiset(),
    decreases i,
{
    let p = parent_of(i);
    if 0 < i && lt(s[p], s[i]) {
        let t = swapped(s, p, i);
        assert(ge(s[i], s[p]));
        assert forall|c: int| 0 < c < t.len() && c != p implies #[trigger] below_parent(t, c) by {
            if c == i {
            } else if parent_of(c) == p {
                assert(below_parent(s, c));
                assert(ge(s[i], s[p]) && ge(s[p], s[c]));
            } else if parent_of(c) == i {
                assert(ge(s[p], s[c]));
            } else {
                assert(below_parent(s, c));
            }
        }
        if 0 < p {
            assert forall|c: int| 0 < c < t.len() && parent_of(c) == p implies #[trigger] ge(
                t[parent_of(p)],
                t[c],
            ) by {
                assert(below_parent(s, p));
                if c != i {
                    assert(below_parent(s, c));
                    assert(ge(s[parent_of(p)], s[p]) && ge(s[p], s[c]));
                }
            }
        }
        lemma_swapped(s, p, i);
        lemma_sift_up(t, p);
    } else {
        assert forall|c: int| 0 < c < s.len() implies #[trigger] below_parent(s, c) by {
            if c == i {
                assert(lt(s[p], s[i]) || ge(s[p], s[i]));
            }
        }
    }
}

/// Sifting down every entry from `k - 1` back to the root turns a sequence
/// that is a heap from `k` on into a heap, and keeps the bag of entries.
pub proof fn lemma_heapified<T: PartialOrd>(s: Seq<T>, k: int)
    requires
        total_order::<T>(),
        0 <= k,
        is_heap_from(s, k),
    ensures
        is_heap(heapified(s, k)),
        heapified(s, k).len() == s.len(),
        heapified(s, k).to_multiset() == s.to_multiset(),
    decreases k,
{
    if k <= 0 {
        assert forall|c: int| 0 < c < s.len() implies #[trigger] below_parent(s, c) by {}
    } else {
        lemma_sift_down(s, k - 1, k - 1);
        lemma_heapified(sift_down(s, k - 1), k - 1);
    }
}

/// Building a heap from any sequence gives a heap of the same entries.
pub proof fn lemma_heap_of<T: PartialOrd>(s: Seq<T>)
    requires
        total_order::<T>(),
    ensures
        is_heap(heap_of(s)),
        heap_of(s).len() == s.len(),
        heap_of(s).to_multiset() == s.to_multiset(),
{
    lemma_heapified(s, s.len() as int / 2);
}

/// Pushing onto a heap gives a heap that holds the value once more.
pub proof fn lemma_with_pushed<T: PartialOrd>(s: Seq<T>, value: T)
    requires
        total_order::<T>(),
        is_heap(s),
    ensures
        is_heap(with_pushed(s, value)),
        with_pushed(s, value).len() == s.len() + 1,
        with_pushed(s, value).to_multiset() == s.to_multiset().insert(value),
{
    let t = s.push(value);
    assert forall|c: int| 0 < c < t.len() && c != s.len() implies #[trigger] below_parent(t, c) by {
        assert(below_parent(s, c));
    }
    lemma_sift_up(t, s.len() as int);
    vstd::seq_lib::to_multiset_build(s, value);
}

/// Removing the root of a non-empty heap gives a heap that holds the root
/// once less.
pub proof fn lemma_without_root<T: PartialOrd>(s: Seq<T>)
    requires
        total_order::<T>(),
        is_heap(s),
        s.len() > 0,
    ensures
        is_heap(without_root(s)),
        without_root(s).len() == s.len() - 1,
        without_root(s).to_multiset() == s.to_multiset().remove(s[0]),
{
    let last = s.len() - 1;
    let u = swapped(s, 0, last);
    let t = u.drop_last();
    assert forall|c: int|
        0 < c < t.len() && 0 <= parent_of(c) && parent_of(c) != 0 implies #[trigger] below_parent(
        t,
        c,
    ) by {
        assert(below_parent(s, c));
    }
    lemma_sift_down(t, 0, 0);
    lemma_swapped(s, 0, last);
    assert(t =~= u.remove(last));
    vstd::seq_lib::to_multiset_remove(u, last);
    assert forall|c: int| 0 < c < without_root(s).len() implies #[trigger] below_parent(
        without_root(s),
        c,
    ) by {}
}

/// The root of a heap ranks at least as high as every entry.
pub proof fn lemma_root_is_max<T: PartialOrd>(s: Seq<T>, i: int)
    requires
        total_order::<T>(),
        is_heap(s),
        0 <= i < s.len(),
    ensures
        ge(s[0], s[i]),
    decreases i,
{
    if i == 0 {
        assert(lt(s[0], s[0]) || ge(s[0], s[0]));
    } else {
        lemma_root_is_max(s, parent_of(i));
        assert(below_parent(s, i));
    }
}

} // verus!
