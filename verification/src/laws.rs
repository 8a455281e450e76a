use crate::model::{
    after_steps, below_parent, drained, heap_of, is_descending, is_heap, left_of, pops, pushes,
    right_of, steps_allowed, with_all_pushed, without_root, Step,
};
use crate::order::{ge, level, lt, strict_order, total_order};
use crate::sift::{lemma_heap_of, lemma_root_is_max, lemma_with_pushed, lemma_without_root};
use vstd::prelude::*;

verus! {

/// In a heap every entry ranks at least as high as each of its children
/// that lie within the sequence.
pub proof fn law_heap_children<T: PartialOrd>(s: Seq<T>, i: int)
    requires
        is_heap(s),
        0 <= i,
    ensures
        left_of(i) < s.len() ==> ge(s[i], s[left_of(i)]),
        right_of(i) < s.len() ==> ge(s[i], s[right_of(i)]),
{
    if left_of(i) < s.len() {
        assert(below_parent(s, left_of(i)));
    }
    if right_of(i) < s.len() {
        assert(below_parent(s, right_of(i)));
    }
}

/// Whatever insertions and removals a heap goes through, as long as no
/// removal meets an empty heap, it is a heap after every one of them, and
/// its size is the size it started with, plus the insertions, minus the
/// removals.
pub proof fn law_steps_keep_heap<T: PartialOrd>(s: Seq<T>, steps: Seq<Step<T>>)
    requires
        total_order::<T>(),
        is_heap(s),
        steps_allowed(s, steps),
    ensures
        is_heap(after_steps(s, steps)),
        after_steps(s, steps).len() == s.len() + pushes(steps) - pops(steps),
    decreases steps.len(),
{
    if steps.len() > 0 {
        let before = after_steps(s, steps.drop_last());
        law_steps_keep_heap(s, steps.drop_last());
        match steps.last() {
            Step::Push(value) => {
                lemma_with_pushed(before, value);
            },
            Step::Pop => {
                lemma_without_root(before);
            },
        }
    }
}

/// Pushing values one by one onto a heap gives a heap that holds the old
/// entries and the values.
pub proof fn law_with_all_pushed<T: PartialOrd>(s: Seq<T>, values: Seq<T>)
    requires
        total_order::<T>(),
        is_heap(s),
    ensures
        is_heap(with_all_pushed(s, values)),
        with_all_pushed(s, values).len() == s.len() + values.len(),
        with_all_pushed(s, values).to_multiset() == s.to_multiset().add(values.to_multiset()),
    decreases values.len(),
{
    broadcast use vstd::multiset::group_multiset_axioms;

    if values.len() == 0 {
        assert(values.to_multiset().len() == 0) by {
            vstd::seq_lib::to_multiset_len(values);
        }
        assert(with_all_pushed(s, values).to_multiset() =~= s.to_multiset().add(
            values.to_multiset(),
        ));
    } else {
        let front = values.drop_last();
        law_with_all_pushed(s, front);
        lemma_with_pushed(with_all_pushed(s, front), values.last());
        assert(values =~= front.push(values.last()));
        vstd::seq_lib::to_multiset_build(front, values.last());
        assert(with_all_pushed(s, values).to_multiset() =~= s.to_multiset().add(
            values.to_multiset(),
        ));
    }
}

/// Removing the root of a heap until it is empty yields its entries from
/// the highest ranking to the lowest: the roots come out in descending
/// order, and together they are the entries of the heap, each as often as
/// the heap held it.
pub proof fn law_drained_sorted<T: PartialOrd>(s: Seq<T>)
    requires
        total_order::<T>(),
        is_heap(s),
    ensures
        drained(s, s.len()).len() == s.len(),
        is_descending(drained(s, s.len())),
        drained(s, s.len()).to_multiset() == s.to_multiset(),
    decreases s.len(),
{
    broadcast use vstd::multiset::group_multiset_axioms;

    if s.len() == 0 {
        assert(drained(s, s.len()) =~= s);
    } else {
        let rest = without_root(s);
        lemma_without_root(s);
        law_drained_sorted(rest);
        let tail = drained(rest, rest.len());
        let all = drained(s, s.len());
        assert(all == seq![s[0]] + tail);
        assert forall|i: int, j: int| 0 <= i < j < all.len() implies #[trigger] ge(
            all[i],
            all[j],
        ) by {
            if i == 0 {
                vstd::seq_lib::to_multiset_contains(tail, tail[j - 1]);
                assert(tail.contains(tail[j - 1]));
                vstd::seq_lib::to_multiset_contains(s, tail[j - 1]);
                let k = choose|k: int| 0 <= k < s.len() && s[k] == tail[j - 1];
                lemma_root_is_max(s, k);
            } else {
                assert(ge(tail[i - 1], tail[j - 1]));
            }
        }
        assert(all =~= tail.insert(0, s[0]));
        vstd::seq_lib::to_multiset_insert(tail, 0, s[0]);
        vstd::seq_lib::to_multiset_contains(s, s[0]);
        assert(s.contains(s[0]));
        assert(all.to_multiset() =~= s.to_multiset());
    }
}

/// Building a heap from any sequence and removing the root until the heap
/// is empty yields the entries of the sequence in descending order.
pub proof fn law_heap_of_drained<T: PartialOrd>(given: Seq<T>)
    requires
        total_order::<T>(),
    ensures
        is_descending(drained(heap_of(given), given.len())),
        drained(heap_of(given), given.len()).len() == given.len(),
        drained(heap_of(given), given.len()).to_multiset() == given.to_multiset(),
{
    lemma_heap_of(given);
    law_drained_sorted(heap_of(given));
}

/// Pushing the entries of any sequence one by one onto an empty heap and
/// removing the root until the heap is empty yields the entries of the
/// sequence in descending order.
pub proof fn law_pushed_drained<T: PartialOrd>(given: Seq<T>)
    requires
        total_order::<T>(),
    ensures
        is_descending(drained(with_all_pushed(Seq::empty(), given), given.len())),
        drained(with_all_pushed(Seq::empty(), given), given.len()).len() == given.len(),
        drained(with_all_pushed(Seq::empty(), given), given.len()).to_multiset()
            == given.to_multiset(),
{
    broadcast use vstd::multiset::group_multiset_axioms;

    let none = Seq::<T>::empty();
    law_with_all_pushed(none, given);
    law_drained_sorted(with_all_pushed(none, given));
    assert(none.to_multiset().len() == 0) by {
        vstd::seq_lib::to_multiset_len(none);
    }
    assert(none.to_multiset().add(given.to_multiset()) =~= given.to_multiset());
}

/// Two descending sequences of the same entries agree rank by rank: at
/// every index their entries rank level.
pub proof fn law_descending_agree<T: PartialOrd>(a: Seq<T>, b: Seq<T>)
    requires
        total_order::<T>(),
        is_descending(a),
        is_descending(b),
        a.to_multiset() == b.to_multiset(),
    ensures
        a.len() == b.len(),
        forall|i: int| 0 <= i < a.len() ==> #[trigger] level(a[i], b[i]),
    decreases a.len(),
{
    broadcast use vstd::multiset::group_multiset_axioms;

    vstd::seq_lib::to_multiset_len(a);
    vstd::seq_lib::to_multiset_len(b);
    if a.len() > 0 {
        // The first entry of `b` sits somewhere in `a`, at `k`, and the
        // first entry of `a` somewhere in `b`, at `m`.
        vstd::seq_lib::to_multiset_contains(b, b[0]);
        assert(b.contains(b[0]));
        vstd::seq_lib::to_multiset_contains(a, b[0]);
        let k = choose|k: int| 0 <= k < a.len() && a[k] == b[0];
        vstd::seq_lib::to_multiset_contains(a, a[0]);
        assert(a.contains(a[0]));
        vstd::seq_lib::to_multiset_contains(b, a[0]);
        let m = choose|m: int| 0 <= m < b.len() && b[m] == a[0];
        assert(lt(a[0], a[0]) || ge(a[0], a[0]));
        assert(ge(a[0], a[k]));
        assert(ge(b[0], b[m]));
        assert(level(a[0], a[k]));

        // With these two entries of `a` exchanged, `a` is still descending
        // and starts as `b` does.
        let c = a.update(0, a[k]).update(k, a[0]);
        assert forall|i: int, j: int| 0 <= i < j < c.len() implies #[trigger] ge(c[i], c[j]) by {
            assert(ge(a[i], a[j]));
            if i == 0 {
                if j < k {
                    assert(ge(a[k], a[0]) && ge(a[0], a[j]));
                }
            } else if j == k {
                assert(ge(a[i], a[k]) && ge(a[k], a[0]));
            } else if i == k {
                assert(ge(a[0], a[j]));
            }
        }
        vstd::seq_lib::to_multiset_update(a, 0, a[k]);
        vstd::seq_lib::to_multiset_update(a.update(0, a[k]), k, a[0]);
        assert(c.to_multiset() =~= a.to_multiset());

        let c_rest = c.remove(0);
        let b_rest = b.remove(0);
        vstd::seq_lib::to_multiset_remove(c, 0);
        vstd::seq_lib::to_multiset_remove(b, 0);
        assert forall|i: int, j: int| 0 <= i < j < c_rest.len() implies #[trigger] ge(
            c_rest[i],
            c_rest[j],
        ) by {
            assert(ge(c[i + 1], c[j + 1]));
        }
        assert forall|i: int, j: int| 0 <= i < j < b_rest.len() implies #[trigger] ge(
            b_rest[i],
            b_rest[j],
        ) by {
            assert(ge(b[i + 1], b[j + 1]));
        }
        law_descending_agree(c_rest, b_rest);

        assert forall|i: int| 0 <= i < a.len() implies #[trigger] level(a[i], b[i]) by {
            if i == 0 {
            } else {
                assert(level(c_rest[i - 1], b_rest[i - 1]));
                assert(c_rest[i - 1] == c[i] && b_rest[i - 1] == b[i]);
                if i == k {
                    assert(ge(a[k], a[0]) && ge(a[0], b[k]));
                    assert(ge(b[k], a[0]) && ge(a[0], a[k]));
                }
            }
        }
    }
}

/// Pushing the entries of a sequence one by one onto an empty heap, and
/// building a heap from the sequence at once, come to the same when the
/// heap is emptied root by root: the two runs of roots have the length of
/// the sequence and agree rank by rank. Where no two distinct values rank
/// level, they are the same run.
pub proof fn law_round_trip<T: PartialOrd>(given: Seq<T>)
    requires
        total_order::<T>(),
    ensures
        drained(with_all_pushed(Seq::empty(), given), given.len()).len() == given.len(),
        drained(heap_of(given), given.len()).len() == given.len(),
        forall|i: int|
            0 <= i < given.len() ==> #[trigger] level(
                drained(with_all_pushed(Seq::empty(), given), given.len())[i],
                drained(heap_of(given), given.len())[i],
            ),
        strict_order::<T>() ==> drained(with_all_pushed(Seq::empty(), given), given.len())
            == drained(heap_of(given), given.len()),
{
    let one_by_one = drained(with_all_pushed(Seq::empty(), given), given.len());
    let at_once = drained(heap_of(given), given.len());
    law_pushed_drained(given);
    law_heap_of_drained(given);
    law_descending_agree(one_by_one, at_once);
    if strict_order::<T>() {
        assert forall|i: int| 0 <= i < given.len() implies one_by_one[i] == at_once[i] by {
            assert(level(one_by_one[i], at_once[i]));
        }
        assert(one_by_one =~= at_once);
    }
}

} // verus!
