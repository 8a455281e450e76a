use crate::order::{ge, gt, lt};
use vstd::prelude::*;

verus! {

/// Index of the parent of entry `i`, for `i > 0`.
pub open spec fn parent_of(i: int) -> int {
    (i - 1) / 2
}

/// Index of the left child of entry `i`.
pub open spec fn left_of(i: int) -> int {
    2 * i + 1
}

/// Index of the right child of entry `i`.
pub open spec fn right_of(i: int) -> int {
    2 * i + 2
}

/// `s` with the entries at `i` and `j` exchanged.
pub open spec fn swapped<T>(s: Seq<T>, i: int, j: int) -> Seq<T> {
    s.update(i, s[j]).update(j, s[i])
}

/// Entry `c` ranks no higher than its parent.
pub open spec fn below_parent<T: PartialOrd>(s: Seq<T>, c: int) -> bool {
    ge(s[parent_of(c)], s[c])
}

/// The heap property: every entry but the root ranks no higher than its
/// parent.
pub open spec fn is_heap<T: PartialOrd>(s: Seq<T>) -> bool {
    forall|c: int| 0 < c < s.len() ==> #[trigger] below_parent(s, c)
}

/// The heap property for the entries whose parent sits at index `k` or
/// later: every subtree rooted at `k` or later is a heap.
pub open spec fn is_heap_from<T: PartialOrd>(s: Seq<T>, k: int) -> bool {
    forall|c: int| 0 < c < s.len() && k <= parent_of(c) ==> #[trigger] below_parent(s, c)
}

/// Index of the highest ranking entry among `i` and its children. A child
/// wins only if it ranks strictly higher; of two level children the left
/// one wins.
pub open spec fn largest_of<T: PartialOrd>(s: Seq<T>, i: int) -> int {
    let m = if left_of(i) < s.len() && gt(s[left_of(i)], s[i]) {
        left_of(i)
    } else {
        i
    };
    if right_of(i) < s.len() && gt(s[right_of(i)], s[m]) {
        right_of(i)
    } else {
        m
    }
}

/// Moves the entry at `i` down: while a child ranks strictly higher, the
/// entry changes places with its highest ranking child.
pub open spec fn sift_down<T: PartialOrd>(s: Seq<T>, i: int) -> Seq<T>
    decreases s.len() - i,
{
    let m = largest_of(s, i);
    if 0 <= i < m < s.len() {
        sift_down(swapped(s, m, i), m)
    } else {
        s
    }
}

/// Moves the entry at `i` up: while it ranks strictly higher than its
/// parent, the two change places.
pub open spec fn sift_up<T: PartialOrd>(s: Seq<T>, i: int) -> Seq<T>
    decreases i,
{
    if 0 < i < s.len() && lt(s[parent_of(i)], s[i]) {
        sift_up(swapped(s, parent_of(i), i), parent_of(i))
    } else {
        s
    }
}

/// Sifts down the entries `k - 1`, `k - 2`, ..., `0`, in this order.
pub open spec fn heapified<T: PartialOrd>(s: Seq<T>, k: int) -> Seq<T>
    decreases k,
{
    if k <= 0 {
        s
    } else {
        heapified(sift_down(s, k - 1), k - 1)
    }
}

/// The heap built in place from `s`: every entry that has a child is sifted
/// down, the last such entry first.
pub open spec fn heap_of<T: PartialOrd>(s: Seq<T>) -> Seq<T> {
    heapified(s, s.len() as int / 2)
}

/// The heap `s` after `value` is appended and sifted up.
pub open spec fn with_pushed<T: PartialOrd>(s: Seq<T>, value: T) -> Seq<T> {
    sift_up(s.push(value), s.len() as int)
}

/// The non-empty heap `s` after its root is removed: the last entry takes
/// the root's place and is sifted down.
pub open spec fn without_root<T: PartialOrd>(s: Seq<T>) -> Seq<T> {
    sift_down(swapped(s, 0, s.len() - 1).drop_last(), 0)
}

/// The heap `s` after the entries of `values` are pushed onto it, the first
/// entry first.
pub open spec fn with_all_pushed<T: PartialOrd>(s: Seq<T>, values: Seq<T>) -> Seq<T>
    decreases values.len(),
{
    if values.len() == 0 {
        s
    } else {
        with_pushed(with_all_pushed(s, values.drop_last()), values.last())
    }
}

/// The roots that `n` removals in a row take from the heap `s`, in the
/// order in which they leave. Removals stop when the heap is empty.
pub open spec fn drained<T: PartialOrd>(s: Seq<T>, n: nat) -> Seq<T>
    decreases n,
{
    if n == 0 || s.len() == 0 {
        Seq::empty()
    } else {
        seq![s[0]] + drained(without_root(s), (n - 1) as nat)
    }
}

/// No entry of `s` ranks below a later one.
pub open spec fn is_descending<T: PartialOrd>(s: Seq<T>) -> bool {
    forall|i: int, j: int| 0 <= i < j < s.len() ==> #[trigger] ge(s[i], s[j])
}

/// One change to a heap.
pub enum Step<T> {
    /// Insert the value.
    Push(T),
    /// Remove the root.
    Pop,
}

/// The heap `s` after the changes of `steps`, the first one first.
pub open spec fn after_steps<T: PartialOrd>(s: Seq<T>, steps: Seq<Step<T>>) -> Seq<T>
    decreases steps.len(),
{
    if steps.len() == 0 {
        s
    } else {
        let before = after_steps(s, steps.drop_last());
        match steps.last() {
            Step::Push(value) => with_pushed(before, value),
            Step::Pop => without_root(before),
        }
    }
}

/// No removal in `steps` meets an empty heap when the changes start from
/// `s`.
pub open spec fn steps_allowed<T: PartialOrd>(s: Seq<T>, steps: Seq<Step<T>>) -> bool
    decreases steps.len(),
{
    if steps.len() == 0 {
        true
    } else {
        &&& steps_allowed(s, steps.drop_last())
        &&& steps.last() is Pop ==> after_steps(s, steps.drop_last()).len() > 0
    }
}

/// How many insertions `steps` holds.
pub open spec fn pushes<T>(steps: Seq<Step<T>>) -> nat
    decreases steps.len(),
{
    if steps.len() == 0 {
        0
    } else if steps.last() is Push {
        pushes(steps.drop_last()) + 1
    } else {
        pushes(steps.drop_last())
    }
}

/// How many removals `steps` holds.
pub open spec fn pops<T>(steps: Seq<Step<T>>) -> nat
    decreases steps.len(),
{
    if steps.len() == 0 {
        0
    } else if steps.last() is Pop {
        pops(steps.drop_last()) + 1
    } else {
        pops(steps.drop_last())
    }
}

} // verus!
