use crate::model::{
    heap_of, heapified, is_heap, largest_of, left_of, parent_of, right_of, sift_down, sift_up,
    swapped, with_pushed, without_root,
};
use crate::order::{ge, lt, total_order};
use crate::sift::{lemma_heap_of, lemma_root_is_max, lemma_with_pushed, lemma_without_root};
use vstd::prelude::*;

verus! {

/// A max-heap over an ordered type, stored as an implicit complete binary
/// tree in a flat vector: the children of the entry at `i` sit at `2i + 1`
/// and `2i + 2`, its parent at `(i - 1) / 2`.
///
/// The view of a heap is the sequence of its entries in storage order. It
/// always satisfies [`is_heap`], so its first entry is a maximum.
#[derive(Debug)]
pub struct MaxHeap<T: PartialOrd> {
    vec: Vec<T>,
}

impl<T: PartialOrd> View for MaxHeap<T> {
    type V = Seq<T>;

    closed spec fn view(&self) -> Seq<T> {
        self.vec@
    }
}

/// Exchanges the entries at `a` and `b`.
fn exchange<T>(vec: &mut Vec<T>, a: usize, b: usize)
    requires
        a < old(vec)@.len(),
        b < old(vec)@.len(),
    ensures
        final(vec)@ == swapped(old(vec)@, a as int, b as int),
{
    if a != b {
        let (low, high): (usize, usize) = if a < b {
            (a, b)
        } else {
            (b, a)
        };
        let (head, tail) = vec.split_at_mut(high);
        let (_, rest) = head.split_at_mut(low);
        core::mem::swap(rest.first_mut().unwrap(), tail.first_mut().unwrap());
    }
    assert(vec@ =~= swapped(old(vec)@, a as int, b as int));
}

impl<T: PartialOrd> MaxHeap<T> {
    #[verifier::type_invariant]
    spec fn ordered(&self) -> bool {
        is_heap(self.vec@)
    }

    /// An empty heap.
    pub fn new() -> (heap: MaxHeap<T>)
        ensures
            heap@ == Seq::<T>::empty(),
            is_heap(heap@),
    {
        MaxHeap { vec: Vec::<T>::new() }
    }

    /// Takes over `vec` and reorders it in place into a heap, sifting down
    /// every entry that has a child, from the last such entry back to the
    /// root.
    pub fn from_vec(vec: Vec<T>) -> (heap: MaxHeap<T>)
        requires
            total_order::<T>(),
        ensures
            heap@ == heap_of(vec@),
            is_heap(heap@),
            heap@.len() == vec@.len(),
            heap@.to_multiset() == vec@.to_multiset(),
    {
        let mut vec = vec;
        let ghost given = vec@;
        Self::heapify(&mut vec);
        proof {
            lemma_heap_of(given);
        }
        MaxHeap { vec }
    }

    /// The number of entries.
    pub fn len(&self) -> (n: usize)
        ensures
            n == self@.len(),
            is_heap(self@),
    {
        proof {
            use_type_invariant(self);
        }
        self.vec.len()
    }

    /// Inserts `value`: appends it and sifts it up towards the root.
    pub fn push(&mut self, value: T)
        requires
            total_order::<T>(),
        ensures
            final(self)@ == with_pushed(old(self)@, value),
            is_heap(final(self)@),
            final(self)@.len() == old(self)@.len() + 1,
            final(self)@.to_multiset() == old(self)@.to_multiset().insert(value),
    {
        proof {
            use_type_invariant(&*self);
            lemma_with_pushed(self@, value);
        }
        let mut vec = Vec::<T>::new();
        core::mem::swap(&mut vec, &mut self.vec);
        vec.push(value);
        Self::heapify_up_to_root(&mut vec);
        self.vec = vec;
    }

    /// Removes and returns the root, a maximum of the heap: the last entry
    /// takes its place and is sifted down.
    pub fn pop(&mut self) -> (top: T)
        requires
            total_order::<T>(),
            old(self)@.len() > 0,
        ensures
            top == old(self)@[0],
            forall|i: int| 0 <= i < old(self)@.len() ==> ge(top, #[trigger] old(self)@[i]),
            final(self)@ == without_root(old(self)@),
            is_heap(final(self)@),
            final(self)@.len() == old(self)@.len() - 1,
            final(self)@.to_multiset() == old(self)@.to_multiset().remove(top),
    {
        proof {
            use_type_invariant(&*self);
            lemma_without_root(self@);
            assert forall|i: int| 0 <= i < self@.len() implies ge(self@[0], #[trigger] self@[i]) by {
                lemma_root_is_max(self@, i);
            }
        }
        let mut vec = Vec::<T>::new();
        core::mem::swap(&mut vec, &mut self.vec);
        let last_element_index: usize = vec.len() - 1;
        exchange(&mut vec, 0, last_element_index);
        let val = vec.pop();
        assert(vec@ =~= swapped(old(self)@, 0, old(self)@.len() - 1).drop_last());
        Self::heapify_down_to_leafs(&mut vec, 0);
        self.vec = vec;
        val.unwrap()
    }

    /// The root, a maximum of the heap, which stays in place.
    pub fn get(&self) -> (top: &T)
        requires
            self@.len() > 0,
        ensures
            *top == self@[0],
            is_heap(self@),
            total_order::<T>() ==> forall|i: int|
                0 <= i < self@.len() ==> ge(*top, #[trigger] self@[i]),
    {
        proof {
            use_type_invariant(self);
            if total_order::<T>() {
                assert forall|i: int| 0 <= i < self@.len() implies ge(
                    self@[0],
                    #[trigger] self@[i],
                ) by {
                    lemma_root_is_max(self@, i);
                }
            }
        }
        &self.vec[0]
    }

    fn heapify(vec: &mut Vec<T>)
        requires
            total_order::<T>(),
        ensures
            final(vec)@ == heap_of(old(vec)@),
    {
        let count_of_nodes_that_have_children: usize = vec.len() / 2;
        let mut i: usize = count_of_nodes_that_have_children;
        while i > 0
            invariant
                total_order::<T>(),
                heapified(vec@, i as int) == heap_of(old(vec)@),
            decreases i,
        {
            i = i - 1;
            Self::heapify_down_to_leafs(vec, i);
        }
    }

    fn heapify_up_to_root(vec: &mut Vec<T>)
        requires
            total_order::<T>(),
            old(vec)@.len() > 0,
        ensures
            final(vec)@ == sift_up(old(vec)@, old(vec)@.len() - 1),
    {
        let insertion_index: usize = vec.len() - 1;
        let mut i: usize = insertion_index;
        while i > 0
            invariant
                total_order::<T>(),
                i < vec@.len(),
                sift_up(vec@, i as int) == sift_up(old(vec)@, old(vec)@.len() - 1),
            ensures
                vec@ == sift_up(old(vec)@, old(vec)@.len() - 1),
            decreases i,
        {
            let parent_index: usize = Self::parent_index(i);
            if !Self::swap_if_needed(vec, parent_index, i) {
                break;
            }
            i = parent_index;
        }
    }

    fn heapify_down_to_leafs(vec: &mut Vec<T>, node_index: usize)
        requires
            total_order::<T>(),
        ensures
            final(vec)@ == sift_down(old(vec)@, node_index as int),
    {
        let count_of_nodes_that_have_children: usize = vec.len() / 2;
        let mut parent_index: usize = node_index;
        loop
            invariant
                total_order::<T>(),
                vec@.len() <= usize::MAX,
                count_of_nodes_that_have_children == vec@.len() / 2,
                sift_down(vec@, parent_index as int) == sift_down(old(vec)@, node_index as int),
            ensures
                vec@ == sift_down(old(vec)@, node_index as int),
            decreases vec@.len() - parent_index,
        {
            if parent_index >= count_of_nodes_that_have_children {
                break;
            }
            let left: usize = Self::left_child_index(parent_index);
            let right: usize = Self::right_child_index(parent_index);

            let mut largest_child_index: usize = parent_index;
            if left < vec.len() && vec[left] > vec[largest_child_index] {
                largest_child_index = left;
            }
            if right < vec.len() && vec[right] > vec[largest_child_index] {
                largest_child_index = right;
            }
            assert(largest_child_index == largest_of(vec@, parent_index as int));

            if parent_index == largest_child_index {
                break;
            }
            exchange(vec, largest_child_index, parent_index);
            parent_index = largest_child_index;
        }
    }

    fn parent_index(i: usize) -> (p: usize)
        requires
            i > 0,
        ensures
            p == parent_of(i as int),
    {
        (i - 1) / 2
    }

    fn right_child_index(i: usize) -> (r: usize)
        requires
            2 * i + 2 <= usize::MAX,
        ensures
            r == right_of(i as int),
    {
        2 * i + 2
    }

    fn left_child_index(i: usize) -> (l: usize)
        requires
            2 * i + 1 <= usize::MAX,
        ensures
            l == left_of(i as int),
    {
        2 * i + 1
    }

    /// Exchanges a parent and its child if the parent ranks strictly lower,
    /// and says whether it did.
    fn swap_if_needed(vec: &mut Vec<T>, parent_index: usize, child_index: usize) -> (moved: bool)
        requires
            total_order::<T>(),
            child_index < old(vec)@.len() ==> parent_index < old(vec)@.len(),
        ensures
            moved == (child_index < old(vec)@.len() && lt(
                old(vec)@[parent_index as int],
                old(vec)@[child_index as int],
            )),
            final(vec)@ == if moved {
                swapped(old(vec)@, parent_index as int, child_index as int)
            } else {
                old(vec)@
            },
    {
        if child_index >= vec.len() {
            return false;
        }
        if vec[parent_index] < vec[child_index] {
            exchange(vec, parent_index, child_index);
            true
        } else {
            false
        }
    }
}

} // verus!
