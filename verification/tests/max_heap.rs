use rust_heaps::MaxHeap;

fn drain(heap: &mut MaxHeap<i32>) -> Vec<i32> {
    let mut out = Vec::new();
    while heap.len() > 0 {
        out.push(heap.pop());
    }
    out
}

#[test]
fn test_maxheap() {
    let all_numbers = vec![
        vec![1, 4, 5, 2, 3, 6, 7, 8, 9],
        vec![18, 59, 8, 90, 41, 28, 41, 14, 16, 4, 0, 57, 51, 67, 0, 10, 43, 38, 81],
        vec![14, 98, 81, 64, 59, 16, 77, 19, 28, 84, 13, 4, 85, 16, 49, 57, 11, 2, 26, 24],
        vec![86, 73, 89, 36, 61, 5, 2, 57, 48, 59, 100, 66, 90, 72, 92, 81, 75, 48, 96, 67],
        vec![24, 45, 3, 80, 21, 76, 57, 93, 77, 79, 30, 41, 17, 86, 17, 63, 36, 6, 42, 48],
        vec![64, 16, 94, 25, 82, 72, 34, 75, 76, 95, 88, 9, 34, 95, 51, 70, 76, 88, 87, 68],
    ];

    let mut all_results = Vec::<Vec<i32>>::new();
    for numbers in all_numbers.iter() {
        let mut results = Vec::new();

        let mut heap = MaxHeap::from_vec(numbers.clone());
        for _ in 0..numbers.len() {
            results.push(heap.pop().clone());
        }

        all_results.push(results);
    }

    assert_eq!(
        all_results,
        vec![
            vec![9, 8, 7, 6, 5, 4, 3, 2, 1],
            vec![90, 81, 67, 59, 57, 51, 43, 41, 41, 38, 28, 18, 16, 14, 10, 8, 4, 0, 0],
            vec![98, 85, 84, 81, 77, 64, 59, 57, 49, 28, 26, 24, 19, 16, 16, 14, 13, 11, 4, 2],
            vec![100, 96, 92, 90, 89, 86, 81, 75, 73, 72, 67, 66, 61, 59, 57, 48, 48, 36, 5, 2],
            vec![93, 86, 80, 79, 77, 76, 63, 57, 48, 45, 42, 41, 36, 30, 24, 21, 17, 17, 6, 3],
            vec![95, 95, 94, 88, 88, 87, 82, 76, 76, 75, 72, 70, 68, 64, 51, 34, 34, 25, 16, 9],
        ]
    );
}

#[test]
fn new_heap_is_empty() {
    let heap = MaxHeap::<i32>::new();
    assert_eq!(heap.len(), 0);
}

#[test]
fn from_empty_vec_is_empty() {
    let mut heap = MaxHeap::<i32>::from_vec(Vec::new());
    assert_eq!(heap.len(), 0);
    assert_eq!(drain(&mut heap), Vec::<i32>::new());
}

fn sorted_descending(values: &[i32]) -> Vec<i32> {
    let mut sorted = values.to_vec();
    sorted.sort();
    sorted.reverse();
    sorted
}

#[test]
fn build_and_drain_nine_values() {
    let mut heap = MaxHeap::from_vec(vec![1, 4, 5, 2, 3, 6, 7, 8, 9]);
    assert_eq!(drain(&mut heap), vec![9, 8, 7, 6, 5, 4, 3, 2, 1]);
}

#[test]
fn build_and_drain_with_duplicates() {
    let mut heap = MaxHeap::from_vec(vec![
        18, 59, 8, 90, 41, 28, 41, 14, 16, 4, 0, 57, 51, 67, 0, 10, 43, 38, 81,
    ]);
    assert_eq!(
        drain(&mut heap),
        vec![90, 81, 67, 59, 57, 51, 43, 41, 41, 38, 28, 18, 16, 14, 10, 8, 4, 0, 0]
    );
}

#[test]
fn drain_is_descending_permutation() {
    let given = vec![7, -3, 7, 0, 12, 5, -3, 100, 1, 1, 1, 42];
    let mut heap = MaxHeap::from_vec(given.clone());
    let out = drain(&mut heap);
    assert_eq!(out.len(), given.len());
    for pair in out.windows(2) {
        assert!(pair[0] >= pair[1]);
    }
    assert_eq!(out, sorted_descending(&given));
}

#[test]
fn len_tracks_pushes_and_pops() {
    let mut heap = MaxHeap::new();
    assert_eq!(heap.len(), 0);
    heap.push(4);
    assert_eq!(heap.len(), 1);
    heap.push(9);
    heap.push(2);
    assert_eq!(heap.len(), 3);
    assert_eq!(heap.pop(), 9);
    assert_eq!(heap.len(), 2);
    heap.push(1);
    assert_eq!(heap.len(), 3);
    assert_eq!(heap.pop(), 4);
    assert_eq!(heap.pop(), 2);
    assert_eq!(heap.pop(), 1);
    assert_eq!(heap.len(), 0);
}

#[test]
fn len_after_from_vec_is_input_length() {
    let heap = MaxHeap::from_vec(vec![3, 1, 2, 3, 3]);
    assert_eq!(heap.len(), 5);
}

#[test]
fn get_is_repeatable_and_keeps_len() {
    let heap = MaxHeap::from_vec(vec![5, 11, 3, 11, 8]);
    assert_eq!(*heap.get(), 11);
    assert_eq!(*heap.get(), 11);
    assert_eq!(*heap.get(), 11);
    assert_eq!(heap.len(), 5);
}

#[test]
fn get_shows_what_pop_returns() {
    let mut heap = MaxHeap::from_vec(vec![2, 8, 6, 1]);
    while heap.len() > 0 {
        let shown = *heap.get();
        assert_eq!(heap.pop(), shown);
    }
}

#[test]
fn push_one_by_one_matches_from_vec() {
    let given = vec![64, 16, 94, 25, 82, 72, 34, 75, 76, 95, 88, 9, 34, 95, 51, 70];
    let mut pushed = MaxHeap::new();
    for value in given.iter() {
        pushed.push(*value);
    }
    let mut built = MaxHeap::from_vec(given.clone());
    let one_by_one = drain(&mut pushed);
    let at_once = drain(&mut built);
    assert_eq!(one_by_one, at_once);
    assert_eq!(one_by_one, sorted_descending(&given));
}

#[test]
fn root_is_maximum_after_every_step() {
    let mut heap = MaxHeap::new();
    let mut mirror: Vec<i32> = Vec::new();
    let script = [5, 3, -1, 9, 9, -1, 2, -1, -1, 7, 0, -1, -1, -1];
    for step in script.iter() {
        if *step >= 0 {
            heap.push(*step);
            mirror.push(*step);
        } else {
            let top = heap.pop();
            let highest = *mirror.iter().max().unwrap();
            assert_eq!(top, highest);
            let at = mirror.iter().position(|v| *v == highest).unwrap();
            mirror.remove(at);
        }
        assert_eq!(heap.len(), mirror.len());
        if heap.len() > 0 {
            assert_eq!(*heap.get(), *mirror.iter().max().unwrap());
        }
    }
}

#[test]
fn single_entry_heap() {
    let mut heap = MaxHeap::from_vec(vec![42]);
    assert_eq!(heap.len(), 1);
    assert_eq!(*heap.get(), 42);
    assert_eq!(heap.pop(), 42);
    assert_eq!(heap.len(), 0);
}

#[test]
fn all_entries_level() {
    let mut heap = MaxHeap::from_vec(vec![7, 7, 7, 7]);
    heap.push(7);
    assert_eq!(drain(&mut heap), vec![7, 7, 7, 7, 7]);
}

#[test]
fn push_ascending_then_descending() {
    let mut heap = MaxHeap::new();
    for value in 0..50 {
        heap.push(value);
    }
    for value in (50..100).rev() {
        heap.push(value);
    }
    let expected: Vec<i32> = (0..100).rev().collect();
    assert_eq!(drain(&mut heap), expected);
}

#[test]
fn heap_of_references() {
    let values = vec![3, 10, 1, 8];
    let mut heap = MaxHeap::new();
    for value in values.iter() {
        heap.push(value);
    }
    assert_eq!(heap.len(), 4);
    assert_eq!(**heap.get(), 10);
    assert_eq!(*heap.pop(), 10);
    assert_eq!(*heap.pop(), 8);
    assert_eq!(*heap.pop(), 3);
    assert_eq!(*heap.pop(), 1);
}

#[test]
fn level_children_keep_storage_order() {
    // Pairs rank by their first field alone, so the second field shows
    // which of two level entries left the heap first.
    #[derive(Debug, Clone, Copy)]
    struct Tagged(i32, char);
    impl PartialEq for Tagged {
        fn eq(&self, other: &Tagged) -> bool {
            self.0 == other.0
        }
    }
    impl PartialOrd for Tagged {
        fn partial_cmp(&self, other: &Tagged) -> Option<std::cmp::Ordering> {
            self.0.partial_cmp(&other.0)
        }
    }
    let mut heap = MaxHeap::from_vec(vec![Tagged(1, 'a'), Tagged(5, 'b'), Tagged(5, 'c')]);
    // Neither child outranks the other, so the left one rises.
    let first = heap.pop();
    assert_eq!((first.0, first.1), (5, 'b'));
    let second = heap.pop();
    assert_eq!((second.0, second.1), (5, 'c'));
    let third = heap.pop();
    assert_eq!((third.0, third.1), (1, 'a'));
}

#[test]
fn debug_output_names_the_type() {
    let heap = MaxHeap::from_vec(vec![1, 2]);
    let text = format!("{:?}", heap);
    assert!(text.contains("MaxHeap"));
}
