use shellsort::shellsort;

#[test]
fn sort_empty() {
    let elems: Vec<i32> = vec![];
    let sorted = shellsort(&elems);
    assert_eq!(sorted, Vec::<i32>::new());
}

#[test]
fn sort_singleton() {
    let elems = vec![5];
    let sorted = shellsort(&elems);
    assert_eq!(sorted, vec![5]);
}

#[test]
fn sort_concrete_case() {
    let elems = vec![5, 3, 8, 1, 9, 2];
    let sorted = shellsort(&elems);
    assert_eq!(sorted, vec![1, 2, 3, 5, 8, 9]);
}

#[test]
fn sort_leaves_input_untouched() {
    let elems = vec![9, -7, 0, 3];
    let sorted = shellsort(&elems);
    assert_eq!(elems, vec![9, -7, 0, 3]);
    assert_eq!(sorted, vec![-7, 0, 3, 9]);
}

#[test]
fn sort_is_nondecreasing_permutation() {
    let elems = vec![12, -3, 7, 7, 0, -3, 44, 5, i32::MAX, i32::MIN, 7];
    let sorted = shellsort(&elems);
    for pair in sorted.windows(2) {
        assert!(pair[0] <= pair[1]);
    }
    assert_eq!(sorted.len(), elems.len());
    for value in &elems {
        let count_in = elems.iter().filter(|e| *e == value).count();
        let count_out = sorted.iter().filter(|e| *e == value).count();
        assert_eq!(count_in, count_out);
    }
}

#[test]
fn sort_idempotent() {
    let elems = vec![4, 4, -1, 30, 2, 2, 2, -8];
    let once = shellsort(&elems);
    let twice = shellsort(&once);
    assert_eq!(twice, once);
}

#[test]
fn sort_keeps_duplicates() {
    let elems = vec![3, 1, 3, 2, 1];
    let sorted = shellsort(&elems);
    assert_eq!(sorted, vec![1, 1, 2, 3, 3]);
}

#[test]
fn sort_length_five_uses_only_small_gaps() {
    // With five elements every gap above 4 is a no-op; the work is done by
    // the passes with gaps 4 and 1, and no index ever leaves the vector.
    let elems = vec![5, 4, 3, 2, 1];
    let sorted = shellsort(&elems);
    assert_eq!(sorted, vec![1, 2, 3, 4, 5]);
}

#[test]
fn sort_long_reversed_exercises_every_gap() {
    // 800 elements: even the widest gap, 701, moves something.
    let elems: Vec<i32> = (0..800).rev().collect();
    let sorted = shellsort(&elems);
    let expected: Vec<i32> = (0..800).collect();
    assert_eq!(sorted, expected);
}
