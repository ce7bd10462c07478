use bitree::BITree;

#[test]
fn test_new() {
    let lengths: [usize; 5] = [1, 6, 3, 9, 2];
    let expected_index = vec![1, 7, 3, 19, 2];
    let actual_index = BITree::from_vec(lengths.to_vec());
    assert_eq!(expected_index, actual_index.nodes());

    let n = 5;
    let tree = BITree::<usize>::new_zeros(5);
    assert_eq!(tree.len(), n);
    assert!(!tree.is_empty());
    assert_eq!(tree.prefix_sum(0), 0);
    assert_eq!(tree.prefix_sum(3), 0);
    assert_eq!(tree.prefix_sum(5), 0);
}

#[test]
fn test_prefix_sum() {
    let lengths = [1, 6, 3, 9, 2];
    let bitree = BITree::from_vec(lengths.to_vec());

    let cases: Vec<(usize, usize)> = vec![(0, 0), (1, 1), (2, 7), (3, 10), (4, 19), (5, 21)];
    cases
        .into_iter()
        .for_each(|(idx, expected_sum)| assert_eq!(bitree.prefix_sum(idx), expected_sum))
}

#[test]
fn test_update_index() {
    let lengths = [1, 6, 3, 9, 2];
    let mut bitree = BITree::from_vec(lengths.to_vec());

    let cases: Vec<(usize, usize)> = vec![(0, 2), (1, 8), (2, 3), (3, 20), (4, 2)];

    bitree.add_at(0, 1);

    cases
        .into_iter()
        .for_each(|(idx, expected_value)| assert_eq!(bitree.nodes()[idx], expected_value))
}

#[test]
fn test_binary_search() {
    let lengths = [1, 6, 3, 9, 2];
    let bitree = BITree::from_vec(lengths.to_vec());
    // prefix sums: 0, 1, 7, 10, 19, 21

    let cases: Vec<(usize, Result<usize, usize>)> = vec![
        (0, Ok(0)),
        (1, Ok(1)),
        (7, Ok(2)),
        (10, Ok(3)),
        (19, Ok(4)),
        (21, Ok(5)),
        (6, Err(2)),
        (9, Err(3)),
        (18, Err(4)),
        (20, Err(5)),
        (22, Err(6)),
    ];

    cases
        .into_iter()
        .for_each(|(target, expected)| assert_eq!(bitree.binary_search(target), expected))
}

#[test]
fn test_zero_array() {
    // a tree containing only 0 must not loop endlessly
    let f0: BITree<usize> = BITree::from_vec(vec![0]);
    assert_eq!(f0.prefix_sum(0), 0);
    // prefix sums: [0, 0]; searching for 1 falls past the end.
    assert_eq!(f0.binary_search(1), Err(2));
    let mut remaining = 1usize;
    assert_eq!(f0.sub_binary_search(&mut remaining), 1);
    assert_eq!(remaining, 1);
}

#[test]
fn test_sub_binary_search_empty() {
    let bitree: BITree<usize> = BITree::new();
    let mut remaining = 5;
    assert_eq!(bitree.sub_binary_search(&mut remaining), 0);
    assert_eq!(remaining, 5);
    assert_eq!(bitree.binary_search(0usize), Ok(0));
    assert_eq!(bitree.binary_search(5usize), Err(1));
}

#[test]
fn test_sub_binary_search_single() {
    let bitree = BITree::from_vec(vec![7usize]);
    // prefix sums: 0, 7
    let cases: Vec<(usize, (usize, usize))> =
        vec![(0, (0, 0)), (1, (0, 1)), (7, (1, 0)), (8, (1, 1))];
    cases.into_iter().for_each(|(target, expected)| {
        let mut remaining = target;
        let idx = bitree.sub_binary_search(&mut remaining);
        assert_eq!((idx, remaining), expected, "target={}", target);
    });
}

#[test]
fn test_sub_binary_search_power_of_two_len() {
    // length 4 exercises a tree whose root mask equals n
    let bitree = BITree::from_vec(vec![2usize, 3, 5, 7]);
    // prefix sums: 0, 2, 5, 10, 17
    let cases: Vec<(usize, (usize, usize))> = vec![
        (0, (0, 0)),
        (2, (1, 0)),
        (3, (1, 1)),
        (5, (2, 0)),
        (6, (2, 1)),
        (10, (3, 0)),
        (11, (3, 1)),
        (17, (4, 0)),
        (18, (4, 1)),
    ];
    cases.into_iter().for_each(|(target, expected)| {
        let mut remaining = target;
        let idx = bitree.sub_binary_search(&mut remaining);
        assert_eq!((idx, remaining), expected, "target={}", target);
    });
}

#[test]
fn test_sub_binary_search_uniform_seven() {
    // length 7 (odd, not a power of two) with uniform values:
    // prefix_sum(k) = k.
    let bitree = BITree::from_vec([1usize; 7].to_vec());
    let cases: Vec<(usize, (usize, usize))> = vec![
        (0, (0, 0)),
        (1, (1, 0)),
        (2, (2, 0)),
        (3, (3, 0)),
        (4, (4, 0)),
        (5, (5, 0)),
        (6, (6, 0)),
        (7, (7, 0)),
        (8, (7, 1)),
    ];
    cases.into_iter().for_each(|(target, expected)| {
        let mut remaining = target;
        let idx = bitree.sub_binary_search(&mut remaining);
        assert_eq!((idx, remaining), expected, "target={}", target);
    });
}

#[test]
fn test_sub_binary_search_exceeds_total() {
    let bitree = BITree::from_vec(vec![1usize, 6, 3, 9, 2]);
    // total sum = 21, n = 5
    let mut remaining = 100;
    assert_eq!(bitree.sub_binary_search(&mut remaining), 5);
    assert_eq!(remaining, 100 - 21);
}

#[test]
fn test_push_empty() {
    let mut bitree = BITree::new();
    bitree.push(5);
    assert_eq!(bitree.nodes(), vec![5]);
    assert_eq!(bitree.prefix_sum(1), 5);
}

#[test]
fn test_push_sequence() {
    let mut bitree = BITree::new();
    let values = [1, 6, 3, 9, 2];
    let expected_sums = vec![(1, 1), (2, 7), (3, 10), (4, 19), (5, 21)];

    for &v in values.iter() {
        bitree.push(v);
    }

    expected_sums
        .into_iter()
        .for_each(|(idx, expected_sum)| assert_eq!(bitree.prefix_sum(idx), expected_sum));
}

#[test]
fn test_push_after_initialization() {
    let mut bitree = BITree::from_vec([1, 6, 3].to_vec());
    bitree.push(9);
    bitree.push(2);

    let expected_sums = vec![(1, 1), (2, 7), (3, 10), (4, 19), (5, 21)];
    expected_sums
        .into_iter()
        .for_each(|(idx, expected_sum)| assert_eq!(bitree.prefix_sum(idx), expected_sum));
}

#[test]
fn test_pop_empty() {
    let mut bitree: BITree<usize> = BITree::new();
    assert_eq!(bitree.pop(), false);
}

#[test]
fn test_pop_single() {
    let mut bitree = BITree::from_vec([5].to_vec());
    assert_eq!(bitree.pop(), true);
    assert!(bitree.is_empty());
}

#[test]
fn test_pop_sequence() {
    let mut bitree = BITree::from_vec([1, 6, 3, 9, 2].to_vec());
    assert_eq!(bitree.pop(), true);
    assert_eq!(bitree.pop(), true);
    assert_eq!(bitree.pop(), true);

    assert_eq!(bitree.prefix_sum(1), 1);
    assert_eq!(bitree.prefix_sum(2), 7);
}

#[test]
fn test_push_pop_alternating() {
    let mut bitree = BITree::new();

    bitree.push(1);
    bitree.push(6);
    assert_eq!(bitree.pop(), true);
    bitree.push(3);
    assert_eq!(bitree.pop(), true);
    bitree.push(9);
    bitree.push(2);
    assert_eq!(bitree.pop(), true);

    assert_eq!(bitree.prefix_sum(1), 1);
    assert_eq!(bitree.prefix_sum(2), 10);
}

#[test]
fn test_zero_handling() {
    let mut bitree = BITree::new();
    bitree.push(0);
    bitree.push(0);
    assert_eq!(bitree.pop(), true);
    assert_eq!(bitree.prefix_sum(1), 0);
}

#[test]
fn test_negative_values() {
    let mut bitree: BITree<i32> = BITree::new();
    bitree.push(-1);
    bitree.push(2);
    bitree.push(-3);

    assert_eq!(bitree.pop(), true);
    assert_eq!(bitree.prefix_sum(2), 1);
}
