use bitree::BITree;

fn naive_prefix(values: &[i64], k: usize) -> i64 {
    values[..k].iter().sum()
}

#[test]
fn readme_demo() {
    let mut bitree = BITree::from_vec(vec![1usize, 6, 3, 9, 2]);
    assert_eq!(bitree.prefix_sum(0), 0);
    assert_eq!(bitree.prefix_sum(3), 10);
    assert_eq!(bitree.prefix_sum(5), 21);

    bitree.add_at(1, 5);
    assert_eq!(bitree.prefix_sum(3), 15);

    bitree.push(4);
    assert_eq!(bitree.prefix_sum(6), 30);
    bitree.pop();
    assert_eq!(bitree.prefix_sum(5), 26);

    let bitree = BITree::from_vec(vec![1usize, 6, 3, 9, 2]);
    assert_eq!(bitree.binary_search(7), Ok(2));
    assert_eq!(bitree.binary_search(9), Err(3));

    let mut remaining = 9usize;
    let pos = bitree.sub_binary_search(&mut remaining);
    assert_eq!((pos, remaining), (2, 2));

    let values = bitree.into_vec();
    assert_eq!(values, vec![1, 6, 3, 9, 2]);
}

#[test]
fn into_iter_forward_and_reverse() {
    let bitree = BITree::from_vec(vec![1, 6, 3, 9, 2]);
    let forward: Vec<_> = bitree.clone().into_iter().collect();
    assert_eq!(forward, vec![1, 6, 3, 9, 2]);
    let reversed: Vec<_> = bitree.into_iter().rev().collect();
    assert_eq!(reversed, vec![2, 9, 3, 6, 1]);
}

#[test]
fn restores_values_after_updates() {
    let mut bitree = BITree::from_vec(vec![1, 6, 3, 9, 2]);
    bitree.add_at(1, 5);
    bitree.sub_at(3, 4);
    bitree.push(7);
    assert_eq!(bitree.into_vec(), vec![1, 11, 3, 5, 2, 7]);
}

#[test]
fn round_trip_many_lengths() {
    for n in 0..70usize {
        let values: Vec<i64> = (0..n as i64).map(|i| (i * 37 % 11) - 5).collect();
        let bitree = BITree::from_vec(values.clone());
        for k in 0..=n {
            assert_eq!(bitree.prefix_sum(k), naive_prefix(&values, k), "n={} k={}", n, k);
        }
        assert_eq!(bitree.into_vec(), values);
    }
}

#[test]
fn push_builds_same_nodes_as_from_vec() {
    let values: Vec<u64> = (1..=40).map(|i| i * 3 % 7).collect();
    let mut pushed = BITree::new();
    for &v in values.iter() {
        pushed.push(v);
    }
    let built = BITree::from_vec(values.clone());
    assert_eq!(pushed.nodes(), built.nodes());
}

#[test]
fn prefix_sum_accumulators() {
    let bitree = BITree::from_vec(vec![1, 6, 3, 9, 2]);
    let mut running = 100;
    bitree.add_prefix_sum(3, &mut running);
    assert_eq!(running, 110);

    let mut running = 100;
    bitree.sub_prefix_sum(3, &mut running);
    assert_eq!(running, 90);

    let mut untouched = 42;
    bitree.add_prefix_sum(0, &mut untouched);
    assert_eq!(untouched, 42);
}

#[test]
fn sub_at_lowers_prefix_sums() {
    let mut bitree = BITree::from_vec(vec![1, 6, 3, 9, 2]);
    bitree.sub_at(3, 4);
    assert_eq!(bitree.prefix_sum(5), 17);
    assert_eq!(bitree.prefix_sum(3), 10);
}

#[test]
fn add_at_shifts_only_covering_prefix_sums() {
    let values: Vec<i64> = vec![4, -2, 7, 0, 5, 5, -1, 3, 8];
    for index in 0..values.len() {
        let mut bitree = BITree::from_vec(values.clone());
        bitree.add_at(index, 10);
        for k in 0..=values.len() {
            let expected = naive_prefix(&values, k) + if index < k { 10 } else { 0 };
            assert_eq!(bitree.prefix_sum(k), expected);
        }
        bitree.sub_at(index, 10);
        assert_eq!(bitree.into_vec(), values);
    }
}

#[test]
fn push_then_pop_restores() {
    let mut bitree = BITree::from_vec(vec![3u32, 1, 4, 1, 5]);
    let before: Vec<u32> = bitree.nodes().to_vec();
    bitree.push(9);
    assert_eq!(bitree.len(), 6);
    assert_eq!(bitree.prefix_sum(6), 23);
    assert!(bitree.pop());
    assert_eq!(bitree.nodes(), before);
}

#[test]
fn binary_search_doc_examples() {
    let bitree = BITree::from_vec(vec![1, 6, 3, 9, 2]);
    assert_eq!(bitree.binary_search(0), Ok(0));
    assert_eq!(bitree.binary_search(7), Ok(2));
    assert_eq!(bitree.binary_search(21), Ok(5));
    assert_eq!(bitree.binary_search(6), Err(2));
    assert_eq!(bitree.binary_search(9), Err(3));
    assert_eq!(bitree.binary_search(22), Err(6));
}

#[test]
fn binary_search_below_zero_and_empty() {
    let bitree = BITree::from_vec(vec![1i32, 6, 3]);
    assert_eq!(bitree.binary_search(-1), Err(0));

    let empty = BITree::<i64>::new();
    assert!(empty.is_empty());
    assert_eq!(empty.binary_search(-1), Err(0));
    assert_eq!(empty.binary_search(0), Ok(0));
    assert_eq!(empty.binary_search(1), Err(1));
}

#[test]
fn binary_search_with_zero_slots_finds_last_match() {
    // prefix sums: 0, 2, 2, 2, 5
    let bitree = BITree::from_vec(vec![2u16, 0, 0, 3]);
    assert_eq!(bitree.binary_search(2), Ok(3));
    assert_eq!(bitree.binary_search(0), Ok(0));
    assert_eq!(bitree.binary_search(4), Err(4));
}

#[test]
fn sub_binary_search_doc_examples() {
    let bitree = BITree::from_vec(vec![1, 6, 3, 9, 2]);
    let mut remaining = 9;
    assert_eq!((bitree.sub_binary_search(&mut remaining), remaining), (2, 2));
    let mut remaining = 7;
    assert_eq!((bitree.sub_binary_search(&mut remaining), remaining), (2, 0));
}

#[test]
fn sub_binary_search_largest_position() {
    let values: Vec<u64> = vec![3, 0, 4, 1, 0, 0, 9, 2, 6, 5, 0, 1];
    let bitree = BITree::from_vec(values.clone());
    let total: u64 = values.iter().sum();
    for target in 0..=total + 3 {
        let mut remaining = target;
        let pos = bitree.sub_binary_search(&mut remaining);
        let expected = (0..=values.len())
            .filter(|&k| values[..k].iter().sum::<u64>() <= target)
            .max()
            .unwrap();
        assert_eq!(pos, expected, "target={}", target);
        assert_eq!(remaining, target - values[..pos].iter().sum::<u64>());
    }
}

#[test]
fn new_zeros_and_empty_constructors() {
    let zeros = BITree::<i8>::new_zeros(9);
    assert_eq!(zeros.len(), 9);
    for k in 0..=9 {
        assert_eq!(zeros.prefix_sum(k), 0);
    }
    assert_eq!(zeros.nodes(), vec![0i8; 9]);

    let empty: BITree<u8> = BITree::with_capacity(10);
    assert!(empty.is_empty());
    assert_eq!(empty.len(), 0);

    let default: BITree<u8> = Default::default();
    assert!(default.is_empty());
}

#[test]
fn nodes_round_trip() {
    let bitree = BITree::from_vec(vec![5i64, -3, 8, 1, 0, 2, 7]);
    let nodes = bitree.clone().into_nodes();
    assert_eq!(nodes, vec![5, 2, 8, 11, 0, 2, 7]);
    let again = BITree::from_nodes(nodes);
    assert_eq!(again.into_vec(), vec![5, -3, 8, 1, 0, 2, 7]);
}

#[test]
fn clone_keeps_values() {
    let bitree = BITree::from_vec(vec![4u128, 8, 15, 16, 23, 42]);
    let copy = bitree.clone();
    assert_eq!(copy.nodes(), bitree.nodes());
    assert_eq!(copy.into_vec(), vec![4, 8, 15, 16, 23, 42]);
}

#[test]
fn power_of_two_and_odd_lengths() {
    for n in [1usize, 2, 3, 4, 7, 8, 15, 16, 17, 31, 32, 33] {
        let bitree = BITree::from_vec(vec![1isize; n]);
        for k in 0..=n {
            assert_eq!(bitree.prefix_sum(k), k as isize);
        }
        for target in 0..=n {
            assert_eq!(bitree.binary_search(target as isize), Ok(target));
        }
        assert_eq!(bitree.binary_search(n as isize + 1), Err(n + 1));
    }
}

#[test]
fn equality_follows_logical_array() {
    let a = BITree::from_vec(vec![1i32, 2, 3, 4]);
    let mut b = BITree::new();
    for v in [1i32, 2, 3, 4] {
        b.push(v);
    }
    assert!(a == b);
    b.add_at(2, 1);
    assert!(a != b);
    b.sub_at(2, 1);
    assert!(a == b);
    b.pop();
    assert!(a != b);
}

#[test]
fn range_sums_from_prefix_differences() {
    let values: Vec<i32> = vec![5, -7, 2, 9, -1, 4, 0, 3];
    let bitree = BITree::from_vec(values.clone());
    for i in 0..=values.len() {
        for j in i..=values.len() {
            let expected: i32 = values[i..j].iter().sum();
            assert_eq!(bitree.prefix_sum(j) - bitree.prefix_sum(i), expected);
        }
    }
}

#[test]
fn signed_updates_and_restore() {
    let mut bitree: BITree<i16> = BITree::new_zeros(6);
    bitree.sub_at(0, 3);
    bitree.add_at(5, 7);
    bitree.sub_at(3, 2);
    assert_eq!(bitree.prefix_sum(4), -5);
    assert_eq!(bitree.prefix_sum(6), 2);
    // prefix sums: 0, -3, -3, -3, -5, -5, 2
    assert_eq!(bitree.binary_search(-5), Ok(5));
    assert_eq!(bitree.into_vec(), vec![-3, 0, 0, -2, 0, 7]);
}
