use swiftlearner::dataset::argmax_first;
use swiftlearner::dataset::num_classes;
use swiftlearner::dataset::one_hot;
use swiftlearner::sampling::shuffle;
use swiftlearner::sampling::split_train_test;

#[test]
fn test_shuffle_keeps_elements() {
    let original: Vec<u32> = (0..50).collect();
    let mut shuffled = original.clone();
    shuffle(&mut shuffled, Some(7));
    assert_eq!(shuffled.len(), original.len());
    let mut sorted = shuffled.clone();
    sorted.sort();
    assert_eq!(sorted, original);
}

#[test]
fn test_shuffle_same_seed_same_order() {
    let mut first: Vec<u32> = (0..50).collect();
    let mut second: Vec<u32> = (0..50).collect();
    shuffle(&mut first, Some(42));
    shuffle(&mut second, Some(42));
    assert_eq!(first, second);
}

#[test]
fn test_shuffle_unseeded_keeps_elements() {
    let mut data: Vec<u32> = (0..20).collect();
    shuffle(&mut data, None);
    let mut sorted = data.clone();
    sorted.sort();
    assert_eq!(sorted, (0..20).collect::<Vec<u32>>());
}

#[test]
fn test_split_train_test_two_thirds() {
    let (train, test) = split_train_test(vec![1, 2, 3, 4, 5, 6]);
    assert_eq!(train, vec![1, 2, 3, 4]);
    assert_eq!(test, vec![5, 6]);

    let (train, test) = split_train_test(vec![1, 2, 3, 4, 5]);
    assert_eq!(train, vec![1, 2, 3]);
    assert_eq!(test, vec![4, 5]);

    let (train, test) = split_train_test(Vec::<u8>::new());
    assert!(train.is_empty());
    assert!(test.is_empty());
}

#[test]
fn test_num_classes_empty() {
    let data: Vec<(usize, ())> = Vec::new();
    assert_eq!(num_classes(&data), 0);
}

#[test]
fn test_num_classes_max_plus_one() {
    let data: Vec<(usize, ())> = vec![(2, ()), (0, ()), (1, ())];
    assert_eq!(num_classes(&data), 3);
}

#[test]
fn test_one_hot_target() {
    let target = one_hot(0.0f32, 1.0f32, 4, 2);
    assert_eq!(target, vec![0.0, 0.0, 1.0, 0.0]);
    let lone = one_hot(0u8, 1u8, 1, 0);
    assert_eq!(lone, vec![1]);
}

#[test]
fn test_argmax_first_index_wins_ties() {
    assert_eq!(argmax_first(&vec![]), 0);
    assert_eq!(argmax_first(&vec![7]), 0);
    assert_eq!(argmax_first(&vec![5, 9, 9, 3]), 1);
    assert_eq!(argmax_first(&vec![2, 2, 2]), 0);
}

#[test]
fn test_argmax_first_on_activation_bits() {
    let outputs = vec![0.25f32, 0.75f32, 0.75f32, 0.1f32];
    let bits: Vec<u32> = outputs.iter().map(|o| o.to_bits()).collect();
    assert_eq!(argmax_first(&bits), 1);
}
