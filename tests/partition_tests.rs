use partition::{partition, partition_index};
use quickcheck::QuickCheck;

#[test]
fn test_empty() {
    let empty: &mut [usize] = &mut [][..];
    assert_eq!((&mut [][..], &mut [][..]), partition(empty, |_| true));
    assert_eq!(0, partition_index(empty, |_| true));
}

#[test]
fn test_single_true() {
    assert_eq!((&mut [1][..], &mut [][..]), partition(&mut [1u8][..], |_| true));
    assert_eq!(1, partition_index(&mut [1u8][..], |_| true));
}

#[test]
fn test_single_false() {
    assert_eq!((&mut [][..], &mut [1][..]), partition(&mut [1u8][..], |_| false));
    assert_eq!(0, partition_index(&mut [1u8][..], |_| false));
}

fn prop_partition(data: Vec<u32>) -> bool {
    let mut data = data;
    let mut trues = data.iter().cloned().filter(|e| e % 2 == 0).collect::<Vec<u32>>();
    let mut falses = data.iter().cloned().filter(|e| e % 2 != 0).collect::<Vec<u32>>();
    let (left, right) = partition(&mut data, |&e| e % 2 == 0);
    trues.sort();
    falses.sort();
    left.sort();
    right.sort();
    trues == left && falses == right
}

fn prop_partition_index(data: Vec<u32>) -> bool {
    let mut data = data;
    let mut trues = data.iter().cloned().filter(|e| e % 2 == 0).collect::<Vec<u32>>();
    let mut falses = data.iter().cloned().filter(|e| e % 2 != 0).collect::<Vec<u32>>();
    let first_false = partition_index(&mut data, |&e| e % 2 == 0);
    let (mut left, mut right) = (
        data[0..first_false].iter().cloned().collect::<Vec<u32>>(),
        data[first_false..].iter().cloned().collect::<Vec<u32>>(),
    );
    trues.sort();
    falses.sort();
    left.sort();
    right.sort();
    trues == left && falses == right
}

#[test]
fn quickcheck() {
    QuickCheck::new().tests(10000).quickcheck(prop_partition as fn(Vec<u32>) -> bool);
    QuickCheck::new().tests(10000).quickcheck(prop_partition_index as fn(Vec<u32>) -> bool);
}

fn sorted(s: &[u8]) -> Vec<u8> {
    let mut v = s.to_vec();
    v.sort();
    v
}

#[test]
fn even_odd_views() {
    let mut even_odd = [0u8, 1, 2, 3, 4, 5, 6];
    let (even, odd) = partition(&mut even_odd, |x| x & 1 == 0);
    assert_eq!(sorted(even), vec![0, 2, 4, 6]);
    assert_eq!(sorted(odd), vec![1, 3, 5]);
    assert_eq!(even.len() + odd.len(), 7);
}

#[test]
fn even_odd_index() {
    let mut even_odd = [0u8, 1, 2, 3, 4, 5, 6];
    let first_odd = partition_index(&mut even_odd, |x| x & 1 == 0);
    assert_eq!(first_odd, 4);
    for (idx, &e) in even_odd.iter().enumerate() {
        if idx < first_odd {
            assert_eq!(e & 1, 0);
        } else {
            assert_eq!(e & 1, 1);
        }
    }
}

#[test]
fn single_rejected_element() {
    let mut data = [5u32];
    {
        let (t, f) = partition(&mut data, |_| false);
        assert!(t.is_empty());
        assert_eq!(f, &mut [5u32][..]);
    }
    assert_eq!(partition_index(&mut data, |_| false), 0);
    assert_eq!(data, [5]);
}

#[test]
fn all_satisfying_gives_full_length() {
    let mut data = [2u32, 4, 6, 8, 10];
    assert_eq!(partition_index(&mut data, |x| x % 2 == 0), 5);
    assert_eq!(data, [2, 4, 6, 8, 10]);
    let (t, f) = partition(&mut data, |_| true);
    assert_eq!(t.len(), 5);
    assert!(f.is_empty());
}

#[test]
fn all_rejected_gives_zero() {
    let mut data = [1u32, 3, 5, 7];
    assert_eq!(partition_index(&mut data, |x| x % 2 == 0), 0);
    let (t, f) = partition(&mut data, |x| *x > 100);
    assert!(t.is_empty());
    assert_eq!(f.len(), 4);
}

#[test]
fn elements_are_swapped_into_place() {
    let mut data = [1u8, 0];
    assert_eq!(partition_index(&mut data, |x| x % 2 == 0), 1);
    assert_eq!(data, [0, 1]);

    let mut data = [1u8, 3, 0, 2];
    assert_eq!(partition_index(&mut data, |x| x % 2 == 0), 2);
    assert_eq!(sorted(&data[..2]), vec![0, 2]);
    assert_eq!(sorted(&data[2..]), vec![1, 3]);
}

#[test]
fn equal_elements_are_kept() {
    let mut data = [7u8, 2, 7, 2, 7];
    let (t, f) = partition(&mut data, |x| *x == 2);
    assert_eq!(t, &mut [2u8, 2][..]);
    assert_eq!(f, &mut [7u8, 7, 7][..]);
}

#[test]
fn index_agrees_with_views() {
    let input = [9u32, 4, 13, 8, 0, 21, 6, 3];
    let mut a = input;
    let mut b = input;
    let idx = partition_index(&mut a, |x| x % 2 == 0);
    let (t, _) = partition(&mut b, |x| x % 2 == 0);
    assert_eq!(idx, 4);
    assert_eq!(t.len(), idx);
}

#[test]
fn repartition_keeps_the_split() {
    let mut data = [9u32, 4, 13, 8, 0, 21, 6, 3];
    let first = partition_index(&mut data, |x| x % 3 == 0);
    let second = partition_index(&mut data, |x| x % 3 == 0);
    assert_eq!(first, 5);
    assert_eq!(second, first);
}

#[test]
fn writes_through_views_reach_the_slice() {
    let mut data = [1u8, 2, 3, 4];
    {
        let (t, f) = partition(&mut data, |x| x % 2 == 0);
        for e in t.iter_mut() {
            *e = 10;
        }
        for e in f.iter_mut() {
            *e = 20;
        }
    }
    assert_eq!(data, [10, 10, 20, 20]);
}
