use std::collections::HashMap;

use h3ron::index::{
    group_indexes_by_resolution, h3indexes_to_indexes, hex_ring_result, hex_ring_size,
    max_k_ring_size, remove_zero_indexes, Index,
};
use h3ron::index_error::IndexError;

#[test]
fn test_h3_to_string() {
    let h3index = 0x89283080ddbffff_u64;
    assert_eq!(Index::from(h3index).to_string(), "89283080ddbffff".to_string());
}

#[test]
fn to_string_of_small_values() {
    assert_eq!(Index::from(0_u64).to_string(), "0");
    assert_eq!(Index::from(0xf_u64).to_string(), "f");
    assert_eq!(Index::from(0x10_u64).to_string(), "10");
    assert_eq!(Index::from(u64::MAX).to_string(), "ffffffffffffffff");
}

#[test]
fn new_from_and_h3index_agree() {
    let h = 0x89283080ddbffff_u64;
    assert_eq!(Index::new(h).h3index(), h);
    let idx: Index = h.into();
    assert_eq!(idx, Index::new(h));
}

#[test]
fn resolution_reads_the_resolution_field() {
    assert_eq!(Index::from(0x89283080ddbffff_u64).resolution(), 9);
    assert_eq!(Index::from(0x88283080ddfffff_u64).resolution(), 8);
    assert_eq!(Index::from(0x8029fffffffffff_u64).resolution(), 0);
    assert_eq!(Index::from(0_u64).resolution(), 0);
}

#[test]
fn get_parent_sets_resolution_and_unused_digits() {
    let idx = Index::from(0x89283080ddbffff_u64);
    assert_eq!(idx.get_parent(8), Index::from(0x88283080ddfffff_u64));
    assert_eq!(idx.get_parent(9), idx);
    assert_eq!(idx.get_parent(10), Index::from(0_u64));
    assert_eq!(idx.get_parent(200), Index::from(0_u64));
    assert_eq!(idx.get_parent(8).get_parent(5), idx.get_parent(5));
    assert_eq!(idx.get_parent(5).resolution(), 5);
}

#[test]
fn parent_and_child_relations() {
    let child = Index::from(0x89283080ddbffff_u64);
    let parent = Index::from(0x88283080ddfffff_u64);
    assert!(parent.is_parent_of(&child));
    assert!(child.is_child_of(&parent));
    assert!(!child.is_parent_of(&parent));
    assert!(!parent.is_child_of(&child));
    assert!(child.is_parent_of(&child));
    let grandparent = child.get_parent(6);
    assert!(grandparent.is_parent_of(&parent));
    assert!(grandparent.is_parent_of(&child));
}

#[test]
fn group_by_resolution() {
    let a = 0x89283080ddbffff_u64;
    let b = 0x88283080ddfffff_u64;
    let c = 0x89283080dcbffff_u64;
    let grouped = group_indexes_by_resolution(vec![
        Index::from(a),
        Index::from(b),
        Index::from(c),
    ]);
    let mut expected: HashMap<u8, Vec<Index>> = HashMap::new();
    expected.insert(9, vec![Index::from(a), Index::from(c)]);
    expected.insert(8, vec![Index::from(b)]);
    assert_eq!(grouped, expected);
    assert!(group_indexes_by_resolution(vec![]).is_empty());
}

#[test]
fn zero_slots_are_removed() {
    let mut v = vec![0, 5, 0, 0, 7, 0];
    remove_zero_indexes(&mut v);
    assert_eq!(v, vec![5, 7]);
    let idx = h3indexes_to_indexes(v);
    assert_eq!(idx, vec![Index::from(5_u64), Index::from(7_u64)]);
}

#[test]
fn hex_ring_outcomes() {
    assert_eq!(
        hex_ring_result(0, vec![0, 3, 0, 4]),
        Ok(vec![Index::from(3_u64), Index::from(4_u64)])
    );
    assert_eq!(hex_ring_result(1, vec![3]), Err(IndexError::PentagonalDistortion));
    assert_eq!(hex_ring_size(0), 1);
    assert_eq!(hex_ring_size(1), 6);
    assert_eq!(hex_ring_size(7), 42);
}

#[test]
fn k_ring_sizes() {
    assert_eq!(max_k_ring_size(0), 1);
    assert_eq!(max_k_ring_size(1), 7);
    assert_eq!(max_k_ring_size(2), 19);
    assert_eq!(max_k_ring_size(10), 331);
}

#[test]
fn distances_are_associated_and_filtered() {
    let idx = Index::from(0x89283080ddbffff_u64);
    let out = idx.associate_index_distances(vec![11, 0, 12, 13, 14], vec![0, 1, 1, 2, 3], 1);
    assert_eq!(
        out,
        vec![(1, Index::from(12_u64)), (2, Index::from(13_u64)), (3, Index::from(14_u64))]
    );
    for (k, index) in out.iter() {
        assert!(*k >= 1);
        assert!(index.h3index() != 0);
    }
    let all = idx.associate_index_distances(vec![11, 12], vec![0, 5], 0);
    assert_eq!(all, vec![(0, Index::from(11_u64)), (5, Index::from(12_u64))]);
}

#[test]
fn range_distances_outcomes() {
    let idx = Index::from(0x89283080ddbffff_u64);
    assert_eq!(
        idx.hex_range_distances_result(0, vec![0, 21, 22], vec![0, 1, 2], 2),
        Ok(vec![(2, Index::from(22_u64))])
    );
    assert_eq!(
        idx.hex_range_distances_result(2, vec![21], vec![1], 0),
        Err(IndexError::PentagonalDistortion)
    );
}
