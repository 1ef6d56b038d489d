use poker_core::tensor::TensorLayout;

#[test]
fn a_layout_has_the_rows_of_the_longer_range() {
    let layout = TensorLayout::new(20, 4, [2, 3]).unwrap();
    assert_eq!(layout.num_infosets(), 20);
    assert_eq!(layout.max_hands(), 3);
    assert_eq!(layout.max_actions(), 4);
    assert_eq!(layout.num_hands(0), 2);
    assert_eq!(layout.num_hands(1), 3);
    assert_eq!(layout.len(), 240);
    assert_eq!(layout.sums_len(), 60);
    let other = TensorLayout::new(1, 2, [7, 5]).unwrap();
    assert_eq!(other.max_hands(), 7);
    assert_eq!(other.len(), 14);
}

#[test]
fn places_run_row_by_row() {
    let layout = TensorLayout::new(20, 4, [2, 3]).unwrap();
    assert_eq!(layout.index(0, 0, 0), Some(0));
    assert_eq!(layout.index(0, 0, 3), Some(3));
    assert_eq!(layout.index(0, 1, 0), Some(4));
    assert_eq!(layout.index(1, 0, 0), Some(12));
    assert_eq!(layout.index(5, 2, 1), Some(5 * 12 + 2 * 4 + 1));
    assert_eq!(layout.index(19, 2, 3), Some(239));
    assert_eq!(layout.sum_index(0, 0), Some(0));
    assert_eq!(layout.sum_index(5, 2), Some(17));
    assert_eq!(layout.sum_index(19, 2), Some(59));
}

#[test]
fn places_out_of_range_are_none() {
    let layout = TensorLayout::new(20, 4, [2, 3]).unwrap();
    assert_eq!(layout.index(20, 0, 0), None);
    assert_eq!(layout.index(0, 3, 0), None);
    assert_eq!(layout.index(0, 0, 4), None);
    assert_eq!(layout.sum_index(20, 0), None);
    assert_eq!(layout.sum_index(0, 3), None);
}

#[test]
fn every_place_is_used_once() {
    let layout = TensorLayout::new(3, 4, [5, 2]).unwrap();
    let mut seen = vec![false; layout.len()];
    for i in 0..3 {
        for h in 0..5 {
            for a in 0..4 {
                let at = layout.index(i, h, a).unwrap();
                assert!(!seen[at]);
                seen[at] = true;
            }
        }
    }
    assert!(seen.iter().all(|&s| s));
}

#[test]
fn tables_too_large_to_address_have_no_layout() {
    assert!(TensorLayout::new(usize::MAX, 2, [1, 1]).is_none());
    assert!(TensorLayout::new(usize::MAX / 2 + 1, 1, [2, 1]).is_none());
    assert!(TensorLayout::new(2, 1, [1, usize::MAX]).is_none());
    assert!(TensorLayout::new(usize::MAX, 1, [1, 1]).is_some());
    assert!(TensorLayout::new(usize::MAX, 5, [0, 0]).is_some());
    assert_eq!(TensorLayout::new(0, 5, [9, 9]).unwrap().len(), 0);
}
