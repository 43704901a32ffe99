use kiosk::list_state::{identity_visual_indices, visual_list_state_from_logical};

#[test]
fn test_identity_mapping() {
    let indices = identity_visual_indices(5);
    let (selected, offset) = visual_list_state_from_logical(&indices, Some(3), 2);
    assert_eq!(selected, Some(3));
    assert_eq!(offset, 2);
}

#[test]
fn test_non_identity_mapping() {
    let indices = vec![1, 2, 4, 5];
    let (selected, offset) = visual_list_state_from_logical(&indices, Some(3), 2);
    assert_eq!(selected, Some(5));
    assert_eq!(offset, 4);
}

#[test]
fn test_zero_offset_stays_at_top() {
    let indices = vec![1, 2, 4, 5];
    let (selected, offset) = visual_list_state_from_logical(&indices, Some(0), 0);
    assert_eq!(selected, Some(1));
    assert_eq!(offset, 0);
}

#[test]
fn test_non_identity_mapping_preserves_logical_distance_to_selection() {
    let indices = vec![1, 2, 4, 6, 7, 9];
    let (selected, offset) = visual_list_state_from_logical(&indices, Some(5), 2);
    assert_eq!(selected, Some(9));
    // selected logical 5 - offset logical 2 == 3 rows; keep same distance in visual space.
    assert_eq!(selected.unwrap_or(0).saturating_sub(offset), 3);
}

#[test]
fn identity_indices_count_up_from_zero() {
    assert_eq!(identity_visual_indices(0), Vec::<usize>::new());
    assert_eq!(identity_visual_indices(3), vec![0, 1, 2]);
}

#[test]
fn empty_indices_give_no_selection_and_top_offset() {
    let (selected, offset) = visual_list_state_from_logical(&[], Some(2), 4);
    assert_eq!(selected, None);
    assert_eq!(offset, 0);
}

#[test]
fn selection_out_of_range_is_dropped_and_offset_is_clamped() {
    let indices = vec![3, 5, 8];
    let (selected, offset) = visual_list_state_from_logical(&indices, Some(7), 10);
    assert_eq!(selected, None);
    assert_eq!(offset, 8);
}

#[test]
fn no_selection_maps_offset_directly() {
    let indices = vec![3, 5, 8];
    let (selected, offset) = visual_list_state_from_logical(&indices, None, 1);
    assert_eq!(selected, None);
    assert_eq!(offset, 5);
}

#[test]
fn selection_above_offset_saturates_to_zero_distance() {
    let indices = vec![3, 5, 8];
    let (selected, offset) = visual_list_state_from_logical(&indices, Some(0), 2);
    assert_eq!(selected, Some(3));
    assert_eq!(offset, 3);
}
