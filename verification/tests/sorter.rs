use zeddy::sorter::{find_first, stable_arrangement, DragOrder, ListOrder};

#[test]
fn a_drag_holds_only_keys_the_list_shows() {
    let mut sorter = ListOrder::new();
    assert!(!sorter.drag_move(9, vec![1, 2, 3]));
    assert!(!sorter.is_dragging());
    assert!(sorter.drag_move(2, vec![1, 2, 3]));
    assert!(sorter.is_dragging());
    assert!(sorter.holds(2));
    assert!(!sorter.holds(1));
    // A second drag while one is held is ignored.
    assert!(!sorter.drag_move(3, vec![1, 2, 3]));
    assert!(sorter.holds(2));
}

#[test]
fn reordering_moves_the_held_key_and_clamps_to_the_last_slot() {
    let mut sorter = ListOrder::new();
    sorter.drag_move(1, vec![1, 2, 3, 4]);
    assert!(sorter.reorder_held(2));
    assert_eq!(sorter.arrange(&vec![1, 2, 3, 4]), vec![1, 2, 0, 3]);
    assert!(!sorter.reorder_held(2));
    assert!(sorter.reorder_held(99));
    assert_eq!(sorter.drop_at(None), Some((1, 3)));
}

#[test]
fn release_settles_on_the_nearest_slot() {
    let mut sorter = ListOrder::new();
    sorter.drag_move(4, vec![1, 2, 3, 4]);
    assert_eq!(sorter.drop_at(Some(0)), Some((4, 0)));
    sorter.cancel();
    assert!(!sorter.is_dragging());
    assert_eq!(sorter.drop_at(Some(0)), None);
}

#[test]
fn leaving_the_list_restores_the_model_order() {
    let mut sorter = ListOrder::new();
    sorter.drag_move(3, vec![1, 2, 3]);
    sorter.reorder_held(0);
    assert_eq!(sorter.arrange(&vec![1, 2, 3]), vec![2, 0, 1]);
    sorter.cancel();
    assert_eq!(sorter.arrange(&vec![1, 2, 3]), vec![0, 1, 2]);
}

#[test]
fn arranging_is_stable_and_puts_unknown_keys_last() {
    assert_eq!(stable_arrangement(&vec![30, 10, 20], &vec![10, 99, 20, 30, 98]), vec![3, 0, 2, 1, 4]);
    assert_eq!(stable_arrangement(&vec![], &vec![5, 6]), vec![0, 1]);
    assert_eq!(stable_arrangement(&vec![7, 7], &vec![7, 7]), vec![0, 1]);
}

#[test]
fn the_first_occurrence_ranks_a_key() {
    assert_eq!(find_first(&vec![4, 5, 4], 4), Some(0));
    assert_eq!(find_first(&vec![4, 5, 4], 6), None);
}

#[test]
fn a_drag_order_reports_its_destination() {
    let mut held = DragOrder::start(5, vec![5, 6, 7]).unwrap();
    assert_eq!(held.destination(), (5, 0));
    held.reorder(1);
    assert_eq!(held.order(), &vec![6, 5, 7]);
    assert_eq!(held.destination(), (5, 1));
    assert!(DragOrder::start(8, vec![5]).is_none());
}
