use zeddy::persistence::{PersistedSpace, SpaceKind};
use zeddy::space_order::{plan_space_move, restore_space_order, LiveSpace, SpaceMove};

fn live(key: &str, ad_hoc: bool) -> LiveSpace {
    LiveSpace { key: key.to_owned(), ad_hoc }
}

fn saved(key: &str, kind: SpaceKind) -> PersistedSpace {
    PersistedSpace {
        key: key.to_owned(),
        name: key.to_owned(),
        path: None,
        kind,
        layout: "{}".to_owned(),
        items: Vec::new(),
        expanded: true,
    }
}

#[test]
fn spaces_are_seated_in_the_saved_order() {
    let spaces = vec![live("ad-hoc", true), live("folder:/a", false), live("folder:/b", false)];
    let order = restore_space_order(
        &spaces,
        &vec![saved("folder:/b", SpaceKind::Folder), saved("ad-hoc", SpaceKind::AdHoc), saved("folder:/a", SpaceKind::Folder)],
    );
    assert_eq!(order, vec![2, 0, 1]);
}

#[test]
fn registry_only_spaces_keep_file_order_at_the_end() {
    let spaces = vec![live("folder:/new", false), live("folder:/a", false), live("folder:/b", false)];
    let order = restore_space_order(&spaces, &vec![saved("folder:/b", SpaceKind::Folder), saved("folder:/gone", SpaceKind::Folder)]);
    assert_eq!(order, vec![2, 0, 1]);
}

#[test]
fn an_older_snapshot_without_the_free_space_puts_it_first() {
    let spaces = vec![live("folder:/a", false), live("ad-hoc", true), live("folder:/b", false)];
    let order = restore_space_order(&spaces, &vec![saved("folder:/b", SpaceKind::Folder), saved("folder:/a", SpaceKind::Folder)]);
    assert_eq!(order, vec![1, 2, 0]);
}

#[test]
fn nothing_saved_keeps_the_given_order() {
    let spaces = vec![live("folder:/a", false), live("ad-hoc", true)];
    assert_eq!(restore_space_order(&spaces, &Vec::new()), vec![0, 1]);
}

#[test]
fn a_card_drop_moves_the_space_among_the_movable_cards() {
    // The free space (index 0) is not a card.
    let movable = vec![false, true, true, true];
    assert_eq!(plan_space_move(&movable, 1, 2), SpaceMove::Reordered(vec![0, 2, 3, 1]));
    assert_eq!(plan_space_move(&movable, 3, 0), SpaceMove::Reordered(vec![0, 3, 1, 2]));
    assert_eq!(plan_space_move(&movable, 2, 1), SpaceMove::InPlace);
    assert_eq!(plan_space_move(&movable, 0, 1), SpaceMove::Refused);
    assert_eq!(plan_space_move(&movable, 1, 99), SpaceMove::Reordered(vec![0, 2, 3, 1]));
}
