use zeddy::chrome::{
    item_indicator, same_list, sort_key, tab_position, Activity, DraggedItem, Indicator, SessionStatus, Side,
    TabPosition,
};

fn quiet() -> Activity {
    Activity { status: None, process_running: false, ended: false, bell: false }
}

fn dragged(space: &str, tab: u64, pane: u64, item: u64, top_level: bool) -> DraggedItem {
    DraggedItem { space: space.to_owned(), tab, pane, index: 0, item, top_level, grouped: false }
}

#[test]
fn strip_ends_and_middles_take_their_shapes() {
    assert_eq!(tab_position(0, 4, Some(2)), TabPosition::First);
    assert_eq!(tab_position(3, 4, Some(2)), TabPosition::Last);
    assert_eq!(tab_position(1, 4, Some(2)), TabPosition::Middle(Side::BeforeActive));
    assert_eq!(tab_position(2, 4, Some(2)), TabPosition::Middle(Side::Active));
    assert_eq!(tab_position(2, 4, Some(1)), TabPosition::Middle(Side::AfterActive));
    assert_eq!(tab_position(1, 4, None), TabPosition::Middle(Side::Active));
    assert_eq!(tab_position(0, 1, None), TabPosition::First);
}

#[test]
fn drags_sort_only_within_their_own_list() {
    let outer_a = dragged("folder:a", 1, 10, 100, true);
    let outer_a2 = dragged("folder:a", 2, 11, 101, true);
    let outer_b = dragged("folder:b", 1, 10, 100, true);
    let pane_a = dragged("folder:a", 1, 10, 102, false);
    let pane_a2 = dragged("folder:a", 1, 10, 103, false);
    let other_pane = dragged("folder:a", 1, 11, 104, false);
    assert!(same_list(&outer_a, &outer_a2));
    assert!(!same_list(&outer_a, &outer_b));
    assert!(!same_list(&outer_a, &pane_a));
    assert!(same_list(&pane_a, &pane_a2));
    assert!(!same_list(&pane_a, &other_pane));
    assert_eq!(sort_key(&outer_a), 1);
    assert_eq!(sort_key(&pane_a), 102);
}

#[test]
fn row_marks_follow_their_priority() {
    let ended = Activity { ended: true, bell: true, ..quiet() };
    assert_eq!(item_indicator(ended, None, true), Indicator::Ended);
    assert_eq!(item_indicator(quiet(), None, true), Indicator::Group);
    assert_eq!(item_indicator(Activity { bell: true, ..quiet() }, None, false), Indicator::Bell);
    let working = Activity { status: Some(SessionStatus::Working), ..quiet() };
    assert_eq!(item_indicator(working, None, false), Indicator::Working);
    let blocked = Activity { status: Some(SessionStatus::Blocked), ..quiet() };
    assert_eq!(item_indicator(blocked, None, false), Indicator::Blocked);
    let done = Activity { status: Some(SessionStatus::Done), ..quiet() };
    assert_eq!(item_indicator(done, None, false), Indicator::Done);
    let busy = Activity { status: Some(SessionStatus::Idle), process_running: true, ..quiet() };
    assert_eq!(item_indicator(busy, None, false), Indicator::ProcessRunning);
    let idle = Activity { status: Some(SessionStatus::Unknown), ..quiet() };
    assert_eq!(item_indicator(idle, None, false), Indicator::Idle);
}

#[test]
fn plugin_icons_are_embedded_or_external() {
    let embedded: Vec<char> = "icons/full_screen.svg".chars().collect();
    let external: Vec<char> = "/plugins/x/icons/a.svg".chars().collect();
    assert_eq!(item_indicator(quiet(), Some(&embedded), false), Indicator::PluginIcon { embedded: true });
    assert_eq!(item_indicator(quiet(), Some(&external), false), Indicator::PluginIcon { embedded: false });
    assert_eq!(item_indicator(quiet(), None, false), Indicator::Blank);
}
