use zeddy::mode::{space_switcher_visible, Mode};

#[test]
fn toggling_twice_is_the_identity() {
    assert_eq!(Mode::Sidebar.toggled().toggled(), Mode::Sidebar);
    assert_eq!(Mode::Tabs.toggled().toggled(), Mode::Tabs);
}

#[test]
fn the_two_modes_are_the_only_two() {
    assert_eq!(Mode::default(), Mode::Sidebar);
}

#[test]
fn toggling_switches_to_the_other_mode() {
    assert_eq!(Mode::Sidebar.toggled(), Mode::Tabs);
    assert_eq!(Mode::Tabs.toggled(), Mode::Sidebar);
}

#[test]
fn the_space_switcher_hides_only_in_the_sidebar_when_not_asked_for() {
    assert!(!space_switcher_visible(Mode::Sidebar, false));
    assert!(space_switcher_visible(Mode::Sidebar, true));
    assert!(space_switcher_visible(Mode::Tabs, false));
    assert!(space_switcher_visible(Mode::Tabs, true));
}
