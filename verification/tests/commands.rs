use zeddy::commands::{
    clamp_selection, commands_matching, filtered_commands, find_text, select_down, select_up, PaletteCommand,
};

#[test]
fn an_empty_query_lists_every_command_in_order() {
    let all = filtered_commands("   ");
    assert_eq!(all, PaletteCommand::all());
    assert_eq!(all.len(), 13);
    assert_eq!(all[0], PaletteCommand::NewTerminal);
    assert_eq!(all[12], PaletteCommand::OpenSettings);
}

#[test]
fn typing_filters_by_label_case_insensitively() {
    assert_eq!(filtered_commands("settings"), vec![PaletteCommand::OpenSettings]);
    assert_eq!(filtered_commands("  SETTINGS "), vec![PaletteCommand::OpenSettings]);
    assert_eq!(
        filtered_commands("focus"),
        vec![PaletteCommand::FocusLeft, PaletteCommand::FocusRight, PaletteCommand::FocusUp, PaletteCommand::FocusDown]
    );
    assert!(filtered_commands("no matching command").is_empty());
}

#[test]
fn a_lowered_query_matches_lowered_labels() {
    let query: Vec<char> = "close".chars().collect();
    assert_eq!(commands_matching(&query), vec![PaletteCommand::CloseItem, PaletteCommand::CloseAllItems]);
}

#[test]
fn arrow_keys_wrap_around_the_list() {
    assert_eq!(select_down(0, 13), 1);
    assert_eq!(select_down(12, 13), 0);
    assert_eq!(select_up(0, 13), 12);
    assert_eq!(select_up(5, 13), 4);
    assert_eq!(select_up(select_down(7, 13), 13), 7);
    let listed = filtered_commands("");
    assert_eq!(listed[select_down(0, listed.len())], PaletteCommand::CloseItem);
}

#[test]
fn a_selection_past_the_filtered_list_returns_to_the_top() {
    assert_eq!(clamp_selection(5, 1), 0);
    assert_eq!(clamp_selection(0, 0), 0);
    assert_eq!(clamp_selection(2, 4), 2);
}

#[test]
fn labels_and_shortcuts_are_stable() {
    assert_eq!(PaletteCommand::NewTerminal.label(), "Workspace: New Terminal");
    assert_eq!(PaletteCommand::NewTerminal.shortcut(), "Ctrl+~");
    assert_eq!(PaletteCommand::FocusLeft.shortcut(), "Cmd/Ctrl+K ←");
    assert_eq!(PaletteCommand::JoinPane.shortcut(), "");
}

#[test]
fn substring_search_finds_every_position() {
    let hay: Vec<char> = "abcabc".chars().collect();
    assert!(find_text(&hay, &"cab".chars().collect()));
    assert!(find_text(&hay, &"abc".chars().collect()));
    assert!(find_text(&hay, &Vec::new()));
    assert!(!find_text(&hay, &"abd".chars().collect()));
    assert!(!find_text(&hay, &"abcabca".chars().collect()));
}
