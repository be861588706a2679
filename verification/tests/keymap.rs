use zeddy::keymap::{keymap_file, Error, KeymapAction, KeymapStore, Platform};

fn to_toml(store: &KeymapStore) -> String {
    let mut bindings = toml::Table::new();
    for (id, key) in store.bindings() {
        bindings.insert(id.clone(), toml::Value::String(key.clone()));
    }
    let mut content = toml::Table::new();
    content.insert("bindings".to_owned(), toml::Value::Table(bindings));
    toml::to_string_pretty(&content).unwrap()
}

fn from_toml(text: &str) -> KeymapStore {
    let content: toml::Table = text.parse().unwrap();
    let mut bindings = Vec::new();
    if let Some(toml::Value::Table(table)) = content.get("bindings") {
        for (id, key) in table {
            bindings.push((id.clone(), key.as_str().unwrap().to_owned()));
        }
    }
    KeymapStore::from_file(Platform::Other, bindings, None)
}

#[test]
fn sparse_overrides_round_trip_and_defaults_remain() {
    let mut store = KeymapStore::from_file(Platform::Other, Vec::new(), None);
    store.set(KeymapAction::CloseItem, "ctrl-alt-w".to_owned(), true).unwrap();
    assert_eq!(store.save_plan(), Ok(true));
    let loaded = from_toml(&to_toml(&store));
    assert_eq!(loaded.key(KeymapAction::CloseItem), "ctrl-alt-w");
    assert_eq!(loaded.key(KeymapAction::ToggleZoom), KeymapAction::ToggleZoom.default_key());
}

#[test]
fn conflicts_in_the_chartr_context_are_refused() {
    let mut store = KeymapStore::bare(Platform::Other);
    let key = store.key(KeymapAction::CloseItem).to_owned();
    let error = store.set(KeymapAction::NewTerminal, key, true).unwrap_err();
    assert!(matches!(error, Error::Conflict { action: KeymapAction::CloseItem, .. }));
}

#[test]
fn setting_the_default_chord_removes_the_override() {
    let mut store = KeymapStore::bare(Platform::Other);
    store.set(KeymapAction::ToggleZoom, "ctrl-z".to_owned(), true).unwrap();
    assert_eq!(store.bindings().len(), 1);
    store.set(KeymapAction::ToggleZoom, "shift-escape".to_owned(), true).unwrap();
    assert!(store.bindings().is_empty());
    assert_eq!(store.key(KeymapAction::ToggleZoom), "shift-escape");
}

#[test]
fn blank_and_unparsable_chords_are_invalid() {
    let mut store = KeymapStore::bare(Platform::Other);
    assert!(matches!(store.set(KeymapAction::CloseItem, "   ".to_owned(), true), Err(Error::Invalid(k)) if k == "   "));
    assert!(matches!(store.set(KeymapAction::CloseItem, "nonsense".to_owned(), false), Err(Error::Invalid(_))));
    assert_eq!(store.key(KeymapAction::CloseItem), "ctrl-w");
}

#[test]
fn platform_defaults_differ_where_the_platform_key_does() {
    assert_eq!(KeymapAction::CloseItem.default_key_on(Platform::MacOs), "cmd-w");
    assert_eq!(KeymapAction::CloseItem.default_key_on(Platform::Other), "ctrl-w");
    assert_eq!(KeymapAction::NewTerminal.default_key_on(Platform::MacOs), "ctrl-~");
    assert_eq!(KeymapAction::FocusLeft.default_key_on(Platform::Other), "ctrl-k ctrl-left");
}

#[test]
fn actions_have_stable_ids_and_titles() {
    assert_eq!(KeymapAction::all().len(), 9);
    assert_eq!(KeymapAction::CloseItem.id(), "pane.close_active_item");
    assert_eq!(KeymapAction::CommandPalette.id(), "command_palette.toggle");
    assert_eq!(KeymapAction::OpenSettings.title(), "Open Settings");
}

#[test]
fn an_unreadable_keymap_is_never_overwritten() {
    let store = KeymapStore::from_file(Platform::Other, Vec::new(), Some("bad toml".to_owned()));
    assert_eq!(
        store.save_plan(),
        Err("bad toml; Chartr will not overwrite a keymap it cannot read".to_owned())
    );
    assert_eq!(KeymapStore::bare(Platform::Other).save_plan(), Ok(false));
}

#[test]
fn later_file_entries_replace_earlier_ones() {
    let store = KeymapStore::from_file(
        Platform::Other,
        vec![
            ("pane.close_active_item".to_owned(), "ctrl-q".to_owned()),
            ("pane.close_active_item".to_owned(), "ctrl-e".to_owned()),
        ],
        None,
    );
    assert_eq!(store.key(KeymapAction::CloseItem), "ctrl-e");
    assert_eq!(store.bindings().len(), 1);
}

#[test]
fn the_keymap_lives_in_the_configuration_directory() {
    assert_eq!(keymap_file("/home/op/.config/chartr"), "/home/op/.config/chartr/keymap.toml");
}

#[test]
fn default_chords_are_distinct_and_each_can_be_set_on_a_bare_keymap() {
    for platform in [Platform::MacOs, Platform::Other] {
        let actions = KeymapAction::all();
        for a in &actions {
            for b in &actions {
                if a != b {
                    assert_ne!(a.default_key_on(platform), b.default_key_on(platform));
                }
            }
            let mut store = KeymapStore::bare(platform);
            assert!(store.set(*a, a.default_key_on(platform).to_owned(), true).is_ok());
            assert!(store.bindings().is_empty());
        }
    }
}
