use zeddy::persistence::{
    active_after_cleanup, config_root_from, plan_space_rows, root_cleanup, state_file, state_root_from, window_needs_write,
    EncodedSpace, PersistedItem, PersistedSpace, RowChange, SaveStep, SpaceKind, StateWriter, StoredRow,
};

fn space(key: &str, items: Vec<PersistedItem>) -> PersistedSpace {
    PersistedSpace {
        key: key.to_owned(),
        name: "/".to_owned(),
        path: Some("/".to_owned()),
        kind: SpaceKind::Folder,
        layout: "{}".to_owned(),
        items,
        expanded: true,
    }
}

fn encoded(key: &str, value: &str) -> EncodedSpace {
    EncodedSpace { key: key.to_owned(), value: value.to_owned() }
}

fn stored(rows: &[(&str, i64, &str)]) -> Vec<StoredRow> {
    rows.iter().map(|(k, o, v)| StoredRow { key: (*k).to_owned(), ordinal: *o, value: (*v).to_owned() }).collect()
}

fn apply(rows: &mut Vec<StoredRow>, plan: &[RowChange]) {
    for change in plan {
        match change {
            RowChange::Delete(key) => rows.retain(|row| &row.key != key),
            RowChange::Upsert(row) => {
                rows.retain(|existing| existing.key != row.key);
                rows.push(row.clone());
            }
        }
    }
    rows.sort_by_key(|row| row.ordinal);
}

#[test]
fn state_paths_are_isolated_from_old_chartr() {
    assert_eq!(state_root_from(Some("/state"), None), Some("/state/chartr-zeddy".to_owned()));
    assert_eq!(state_root_from(None, Some("/home/op")), Some("/home/op/.local/state/chartr-zeddy".to_owned()));
}

#[test]
fn relative_or_missing_state_roots_fall_back_or_fail() {
    assert_eq!(state_root_from(Some("relative"), Some("/home/op")), Some("/home/op/.local/state/chartr-zeddy".to_owned()));
    assert_eq!(state_root_from(Some(""), Some("")), None);
    assert_eq!(state_root_from(None, None), None);
    assert_eq!(state_file("/state/chartr-zeddy"), "/state/chartr-zeddy/state.sqlite");
}

#[test]
fn complete_snapshots_round_trip_in_space_order() {
    let mut rows = Vec::new();
    let plan = plan_space_rows(&rows, &vec![encoded("one", "{1}"), encoded("two", "{2}")]);
    apply(&mut rows, &plan);
    assert_eq!(rows, stored(&[("one", 0, "{1}"), ("two", 1, "{2}")]));
}

#[test]
fn saves_touch_only_changed_rows() {
    let rows = stored(&[("one", 0, "{1}"), ("two", 1, "{2}")]);
    assert!(plan_space_rows(&rows, &vec![encoded("one", "{1}"), encoded("two", "{2}")]).is_empty());
    let renamed = plan_space_rows(&rows, &vec![encoded("one", "{renamed}"), encoded("two", "{2}")]);
    assert_eq!(renamed, vec![RowChange::Upsert(StoredRow { key: "one".to_owned(), ordinal: 0, value: "{renamed}".to_owned() })]);
    let swapped = plan_space_rows(&rows, &vec![encoded("two", "{2}"), encoded("one", "{1}")]);
    assert_eq!(swapped.len(), 2, "reordering updates the ordinals");
    assert!(!window_needs_write(Some(&"{w}".to_owned()), &"{w}".to_owned()));
    assert!(window_needs_write(Some(&"{w}".to_owned()), &"{w2}".to_owned()));
    assert!(window_needs_write(None, &"{w}".to_owned()));
}

#[test]
fn saving_is_a_transaction_that_replaces_removed_spaces() {
    let mut rows = stored(&[("one", 0, "{1}"), ("two", 1, "{2}")]);
    let plan = plan_space_rows(&rows, &vec![encoded("two", "{2}")]);
    assert!(plan.contains(&RowChange::Delete("one".to_owned())));
    apply(&mut rows, &plan);
    assert_eq!(rows.len(), 1);
    assert_eq!(rows[0].key, "two");
}

#[test]
fn delayed_background_requests_cannot_overwrite_a_final_flush() {
    let (mut writer, mut state) = StateWriter::new("{}".to_owned());
    let queued = writer.request("{one}".to_owned());
    let latest = writer.request("{one,wide}".to_owned());
    assert_eq!(latest.save(&mut state), SaveStep::Write);
    latest.committed(&mut state);
    assert_eq!(queued.save(&mut state), SaveStep::Stale);
    let repeat = writer.request("{one,wide}".to_owned());
    assert_eq!(repeat.save(&mut state), SaveStep::Unchanged);
}

#[test]
fn a_failed_write_can_be_retried_with_the_same_snapshot() {
    let (mut writer, mut state) = StateWriter::new("{}".to_owned());
    let first = writer.request("{a}".to_owned());
    assert_eq!(first.save(&mut state), SaveStep::Write);
    // The write failed: nothing is committed, so a retry writes again.
    let retry = writer.request("{a}".to_owned());
    assert_eq!(retry.save(&mut state), SaveStep::Write);
    assert_eq!(retry.revision, 2);
}

#[test]
fn item_ids_are_read_from_either_kind_of_item() {
    let terminal = PersistedItem::Terminal { item_id: 3, backend_id: "pane-1".to_owned() };
    let plugin = PersistedItem::Plugin {
        item_id: 1,
        plugin: "example.plugin".to_owned(),
        pane: "main".to_owned(),
        state: None,
        bound_session: None,
    };
    assert_eq!(terminal.item_id(), 3);
    assert_eq!(plugin.item_id(), 1);
}

#[test]
fn tests_migration_removes_the_empty_root_space_from_registry_and_state() {
    let spaces = vec![space("folder:/", Vec::new())];
    let kept = root_cleanup(&spaces, &vec![true]).unwrap();
    assert!(kept.is_empty());
    let removed = kept.len() != spaces.len();
    assert_eq!(active_after_cleanup(Some("folder:/".to_owned()), &"folder:/".to_owned(), removed), Some("ad-hoc".to_owned()));
}

#[test]
fn tests_migration_keeps_a_root_space_that_owns_items() {
    let spaces = vec![space(
        "folder:/",
        vec![PersistedItem::Plugin {
            item_id: 1,
            plugin: "example.plugin".to_owned(),
            pane: "main".to_owned(),
            state: None,
            bound_session: None,
        }],
    )];
    assert_eq!(root_cleanup(&spaces, &vec![true]), None);
}

#[test]
fn the_cleanup_keeps_spaces_elsewhere_and_other_active_spaces() {
    let mut free = space("ad-hoc", Vec::new());
    free.kind = SpaceKind::AdHoc;
    let spaces = vec![free, space("folder:/", Vec::new()), space("folder:/work", Vec::new())];
    assert_eq!(root_cleanup(&spaces, &vec![true, true, false]), Some(vec![0, 2]));
    assert_eq!(active_after_cleanup(Some("folder:/work".to_owned()), &"folder:/".to_owned(), true), Some("folder:/work".to_owned()));
    assert_eq!(active_after_cleanup(Some("folder:/".to_owned()), &"folder:/".to_owned(), false), Some("folder:/".to_owned()));
    assert_eq!(active_after_cleanup(None, &"folder:/".to_owned(), true), None);
}

#[test]
fn saved_window_state_without_the_setting_shows_the_picker() {
    assert!(zeddy::persistence::default_show_space_picker());
}

#[test]
fn the_configuration_directory_follows_xdg_then_home() {
    assert_eq!(config_root_from(Some("/xdg"), Some("/home/op")), Some("/xdg/chartr".to_owned()));
    assert_eq!(config_root_from(Some("relative"), Some("/home/op")), Some("/home/op/.config/chartr".to_owned()));
    assert_eq!(config_root_from(None, Some("/home/op")), Some("/home/op/.config/chartr".to_owned()));
    assert_eq!(config_root_from(None, None), None);
}
