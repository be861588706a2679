use zeddy::backend::Backend;
use zeddy::persistence::{PersistedSpace, SpaceKind};
use zeddy::restore::{
    failure_text, free_sessions_home, initial_active, restore_plan, restore_problem, restore_ready, seat_spaces,
    space_descriptors, PaneSource, RegisteredSpace, RestoreFacts, RestoreFailure, Seat,
};

fn keys(list: &[&str]) -> Vec<String> {
    list.iter().map(|k| (*k).to_owned()).collect()
}

fn ready_facts() -> RestoreFacts {
    RestoreFacts {
        listed: true,
        restorable: true,
        bound: false,
        session_alive: false,
        in_layout: true,
        enabled: true,
        source: Some(PaneSource::Web),
    }
}

#[test]
fn the_opened_folder_wins_then_the_saved_active_space_then_the_first() {
    let spaces = keys(&["ad-hoc", "folder:/a", "folder:/b"]);
    assert_eq!(initial_active(&vec![false, false, true], &spaces, Some(&"folder:/a".to_owned())), Some(2));
    assert_eq!(initial_active(&vec![false, false, false], &spaces, Some(&"folder:/a".to_owned())), Some(1));
    assert_eq!(initial_active(&vec![false, false, false], &spaces, Some(&"folder:/gone".to_owned())), Some(0));
    assert_eq!(initial_active(&vec![false, false, false], &spaces, None), Some(0));
    assert_eq!(initial_active(&Vec::new(), &Vec::new(), None), None);
}

#[test]
fn plugins_restore_once_the_backend_has_settled() {
    assert!(restore_ready(false, &Backend::Ready));
    assert!(restore_ready(false, &Backend::Failed("down".to_owned())));
    assert!(!restore_ready(false, &Backend::Starting));
    assert!(!restore_ready(false, &Backend::Recovering("again".to_owned())));
    assert!(!restore_ready(true, &Backend::Ready));
}

#[test]
fn each_saved_item_is_checked_in_order() {
    assert_eq!(restore_plan(ready_facts()), Ok(PaneSource::Web));
    assert_eq!(restore_plan(RestoreFacts { listed: false, restorable: false, ..ready_facts() }), Err(RestoreFailure::Unavailable));
    assert_eq!(restore_plan(RestoreFacts { restorable: false, ..ready_facts() }), Err(RestoreFailure::NotRestorable));
    assert_eq!(restore_plan(RestoreFacts { bound: true, ..ready_facts() }), Err(RestoreFailure::LostSession));
    assert_eq!(restore_plan(RestoreFacts { bound: true, session_alive: true, ..ready_facts() }), Ok(PaneSource::Web));
    assert_eq!(restore_plan(RestoreFacts { in_layout: false, ..ready_facts() }), Err(RestoreFailure::NoLayoutItem));
    assert_eq!(restore_plan(RestoreFacts { enabled: false, ..ready_facts() }), Err(RestoreFailure::Disabled));
    assert_eq!(restore_plan(RestoreFacts { source: None, ..ready_facts() }), Err(RestoreFailure::NoLongerContributed));
}

#[test]
fn failures_are_reported_in_one_message() {
    let first = failure_text("example.plugin", "main", RestoreFailure::Unavailable);
    assert_eq!(first, "example.plugin:main is unavailable");
    let second = failure_text("com.chartr.browser", "browser", RestoreFailure::LostSession);
    assert_eq!(
        restore_problem(&vec![first, second]),
        Some("Some plugin items could not be restored: example.plugin:main is unavailable, com.chartr.browser:browser lost its bound session.".to_owned())
    );
    assert_eq!(restore_problem(&Vec::new()), None);
}

fn saved_space(name: &str, path: Option<&str>, kind: SpaceKind) -> PersistedSpace {
    PersistedSpace {
        key: format!("saved:{}", name),
        name: name.to_owned(),
        path: path.map(|p| p.to_owned()),
        kind,
        layout: String::new(),
        items: Vec::new(),
        expanded: false,
    }
}

fn path_matrix(paths: &[&str]) -> Vec<Vec<bool>> {
    paths.iter().map(|a| paths.iter().map(|b| a == b).collect()).collect()
}

#[test]
fn free_sessions_work_in_the_configured_directory_else_home_else_the_working_directory() {
    assert_eq!(free_sessions_home(Some("/work"), Some("/home/op"), "/tmp/run"), "/work");
    assert_eq!(free_sessions_home(None, Some("/home/op"), "/tmp/run"), "/home/op");
    assert_eq!(free_sessions_home(Some("relative"), Some("/home/op"), "/tmp/run"), "/tmp/run");
    assert_eq!(free_sessions_home(None, None, "/tmp/run"), "/tmp/run");
    assert_eq!(free_sessions_home(Some(""), Some("/home/op"), "/tmp/run"), "/tmp/run");
}

#[test]
fn registry_spaces_at_home_are_folded_into_free_sessions() {
    // Candidates: home, registry a, registry at home, registry b.
    let same = path_matrix(&["/home/op", "/a", "/home/op", "/b"]);
    let seats = seat_spaces(&same, 3, &Vec::new());
    assert_eq!(seats, vec![Seat::FreeSessions, Seat::Registered(0), Seat::Registered(2)]);
}

#[test]
fn saved_folders_are_added_once_and_only_when_no_listed_space_shares_their_path() {
    // Candidates: home, registry /a, then saved /a, /c, /c, /home/op.
    let same = path_matrix(&["/home/op", "/a", "/a", "/c", "/c", "/home/op"]);
    let seats = seat_spaces(&same, 1, &vec![true, true, true, true]);
    assert_eq!(seats, vec![Seat::FreeSessions, Seat::Registered(0), Seat::Saved(1)]);
    // A saved space that cannot be listed does not hide a later one.
    let seats = seat_spaces(&same, 1, &vec![true, false, true, true]);
    assert_eq!(seats, vec![Seat::FreeSessions, Seat::Registered(0), Seat::Saved(2)]);
}

#[test]
fn the_start_up_list_names_each_space_with_its_path_and_kind() {
    let home = "/home/op".to_owned();
    let registry = vec![
        RegisteredSpace { name: "api".to_owned(), path: "/src/api".to_owned() },
        RegisteredSpace { name: "op".to_owned(), path: "/home/op".to_owned() },
    ];
    let saved = vec![
        saved_space("scratch", None, SpaceKind::AdHoc),
        saved_space("api again", Some("/src/api"), SpaceKind::Folder),
        saved_space("web", Some("/src/web"), SpaceKind::Folder),
        saved_space("pathless", None, SpaceKind::Folder),
    ];
    let same = path_matrix(&["/home/op", "/src/api", "/home/op", "", "/src/api", "/src/web", ""]);
    let listed = space_descriptors(&home, &registry, &saved, &same);
    let view: Vec<(String, String, SpaceKind)> =
        listed.into_iter().map(|d| (d.name, d.path, d.kind)).collect();
    assert_eq!(
        view,
        vec![
            ("Free sessions".to_owned(), "/home/op".to_owned(), SpaceKind::AdHoc),
            ("api".to_owned(), "/src/api".to_owned(), SpaceKind::Folder),
            ("web".to_owned(), "/src/web".to_owned(), SpaceKind::Folder),
        ]
    );
}
