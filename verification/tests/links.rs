use zeddy::links::path_candidates;

#[test]
fn terminal_locations_are_tried_without_their_line_and_column() {
    assert_eq!(
        path_candidates("example.rs:12:3", Some("/work")),
        vec!["/work/example.rs:12:3".to_owned(), "/work/example.rs:12".to_owned(), "/work/example.rs".to_owned()]
    );
    assert_eq!(path_candidates("/abs/file.rs:7", Some("/work")), vec!["/abs/file.rs:7".to_owned(), "/abs/file.rs".to_owned()]);
    assert_eq!(path_candidates("notes.txt", None), vec!["notes.txt".to_owned()]);
    assert_eq!(path_candidates("a:b", Some("/w")), vec!["/w/a:b".to_owned()]);
    assert_eq!(path_candidates("f:1:2:3", None), vec!["f:1:2:3".to_owned(), "f:1:2".to_owned(), "f:1".to_owned()]);
    assert_eq!(path_candidates("f:99999999999", None), vec!["f:99999999999".to_owned()]);
}
