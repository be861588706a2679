use zeddy::launch::opened_path_from_args;

fn args(list: &[&str]) -> Vec<String> {
    list.iter().map(|a| (*a).to_owned()).collect()
}

#[test]
fn a_plain_desktop_launch_does_not_open_its_inherited_working_directory() {
    assert_eq!(opened_path_from_args(&args(&["Chartr"]), "/"), None);
    assert_eq!(opened_path_from_args(&args(&["Chartr", "-psn_0_12345"]), "/"), None);
}

#[test]
fn an_explicit_relative_path_is_resolved_from_the_shell_directory() {
    assert_eq!(opened_path_from_args(&args(&["Chartr", "project"]), "/work"), Some("/work/project".to_owned()));
    assert_eq!(opened_path_from_args(&args(&["Chartr", "--", "."]), "/work"), Some("/work/.".to_owned()));
}

#[test]
fn absolute_paths_are_taken_as_given() {
    assert_eq!(opened_path_from_args(&args(&["Chartr", "/srv/app"]), "/work"), Some("/srv/app".to_owned()));
    assert_eq!(opened_path_from_args(&args(&["Chartr", "--"]), "/work"), None);
    assert_eq!(opened_path_from_args(&args(&[]), "/work"), None);
    assert_eq!(opened_path_from_args(&args(&["Chartr", "x"]), "/work/"), Some("/work/x".to_owned()));
}
