use zeddy::plugin_installer::{
    check_cancelled, check_directory_name, check_local_source, command_detail, components, git_clone_url,
    path_within, trust_detail, InstallError, Installed, PackageKind, Source,
};

#[test]
fn sources_are_labelled_as_the_user_named_them() {
    assert_eq!(Source::Git("https://example.com/p.git".to_owned()).label(), "https://example.com/p.git");
    assert_eq!(Source::Local("/home/op/plugin".to_owned()).label(), "/home/op/plugin");
}

#[test]
fn a_local_source_cannot_contain_the_managed_staging_directory() {
    let error = check_local_source("/tmp/x", "/tmp/x/chartr/plugin-staging/install-1").unwrap_err();
    assert!(error.message().contains("staging directory"));
    assert!(check_local_source("/tmp/x/source", "/tmp/x/chartr/plugin-staging/install-1").is_ok());
}

#[test]
fn paths_contain_each_other_component_by_component() {
    assert!(path_within("/a/b/c", "/a/b"));
    assert!(path_within("/a/b", "/a/b/"));
    assert!(path_within("/a//b/./c", "/a/b"));
    assert!(!path_within("/a/bc", "/a/b"));
    assert!(path_within("/anything", "/"));
    assert!(!path_within("a/b", "/a"));
}

#[test]
fn failed_pending_removal_keeps_the_installed_package_and_invalid_ids_are_refused() {
    for id in ["", ".", "..", "../plugin-data", "/tmp", "a/b"] {
        assert_eq!(check_directory_name(id), Err(InstallError::InvalidDirectoryName), "accepted {id:?}");
    }
    assert!(check_directory_name("com.example.upgrade").is_ok());
    assert_eq!(InstallError::InvalidDirectoryName.message(), "invalid plugin directory name");
}

#[test]
fn directory_names_follow_path_components() {
    assert!(check_directory_name("plugin/").is_ok());
    assert!(check_directory_name("plugin/.").is_ok());
    assert!(check_directory_name("./plugin").is_err());
    let parts: Vec<String> = components(&"/a//b/./..".chars().collect())
        .into_iter()
        .map(|c| c.into_iter().collect())
        .collect();
    assert_eq!(parts, vec!["/", "a", "b", ".."]);
}

#[test]
fn cancelled_preparation_never_creates_an_install() {
    let error = check_cancelled(true).unwrap_err();
    assert!(error.message().contains("cancelled"));
    assert!(check_cancelled(false).is_ok());
}

#[test]
fn git_urls_are_trimmed_and_must_not_be_empty() {
    assert_eq!(git_clone_url("  https://example.com/p.git \n"), Ok("https://example.com/p.git".to_owned()));
    assert_eq!(git_clone_url(" \t "), Err(InstallError::MissingGitUrl));
    assert_eq!(InstallError::MissingGitUrl.message(), "enter a Git repository URL");
}

#[test]
fn the_trust_prompt_describes_what_is_installed() {
    let source = Source::Local("/src/browser".to_owned());
    let hosted = trust_detail(&source, PackageKind::Hosted, Some("browser"), "", false);
    assert_eq!(
        hosted,
        "Source: /src/browser. This package activates Chartr's built-in `browser` surface and contains no executable plugin code."
    );
    assert!(hosted.contains("no executable plugin code"));
    let unknown = trust_detail(&source, PackageKind::Hosted, None, "", true);
    assert!(unknown.contains("`unknown` surface"));
    assert!(unknown.ends_with(" This replaces the installed copy and preserves its plugin data."));
    let web = trust_detail(&Source::Git("https://g/x".to_owned()), PackageKind::Web, None, "network", false);
    assert_eq!(web, "Source: https://g/x. Declared host access: network.");
}

#[test]
fn failed_commands_report_their_error_output_or_its_tail() {
    assert_eq!(command_detail("  fatal: no repo \n", "ignored"), "fatal: no repo");
    assert_eq!(command_detail(" \n", " output "), "output");
    let long = "x".repeat(4_100);
    let detail = command_detail(&long, "");
    assert!(detail.starts_with('…'));
    assert_eq!(detail.chars().count(), 4_001);
    let exact = "y".repeat(4_000);
    assert_eq!(command_detail(&exact, ""), exact);
    let wide = "é".repeat(2_500);
    let detail = command_detail(&wide, "");
    assert_eq!(detail.chars().count(), 2_501);
}

#[test]
fn an_installed_package_reports_what_it_replaced() {
    let installed = Installed { id: "com.example.notes".to_owned(), name: "Notes".to_owned(), replaced: false };
    assert_eq!(installed.clone(), installed);
    assert!(!installed.replaced);
}

#[test]
fn a_plain_plugin_id_names_a_direct_child() {
    let joined = zeddy::text::join_path("/home/op/.local/share/chartr/plugins/", "com.example.notes");
    let parts: Vec<String> =
        components(&joined.chars().collect()).into_iter().map(|c| c.into_iter().collect()).collect();
    assert_eq!(parts, vec!["/", "home", "op", ".local", "share", "chartr", "plugins", "com.example.notes"]);
    assert!(check_directory_name("com.example.notes").is_ok());
}
