use zeddy::browser::{
    address_host, decode_command, display_title, escape_html, is_allowed_navigation, is_http_url,
    resolve_input, restorable_address, state_path, BrowserEvent,
};

fn resolved(input: &str, host_is_ip: bool) -> String {
    resolve_input(input, host_is_ip).unwrap().href
}

#[test]
fn address_input_distinguishes_urls_local_hosts_and_searches() {
    assert_eq!(resolved("example.com/a", false), "https://example.com/a");
    assert_eq!(resolved("localhost:3000", false), "http://localhost:3000/");
    assert_eq!(resolved("127.0.0.1:8080", true), "http://127.0.0.1:8080/");
    assert_eq!(resolved("[::1]:8080", true), "http://[::1]:8080/");
    assert_eq!(resolved("example.com:8443/path", false), "https://example.com:8443/path");
    assert_eq!(resolved("localhost.example/path", false), "https://localhost.example/path");
    let search = resolved("small browser", false);
    assert!(search.starts_with("https://duckduckgo.com/?"), "{search}");
    assert!(search.contains("q=small+browser"), "{search}");
}

#[test]
fn non_web_schemes_are_rejected() {
    for input in ["file:///tmp/secret", "mailto:user@example.com", "tel:123"] {
        assert!(resolve_input(input, false).is_err(), "{input}");
    }
}

#[test]
fn empty_input_asks_for_an_address() {
    assert_eq!(resolve_input("   ", false), Err("Enter a URL or search query.".to_owned()));
}

#[test]
fn explicit_http_addresses_are_kept() {
    assert_eq!(resolved("https://example.com/x?y=1", false), "https://example.com/x?y=1");
    assert_eq!(resolved("  http://example.com  ", false), "http://example.com/");
}

#[test]
fn the_host_of_an_input_is_its_authority() {
    assert_eq!(address_host("127.0.0.1:8080/path"), "127.0.0.1:8080");
    assert_eq!(address_host("example.com"), "example.com");
}

#[test]
fn document_titles_are_normalized_for_tabs() {
    assert_eq!(display_title("  Example\n  Page  "), "Example Page");
    assert_eq!(display_title(" \n\t "), "Browser");
}

#[test]
fn instance_state_is_namespaced_by_space_and_instance() {
    let root = "/data";
    assert_ne!(state_path(root, "folder:a", 7), state_path(root, "folder:b", 7));
    assert_ne!(state_path(root, "folder:a", 7), state_path(root, "folder:a", 8));
    assert!(state_path(root, "folder:a", 7).starts_with("/data/instances/"));
}

#[test]
fn html_text_is_escaped() {
    assert_eq!(escape_html("<a href=\"x\">Tom & 'Jerry'</a>"), "&lt;a href=&quot;x&quot;&gt;Tom &amp; &#39;Jerry&#39;&lt;/a&gt;");
    assert_eq!(escape_html("plain"), "plain");
}

#[test]
fn bridge_messages_decode_to_events() {
    assert_eq!(
        decode_command(r#"{"action":"navigate","value":"example.com"}"#),
        Some(BrowserEvent::Navigate("example.com".to_owned()))
    );
    assert_eq!(decode_command(r#"{"action":"back"}"#), Some(BrowserEvent::Back));
    assert_eq!(decode_command(r#"{"action":"focus"}"#), Some(BrowserEvent::FocusPane));
    assert_eq!(decode_command(r#"{"action":"focus-address"}"#), Some(BrowserEvent::FocusAddress));
    assert_eq!(decode_command(r#"{"action":"navigate"}"#), None);
    assert_eq!(decode_command(r#"{"action":"explode"}"#), None);
    assert_eq!(decode_command("not json"), None);
}

#[test]
fn only_web_pages_and_the_blank_page_are_navigable_in_place() {
    assert!(is_http_url("https://example.com"));
    assert!(!is_http_url("file:///etc/passwd"));
    assert!(is_allowed_navigation("about:blank"));
    assert!(is_allowed_navigation("http://localhost:3000/"));
    assert!(!is_allowed_navigation("javascript:alert(1)"));
}

#[test]
fn saved_addresses_are_restored_only_when_still_web_addresses() {
    assert_eq!(restorable_address("  https://example.com/a "), Some("https://example.com/a".to_owned()));
    assert_eq!(restorable_address("file:///tmp/x"), None);
    assert_eq!(restorable_address(""), None);
}
