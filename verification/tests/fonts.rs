use zeddy::fonts::{terminal_fonts, text_renders, ui_family, ui_fonts, BundledFont, MONOSPACE_FAMILY};

#[test]
fn optical_size_instances_are_requested_by_their_internal_names() {
    assert_eq!(BundledFont { family: "DM Sans" }.native_family(), "DM Sans 9pt");
    assert_eq!(BundledFont { family: "Nunito Sans" }.native_family(), "Nunito Sans 12pt ExtraLight 12pt");
    assert_eq!(BundledFont { family: "Inter" }.native_family(), "Inter");
}

#[test]
fn the_configured_interface_family_is_resolved_through_the_catalog() {
    assert_eq!(ui_family("DM Sans"), "DM Sans 9pt");
    assert_eq!(ui_family("IBM Plex Sans"), "IBM Plex Sans");
    assert_eq!(ui_family("Some Custom Font"), "Some Custom Font");
}

#[test]
fn the_catalogs_start_with_the_defaults() {
    assert_eq!(ui_fonts()[0].family, "IBM Plex Sans");
    assert_eq!(ui_fonts().len(), 25);
    assert_eq!(terminal_fonts()[0].family, MONOSPACE_FAMILY);
    assert_eq!(terminal_fonts().len(), 14);
}

#[test]
fn text_renders_only_when_the_bundled_face_is_listed() {
    assert!(text_renders(&vec!["Arial".to_owned(), "IBM Plex Mono".to_owned()]));
    assert!(!text_renders(&vec!["Arial".to_owned()]));
    assert!(!text_renders(&Vec::new()));
}
