use zeddy::keys::{is_control, key_name, shifted_ascii, typed_text, KeyName, NamedKey};

#[test]
fn names_printable_navigation_and_function_keys() {
    assert_eq!(key_name("a"), KeyName::Character('a'));
    assert_eq!(key_name("/"), KeyName::Character('/'));
    assert_eq!(key_name("left"), KeyName::Named(NamedKey::ArrowLeft));
    assert_eq!(key_name("f20"), KeyName::Function(20));
    assert_eq!(key_name("f25"), KeyName::Function(25));
    assert_eq!(key_name("f26"), KeyName::Unidentified);
}

#[test]
fn preserves_platform_text_instead_of_rederiving_it() {
    assert_eq!(key_name("e"), KeyName::Character('e'));
    assert_eq!(typed_text("e", Some("é"), false, false).as_deref(), Some("é"));
}

#[test]
fn recovers_printable_text_from_platform_control_bytes() {
    assert_eq!(typed_text("i", Some("\t"), true, false).as_deref(), Some("i"));
    assert_eq!(typed_text("/", Some("\u{7f}"), true, true).as_deref(), Some("?"));
}

#[test]
fn function_key_names_parse_like_unsigned_numbers() {
    assert_eq!(key_name("f1"), KeyName::Function(1));
    assert_eq!(key_name("f01"), KeyName::Function(1));
    assert_eq!(key_name("f+5"), KeyName::Function(5));
    assert_eq!(key_name("f0"), KeyName::Unidentified);
    assert_eq!(key_name("f256"), KeyName::Unidentified);
    assert_eq!(key_name("f"), KeyName::Character('f'));
    assert_eq!(key_name("fx"), KeyName::Unidentified);
}

#[test]
fn every_named_key_is_recognised() {
    let names = [
        ("space", NamedKey::Space),
        ("enter", NamedKey::Enter),
        ("tab", NamedKey::Tab),
        ("escape", NamedKey::Escape),
        ("backspace", NamedKey::Backspace),
        ("delete", NamedKey::Delete),
        ("insert", NamedKey::Insert),
        ("home", NamedKey::Home),
        ("end", NamedKey::End),
        ("pageup", NamedKey::PageUp),
        ("pagedown", NamedKey::PageDown),
        ("up", NamedKey::ArrowUp),
        ("down", NamedKey::ArrowDown),
        ("right", NamedKey::ArrowRight),
        ("back", NamedKey::BrowserBack),
        ("forward", NamedKey::BrowserForward),
        ("copy", NamedKey::Copy),
        ("cut", NamedKey::Cut),
        ("paste", NamedKey::Paste),
    ];
    for (name, key) in names {
        assert_eq!(key_name(name), KeyName::Named(key), "{name}");
    }
    assert_eq!(key_name("capslock"), KeyName::Unidentified);
}

#[test]
fn control_chords_without_text_use_the_physical_key() {
    assert_eq!(typed_text("space", None, true, false).as_deref(), Some(" "));
    assert_eq!(typed_text("a", None, true, true).as_deref(), Some("A"));
    assert_eq!(typed_text("a", Some(""), true, false).as_deref(), Some("a"));
    assert_eq!(typed_text("left", None, true, false), None);
    assert_eq!(typed_text("a", None, false, false), None);
    assert_eq!(typed_text("a", Some("\u{1b}"), false, false), None);
}

#[test]
fn shifted_faces_follow_the_us_layout() {
    assert_eq!(shifted_ascii('z'), 'Z');
    assert_eq!(shifted_ascii('1'), '!');
    assert_eq!(shifted_ascii('\''), '"');
    assert_eq!(shifted_ascii('/'), '?');
    assert_eq!(shifted_ascii('Q'), 'Q');
    assert_eq!(shifted_ascii('é'), 'é');
}

#[test]
fn control_characters_are_the_c0_and_c1_ranges() {
    assert!(is_control('\u{0}'));
    assert!(is_control('\t'));
    assert!(is_control('\u{7f}'));
    assert!(is_control('\u{9f}'));
    assert!(!is_control(' '));
    assert!(!is_control('\u{a0}'));
    assert!(!is_control('é'));
}

#[test]
fn single_reads_one_character_names_only() {
    assert_eq!(zeddy::keys::single("x"), Some('x'));
    assert_eq!(zeddy::keys::single("é"), Some('é'));
    assert_eq!(zeddy::keys::single(""), None);
    assert_eq!(zeddy::keys::single("xy"), None);
}
