use zeddy::assets::{Assets, PLUGIN_LAUNCHER_ICON_PATH};

#[test]
fn chartrs_plugin_launcher_icon_is_embedded() {
    assert!(Assets.embedded_index(PLUGIN_LAUNCHER_ICON_PATH).is_some());
}

#[test]
fn agent_brand_icons_are_embedded() {
    for path in [
        "icons/agent_ai_programming.svg",
        "icons/agent_chat_gpt.svg",
        "icons/agent_claude.svg",
        "icons/agent_copilot.svg",
        "icons/agent_deepseek.svg",
        "icons/agent_google_gemini.svg",
        "icons/agent_grok.svg",
        "icons/agent_mistral.svg",
        "icons/agent_pi.svg",
        "icons/agent_qwen.svg",
    ] {
        assert!(Assets.embedded_index(path).is_some(), "missing {path}");
    }
}

#[test]
fn other_assets_are_left_to_the_fallback() {
    assert_eq!(Assets.embedded_index("icons/check.svg"), None);
    assert_eq!(Assets.embedded_index("icons/plus.svg"), Some(0));
}

#[test]
fn listings_add_each_embedded_icon_once() {
    let fallback = vec!["icons/check.svg".to_owned(), "icons/plus.svg".to_owned()];
    let listed = Assets.listing(fallback, "icons/");
    assert_eq!(listed.len(), 2 + Assets.embedded().len() - 1);
    assert_eq!(listed[0], "icons/check.svg");
    assert_eq!(listed[1], "icons/plus.svg");
    assert_eq!(listed[2], "icons/full_screen.svg");
    assert_eq!(listed.iter().filter(|n| n.as_str() == "icons/plus.svg").count(), 1);
    let none = Assets.listing(vec!["fonts/a.ttf".to_owned()], "fonts/");
    assert_eq!(none, vec!["fonts/a.ttf".to_owned()]);
}
