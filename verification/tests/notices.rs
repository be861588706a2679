use zeddy::notices::{
    reconcile_error_notices, regex_escape_literal, relative_error_time, ErrorNoticeKey, ErrorSeverity,
    SeenAt,
};

fn key(message: &str) -> ErrorNoticeKey {
    ErrorNoticeKey {
        source: "Space · example".to_owned(),
        message: message.to_owned(),
        severity: ErrorSeverity::Warning,
    }
}

#[test]
fn app_terminal_search_treats_user_text_as_a_literal() {
    assert_eq!(regex_escape_literal("a.b[c]+(d)?\\e"), "a\\.b\\[c\\]\\+\\(d\\)\\?\\\\e");
}

#[test]
fn tests_terminal_search_treats_user_text_as_a_literal() {
    assert_eq!(regex_escape_literal("a.b[c]+(d)?\\e"), "a\\.b\\[c\\]\\+\\(d\\)\\?\\\\e");
}

#[test]
fn every_regex_special_character_is_escaped() {
    assert_eq!(regex_escape_literal("^$*{}|"), "\\^\\$\\*\\{\\}\\|");
    assert_eq!(regex_escape_literal("plain text"), "plain text");
    assert_eq!(regex_escape_literal(""), "");
}

fn check_error_times() {
    let first_seen: u64 = 5_000;
    assert_eq!(relative_error_time(first_seen, first_seen), "now");
    assert_eq!(relative_error_time(first_seen, first_seen + 90_000), "1m ago");
    assert_eq!(relative_error_time(first_seen, first_seen + 7_200_000), "2h ago");
    assert_eq!(relative_error_time(first_seen, first_seen + 172_800_000), "2d ago");
}

#[test]
fn app_error_times_stay_compact_as_they_age() {
    check_error_times();
}

#[test]
fn tests_error_times_stay_compact_as_they_age() {
    check_error_times();
}

#[test]
fn error_times_saturate_when_the_clock_reads_earlier() {
    assert_eq!(relative_error_time(10_000, 1_000), "now");
    assert_eq!(relative_error_time(0, 59_999), "now");
    assert_eq!(relative_error_time(0, 60_000), "1m ago");
    assert_eq!(relative_error_time(0, 3_599_999), "59m ago");
    assert_eq!(relative_error_time(0, 86_400_000), "1d ago");
}

fn check_dismissal_cycle() {
    let key = key("attach failed");
    let first_seen: u64 = 1_000;
    let mut seen_at = SeenAt::new();
    let mut dismissed: Vec<ErrorNoticeKey> = Vec::new();

    assert_eq!(reconcile_error_notices(vec![key.clone()], &mut seen_at, &mut dismissed, first_seen).len(), 1);
    dismissed.push(key.clone());
    assert!(reconcile_error_notices(vec![key.clone()], &mut seen_at, &mut dismissed, first_seen + 1_000)
        .is_empty());

    reconcile_error_notices(Vec::new(), &mut seen_at, &mut dismissed, first_seen + 2_000);
    let recurring = reconcile_error_notices(vec![key], &mut seen_at, &mut dismissed, first_seen + 3_000);
    assert_eq!(recurring.len(), 1);
    assert_eq!(recurring[0].first_seen, first_seen + 3_000);
}

#[test]
fn app_dismissed_errors_return_only_after_the_condition_clears() {
    check_dismissal_cycle();
}

#[test]
fn tests_dismissed_errors_return_only_after_the_condition_clears() {
    check_dismissal_cycle();
}

#[test]
fn notices_are_listed_newest_first_and_keep_their_first_sighting() {
    let old = key("old");
    let new = key("new");
    let mut seen_at = SeenAt::new();
    let mut dismissed: Vec<ErrorNoticeKey> = Vec::new();
    reconcile_error_notices(vec![old.clone()], &mut seen_at, &mut dismissed, 100);
    let notices = reconcile_error_notices(vec![old.clone(), new.clone()], &mut seen_at, &mut dismissed, 500);
    assert_eq!(notices.len(), 2);
    assert_eq!(notices[0].key, new);
    assert_eq!(notices[0].first_seen, 500);
    assert_eq!(notices[1].key, old);
    assert_eq!(notices[1].first_seen, 100);
}
