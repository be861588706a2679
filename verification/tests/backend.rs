use zeddy::backend::{held_steady_exec, restart_needs_confirmation, Backend, DeathResponse, Supervisor};
use zeddy::notices::{current_error_keys, ErrorSeverity, SpaceProblem};
use zeddy::session::Ended;

#[test]
fn a_first_connection_starts_supervision_once() {
    let mut supervisor = Supervisor::new();
    assert_eq!(supervisor.label(), "Starting");
    assert!(!supervisor.should_probe());
    assert!(supervisor.connected(1_000));
    assert!(supervisor.is_ready());
    assert_eq!(supervisor.label(), "Connected");
    assert!(!supervisor.start_supervision());
}

#[test]
fn the_first_failure_gets_one_clean_replacement_and_a_quick_second_gives_up() {
    let mut supervisor = Supervisor::new();
    supervisor.connected(0);
    assert_eq!(supervisor.backend_died(10_000), DeathResponse::Restart);
    assert!(matches!(supervisor.backend, Backend::Recovering(_)));
    assert_eq!(supervisor.backend_died(11_000), DeathResponse::Ignore);
    supervisor.recovered(12_000);
    assert_eq!(supervisor.backend_died(30_000), DeathResponse::GiveUp);
    assert!(supervisor.label().contains("crash loop"));
}

#[test]
fn a_replacement_that_held_for_a_minute_earns_another_restart() {
    let mut supervisor = Supervisor::new();
    supervisor.connected(0);
    supervisor.backend_died(1_000);
    supervisor.recovered(2_000);
    assert_eq!(supervisor.backend_died(62_000), DeathResponse::Restart);

    let mut probed = Supervisor::new();
    probed.connected(0);
    probed.backend_died(1_000);
    probed.recovered(2_000);
    probed.probe_answered(62_000);
    assert!(!probed.restart_spent);
}

#[test]
fn retries_and_failures_are_reported() {
    let mut supervisor = Supervisor::new();
    supervisor.connection_failed("no socket".to_owned());
    assert_eq!(supervisor.label(), "no socket");
    assert!(!supervisor.begin_retry(false));
    assert_eq!(supervisor.label(), "Starting");
    assert!(supervisor.begin_retry(true));
    assert_eq!(supervisor.label(), "Restarting the terminal backend…");
    supervisor.recovery_failed("boom");
    assert_eq!(supervisor.label(), "Chartr could not recover the terminal backend: boom");
    assert!(supervisor.retry_succeeded(5_000));
    assert!(supervisor.is_ready());
}

#[test]
fn steadiness_needs_a_full_minute() {
    assert!(!held_steady_exec(None, 100_000));
    assert!(!held_steady_exec(Some(1_000), 60_999));
    assert!(held_steady_exec(Some(1_000), 61_000));
    assert!(!held_steady_exec(Some(5_000), 1_000));
    assert!(!restart_needs_confirmation(1));
    assert!(restart_needs_confirmation(2));
}

#[test]
fn current_errors_collect_the_backend_the_app_and_each_space() {
    let keys = current_error_keys(
        &Backend::Failed("down".to_owned()),
        &Some("could not save".to_owned()),
        &vec![SpaceProblem { name: "example".to_owned(), problem: Some("attach failed".to_owned()) }],
    );
    assert!(keys.iter().any(|key| key.message == "down" && key.severity == ErrorSeverity::Error));
    assert!(keys.iter().any(|key| key.message == "could not save"));
    assert!(keys.iter().any(|key| key.message == "attach failed" && key.source.contains("example")));
    assert!(current_error_keys(&Backend::Ready, &None, &Vec::new()).is_empty());
}

#[test]
fn an_attach_client_only_ever_closes() {
    assert_eq!(Ended::Closed, Ended::Closed);
    assert_eq!(format!("{:?}", Ended::Closed), "Closed");
}
