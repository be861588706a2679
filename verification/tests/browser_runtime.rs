use zeddy::browser::BrowserEvent;
use zeddy::browser_runtime::{BrowserRuntime, Control, RuntimeAction};

#[test]
fn navigation_asks_to_load_the_resolved_address() {
    let mut runtime = BrowserRuntime::new(None);
    assert!(runtime.showing_local);
    let action = runtime.handle(BrowserEvent::Navigate("example.com".to_owned()), false);
    assert_eq!(action, RuntimeAction::Load("https://example.com/".to_owned()));
    assert_eq!(runtime.last_attempt.as_deref(), Some("example.com"));
    runtime.load_begun("https://example.com/".to_owned());
    assert!(runtime.loading);
    assert!(!runtime.showing_local);
    assert_eq!(runtime.address(), "https://example.com/");
}

#[test]
fn refused_input_shows_the_error_page_with_a_retry() {
    let mut runtime = BrowserRuntime::new(Some("https://example.com/".to_owned()));
    let action = runtime.handle(BrowserEvent::Navigate("file:///etc/passwd".to_owned()), false);
    assert_eq!(
        action,
        RuntimeAction::ShowError {
            message: "Browser supports only HTTP and HTTPS addresses.".to_owned(),
            retry: "file:///etc/passwd".to_owned()
        }
    );
    assert!(runtime.showing_local);
    assert_eq!(runtime.current_url, None);
    assert_eq!(runtime.address(), "file:///etc/passwd");
}

#[test]
fn web_view_reports_update_the_page_and_finished_pages_are_saved() {
    let mut runtime = BrowserRuntime::new(None);
    assert_eq!(runtime.handle(BrowserEvent::LoadStarted("https://a.example/".to_owned()), false), RuntimeAction::Nothing);
    assert!(runtime.loading);
    assert_eq!(
        runtime.handle(BrowserEvent::LoadFinished("https://a.example/x".to_owned()), false),
        RuntimeAction::Save("https://a.example/x".to_owned())
    );
    assert!(!runtime.loading);
    assert_eq!(runtime.address(), "https://a.example/x");
    assert_eq!(runtime.handle(BrowserEvent::LoadFinished("about:blank".to_owned()), false), RuntimeAction::Nothing);
    assert_eq!(runtime.address(), "https://a.example/x");
}

#[test]
fn controls_are_passed_to_the_web_view_and_failures_are_shown() {
    let mut runtime = BrowserRuntime::new(None);
    runtime.loading = true;
    assert_eq!(runtime.handle(BrowserEvent::Back, false), RuntimeAction::Control(Control::Back));
    assert_eq!(runtime.handle(BrowserEvent::Stop, false), RuntimeAction::Control(Control::Stop));
    assert!(!runtime.loading);
    assert_eq!(runtime.handle(BrowserEvent::FocusPane, false), RuntimeAction::Nothing);
    assert_eq!(
        runtime.control_failed("no history"),
        RuntimeAction::ShowError { message: "Browser control failed: no history".to_owned(), retry: String::new() }
    );
    assert_eq!(
        runtime.load_failed("refused"),
        RuntimeAction::ShowError { message: "Could not open this page: refused".to_owned(), retry: String::new() }
    );
}
