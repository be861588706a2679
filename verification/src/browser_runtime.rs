//! The browser pane's page state and what each event makes of it.
//!
//! The pane remembers the address it shows, the last address it tried,
//! whether a page is loading and whether a local page (start or error page)
//! is shown. Events come from the address bar, the page's bridge script and
//! the web view; each changes the state and asks the application for at most
//! one thing to do with the web view.

use vstd::prelude::*;

use crate::browser::{
    is_http_url, resolve_input, spec_is_http_url, spec_resolve_input, BrowserEvent, EventView,
};
use crate::text::{append_text, chars_of, string_from};

verus! {

/// What the pane knows about its page.
pub struct BrowserRuntime {
    pub current_url: Option<String>,
    pub last_attempt: Option<String>,
    pub loading: bool,
    pub showing_local: bool,
}

pub struct RuntimeView {
    pub current_url: Option<Seq<char>>,
    pub last_attempt: Option<Seq<char>>,
    pub loading: bool,
    pub showing_local: bool,
}

pub open spec fn opt_string(value: Option<String>) -> Option<Seq<char>> {
    match value {
        Some(v) => Some(v@),
        None => None,
    }
}

impl View for BrowserRuntime {
    type V = RuntimeView;

    open spec fn view(&self) -> RuntimeView {
        RuntimeView {
            current_url: opt_string(self.current_url),
            last_attempt: opt_string(self.last_attempt),
            loading: self.loading,
            showing_local: self.showing_local,
        }
    }
}

/// A history or loading control of the web view.
#[derive(Debug, Clone, Copy, PartialEq, Eq, Structural)]
pub enum Control {
    Back,
    Forward,
    Reload,
    Stop,
}

/// What the application does with the web view after an event.
#[derive(Debug, Clone, PartialEq, Eq)]
pub enum RuntimeAction {
    Nothing,
    /// Load this address, then report [`BrowserRuntime::load_begun`] or
    /// [`BrowserRuntime::load_failed`].
    Load(String),
    /// Apply the control; report [`BrowserRuntime::control_failed`] if it fails.
    Control(Control),
    /// Show the local error page with this message and a retry of `retry`.
    ShowError { message: String, retry: String },
    /// Remember this address for the next start.
    Save(String),
}

pub enum ActionView {
    Nothing,
    Load(Seq<char>),
    Control(Control),
    ShowError(Seq<char>, Seq<char>),
    Save(Seq<char>),
}

impl View for RuntimeAction {
    type V = ActionView;

    open spec fn view(&self) -> ActionView {
        match self {
            RuntimeAction::Nothing => ActionView::Nothing,
            RuntimeAction::Load(url) => ActionView::Load(url@),
            RuntimeAction::Control(control) => ActionView::Control(*control),
            RuntimeAction::ShowError { message, retry } => ActionView::ShowError(message@, retry@),
            RuntimeAction::Save(url) => ActionView::Save(url@),
        }
    }
}

/// The state after an error is shown, and the page that shows it.
pub open spec fn spec_show_error(s: RuntimeView, message: Seq<char>) -> (RuntimeView, ActionView) {
    (
        RuntimeView { loading: false, showing_local: true, current_url: None, ..s },
        ActionView::ShowError(
            message,
            match s.last_attempt {
                Some(a) => a,
                None => Seq::empty(),
            },
        ),
    )
}

/// The state after the web view reports that it loads or loaded `url`.
pub open spec fn spec_on_page(s: RuntimeView, url: Seq<char>, loading: bool) -> RuntimeView {
    RuntimeView { current_url: Some(url), last_attempt: Some(url), loading, showing_local: false }
}

/// What an event does. `host_is_ip` says whether a navigation's input names
/// an IP address (see [`crate::browser::resolve_input`]).
pub open spec fn spec_handle(s: RuntimeView, event: EventView, host_is_ip: bool) -> (RuntimeView, ActionView) {
    match event {
        EventView::Navigate(input) => {
            let tried = RuntimeView { last_attempt: Some(input), ..s };
            match spec_resolve_input(input, host_is_ip) {
                Ok(address) => (tried, ActionView::Load(address.0)),
                Err(message) => spec_show_error(tried, message),
            }
        },
        EventView::Back => (s, ActionView::Control(Control::Back)),
        EventView::Forward => (s, ActionView::Control(Control::Forward)),
        EventView::Reload => (s, ActionView::Control(Control::Reload)),
        EventView::Stop => (RuntimeView { loading: false, ..s }, ActionView::Control(Control::Stop)),
        EventView::LoadStarted(url) => if spec_is_http_url(url) {
            (spec_on_page(s, url, true), ActionView::Nothing)
        } else {
            (s, ActionView::Nothing)
        },
        EventView::LoadFinished(url) => if spec_is_http_url(url) {
            (spec_on_page(s, url, false), ActionView::Save(url))
        } else {
            (s, ActionView::Nothing)
        },
        _ => (s, ActionView::Nothing),
    }
}

impl BrowserRuntime {
    /// A pane showing the start page, or restored at `saved`.
    pub fn new(saved: Option<String>) -> (runtime: BrowserRuntime)
        ensures
            runtime@.current_url == opt_string(saved),
            runtime@.last_attempt is None,
            !runtime@.loading,
            runtime@.showing_local == (saved is None),
    {
        let showing_local = saved.is_none();
        BrowserRuntime { current_url: saved, last_attempt: None, loading: false, showing_local }
    }

    /// Shows `message` on the local error page.
    pub fn show_error(&mut self, message: String) -> (action: RuntimeAction)
        ensures
            (final(self)@, action@) == spec_show_error(old(self)@, message@),
    {
        self.loading = false;
        self.showing_local = true;
        self.current_url = None;
        let retry = match &self.last_attempt {
            Some(a) => a.clone(),
            None => String::new(),
        };
        RuntimeAction::ShowError { message, retry }
    }

    /// Handles one event.
    pub fn handle(&mut self, event: BrowserEvent, host_is_ip: bool) -> (action: RuntimeAction)
        ensures
            (final(self)@, action@) == spec_handle(old(self)@, event@, host_is_ip),
    {
        match event {
            BrowserEvent::Navigate(input) => {
                let resolved = resolve_input(input.as_str(), host_is_ip);
                self.last_attempt = Some(input);
                match resolved {
                    Ok(address) => RuntimeAction::Load(address.href),
                    Err(message) => self.show_error(message),
                }
            },
            BrowserEvent::Back => RuntimeAction::Control(Control::Back),
            BrowserEvent::Forward => RuntimeAction::Control(Control::Forward),
            BrowserEvent::Reload => RuntimeAction::Control(Control::Reload),
            BrowserEvent::Stop => {
                self.loading = false;
                RuntimeAction::Control(Control::Stop)
            },
            BrowserEvent::LoadStarted(url) => {
                if is_http_url(url.as_str()) {
                    self.current_url = Some(url.clone());
                    self.last_attempt = Some(url);
                    self.loading = true;
                    self.showing_local = false;
                }
                RuntimeAction::Nothing
            },
            BrowserEvent::LoadFinished(url) => {
                if is_http_url(url.as_str()) {
                    self.current_url = Some(url.clone());
                    self.last_attempt = Some(url.clone());
                    self.loading = false;
                    self.showing_local = false;
                    RuntimeAction::Save(url)
                } else {
                    RuntimeAction::Nothing
                }
            },
            _ => RuntimeAction::Nothing,
        }
    }

    /// The web view accepted `url`.
    pub fn load_begun(&mut self, url: String)
        ensures
            final(self)@ == (RuntimeView {
                current_url: Some(url@),
                loading: true,
                showing_local: false,
                ..old(self)@
            }),
    {
        self.current_url = Some(url);
        self.loading = true;
        self.showing_local = false;
    }

    /// The web view refused to load: the error page says why.
    pub fn load_failed(&mut self, error: &str) -> (action: RuntimeAction)
        ensures
            (final(self)@, action@) == spec_show_error(old(self)@, "Could not open this page: "@ + error@),
    {
        let mut text: Vec<char> = Vec::new();
        append_text(&mut text, "Could not open this page: ");
        append_text(&mut text, error);
        self.show_error(string_from(text.as_slice()))
    }

    /// A history or loading control failed.
    pub fn control_failed(&mut self, error: &str) -> (action: RuntimeAction)
        ensures
            (final(self)@, action@) == spec_show_error(old(self)@, "Browser control failed: "@ + error@),
    {
        let mut text: Vec<char> = Vec::new();
        append_text(&mut text, "Browser control failed: ");
        append_text(&mut text, error);
        self.show_error(string_from(text.as_slice()))
    }

    /// The address bar's text: the page shown, else the last address tried.
    pub fn address(&self) -> (address: String)
        ensures
            address@ == match self@.current_url {
                Some(u) => u,
                None => match self@.last_attempt {
                    Some(a) => a,
                    None => Seq::empty(),
                },
            },
    {
        match &self.current_url {
            Some(u) => u.clone(),
            None => match &self.last_attempt {
                Some(a) => a.clone(),
                None => String::new(),
            },
        }
    }
}

/// The history or loading button that asks the web view for `control`.
pub open spec fn control_event(control: Control) -> EventView {
    match control {
        Control::Back => EventView::Back,
        Control::Forward => EventView::Forward,
        Control::Reload => EventView::Reload,
        Control::Stop => EventView::Stop,
    }
}

/// Each history or loading button is passed to the web view as the control
/// of the same name, whatever the pane's state: Back goes back, Forward goes
/// forward, Reload reloads and Stop stops. Only Stop changes the state, and
/// only by ending the load. No other event asks the web view for a control.
pub proof fn lemma_buttons_drive_their_own_control(s: RuntimeView, host_is_ip: bool)
    ensures
        forall|control: Control| #[trigger] spec_handle(s, control_event(control), host_is_ip) == (
            if control == Control::Stop {
                RuntimeView { loading: false, ..s }
            } else {
                s
            },
            ActionView::Control(control),
        ),
        forall|event: EventView|
            #![trigger spec_handle(s, event, host_is_ip)]
            (forall|control: Control| event != control_event(control)) ==> !(spec_handle(
                s,
                event,
                host_is_ip,
            ).1 is Control),
{
    assert forall|event: EventView|
        #![trigger spec_handle(s, event, host_is_ip)]
        (forall|control: Control| event != control_event(control)) implies !(spec_handle(s, event, host_is_ip).1 is Control) by {
        assert(event != control_event(Control::Back));
        assert(event != control_event(Control::Forward));
        assert(event != control_event(Control::Reload));
        assert(event != control_event(Control::Stop));
        match event {
            EventView::Navigate(input) => {
                let tried = RuntimeView { last_attempt: Some(input), ..s };
                match spec_resolve_input(input, host_is_ip) {
                    Ok(address) => {},
                    Err(message) => {
                        assert(spec_show_error(tried, message).1 is ShowError);
                    },
                }
            },
            _ => {},
        }
    }
}

/// A web page the web view starts loading becomes the page shown and the
/// address to retry, and the pane is loading; once it has finished loading it
/// is shown, no longer loading, and remembered for the next start. Focus and
/// title events change nothing and ask for nothing.
pub proof fn lemma_page_events(s: RuntimeView, url: Seq<char>, title: Seq<char>, host_is_ip: bool)
    ensures
        spec_is_http_url(url) ==> ({
            let (started, action) = spec_handle(s, EventView::LoadStarted(url), host_is_ip);
            &&& started.current_url == Some(url)
            &&& started.last_attempt == Some(url)
            &&& started.loading
            &&& !started.showing_local
            &&& action is Nothing
        }),
        spec_is_http_url(url) ==> ({
            let (finished, action) = spec_handle(s, EventView::LoadFinished(url), host_is_ip);
            &&& finished.current_url == Some(url)
            &&& finished.last_attempt == Some(url)
            &&& !finished.loading
            &&& !finished.showing_local
            &&& action == ActionView::Save(url)
        }),
        spec_handle(s, EventView::FocusAddress, host_is_ip) == (s, ActionView::Nothing),
        spec_handle(s, EventView::FocusPane, host_is_ip) == (s, ActionView::Nothing),
        spec_handle(s, EventView::TitleChanged(title), host_is_ip) == (s, ActionView::Nothing),
{
}

/// Only web pages are ever shown or remembered: a page the web view reports
/// that is not an HTTP(S) address changes nothing and is not saved.
pub proof fn lemma_only_web_pages_are_remembered(s: RuntimeView, url: Seq<char>, host_is_ip: bool)
    requires
        !spec_is_http_url(url),
    ensures
        spec_handle(s, EventView::LoadStarted(url), host_is_ip) == (s, ActionView::Nothing),
        spec_handle(s, EventView::LoadFinished(url), host_is_ip) == (s, ActionView::Nothing),
{
}

/// An error page never claims to be loading or showing a web page, and its
/// retry offers the last address tried.
pub proof fn lemma_error_pages_are_local(s: RuntimeView, message: Seq<char>)
    ensures
        !spec_show_error(s, message).0.loading,
        spec_show_error(s, message).0.showing_local,
        spec_show_error(s, message).0.current_url is None,
        spec_show_error(s, message).0.last_attempt == s.last_attempt,
{
}

} // verus!
