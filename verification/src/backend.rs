//! Supervision of the private terminal backend.
//!
//! The socket is probed every couple of seconds. The first failure in an
//! episode is given one clean replacement; a replacement that cannot hold for
//! a minute is exposed as a crash loop rather than restarted again. The
//! application performs the I/O (connecting, probing, restarting) and reports
//! what happened; this module decides what the backend state becomes and what
//! the application must do next.

use vstd::prelude::*;

verus! {

/// How long, in milliseconds, a replacement must hold before another failure
/// counts as a fresh episode.
pub const BACKEND_STEADY_MS: u64 = 60_000;

/// The backend's lifecycle as the user sees it.
#[derive(Debug, Clone, PartialEq, Eq)]
pub enum Backend {
    Starting,
    Ready,
    Recovering(String),
    Failed(String),
}

/// The mathematical value of a [`Backend`].
pub enum BackendView {
    Starting,
    Ready,
    Recovering(Seq<char>),
    Failed(Seq<char>),
}

impl View for Backend {
    type V = BackendView;

    open spec fn view(&self) -> BackendView {
        match self {
            Backend::Starting => BackendView::Starting,
            Backend::Ready => BackendView::Ready,
            Backend::Recovering(detail) => BackendView::Recovering(detail@),
            Backend::Failed(detail) => BackendView::Failed(detail@),
        }
    }
}

/// Everything the supervisor remembers between events.
pub struct Supervisor {
    pub backend: Backend,
    /// When the backend last became ready, in milliseconds on the app's clock.
    pub ready_since: Option<u64>,
    /// The one clean replacement of this episode has been used.
    pub restart_spent: bool,
    /// The periodic probe loop is running.
    pub supervision_started: bool,
}

pub struct SupervisorView {
    pub backend: BackendView,
    pub ready_since: Option<u64>,
    pub restart_spent: bool,
    pub supervision_started: bool,
}

impl View for Supervisor {
    type V = SupervisorView;

    open spec fn view(&self) -> SupervisorView {
        SupervisorView {
            backend: self.backend@,
            ready_since: self.ready_since,
            restart_spent: self.restart_spent,
            supervision_started: self.supervision_started,
        }
    }
}

/// What the application must do after the backend was found dead.
#[derive(Debug, Clone, Copy, PartialEq, Eq)]
pub enum DeathResponse {
    /// The backend was not ready; the report is stale and changes nothing.
    Ignore,
    /// Drop dead terminals, then restart, reconnect and take a snapshot.
    Restart,
    /// Drop dead terminals and clear the saved shape: the crash loop is exposed.
    GiveUp,
}

/// The message shown when a replacement failed again too soon.
pub open spec fn crash_loop_message() -> Seq<char> {
    "The terminal backend failed again before it held for 60 seconds. Chartr stopped automatic recovery to expose the crash loop."@
}

/// The message shown while the one clean replacement starts.
pub open spec fn recovering_message() -> Seq<char> {
    "The terminal backend stopped answering. Starting one clean replacement…"@
}

/// The message shown while a user-requested clean restart runs.
pub open spec fn restarting_message() -> Seq<char> {
    "Restarting the terminal backend…"@
}

/// The prefix of the message shown when the replacement could not start.
pub open spec fn recovery_failed_prefix() -> Seq<char> {
    "Chartr could not recover the terminal backend: "@
}

/// The backend has been ready for at least a minute at `now`.
pub open spec fn held_steady(ready_since: Option<u64>, now: u64) -> bool {
    match ready_since {
        Some(since) => now >= since && now - since >= BACKEND_STEADY_MS,
        None => false,
    }
}

/// The state after the backend became ready at `now`.
pub open spec fn spec_became_ready(s: SupervisorView, now: u64) -> SupervisorView {
    SupervisorView { backend: BackendView::Ready, ready_since: Some(now), ..s }
}

/// The state after a probe found the backend still answering at `now`.
pub open spec fn spec_probe_answered(s: SupervisorView, now: u64) -> SupervisorView {
    if s.restart_spent && held_steady(s.ready_since, now) {
        SupervisorView { restart_spent: false, ..s }
    } else {
        s
    }
}

/// The response to the backend being found dead at `now`.
pub open spec fn spec_death_response(s: SupervisorView, now: u64) -> DeathResponse {
    if !(s.backend is Ready) {
        DeathResponse::Ignore
    } else if s.restart_spent && !held_steady(s.ready_since, now) {
        DeathResponse::GiveUp
    } else {
        DeathResponse::Restart
    }
}

/// The state after the backend was found dead at `now`.
pub open spec fn spec_backend_died(s: SupervisorView, now: u64) -> SupervisorView {
    match spec_death_response(s, now) {
        DeathResponse::Ignore => s,
        DeathResponse::GiveUp => SupervisorView {
            backend: BackendView::Failed(crash_loop_message()),
            ready_since: None,
            ..s
        },
        DeathResponse::Restart => SupervisorView {
            backend: BackendView::Recovering(recovering_message()),
            ready_since: None,
            restart_spent: true,
            ..s
        },
    }
}

impl Supervisor {
    /// A supervisor for a backend that is starting up.
    pub fn new() -> (result: Supervisor)
        ensures
            result@.backend is Starting,
            result@.ready_since is None,
            !result@.restart_spent,
            !result@.supervision_started,
    {
        Supervisor {
            backend: Backend::Starting,
            ready_since: None,
            restart_spent: false,
            supervision_started: false,
        }
    }

    /// Whether the backend is ready to accept work.
    pub fn is_ready(&self) -> (ready: bool)
        ensures
            ready == (self@.backend is Ready),
    {
        match self.backend {
            Backend::Ready => true,
            _ => false,
        }
    }

    /// The backend became ready at `now`.
    pub fn became_ready(&mut self, now: u64)
        ensures
            final(self)@ == spec_became_ready(old(self)@, now),
    {
        self.backend = Backend::Ready;
        self.ready_since = Some(now);
    }

    /// Marks the probe loop as started. Returns whether the caller must start it.
    pub fn start_supervision(&mut self) -> (start: bool)
        ensures
            start == !old(self)@.supervision_started,
            final(self)@ == (SupervisorView { supervision_started: true, ..old(self)@ }),
    {
        if self.supervision_started {
            return false;
        }
        self.supervision_started = true;
        true
    }

    /// The first connection succeeded at `now`. Returns whether the caller
    /// must start the probe loop.
    pub fn connected(&mut self, now: u64) -> (start: bool)
        ensures
            start == !old(self)@.supervision_started,
            final(self)@ == (SupervisorView {
                supervision_started: true,
                ..spec_became_ready(old(self)@, now)
            }),
    {
        self.became_ready(now);
        self.start_supervision()
    }

    /// Connecting, reconnecting or retrying failed with `problem`.
    pub fn connection_failed(&mut self, problem: String)
        ensures
            final(self)@ == (SupervisorView {
                backend: BackendView::Failed(problem@),
                ready_since: None,
                ..old(self)@
            }),
    {
        self.backend = Backend::Failed(problem);
        self.ready_since = None;
    }

    /// The periodic probe may run only while the backend is ready.
    pub fn should_probe(&self) -> (probe: bool)
        ensures
            probe == (self@.backend is Ready),
    {
        self.is_ready()
    }

    /// A probe found the backend answering at `now`: a replacement that has
    /// held for a minute ends the episode, so the next failure gets a fresh
    /// clean replacement.
    pub fn probe_answered(&mut self, now: u64)
        ensures
            final(self)@ == spec_probe_answered(old(self)@, now),
    {
        if self.restart_spent && held_steady_exec(self.ready_since, now) {
            self.restart_spent = false;
        }
    }

    /// The backend stopped answering at `now`.
    pub fn backend_died(&mut self, now: u64) -> (response: DeathResponse)
        ensures
            response == spec_death_response(old(self)@, now),
            final(self)@ == spec_backend_died(old(self)@, now),
    {
        if !self.is_ready() {
            return DeathResponse::Ignore;
        }
        if held_steady_exec(self.ready_since, now) {
            self.restart_spent = false;
        }
        self.ready_since = None;
        if self.restart_spent {
            self.backend = Backend::Failed(
                "The terminal backend failed again before it held for 60 seconds. Chartr stopped automatic recovery to expose the crash loop.".to_owned(),
            );
            return DeathResponse::GiveUp;
        }
        self.restart_spent = true;
        self.backend = Backend::Recovering(
            "The terminal backend stopped answering. Starting one clean replacement…".to_owned(),
        );
        DeathResponse::Restart
    }

    /// The automatic replacement came back at `now`.
    pub fn recovered(&mut self, now: u64)
        ensures
            final(self)@ == spec_became_ready(old(self)@, now),
    {
        self.became_ready(now);
    }

    /// The automatic replacement failed with `error`.
    pub fn recovery_failed(&mut self, error: &str)
        ensures
            final(self)@ == (SupervisorView {
                backend: BackendView::Failed(recovery_failed_prefix() + error@),
                ready_since: None,
                ..old(self)@
            }),
    {
        let mut message = "Chartr could not recover the terminal backend: ".to_owned();
        message.append(error);
        self.backend = Backend::Failed(message);
        self.ready_since = None;
    }

    /// The user asked to retry (`clean_restart == false`) or to restart the
    /// backend. Returns whether dead terminals must be dropped first.
    pub fn begin_retry(&mut self, clean_restart: bool) -> (drop_dead: bool)
        ensures
            drop_dead == clean_restart,
            final(self)@ == (SupervisorView {
                backend: if clean_restart {
                    BackendView::Recovering(restarting_message())
                } else {
                    BackendView::Starting
                },
                ready_since: None,
                ..old(self)@
            }),
    {
        self.backend = if clean_restart {
            Backend::Recovering("Restarting the terminal backend…".to_owned())
        } else {
            Backend::Starting
        };
        self.ready_since = None;
        clean_restart
    }

    /// A user-requested retry succeeded at `now`: the episode starts afresh.
    /// Returns whether the caller must start the probe loop.
    pub fn retry_succeeded(&mut self, now: u64) -> (start: bool)
        ensures
            start == !old(self)@.supervision_started,
            final(self)@ == (SupervisorView {
                restart_spent: false,
                supervision_started: true,
                ..spec_became_ready(old(self)@, now)
            }),
    {
        self.restart_spent = false;
        self.became_ready(now);
        self.start_supervision()
    }

    /// The label the settings window shows for the backend.
    pub fn label(&self) -> (label: String)
        ensures
            label@ == match self@.backend {
                BackendView::Ready => "Connected"@,
                BackendView::Starting => "Starting"@,
                BackendView::Recovering(detail) => detail,
                BackendView::Failed(detail) => detail,
            },
    {
        match &self.backend {
            Backend::Ready => "Connected".to_owned(),
            Backend::Starting => "Starting".to_owned(),
            Backend::Recovering(detail) => detail.clone(),
            Backend::Failed(detail) => detail.clone(),
        }
    }
}

/// Whether a backend ready since `ready_since` has held for a minute at `now`.
pub fn held_steady_exec(ready_since: Option<u64>, now: u64) -> (steady: bool)
    ensures
        steady == held_steady(ready_since, now),
{
    match ready_since {
        Some(since) => now >= since && now - since >= BACKEND_STEADY_MS,
        None => false,
    }
}

/// Whether a restart needs the user's confirmation: it terminates every
/// underlying session, so more than one of them must be confirmed.
pub fn restart_needs_confirmation(terminal_count: usize) -> (confirm: bool)
    ensures
        confirm == (terminal_count > 1),
{
    terminal_count > 1
}

/// The first failure of an episode is answered with one clean replacement.
pub proof fn lemma_first_failure_restarts(s: SupervisorView, now: u64)
    requires
        s.backend is Ready,
        !s.restart_spent,
    ensures
        spec_death_response(s, now) == DeathResponse::Restart,
        spec_backend_died(s, now).restart_spent,
        spec_backend_died(s, now).backend is Recovering,
{
}

/// A replacement that fails again before it held for a minute is exposed as
/// a crash loop: the backend is failed and not restarted again.
pub proof fn lemma_replacement_that_cannot_hold_is_a_crash_loop(
    s: SupervisorView,
    died: u64,
    recovered: u64,
    died_again: u64,
)
    requires
        s.backend is Ready,
        !s.restart_spent,
        died_again >= recovered,
        died_again - recovered < BACKEND_STEADY_MS,
    ensures
        ({
            let restarting = spec_backend_died(s, died);
            let back = spec_became_ready(restarting, recovered);
            &&& spec_death_response(back, died_again) == DeathResponse::GiveUp
            &&& spec_backend_died(back, died_again).backend == BackendView::Failed(
                crash_loop_message(),
            )
        }),
{
}

/// A replacement that held for a minute ends the episode: its next failure
/// gets a fresh clean replacement rather than being treated as a crash loop.
pub proof fn lemma_replacement_that_held_restarts_again(
    s: SupervisorView,
    died: u64,
    recovered: u64,
    died_again: u64,
)
    requires
        s.backend is Ready,
        !s.restart_spent,
        died_again >= recovered,
        died_again - recovered >= BACKEND_STEADY_MS,
    ensures
        ({
            let back = spec_became_ready(spec_backend_died(s, died), recovered);
            spec_death_response(back, died_again) == DeathResponse::Restart
        }),
{
}

/// A death reported while the backend is not ready changes nothing; in
/// particular a failed backend stays failed until the user retries.
pub proof fn lemma_stale_death_is_ignored(s: SupervisorView, now: u64)
    requires
        !(s.backend is Ready),
    ensures
        spec_death_response(s, now) == DeathResponse::Ignore,
        spec_backend_died(s, now) == s,
{
}

} // verus!
