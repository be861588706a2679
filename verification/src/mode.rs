//! The two ways the workspace arranges the same sessions.
//!
//! Both modes show one session at a time and switch between the same list; the
//! only difference is where the list is drawn, so the mode is a single enum.

use vstd::prelude::*;

verus! {

/// Where the session list is drawn.
#[derive(Debug, Clone, Copy, PartialEq, Eq, Structural)]
pub enum Mode {
    /// A vertical list down the left.
    Sidebar,
    /// A horizontal strip across the top.
    Tabs,
}

impl Mode {
    /// The other mode.
    pub open spec fn spec_toggled(self) -> Mode {
        match self {
            Mode::Sidebar => Mode::Tabs,
            Mode::Tabs => Mode::Sidebar,
        }
    }

    pub fn toggled(self) -> (result: Mode)
        ensures
            result == self.spec_toggled(),
            result != self,
    {
        match self {
            Mode::Sidebar => Mode::Tabs,
            Mode::Tabs => Mode::Sidebar,
        }
    }
}

impl Default for Mode {
    fn default() -> (result: Mode)
        ensures
            result == Mode::Sidebar,
    {
        Mode::Sidebar
    }
}

/// Whether the space switcher is drawn: always in the tab strip, and in the
/// sidebar only when the user asked for it.
pub fn space_switcher_visible(mode: Mode, show_space_picker: bool) -> (visible: bool)
    ensures
        visible == !(mode == Mode::Sidebar && !show_space_picker),
{
    !(mode == Mode::Sidebar && !show_space_picker)
}

/// Toggling twice gives back the mode one started from.
pub proof fn lemma_toggle_twice_is_identity(mode: Mode)
    ensures
        mode.spec_toggled().spec_toggled() == mode,
{
}

/// There are exactly two modes: every mode is one of them or the other.
pub proof fn lemma_only_two_modes(mode: Mode)
    ensures
        mode == Mode::Sidebar || mode == Mode::Tabs,
        mode.spec_toggled() == Mode::Sidebar || mode.spec_toggled() == Mode::Tabs,
{
}

} // verus!
