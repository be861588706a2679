//! The decisions behind the tab strip and sidebar rows: a tab's border shape,
//! which list a dragged tab belongs to, and which mark leads a row.

use vstd::prelude::*;

use crate::text::{has_prefix, starts_with};

verus! {

/// Where a middle tab sits relative to the selected one.
#[derive(Debug, Clone, Copy, PartialEq, Eq, Structural)]
pub enum Side {
    BeforeActive,
    Active,
    AfterActive,
}

/// The border shape shared by the outer strip and pane-local tab strips.
#[derive(Debug, Clone, Copy, PartialEq, Eq, Structural)]
pub enum TabPosition {
    First,
    Middle(Side),
    Last,
}

/// The shape of the tab at `index` among `count`, given the selected index.
pub open spec fn spec_tab_position(index: int, count: int, active_index: Option<usize>) -> TabPosition {
    if index == 0 {
        TabPosition::First
    } else if index + 1 == count {
        TabPosition::Last
    } else {
        let active = match active_index {
            Some(a) => a as int,
            None => index,
        };
        if index < active {
            TabPosition::Middle(Side::BeforeActive)
        } else if index == active {
            TabPosition::Middle(Side::Active)
        } else {
            TabPosition::Middle(Side::AfterActive)
        }
    }
}

/// The first tab is `First`, the last `Last`; a tab in between compares its
/// index with the selected one (an unselected strip counts as equal).
pub fn tab_position(index: usize, count: usize, active_index: Option<usize>) -> (position: TabPosition)
    ensures
        position == spec_tab_position(index as int, count as int, active_index),
{
    if index == 0 {
        TabPosition::First
    } else if count >= 1 && index == count - 1 {
        TabPosition::Last
    } else {
        let active = match active_index {
            Some(a) => a,
            None => index,
        };
        if index < active {
            TabPosition::Middle(Side::BeforeActive)
        } else if index == active {
            TabPosition::Middle(Side::Active)
        } else {
            TabPosition::Middle(Side::AfterActive)
        }
    }
}

/// A tab in flight: the space it came from, its outer tab and pane, the item
/// it stands for, and whether it is the whole outer tab.
pub struct DraggedItem {
    pub space: String,
    pub tab: u64,
    pub pane: u64,
    pub index: usize,
    pub item: u64,
    pub top_level: bool,
    pub grouped: bool,
}

/// Two drags sort within one list: the same space and level, and for a
/// pane-local tab also the same outer tab and pane.
pub open spec fn spec_same_list(left: DraggedItem, right: DraggedItem) -> bool {
    &&& left.space@ == right.space@
    &&& left.top_level == right.top_level
    &&& (left.top_level || (left.tab == right.tab && left.pane == right.pane))
}

/// Whether `left` and `right` are sorted by the same list.
pub fn same_list(left: &DraggedItem, right: &DraggedItem) -> (same: bool)
    ensures
        same == spec_same_list(*left, *right),
{
    let same_space = left.space == right.space;
    same_space && left.top_level == right.top_level && (left.top_level || (left.tab == right.tab
        && left.pane == right.pane))
}

/// The key a list sorts a drag by: the outer tab for a top-level tab, the
/// item otherwise.
pub open spec fn spec_sort_key(dragged: DraggedItem) -> u64 {
    if dragged.top_level {
        dragged.tab
    } else {
        dragged.item
    }
}

pub fn sort_key(dragged: &DraggedItem) -> (key: u64)
    ensures
        key == spec_sort_key(*dragged),
{
    if dragged.top_level {
        dragged.tab
    } else {
        dragged.item
    }
}

/// The agent state the session backend reports for a session.
#[derive(Debug, Clone, Copy, PartialEq, Eq, Structural)]
pub enum SessionStatus {
    Working,
    Blocked,
    Done,
    Idle,
    Unknown,
}

/// What a row's leading mark is drawn from.
#[derive(Debug, Clone, Copy, PartialEq, Eq, Structural)]
pub struct Activity {
    pub status: Option<SessionStatus>,
    pub process_running: bool,
    pub ended: bool,
    pub bell: bool,
}

/// The fixed leading mark of a sidebar row, outer tab or pane-local tab.
#[derive(Debug, Clone, Copy, PartialEq, Eq, Structural)]
pub enum Indicator {
    /// The session's reader stopped.
    Ended,
    /// A grouped outer tab.
    Group,
    /// The terminal rang its bell.
    Bell,
    /// An agent is working (fast spinner).
    Working,
    /// An agent waits for the user.
    Blocked,
    /// An agent finished.
    Done,
    /// A plain foreground process runs (slow neutral spinner).
    ProcessRunning,
    /// A quiet session (a small dot).
    Idle,
    /// A plugin's icon, embedded when its path lies under `icons/`.
    PluginIcon { embedded: bool },
    /// Nothing.
    Blank,
}

/// The mark for a row, in priority order: ended, grouped, bell, then the
/// agent state, then a plugin's icon.
pub open spec fn spec_indicator(activity: Activity, icon_path: Option<Seq<char>>, grouped: bool) -> Indicator {
    if activity.ended {
        Indicator::Ended
    } else if grouped {
        Indicator::Group
    } else if activity.bell {
        Indicator::Bell
    } else {
        match activity.status {
            Some(SessionStatus::Working) => Indicator::Working,
            Some(SessionStatus::Blocked) => Indicator::Blocked,
            Some(SessionStatus::Done) => Indicator::Done,
            Some(_) => if activity.process_running {
                Indicator::ProcessRunning
            } else {
                Indicator::Idle
            },
            None => match icon_path {
                Some(path) => Indicator::PluginIcon { embedded: has_prefix(path, "icons/"@) },
                None => Indicator::Blank,
            },
        }
    }
}

pub fn item_indicator(activity: Activity, icon_path: Option<&Vec<char>>, grouped: bool) -> (mark: Indicator)
    ensures
        mark == spec_indicator(
            activity,
            match icon_path {
                Some(p) => Some(p@),
                None => None,
            },
            grouped,
        ),
{
    if activity.ended {
        return Indicator::Ended;
    }
    if grouped {
        return Indicator::Group;
    }
    if activity.bell {
        return Indicator::Bell;
    }
    match activity.status {
        Some(SessionStatus::Working) => Indicator::Working,
        Some(SessionStatus::Blocked) => Indicator::Blocked,
        Some(SessionStatus::Done) => Indicator::Done,
        Some(_) => if activity.process_running {
            Indicator::ProcessRunning
        } else {
            Indicator::Idle
        },
        None => match icon_path {
            Some(path) => Indicator::PluginIcon { embedded: starts_with(path, "icons/") },
            None => Indicator::Blank,
        },
    }
}

/// An ended session is marked as ended whatever else holds of it.
pub proof fn lemma_ended_takes_precedence(activity: Activity, icon_path: Option<Seq<char>>, grouped: bool)
    requires
        activity.ended,
    ensures
        spec_indicator(activity, icon_path, grouped) == Indicator::Ended,
{
}

/// The leading mark of a row that is not ended, grouped or ringing follows its
/// session: an agent that works, waits or is done shows that state whatever
/// else runs; a session with no agent state to show (`Idle` or `Unknown`,
/// treated alike) shows the process spinner exactly when a foreground process
/// runs and the quiet dot otherwise; a row without a session shows its
/// plugin's icon, or nothing. Ended beats grouped, which beats the bell.
pub proof fn lemma_marks_follow_the_session(activity: Activity, icon_path: Option<Seq<char>>, grouped: bool)
    ensures
        !activity.ended && grouped ==> spec_indicator(activity, icon_path, grouped) == Indicator::Group,
        !activity.ended && !grouped && activity.bell ==> spec_indicator(activity, icon_path, grouped)
            == Indicator::Bell,
        !activity.ended && !grouped && !activity.bell ==> {
            &&& activity.status == Some(SessionStatus::Working) ==> spec_indicator(activity, icon_path, grouped)
                == Indicator::Working
            &&& activity.status == Some(SessionStatus::Blocked) ==> spec_indicator(activity, icon_path, grouped)
                == Indicator::Blocked
            &&& activity.status == Some(SessionStatus::Done) ==> spec_indicator(activity, icon_path, grouped)
                == Indicator::Done
            &&& (activity.status == Some(SessionStatus::Idle) || activity.status == Some(SessionStatus::Unknown))
                ==> (spec_indicator(activity, icon_path, grouped) == Indicator::ProcessRunning <==> activity.process_running)
            &&& (activity.status == Some(SessionStatus::Idle) || activity.status == Some(SessionStatus::Unknown))
                ==> (spec_indicator(activity, icon_path, grouped) == Indicator::Idle <==> !activity.process_running)
            &&& activity.status is None && icon_path is None ==> spec_indicator(activity, icon_path, grouped)
                == Indicator::Blank
            &&& activity.status is None && icon_path is Some ==> spec_indicator(activity, icon_path, grouped)
                == (Indicator::PluginIcon { embedded: has_prefix(icon_path->0, "icons/"@) })
        },
        spec_indicator(Activity { status: Some(SessionStatus::Unknown), ..activity }, icon_path, grouped)
            == spec_indicator(Activity { status: Some(SessionStatus::Idle), ..activity }, icon_path, grouped),
{
}

/// A tab strip with at least two tabs starts with `First` and ends with
/// `Last`; exactly one middle tab is the selected one when the selection lies
/// strictly inside.
pub proof fn lemma_strip_ends(count: int, active: usize, index: int)
    requires
        2 <= count,
        0 < index < count - 1,
    ensures
        spec_tab_position(0, count, Some(active)) == TabPosition::First,
        spec_tab_position(count - 1, count, Some(active)) == TabPosition::Last,
        spec_tab_position(index, count, Some(active)) == TabPosition::Middle(Side::Active) <==> index
            == active,
{
}

} // verus!
