//! Closing many items at once: a whole space or every item of a pane.
//!
//! Items without a backend session close at once; terminals ask the backend
//! to terminate their sessions, and only those that succeeded are removed.
//! Terminating more than one session needs the user's confirmation. The
//! prompt, the backend calls and the window are the application's.

use vstd::prelude::*;

use crate::text::{append_chars, append_text, chars_of, decimal, push_decimal, string_from};

verus! {

/// A close target: an item and, for a terminal, its backend session.
pub struct CloseTarget {
    pub item: u64,
    pub session: Option<String>,
}

/// Items that close at once, and terminals whose sessions are terminated
/// first, each in the order given.
pub struct ClosePlan {
    pub immediate: Vec<u64>,
    pub terminals: Vec<(u64, String)>,
}

pub open spec fn immediate_items(targets: Seq<CloseTarget>) -> Seq<u64>
    decreases targets.len(),
{
    if targets.len() == 0 {
        Seq::empty()
    } else {
        let rest = immediate_items(targets.drop_last());
        if targets.last().session is None {
            rest.push(targets.last().item)
        } else {
            rest
        }
    }
}

pub open spec fn terminal_sessions(targets: Seq<CloseTarget>) -> Seq<(u64, Seq<char>)>
    decreases targets.len(),
{
    if targets.len() == 0 {
        Seq::empty()
    } else {
        let rest = terminal_sessions(targets.drop_last());
        match targets.last().session {
            Some(s) => rest.push((targets.last().item, s@)),
            None => rest,
        }
    }
}

/// Splits the targets into those that close at once and the terminals.
pub fn plan_bulk_close(targets: &Vec<CloseTarget>) -> (plan: ClosePlan)
    ensures
        plan.immediate@ == immediate_items(targets@),
        plan.terminals@.map_values(|t: (u64, String)| (t.0, t.1@)) == terminal_sessions(targets@),
{
    let mut immediate: Vec<u64> = Vec::new();
    let mut terminals: Vec<(u64, String)> = Vec::new();
    let mut i: usize = 0;
    while i < targets.len()
        invariant
            i <= targets@.len(),
            immediate@ == immediate_items(targets@.subrange(0, i as int)),
            terminals@.map_values(|t: (u64, String)| (t.0, t.1@)) == terminal_sessions(
                targets@.subrange(0, i as int),
            ),
        decreases targets@.len() - i,
    {
        proof {
            assert(targets@.subrange(0, i + 1).drop_last() =~= targets@.subrange(0, i as int));
        }
        let target = &targets[i];
        match &target.session {
            Some(session) => {
                let ghost before = terminals@.map_values(|t: (u64, String)| (t.0, t.1@));
                terminals.push((target.item, session.clone()));
                assert(terminals@.map_values(|t: (u64, String)| (t.0, t.1@)) =~= before.push(
                    (target.item, session@),
                ));
            },
            None => {
                immediate.push(target.item);
            },
        }
        i = i + 1;
    }
    assert(targets@.subrange(0, targets@.len() as int) =~= targets@);
    ClosePlan { immediate, terminals }
}

/// The number of targets with a backend session.
pub fn terminal_count(targets: &Vec<CloseTarget>) -> (count: usize)
    ensures
        count == terminal_sessions(targets@).len(),
{
    let plan = plan_bulk_close(targets);
    plan.terminals.len()
}

/// The confirmation question for terminating `count` sessions.
pub open spec fn spec_close_prompt(noun: Seq<char>, count: nat) -> Seq<char> {
    "Close this "@ + noun + " and terminate "@ + decimal(count) + " sessions?"@
}

pub fn close_prompt(noun: &str, count: usize) -> (prompt: String)
    ensures
        prompt@ == spec_close_prompt(noun@, count as nat),
{
    let mut out: Vec<char> = Vec::new();
    append_text(&mut out, "Close this ");
    append_text(&mut out, noun);
    append_text(&mut out, " and terminate ");
    push_decimal(&mut out, count as u64);
    append_text(&mut out, " sessions?");
    assert(out@ =~= spec_close_prompt(noun@, count as nat));
    string_from(out.as_slice())
}

/// What the backend answered for each terminated session.
pub struct CloseResult {
    pub item: u64,
    pub failure: Option<String>,
}

pub open spec fn closed_items(results: Seq<CloseResult>) -> Seq<u64>
    decreases results.len(),
{
    if results.len() == 0 {
        Seq::empty()
    } else {
        let rest = closed_items(results.drop_last());
        if results.last().failure is None {
            rest.push(results.last().item)
        } else {
            rest
        }
    }
}

pub open spec fn failure_lines(results: Seq<CloseResult>) -> Seq<Seq<char>>
    decreases results.len(),
{
    if results.len() == 0 {
        Seq::empty()
    } else {
        let rest = failure_lines(results.drop_last());
        match results.last().failure {
            Some(f) => rest.push(f@),
            None => rest,
        }
    }
}

/// Lines joined by newlines.
pub open spec fn joined_lines(lines: Seq<Seq<char>>) -> Seq<char>
    decreases lines.len(),
{
    if lines.len() == 0 {
        Seq::empty()
    } else if lines.len() == 1 {
        lines[0]
    } else {
        joined_lines(lines.drop_last()) + seq!['\n'] + lines.last()
    }
}

/// The outcome of a bulk close: the items to remove (those whose session
/// ended), the problem to report (every failure, one per line), and whether
/// the space itself is removed (asked for, and nothing failed).
pub struct CloseOutcome {
    pub closed: Vec<u64>,
    pub problem: Option<String>,
    pub remove_space: bool,
}

pub fn close_outcome(results: &Vec<CloseResult>, remove_space: bool) -> (outcome: CloseOutcome)
    ensures
        outcome.closed@ == closed_items(results@),
        match outcome.problem {
            Some(p) => failure_lines(results@).len() > 0 && p@ == joined_lines(failure_lines(results@)),
            None => failure_lines(results@).len() == 0,
        },
        outcome.remove_space == (remove_space && failure_lines(results@).len() == 0),
{
    let mut closed: Vec<u64> = Vec::new();
    let mut text: Vec<char> = Vec::new();
    let mut failures: usize = 0;
    let mut i: usize = 0;
    while i < results.len()
        invariant
            i <= results@.len(),
            closed@ == closed_items(results@.subrange(0, i as int)),
            failures == failure_lines(results@.subrange(0, i as int)).len(),
            text@ == joined_lines(failure_lines(results@.subrange(0, i as int))),
            failures <= i,
        decreases results@.len() - i,
    {
        proof {
            assert(results@.subrange(0, i + 1).drop_last() =~= results@.subrange(0, i as int));
        }
        let result = &results[i];
        match &result.failure {
            Some(failure) => {
                let ghost lines = failure_lines(results@.subrange(0, i as int));
                let ghost next = failure_lines(results@.subrange(0, i + 1));
                assert(next == lines.push(failure@));
                assert(next.drop_last() =~= lines);
                let line = chars_of(failure.as_str());
                let ghost before = text@;
                if failures > 0 {
                    text.push('\n');
                }
                append_chars(&mut text, &line);
                proof {
                    if failures == 0 {
                        assert(lines.len() == 0);
                        assert(text@ =~= failure@);
                    } else {
                        assert(text@ =~= before + seq!['\n'] + failure@);
                    }
                }
                failures = failures + 1;
            },
            None => {
                closed.push(result.item);
            },
        }
        i = i + 1;
    }
    assert(results@.subrange(0, results@.len() as int) =~= results@);
    let problem = if failures > 0 {
        Some(string_from(text.as_slice()))
    } else {
        None
    };
    CloseOutcome { closed, problem, remove_space: remove_space && failures == 0 }
}

/// After removing the space at `index`, the active space is the one now at
/// that index, or the last one, or none when no space is left.
pub open spec fn spec_active_after_removal(index: int, remaining: int) -> Option<int> {
    if remaining == 0 {
        None
    } else if index < remaining {
        Some(index)
    } else {
        Some(remaining - 1)
    }
}

pub fn active_after_removal(index: usize, remaining: usize) -> (active: Option<usize>)
    ensures
        match active {
            Some(a) => spec_active_after_removal(index as int, remaining as int) == Some(a as int),
            None => spec_active_after_removal(index as int, remaining as int) is None,
        },
{
    if remaining == 0 {
        None
    } else if index < remaining {
        Some(index)
    } else {
        Some(remaining - 1)
    }
}

/// Every target is accounted for once: closed at once or terminated.
pub proof fn lemma_every_target_is_planned(targets: Seq<CloseTarget>)
    ensures
        immediate_items(targets).len() + terminal_sessions(targets).len() == targets.len(),
    decreases targets.len(),
{
    if targets.len() > 0 {
        lemma_every_target_is_planned(targets.drop_last());
    }
}

} // verus!
