use zeddy::closing::{
    active_after_removal, close_outcome, close_prompt, plan_bulk_close, terminal_count, CloseResult, CloseTarget,
};

fn target(item: u64, session: Option<&str>) -> CloseTarget {
    CloseTarget { item, session: session.map(str::to_owned) }
}

#[test]
fn plugins_close_at_once_and_terminals_wait_for_the_backend() {
    let targets = vec![target(1, Some("pane-1")), target(2, None), target(3, Some("pane-3")), target(4, None)];
    let plan = plan_bulk_close(&targets);
    assert_eq!(plan.immediate, vec![2, 4]);
    assert_eq!(plan.terminals, vec![(1, "pane-1".to_owned()), (3, "pane-3".to_owned())]);
    assert_eq!(terminal_count(&targets), 2);
}

#[test]
fn the_prompt_names_what_closes_and_how_many_sessions_end() {
    assert_eq!(close_prompt("space", 3), "Close this space and terminate 3 sessions?");
    assert_eq!(close_prompt("pane", 12), "Close this pane and terminate 12 sessions?");
}

#[test]
fn only_terminated_sessions_are_removed_and_failures_keep_the_space() {
    let results = vec![
        CloseResult { item: 1, failure: None },
        CloseResult { item: 2, failure: Some("busy".to_owned()) },
        CloseResult { item: 3, failure: Some("gone".to_owned()) },
    ];
    let outcome = close_outcome(&results, true);
    assert_eq!(outcome.closed, vec![1]);
    assert_eq!(outcome.problem.as_deref(), Some("busy\ngone"));
    assert!(!outcome.remove_space);

    let clean = close_outcome(&vec![CloseResult { item: 5, failure: None }], true);
    assert_eq!(clean.closed, vec![5]);
    assert_eq!(clean.problem, None);
    assert!(clean.remove_space);
    assert!(!close_outcome(&Vec::new(), false).remove_space);
}

#[test]
fn removing_a_space_activates_its_neighbour() {
    assert_eq!(active_after_removal(1, 3), Some(1));
    assert_eq!(active_after_removal(3, 3), Some(2));
    assert_eq!(active_after_removal(0, 0), None);
}
