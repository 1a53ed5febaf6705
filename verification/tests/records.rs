use herd::db::{
    card_with_tags, new_task_card, task_identifier, ticket_card, ticket_row, upsert_ticket_record,
    TicketRecord, TicketRow, TicketUpsert,
};
use herd::linear::{
    graphql_error_message, issue_description_query, map_linear_state_to_status, picker_issue,
    CycleRef, LabelConnection, LinearIssue, LinearLabel, LinearProject, LinearState,
};

fn incoming(status: &str, branch: Option<&str>) -> TicketUpsert {
    TicketUpsert {
        id: "LIN-1".to_string(),
        identifier: "ENG-1".to_string(),
        repo_id: "repo-new".to_string(),
        title: "New title".to_string(),
        status: status.to_string(),
        priority: 2,
        tags: "[\"bug\"]".to_string(),
        branch_name: branch.map(|s| s.to_string()),
        created_at: "c2".to_string(),
        updated_at: "u2".to_string(),
    }
}

fn stored(worktree: Option<&str>) -> TicketRecord {
    TicketRecord {
        id: "LIN-1".to_string(),
        identifier: None,
        repo_id: "repo-old".to_string(),
        title: "Old title".to_string(),
        status: "in_progress".to_string(),
        priority: 1,
        tags: "[]".to_string(),
        branch_name: Some("eng-1-old".to_string()),
        worktree_path: worktree.map(|s| s.to_string()),
        created_at: "c1".to_string(),
        updated_at: "u1".to_string(),
    }
}

#[test]
fn upsert_inserts_new_ticket() {
    let r = upsert_ticket_record(None, incoming("todo", None));
    assert_eq!(r.status, "todo");
    assert_eq!(r.repo_id, "repo-new");
    assert_eq!(r.identifier.as_deref(), Some("ENG-1"));
    assert!(r.worktree_path.is_none() && r.branch_name.is_none());
}

#[test]
fn upsert_keeps_local_fields() {
    let r = upsert_ticket_record(Some(stored(Some("/w/eng-1"))), incoming("todo", None));
    assert_eq!(r.status, "in_progress");
    assert_eq!(r.branch_name.as_deref(), Some("eng-1-old"));
    assert_eq!(r.worktree_path.as_deref(), Some("/w/eng-1"));
    assert_eq!(r.repo_id, "repo-old");
    assert_eq!(r.created_at, "c1");
    assert_eq!(r.title, "New title");
    assert_eq!(r.updated_at, "u2");
    assert_eq!(r.priority, 2);
}

#[test]
fn upsert_takes_linear_status_without_worktree() {
    let r = upsert_ticket_record(Some(stored(None)), incoming("done", Some("eng-1-new")));
    assert_eq!(r.status, "done");
    assert_eq!(r.branch_name.as_deref(), Some("eng-1-new"));
}

#[test]
fn upsert_twice_is_upsert_once() {
    let once = upsert_ticket_record(Some(stored(None)), incoming("done", None));
    let once_row = ticket_row(&once);
    let twice = upsert_ticket_record(Some(once), incoming("done", None));
    let twice_row = ticket_row(&twice);
    assert_eq!(once_row.status, twice_row.status);
    assert_eq!(once_row.branch_name, twice_row.branch_name);
    assert_eq!(once_row.title, twice_row.title);
}

#[test]
fn ticket_rows() {
    let row = ticket_row(&stored(None));
    assert_eq!(row.identifier, "");
    assert_eq!(row.id, "LIN-1");
    assert_eq!(row.tags, "[]");
}

#[test]
fn task_identifiers_are_zero_padded() {
    assert_eq!(task_identifier(7), "T-007");
    assert_eq!(task_identifier(42), "T-042");
    assert_eq!(task_identifier(1234), "T-1234");
    assert_eq!(task_identifier(-5), format!("T-{:03}", -5));
}

#[test]
fn linear_states_map_to_statuses() {
    let st = |t: &str| LinearState { name: "x".to_string(), state_type: t.to_string() };
    assert_eq!(map_linear_state_to_status(&st("backlog")), "backlog");
    assert_eq!(map_linear_state_to_status(&st("unstarted")), "todo");
    assert_eq!(map_linear_state_to_status(&st("started")), "in_progress");
    assert_eq!(map_linear_state_to_status(&st("completed")), "done");
    assert_eq!(map_linear_state_to_status(&st("canceled")), "backlog");
}

#[test]
fn linear_messages() {
    assert_eq!(
        graphql_error_message(&vec!["bad token".to_string(), "rate limited".to_string()]),
        "Linear GraphQL errors: bad token, rate limited"
    );
    assert_eq!(graphql_error_message(&vec![]), "Linear GraphQL errors: ");
    assert_eq!(issue_description_query("abc"), "query { issue(id: \"abc\") { description } }");
}

#[test]
fn ticket_cards_read_tags_json() {
    let row = |tags: &str| TicketRow {
        id: "LIN-1".to_string(),
        identifier: "ENG-1".to_string(),
        title: "T".to_string(),
        status: "todo".to_string(),
        priority: 1,
        branch_name: None,
        tags: tags.to_string(),
        created_at: "c".to_string(),
        updated_at: "u".to_string(),
    };
    assert_eq!(ticket_card(row("[\"bug\",\"ui\"]")).tags, vec!["bug".to_string(), "ui".to_string()]);
    assert!(ticket_card(row("not json")).tags.is_empty());
    assert!(ticket_card(row("[1,2]")).tags.is_empty());
    let c = card_with_tags(row("ignored"), Some(vec!["x".to_string()]));
    assert_eq!(c.tags, vec!["x".to_string()]);
    assert!(c.project.is_none() && c.assignee.is_none());
    let n = new_task_card("id".to_string(), "T-001".to_string(), "Title".to_string(), 3, None, "2024-01-01T00:00:00Z");
    assert_eq!(n.status, "todo");
    assert_eq!(n.created_at, "2024-01-01T00:00:00Z");
    assert!(n.tags.is_empty());
}

fn issue_with_cycle(cycle: Option<CycleRef>) -> LinearIssue {
    LinearIssue {
        id: "abc".to_string(),
        identifier: "ENG-1".to_string(),
        title: "Fix login".to_string(),
        description: None,
        priority: 2,
        state: LinearState { name: "In Progress".to_string(), state_type: "started".to_string() },
        labels: LabelConnection {
            nodes: vec![
                LinearLabel { name: "bug".to_string() },
                LinearLabel { name: "auth".to_string() },
            ],
        },
        branch_name: Some("eng-1-fix-login".to_string()),
        project: Some(LinearProject { name: "Web".to_string() }),
        cycle,
    }
}

fn cycle(name: Option<&str>, number: Option<i64>, starts: Option<&str>, ends: Option<&str>) -> CycleRef {
    CycleRef {
        id: "c1".to_string(),
        name: name.map(|s| s.to_string()),
        number,
        starts_at: starts.map(|s| s.to_string()),
        ends_at: ends.map(|s| s.to_string()),
    }
}

#[test]
fn picker_issue_maps_status_and_labels() {
    let issue = issue_with_cycle(None);
    let p = picker_issue(&issue, "2024-05-01T00:00:00Z");
    assert_eq!(p.id, "abc");
    assert_eq!(p.identifier, "ENG-1");
    assert_eq!(p.title, "Fix login");
    assert_eq!(p.status, "in_progress");
    assert_eq!(p.priority, 2);
    assert_eq!(p.branch_name, Some("eng-1-fix-login".to_string()));
    assert_eq!(p.project, Some("Web".to_string()));
    assert_eq!(p.tags, vec!["bug".to_string(), "auth".to_string()]);
    assert!(!p.in_current_cycle);
    assert_eq!(p.cycle_label, None);
}

#[test]
fn picker_issue_groups_by_current_cycle() {
    let now = "2024-05-10T12:00:00Z";
    let running = issue_with_cycle(Some(cycle(Some("Sprint 7"), Some(7), Some("2024-05-06T00:00:00Z"), Some("2024-05-20T00:00:00Z"))));
    let p = picker_issue(&running, now);
    assert!(p.in_current_cycle);
    assert_eq!(p.cycle_label, Some("Sprint 7".to_string()));
    let open_ended = issue_with_cycle(Some(cycle(Some(""), Some(12), Some("2024-05-06T00:00:00Z"), None)));
    let p = picker_issue(&open_ended, now);
    assert!(p.in_current_cycle);
    assert_eq!(p.cycle_label, Some("Cycle 12".to_string()));
    let future = issue_with_cycle(Some(cycle(None, None, Some("2024-06-01T00:00:00Z"), None)));
    let p = picker_issue(&future, now);
    assert!(!p.in_current_cycle);
    assert_eq!(p.cycle_label, None);
    let ended = issue_with_cycle(Some(cycle(None, Some(3), Some("2024-04-01T00:00:00Z"), Some("2024-04-15T00:00:00Z"))));
    assert!(!picker_issue(&ended, now).in_current_cycle);
    let unstarted = issue_with_cycle(Some(cycle(None, Some(3), None, None)));
    assert!(!picker_issue(&unstarted, now).in_current_cycle);
    let edge = issue_with_cycle(Some(cycle(None, None, Some(now), Some(now))));
    assert!(picker_issue(&edge, now).in_current_cycle);
}

#[test]
fn strings_compare_as_str_does() {
    assert!(herd::text::str_le("2024-05-01", "2024-05-02"));
    assert!(herd::text::str_le("abc", "abc"));
    assert!(herd::text::str_le("ab", "abc"));
    assert!(!herd::text::str_le("abc", "ab"));
    assert!(!herd::text::str_le("b", "a"));
    assert!(herd::text::str_le("z", "é"));
}

#[test]
fn unicode_white_space_is_trimmed() {
    assert_eq!(herd::text::trim("\u{3000}\u{85} x \u{2029}\t"), "x");
    assert_eq!(herd::text::trim("\u{200B}x"), "\u{200B}x");
}
