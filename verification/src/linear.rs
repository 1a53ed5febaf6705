//! Linear issues as the board sees them, and the mapping of Linear's
//! workflow-state types onto the board's own statuses.

use vstd::prelude::*;
use crate::text::{
    str_eq, push_str, join_strings, join_with, strings_view, owned, opt_view, clone_opt, chars_le,
    str_le, decimal_text, i64_to_decimal,
};

verus! {

/// An issue assigned to the user in Linear.
pub struct LinearIssue {
    pub id: String,
    pub identifier: String,
    pub title: String,
    pub description: Option<String>,
    pub priority: i64,
    pub state: LinearState,
    pub labels: LabelConnection,
    pub branch_name: Option<String>,
    pub project: Option<LinearProject>,
    pub cycle: Option<CycleRef>,
}

/// The project an issue belongs to.
pub struct LinearProject {
    pub name: String,
}

/// A Linear workflow state: its display name and its type
/// (`backlog`, `unstarted`, `started`, `completed`, `canceled`, ...).
pub struct LinearState {
    pub name: String,
    pub state_type: String,
}

/// The labels attached to an issue.
pub struct LabelConnection {
    pub nodes: Vec<LinearLabel>,
}

/// One label of an issue.
pub struct LinearLabel {
    pub name: String,
}

/// The cycle an issue belongs to: its name and number, and the RFC 3339
/// times it starts and ends at.
pub struct CycleRef {
    pub id: String,
    pub name: Option<String>,
    pub number: Option<i64>,
    pub starts_at: Option<String>,
    pub ends_at: Option<String>,
}

/// The authenticated Linear user.
pub struct LinearUser {
    pub id: String,
    pub name: String,
    pub email: String,
}

/// The board status that a Linear state type maps to.
pub open spec fn status_for_state_type(t: Seq<char>) -> Seq<char> {
    if t == "backlog"@ {
        "backlog"@
    } else if t == "unstarted"@ {
        "todo"@
    } else if t == "started"@ {
        "in_progress"@
    } else if t == "completed"@ {
        "done"@
    } else {
        "backlog"@
    }
}

/// Maps Linear's state type to the board's status; unknown types go to the backlog.
pub fn map_linear_state_to_status(state: &LinearState) -> (r: &'static str)
    ensures
        r@ == status_for_state_type(state.state_type@),
{
    let t = state.state_type.as_str();
    if str_eq(t, "backlog") {
        "backlog"
    } else if str_eq(t, "unstarted") {
        "todo"
    } else if str_eq(t, "started") {
        "in_progress"
    } else if str_eq(t, "completed") {
        "done"
    } else {
        "backlog"
    }
}

/// The error for a GraphQL response that reports errors: their messages, comma-separated.
pub fn graphql_error_message(messages: &Vec<String>) -> (r: String)
    ensures
        r@ == "Linear GraphQL errors: "@ + join_with(strings_view(messages@), ", "@),
{
    let mut r = String::new();
    push_str(&mut r, "Linear GraphQL errors: ");
    let j = join_strings(messages, ", ");
    push_str(&mut r, j.as_str());
    r
}

/// The GraphQL query for one issue's description.
pub fn issue_description_query(ticket_id: &str) -> (r: String)
    ensures
        r@ == "query { issue(id: \""@ + ticket_id@ + "\") { description } }"@,
{
    let mut r = String::new();
    push_str(&mut r, "query { issue(id: \"");
    push_str(&mut r, ticket_id);
    push_str(&mut r, "\") { description } }");
    r
}

/// An assigned Linear issue as the import picker lists it.
pub struct LinearPickerIssue {
    pub id: String,
    pub identifier: String,
    pub title: String,
    pub status: String,
    pub priority: i64,
    pub branch_name: Option<String>,
    pub project: Option<String>,
    pub tags: Vec<String>,
    pub in_current_cycle: bool,
    pub cycle_label: Option<String>,
}

/// The names of an issue's labels, in order.
pub open spec fn label_names(labels: Seq<LinearLabel>) -> Seq<Seq<char>> {
    labels.map_values(|l: LinearLabel| l.name@)
}

/// The issue's cycle is running at `now`: it has started (its start is at or
/// before `now`) and has not ended (it has no end, or the end is at or after
/// `now`). Times are RFC 3339 texts, compared as strings.
pub open spec fn in_cycle_at(cycle: Option<CycleRef>, now: Seq<char>) -> bool {
    match cycle {
        Some(c) => (c.starts_at matches Some(s) && chars_le(s@, now)) && match c.ends_at {
            Some(e) => chars_le(now, e@),
            None => true,
        },
        None => false,
    }
}

/// The label the picker groups an issue's cycle under: its name when that is
/// not empty, otherwise `Cycle <number>` when it has a number.
pub open spec fn cycle_label_of(cycle: Option<CycleRef>) -> Option<Seq<char>> {
    match cycle {
        Some(c) => if c.name matches Some(n) && n@.len() > 0 {
            Some(c.name->0@)
        } else {
            match c.number {
                Some(n) => Some("Cycle "@ + decimal_text(n as int)),
                None => None,
            }
        },
        None => None,
    }
}

/// Law: a cycle with a non-empty name is labelled by that name; one without
/// (no name, or an empty one) is labelled `Cycle <number>` when it has a
/// number, and has no label otherwise; an issue without a cycle has none.
pub proof fn law_cycle_label(c: CycleRef, n: i64)
    ensures
        (c.name is Some && c.name->0@.len() > 0) ==> cycle_label_of(Some(c)) == Some(c.name->0@),
        (c.name is None || c.name->0@.len() == 0) && c.number == Some(n)
            ==> cycle_label_of(Some(c)) == Some("Cycle "@ + decimal_text(n as int)),
        (c.name is None || c.name->0@.len() == 0) && c.number is None ==> cycle_label_of(Some(c)) is None,
        cycle_label_of(None) is None,
{
}

/// Law: an issue is in the current cycle exactly when its cycle has started
/// at or before `now` and has not ended before `now`; a cycle without a start
/// is never current, and one without an end runs on once started.
pub proof fn law_in_cycle(c: CycleRef, now: Seq<char>)
    ensures
        c.starts_at is None ==> !in_cycle_at(Some(c), now),
        c.starts_at is Some && c.ends_at is None ==> in_cycle_at(Some(c), now) == chars_le(c.starts_at->0@, now),
        c.starts_at is Some && c.ends_at is Some
            ==> in_cycle_at(Some(c), now) == (chars_le(c.starts_at->0@, now) && chars_le(now, c.ends_at->0@)),
        !in_cycle_at(None, now),
{
}

fn cycle_running(cycle: &Option<CycleRef>, now: &str) -> (r: bool)
    ensures
        r == in_cycle_at(*cycle, now@),
{
    match cycle {
        Some(c) => {
            let started = match &c.starts_at {
                Some(s) => str_le(s.as_str(), now),
                None => false,
            };
            let not_ended = match &c.ends_at {
                Some(e) => str_le(now, e.as_str()),
                None => true,
            };
            started && not_ended
        },
        None => false,
    }
}

fn cycle_label(cycle: &Option<CycleRef>) -> (r: Option<String>)
    ensures
        opt_view(r) == cycle_label_of(*cycle),
{
    match cycle {
        Some(c) => {
            if let Some(n) = &c.name {
                if n.as_str().unicode_len() > 0 {
                    return Some(n.clone());
                }
            }
            match c.number {
                Some(n) => {
                    let mut l = String::new();
                    push_str(&mut l, "Cycle ");
                    let d = i64_to_decimal(n);
                    push_str(&mut l, d.as_str());
                    Some(l)
                },
                None => None,
            }
        },
        None => None,
    }
}

/// The picker's entry for an issue at time `now` (RFC 3339): its status
/// mapped from the workflow state, its labels as tags, its project's name,
/// whether its cycle is running at `now`, and the cycle's label.
pub fn picker_issue(issue: &LinearIssue, now: &str) -> (r: LinearPickerIssue)
    ensures
        r.id@ == issue.id@,
        r.identifier@ == issue.identifier@,
        r.title@ == issue.title@,
        r.status@ == status_for_state_type(issue.state.state_type@),
        r.priority == issue.priority,
        opt_view(r.branch_name) == opt_view(issue.branch_name),
        opt_view(r.project) == (match issue.project { Some(p) => Some(p.name@), None => None::<Seq<char>> }),
        strings_view(r.tags@) == label_names(issue.labels.nodes@),
        r.in_current_cycle == in_cycle_at(issue.cycle, now@),
        opt_view(r.cycle_label) == cycle_label_of(issue.cycle),
{
    let status = map_linear_state_to_status(&issue.state);
    let mut tags: Vec<String> = Vec::new();
    let mut i: usize = 0;
    while i < issue.labels.nodes.len()
        invariant
            i <= issue.labels.nodes@.len(),
            strings_view(tags@) == label_names(issue.labels.nodes@).take(i as int),
        decreases issue.labels.nodes@.len() - i,
    {
        let name = issue.labels.nodes[i].name.clone();
        proof {
            let names = label_names(issue.labels.nodes@);
            assert(names.take(i + 1) =~= names.take(i as int).push(name@));
        }
        let ghost before = tags@;
        tags.push(name);
        assert(tags@ =~= before.push(name));
        assert(strings_view(tags@) =~= strings_view(before).push(name@));
        i += 1;
    }
    assert(label_names(issue.labels.nodes@).take(issue.labels.nodes@.len() as int) =~= label_names(issue.labels.nodes@));
    let project = match &issue.project {
        Some(p) => Some(p.name.clone()),
        None => None,
    };
    LinearPickerIssue {
        id: issue.id.clone(),
        identifier: issue.identifier.clone(),
        title: issue.title.clone(),
        status: owned(status),
        priority: issue.priority,
        branch_name: clone_opt(&issue.branch_name),
        project,
        tags,
        in_current_cycle: cycle_running(&issue.cycle, now),
        cycle_label: cycle_label(&issue.cycle),
    }
}

} // verus!
