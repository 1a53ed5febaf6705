//! The rows the local database keeps about repositories and tickets, and the
//! rule by which a ticket synced from Linear is merged into the row already
//! stored for it.
//!
//! Reading and writing the SQLite file is done by the caller; this module
//! decides what the merged row holds.

use vstd::prelude::*;
use crate::text::{opt_view, clone_opt, owned, push_str, i64_zero_padded, zero_padded_decimal, strings_view};

verus! {

/// A ticket as the board lists it.
pub struct TicketRow {
    pub id: String,
    pub identifier: String,
    pub title: String,
    pub status: String,
    pub priority: i64,
    pub branch_name: Option<String>,
    pub tags: String,
    pub created_at: String,
    pub updated_at: String,
}

/// A repository the app manages.
pub struct RepoRow {
    pub id: String,
    pub name: String,
    pub path: String,
    pub worktrees_dir: String,
    pub primary_branch: String,
    pub preview_port: i64,
    pub is_active: bool,
    pub created_at: String,
}

/// The stored columns of a ticket that syncing from Linear touches or keeps.
pub struct TicketRecord {
    pub id: String,
    pub identifier: Option<String>,
    pub repo_id: String,
    pub title: String,
    pub status: String,
    pub priority: i64,
    pub tags: String,
    pub branch_name: Option<String>,
    pub worktree_path: Option<String>,
    pub created_at: String,
    pub updated_at: String,
}

/// A ticket as Linear reports it, to be merged into the database.
pub struct TicketUpsert {
    pub id: String,
    pub identifier: String,
    pub repo_id: String,
    pub title: String,
    pub status: String,
    pub priority: i64,
    pub tags: String,
    pub branch_name: Option<String>,
    pub created_at: String,
    pub updated_at: String,
}

/// The value of a record, field by field, as character sequences.
pub struct TicketRecordView {
    pub id: Seq<char>,
    pub identifier: Option<Seq<char>>,
    pub repo_id: Seq<char>,
    pub title: Seq<char>,
    pub status: Seq<char>,
    pub priority: i64,
    pub tags: Seq<char>,
    pub branch_name: Option<Seq<char>>,
    pub worktree_path: Option<Seq<char>>,
    pub created_at: Seq<char>,
    pub updated_at: Seq<char>,
}

impl View for TicketRecord {
    type V = TicketRecordView;

    open spec fn view(&self) -> TicketRecordView {
        TicketRecordView {
            id: self.id@,
            identifier: opt_view(self.identifier),
            repo_id: self.repo_id@,
            title: self.title@,
            status: self.status@,
            priority: self.priority,
            tags: self.tags@,
            branch_name: opt_view(self.branch_name),
            worktree_path: opt_view(self.worktree_path),
            created_at: self.created_at@,
            updated_at: self.updated_at@,
        }
    }
}

/// The incoming ticket, field by field, as character sequences.
pub struct TicketUpsertView {
    pub id: Seq<char>,
    pub identifier: Seq<char>,
    pub repo_id: Seq<char>,
    pub title: Seq<char>,
    pub status: Seq<char>,
    pub priority: i64,
    pub tags: Seq<char>,
    pub branch_name: Option<Seq<char>>,
    pub created_at: Seq<char>,
    pub updated_at: Seq<char>,
}

impl View for TicketUpsert {
    type V = TicketUpsertView;

    open spec fn view(&self) -> TicketUpsertView {
        TicketUpsertView {
            id: self.id@,
            identifier: self.identifier@,
            repo_id: self.repo_id@,
            title: self.title@,
            status: self.status@,
            priority: self.priority,
            tags: self.tags@,
            branch_name: opt_view(self.branch_name),
            created_at: self.created_at@,
            updated_at: self.updated_at@,
        }
    }
}

/// The stored ticket after Linear's version of it is merged in. A new ticket
/// is stored as Linear has it. For a known ticket Linear's identifier, title,
/// priority, tags and update time win, but the local fields are kept: the
/// repository, creation time and worktree stay, the status stays once a
/// worktree exists, and a branch name is only replaced by another one.
pub open spec fn merged_ticket(existing: Option<TicketRecordView>, incoming: TicketUpsertView) -> TicketRecordView {
    match existing {
        None => TicketRecordView {
            id: incoming.id,
            identifier: Some(incoming.identifier),
            repo_id: incoming.repo_id,
            title: incoming.title,
            status: incoming.status,
            priority: incoming.priority,
            tags: incoming.tags,
            branch_name: incoming.branch_name,
            worktree_path: None,
            created_at: incoming.created_at,
            updated_at: incoming.updated_at,
        },
        Some(e) => TicketRecordView {
            id: e.id,
            identifier: Some(incoming.identifier),
            repo_id: e.repo_id,
            title: incoming.title,
            status: if e.worktree_path is Some { e.status } else { incoming.status },
            priority: incoming.priority,
            tags: incoming.tags,
            branch_name: match incoming.branch_name {
                Some(b) => Some(b),
                None => e.branch_name,
            },
            worktree_path: e.worktree_path,
            created_at: e.created_at,
            updated_at: incoming.updated_at,
        },
    }
}

/// Merges Linear's version of a ticket into the stored row (if any).
pub fn upsert_ticket_record(existing: Option<TicketRecord>, incoming: TicketUpsert) -> (r: TicketRecord)
    requires
        existing matches Some(e) ==> e.id@ == incoming.id@,
    ensures
        r@ == merged_ticket(
            match existing { Some(e) => Some(e@), None => None },
            incoming@,
        ),
{
    match existing {
        None => TicketRecord {
            id: incoming.id,
            identifier: Some(incoming.identifier),
            repo_id: incoming.repo_id,
            title: incoming.title,
            status: incoming.status,
            priority: incoming.priority,
            tags: incoming.tags,
            branch_name: incoming.branch_name,
            worktree_path: None,
            created_at: incoming.created_at,
            updated_at: incoming.updated_at,
        },
        Some(e) => {
            let status = if e.worktree_path.is_some() { e.status } else { incoming.status };
            let branch_name = match incoming.branch_name {
                Some(b) => Some(b),
                None => e.branch_name,
            };
            TicketRecord {
                id: e.id,
                identifier: Some(incoming.identifier),
                repo_id: e.repo_id,
                title: incoming.title,
                status,
                priority: incoming.priority,
                tags: incoming.tags,
                branch_name,
                worktree_path: e.worktree_path,
                created_at: e.created_at,
                updated_at: incoming.updated_at,
            }
        },
    }
}

/// The board's row for a stored ticket; a missing identifier reads as empty.
pub fn ticket_row(rec: &TicketRecord) -> (r: TicketRow)
    ensures
        r.id@ == rec.id@,
        r.identifier@ == (match opt_view(rec.identifier) { Some(s) => s, None => Seq::<char>::empty() }),
        r.title@ == rec.title@,
        r.status@ == rec.status@,
        r.priority == rec.priority,
        opt_view(r.branch_name) == opt_view(rec.branch_name),
        r.tags@ == rec.tags@,
        r.created_at@ == rec.created_at@,
        r.updated_at@ == rec.updated_at@,
{
    let identifier = match &rec.identifier {
        Some(s) => s.clone(),
        None => owned(""),
    };
    proof { reveal_strlit(""); }
    TicketRow {
        id: rec.id.clone(),
        identifier,
        title: rec.title.clone(),
        status: rec.status.clone(),
        priority: rec.priority,
        branch_name: clone_opt(&rec.branch_name),
        tags: rec.tags.clone(),
        created_at: rec.created_at.clone(),
        updated_at: rec.updated_at.clone(),
    }
}

/// Law: syncing takes Linear's fields. Whatever the stored ticket held, the
/// merged one has Linear's title, priority, labels, identifier and update
/// time, and the branch Linear names when it names one.
pub proof fn law_upsert_takes_linear_fields(existing: Option<TicketRecordView>, incoming: TicketUpsertView)
    ensures
        merged_ticket(existing, incoming).title == incoming.title,
        merged_ticket(existing, incoming).priority == incoming.priority,
        merged_ticket(existing, incoming).tags == incoming.tags,
        merged_ticket(existing, incoming).identifier == Some(incoming.identifier),
        merged_ticket(existing, incoming).updated_at == incoming.updated_at,
        incoming.branch_name is Some ==> merged_ticket(existing, incoming).branch_name == incoming.branch_name,
        existing is None ==> merged_ticket(existing, incoming).status == incoming.status,
{
}

/// Law: syncing keeps the local fields. The worktree path, repository and
/// creation time of a known ticket never change; its status is kept once it
/// has a worktree; a stored branch name is never lost.
pub proof fn law_upsert_keeps_local_fields(existing: TicketRecordView, incoming: TicketUpsertView)
    ensures
        merged_ticket(Some(existing), incoming).worktree_path == existing.worktree_path,
        merged_ticket(Some(existing), incoming).repo_id == existing.repo_id,
        merged_ticket(Some(existing), incoming).created_at == existing.created_at,
        existing.worktree_path is Some ==> merged_ticket(Some(existing), incoming).status == existing.status,
        existing.branch_name is Some ==> merged_ticket(Some(existing), incoming).branch_name is Some,
{
}

/// Law: syncing the same Linear data twice gives the same row as syncing it once.
pub proof fn law_upsert_idempotent(existing: Option<TicketRecordView>, incoming: TicketUpsertView)
    ensures
        merged_ticket(Some(merged_ticket(existing, incoming)), incoming) == merged_ticket(existing, incoming),
{
}

/// The identifier of a local task: `T-` and its number, at least three digits.
pub fn task_identifier(number: i64) -> (r: String)
    ensures
        r@ == "T-"@ + zero_padded_decimal(number as int, 3),
{
    let mut r = String::new();
    push_str(&mut r, "T-");
    let n = i64_zero_padded(number, 3);
    push_str(&mut r, n.as_str());
    r
}

/// What `serde_json::from_str::<Vec<String>>` gives for a text: the list of
/// strings when the text is a JSON array of strings, otherwise nothing.
pub uninterp spec fn json_string_list(text: Seq<char>) -> Option<Seq<Seq<char>>>;

/// `serde_json::from_str::<Vec<String>>`, with the error dropped: the
/// contract only names the result (JSON's grammar is not restated here).
#[verifier::external_body]
fn parse_json_string_list(text: &str) -> (r: Option<Vec<String>>)
    ensures
        match r {
            Some(v) => json_string_list(text@) == Some(strings_view(v@)),
            None => json_string_list(text@) is None,
        },
{
    serde_json::from_str::<Vec<String>>(text).ok()
}

/// The labels stored with a ticket: its `tags` column read as a JSON list of
/// strings, or no labels when the column does not hold one.
pub open spec fn ticket_tags(tags: Seq<char>) -> Seq<Seq<char>> {
    match json_string_list(tags) {
        Some(v) => v,
        None => Seq::empty(),
    }
}

/// A ticket as the board's card shows it.
pub struct TicketCard {
    pub id: String,
    pub identifier: String,
    pub title: String,
    pub priority: i64,
    pub status: String,
    pub branch_name: Option<String>,
    pub tags: Vec<String>,
    pub project: Option<String>,
    pub assignee: Option<String>,
    pub created_at: String,
    pub updated_at: String,
}

/// The card for a stored ticket; its labels are read from the JSON `tags`
/// column. Project and assignee are not stored locally.
pub fn ticket_card(row: TicketRow) -> (r: TicketCard)
    ensures
        r.id@ == row.id@,
        r.identifier@ == row.identifier@,
        r.title@ == row.title@,
        r.priority == row.priority,
        r.status@ == row.status@,
        opt_view(r.branch_name) == opt_view(row.branch_name),
        strings_view(r.tags@) == ticket_tags(row.tags@),
        r.project is None,
        r.assignee is None,
        r.created_at@ == row.created_at@,
        r.updated_at@ == row.updated_at@,
{
    let parsed = parse_json_string_list(row.tags.as_str());
    card_with_tags(row, parsed)
}

/// The card for a stored ticket, given what its `tags` column parsed to:
/// the parsed labels, or none when the column did not parse.
pub fn card_with_tags(row: TicketRow, parsed_tags: Option<Vec<String>>) -> (r: TicketCard)
    ensures
        r.id@ == row.id@,
        r.identifier@ == row.identifier@,
        r.title@ == row.title@,
        r.priority == row.priority,
        r.status@ == row.status@,
        opt_view(r.branch_name) == opt_view(row.branch_name),
        strings_view(r.tags@) == (match parsed_tags {
            Some(v) => strings_view(v@),
            None => Seq::<Seq<char>>::empty(),
        }),
        r.project is None,
        r.assignee is None,
        r.created_at@ == row.created_at@,
        r.updated_at@ == row.updated_at@,
{
    let tags = match parsed_tags {
        Some(v) => v,
        None => {
            let v: Vec<String> = Vec::new();
            assert(strings_view(v@) =~= Seq::<Seq<char>>::empty());
            v
        },
    };
    TicketCard {
        id: row.id,
        identifier: row.identifier,
        title: row.title,
        priority: row.priority,
        status: row.status,
        branch_name: row.branch_name,
        tags,
        project: None,
        assignee: None,
        created_at: row.created_at,
        updated_at: row.updated_at,
    }
}

/// The card of a task that was just created or imported: it is to do, has
/// no labels yet, and was created and updated at `now`.
pub fn new_task_card(
    id: String,
    identifier: String,
    title: String,
    priority: i64,
    branch_name: Option<String>,
    now: &str,
) -> (r: TicketCard)
    ensures
        r.id@ == id@,
        r.identifier@ == identifier@,
        r.title@ == title@,
        r.priority == priority,
        r.status@ == "todo"@,
        opt_view(r.branch_name) == opt_view(branch_name),
        r.tags@.len() == 0,
        r.project is None,
        r.assignee is None,
        r.created_at@ == now@,
        r.updated_at@ == now@,
{
    TicketCard {
        id,
        identifier,
        title,
        priority,
        status: owned("todo"),
        branch_name,
        tags: Vec::new(),
        project: None,
        assignee: None,
        created_at: owned(now),
        updated_at: owned(now),
    }
}

} // verus!
