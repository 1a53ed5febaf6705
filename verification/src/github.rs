//! Pull requests on GitHub: reading `owner/repo` from the `origin` remote,
//! the REST endpoints the app polls, the summary a ticket card shows, and
//! how polling moves a ticket between statuses.
//!
//! Running `git` and the HTTP requests themselves are done by the caller.

use vstd::prelude::*;
use crate::text::{
    chars_of, trim_chars, trim_ws, string_from_range, str_eq, push_str, owned, has_suffix,
    decimal_text, i64_to_decimal, trim, chars_le, str_le,
};

verus! {

/// A pull request as the REST API returns it.
pub struct PullRequest {
    pub number: i64,
    pub title: String,
    pub state: String,
    pub draft: bool,
    pub html_url: String,
    pub merged: Option<bool>,
    pub merged_at: Option<String>,
    pub user: GitHubUser,
}

/// A GitHub account.
pub struct GitHubUser {
    pub login: String,
}

/// A review of a pull request; `state` is `APPROVED`, `CHANGES_REQUESTED`,
/// `COMMENTED` or `DISMISSED`.
pub struct Review {
    pub id: i64,
    pub state: String,
    pub user: GitHubUser,
    pub submitted_at: Option<String>,
}

/// A comment on a pull request.
pub struct Comment {
    pub id: i64,
    pub body: String,
    pub user: GitHubUser,
    pub created_at: String,
}

// ---------------------------------------------------------------------------
// owner/repo from the remote URL

/// `p` occurs in `s` ending just before position `e`.
pub open spec fn occurs_ending_at(s: Seq<char>, p: Seq<char>, e: int) -> bool {
    p.len() <= e <= s.len() && s.subrange(e - p.len(), e) == p
}

/// The end of the last occurrence of `p` in `s` that ends at or before `e`.
pub open spec fn last_end_before(s: Seq<char>, p: Seq<char>, e: int) -> Option<int>
    decreases e + 1,
{
    if e < p.len() || e < 0 {
        None
    } else if occurs_ending_at(s, p, e) {
        Some(e)
    } else {
        last_end_before(s, p, e - 1)
    }
}

/// What follows the last occurrence of `p` in `s`, if `p` occurs.
pub open spec fn after_last(s: Seq<char>, p: Seq<char>) -> Option<Seq<char>> {
    match last_end_before(s, p, s.len() as int) {
        Some(e) => Some(s.skip(e)),
        None => None,
    }
}

/// `s` with every trailing `.git` removed, as `trim_end_matches(".git")` does.
pub open spec fn strip_git_suffixes(s: Seq<char>) -> Seq<char>
    decreases s.len(),
{
    if s.len() >= 4 && has_suffix(s, ".git"@) {
        strip_git_suffixes(s.take(s.len() - 4))
    } else {
        s
    }
}

/// The position of the first `c` in `s` at or after `i`.
pub open spec fn first_index_from(s: Seq<char>, c: char, i: int) -> Option<int>
    decreases s.len() - i,
{
    if i < 0 || i >= s.len() {
        None
    } else if s[i] == c {
        Some(i)
    } else {
        first_index_from(s, c, i + 1)
    }
}

/// The part of a remote URL after `github.com/` (HTTPS) or `github.com:` (SSH).
pub open spec fn github_path_of(url: Seq<char>) -> Option<Seq<char>> {
    match after_last(url, "github.com/"@) {
        Some(t) => Some(t),
        None => after_last(url, "github.com:"@),
    }
}

/// `owner` and `repo` from the output of `git remote get-url origin`, or the
/// error that explains why they cannot be read.
pub open spec fn owner_repo_of_remote(raw: Seq<char>) -> Result<(Seq<char>, Seq<char>), Seq<char>> {
    match github_path_of(trim_ws(raw)) {
        None => Err("Could not parse GitHub URL from remote"@),
        Some(path) => {
            let clean = strip_git_suffixes(path);
            match first_index_from(clean, '/', 0) {
                None => Err("Could not parse repo"@),
                Some(k) => Ok((clean.take(k), clean.skip(k + 1))),
            }
        },
    }
}

fn occurs_at_end(s: &Vec<char>, p: &Vec<char>, e: usize) -> (r: bool)
    requires
        p@.len() <= e <= s@.len(),
    ensures
        r == occurs_ending_at(s@, p@, e as int),
{
    let start = e - p.len();
    let mut i: usize = 0;
    while i < p.len()
        invariant
            start + p@.len() == e <= s@.len(),
            i <= p@.len(),
            s@.subrange(start as int, start + i) == p@.take(i as int),
        decreases p@.len() - i,
    {
        if s[start + i] != p[i] {
            assert(s@.subrange(start as int, e as int)[i as int] != p@[i as int]);
            return false;
        }
        assert(s@.subrange(start as int, start + i + 1) =~= s@.subrange(start as int, start + i).push(s@[start + i]));
        assert(p@.take(i + 1) =~= p@.take(i as int).push(p@[i as int]));
        i += 1;
    }
    assert(p@.take(p@.len() as int) =~= p@);
    true
}

fn last_occurrence_end(s: &Vec<char>, p: &Vec<char>) -> (r: Option<usize>)
    ensures
        match r {
            Some(e) => last_end_before(s@, p@, s@.len() as int) == Some(e as int) && e <= s@.len(),
            None => last_end_before(s@, p@, s@.len() as int) is None,
        },
{
    if p.len() > s.len() {
        return None;
    }
    let mut e: usize = s.len();
    while e >= p.len()
        invariant
            p@.len() <= s@.len(),
            e <= s@.len(),
            last_end_before(s@, p@, s@.len() as int) == last_end_before(s@, p@, e as int),
        decreases e,
    {
        if occurs_at_end(s, p, e) {
            return Some(e);
        }
        if e == 0 {
            proof {
                if p@.len() == 0 {
                    assert(s@.subrange(0, 0) =~= p@);
                }
            }
            return None;
        }
        e -= 1;
    }
    None
}

fn strip_git(v: &Vec<char>, from: usize) -> (r: usize)
    requires
        from <= v@.len(),
    ensures
        from <= r <= v@.len(),
        v@.subrange(from as int, r as int) == strip_git_suffixes(v@.skip(from as int)),
{
    let suffix = chars_of(".git");
    proof {
        reveal_strlit(".git");
    }
    assert(suffix@ == ".git"@);
    let mut end: usize = v.len();
    assert(v@.subrange(from as int, end as int) =~= v@.skip(from as int));
    loop
        invariant
            from <= end <= v@.len(),
            suffix@ == ".git"@,
            ".git"@.len() == 4,
            strip_git_suffixes(v@.skip(from as int)) == strip_git_suffixes(v@.subrange(from as int, end as int)),
        decreases end,
    {
        let ghost t = v@.subrange(from as int, end as int);
        if end - from >= 4 && occurs_at_end(v, &suffix, end) {
            assert(t.skip(t.len() - 4) =~= v@.subrange(end - 4, end as int));
            assert(t.take(t.len() - 4) =~= v@.subrange(from as int, end - 4));
            end -= 4;
        } else {
            proof {
                if t.len() >= 4 {
                    assert(t.skip(t.len() - 4) =~= v@.subrange(end - 4, end as int));
                }
            }
            return end;
        }
    }
}

fn first_slash(v: &Vec<char>, from: usize, to: usize) -> (r: Option<usize>)
    requires
        from <= to <= v@.len(),
    ensures
        match r {
            Some(k) => from <= k < to && first_index_from(v@.subrange(from as int, to as int), '/', 0) == Some(k - from),
            None => first_index_from(v@.subrange(from as int, to as int), '/', 0) is None,
        },
{
    let ghost t = v@.subrange(from as int, to as int);
    let mut i = from;
    while i < to
        invariant
            from <= i <= to <= v@.len(),
            t == v@.subrange(from as int, to as int),
            first_index_from(t, '/', 0) == first_index_from(t, '/', i - from),
        decreases to - i,
    {
        assert(t[i - from] == v@[i as int]);
        if v[i] == '/' {
            return Some(i);
        }
        i += 1;
    }
    None
}

/// Reads `(owner, repo)` from the output of `git remote get-url origin`,
/// for HTTPS (`https://github.com/owner/repo.git`) and SSH
/// (`git@github.com:owner/repo.git`) remotes.
pub fn parse_remote_url(raw: &str) -> (r: Result<(String, String), String>)
    ensures
        match r {
            Ok((owner, repo)) => owner_repo_of_remote(raw@) == Ok::<(Seq<char>, Seq<char>), Seq<char>>((owner@, repo@)),
            Err(msg) => owner_repo_of_remote(raw@) == Err::<(Seq<char>, Seq<char>), Seq<char>>(msg@),
        },
{
    let all = chars_of(raw);
    let url = trim_chars(&all);
    let https = chars_of("github.com/");
    let ssh = chars_of("github.com:");
    let start = match last_occurrence_end(&url, &https) {
        Some(e) => e,
        None => match last_occurrence_end(&url, &ssh) {
            Some(e) => e,
            None => {
                return Err(owned("Could not parse GitHub URL from remote"));
            },
        },
    };
    let end = strip_git(&url, start);
    match first_slash(&url, start, end) {
        None => Err(owned("Could not parse repo")),
        Some(k) => {
            let ghost clean = url@.subrange(start as int, end as int);
            assert(clean.take(k - start) =~= url@.subrange(start as int, k as int));
            assert(clean.skip(k - start + 1) =~= url@.subrange(k + 1, end as int));
            let owner = string_from_range(&url, start, k);
            let repo = string_from_range(&url, k + 1, end);
            Ok((owner, repo))
        },
    }
}

// ---------------------------------------------------------------------------
// REST endpoints

/// The API root for one repository.
pub open spec fn repo_api_root(owner: Seq<char>, repo: Seq<char>) -> Seq<char> {
    "https://api.github.com/repos/"@ + owner + "/"@ + repo
}

fn push_repo_root(s: &mut String, owner: &str, repo: &str)
    ensures
        final(s)@ == old(s)@ + repo_api_root(owner@, repo@),
{
    push_str(s, "https://api.github.com/repos/");
    push_str(s, owner);
    push_str(s, "/");
    push_str(s, repo);
}

/// The pull requests whose head is `owner:branch`, open or not, newest first.
pub fn prs_for_branch_url(owner: &str, repo: &str, branch: &str) -> (r: String)
    ensures
        r@ == repo_api_root(owner@, repo@) + "/pulls?head="@ + owner@ + ":"@ + branch@
            + "&state=all&sort=created&direction=desc"@,
{
    let mut s = String::new();
    push_repo_root(&mut s, owner, repo);
    push_str(&mut s, "/pulls?head=");
    push_str(&mut s, owner);
    push_str(&mut s, ":");
    push_str(&mut s, branch);
    push_str(&mut s, "&state=all&sort=created&direction=desc");
    s
}

/// The reviews of a pull request.
pub fn pr_reviews_url(owner: &str, repo: &str, pr_number: i64) -> (r: String)
    ensures
        r@ == repo_api_root(owner@, repo@) + "/pulls/"@ + decimal_text(pr_number as int) + "/reviews"@,
{
    let mut s = String::new();
    push_repo_root(&mut s, owner, repo);
    push_str(&mut s, "/pulls/");
    let n = i64_to_decimal(pr_number);
    push_str(&mut s, n.as_str());
    push_str(&mut s, "/reviews");
    s
}

/// The conversation comments of a pull request.
pub fn pr_comments_url(owner: &str, repo: &str, pr_number: i64) -> (r: String)
    ensures
        r@ == repo_api_root(owner@, repo@) + "/issues/"@ + decimal_text(pr_number as int) + "/comments"@,
{
    let mut s = String::new();
    push_repo_root(&mut s, owner, repo);
    push_str(&mut s, "/issues/");
    let n = i64_to_decimal(pr_number);
    push_str(&mut s, n.as_str());
    push_str(&mut s, "/comments");
    s
}

/// The inline review comments of a pull request.
pub fn pr_review_comments_url(owner: &str, repo: &str, pr_number: i64) -> (r: String)
    ensures
        r@ == repo_api_root(owner@, repo@) + "/pulls/"@ + decimal_text(pr_number as int) + "/comments"@,
{
    let mut s = String::new();
    push_repo_root(&mut s, owner, repo);
    push_str(&mut s, "/pulls/");
    let n = i64_to_decimal(pr_number);
    push_str(&mut s, n.as_str());
    push_str(&mut s, "/comments");
    s
}

/// One pull request.
pub fn pr_url(owner: &str, repo: &str, pr_number: i64) -> (r: String)
    ensures
        r@ == repo_api_root(owner@, repo@) + "/pulls/"@ + decimal_text(pr_number as int),
{
    let mut s = String::new();
    push_repo_root(&mut s, owner, repo);
    push_str(&mut s, "/pulls/");
    let n = i64_to_decimal(pr_number);
    push_str(&mut s, n.as_str());
    s
}

/// The value of the `Authorization` header for a personal access token.
pub fn bearer_header(token: &str) -> (r: String)
    ensures
        r@ == "Bearer "@ + token@,
{
    let mut s = String::new();
    push_str(&mut s, "Bearer ");
    push_str(&mut s, token);
    s
}

/// The pull request for a branch: the first one listed (the newest), if any.
pub fn first_pull_request(prs: Vec<PullRequest>) -> (r: Option<PullRequest>)
    ensures
        match r {
            Some(pr) => prs@.len() > 0 && pr == prs@[0],
            None => prs@.len() == 0,
        },
{
    let mut prs = prs;
    if prs.len() > 0 {
        Some(prs.remove(0))
    } else {
        None
    }
}

// ---------------------------------------------------------------------------
// What polling concludes

/// Some review is in state `state`.
pub open spec fn has_review_in_state(reviews: Seq<Review>, state: Seq<char>) -> bool {
    exists|i: int| 0 <= i < reviews.len() && #[trigger] reviews[i].state@ == state
}

/// A comment by someone other than `viewer` that was not there at the
/// previous poll (`seen` holds the ids seen then). Without a previous poll
/// (`seen` is `None`) no comment counts as new.
pub open spec fn has_new_comment_from_other(comments: Seq<Comment>, viewer: Seq<char>, seen: Option<Seq<i64>>) -> bool {
    match seen {
        Some(ids) => exists|i: int|
            #![trigger comments[i]]
            0 <= i < comments.len() && comments[i].user.login@ != viewer && !ids.contains(comments[i].id),
        None => false,
    }
}

/// The ids of the comments, in order.
pub open spec fn comment_id_seq(comments: Seq<Comment>) -> Seq<i64> {
    comments.map_values(|c: Comment| c.id)
}

/// The pull request has been merged: the API says so, or gives the time it
/// was merged at (the list endpoint gives only the time).
pub open spec fn pr_merged(pr: PullRequest) -> bool {
    pr.merged == Some(true) || pr.merged_at is Some
}

/// The pull request was closed without being merged.
pub open spec fn pr_closed_unmerged(pr: PullRequest) -> bool {
    pr.state@ == "closed"@ && !pr_merged(pr)
}

/// Some approval was submitted at or after time `t` (RFC 3339 texts,
/// compared as strings).
pub open spec fn approved_at_or_after(reviews: Seq<Review>, t: Seq<char>) -> bool {
    exists|j: int|
        #![trigger reviews[j]]
        0 <= j < reviews.len() && reviews[j].state@ == "APPROVED"@ && reviews[j].submitted_at is Some
            && chars_le(t, reviews[j].submitted_at->0@)
}

/// Some comment by someone other than `viewer` is outstanding: no approval
/// came at or after it.
pub open spec fn has_outstanding_comment(comments: Seq<Comment>, reviews: Seq<Review>, viewer: Seq<char>) -> bool {
    exists|i: int|
        #![trigger comments[i]]
        0 <= i < comments.len() && comments[i].user.login@ != viewer
            && !approved_at_or_after(reviews, comments[i].created_at@)
}

fn approved_since(reviews: &Vec<Review>, t: &str) -> (r: bool)
    ensures
        r == approved_at_or_after(reviews@, t@),
{
    let mut j: usize = 0;
    while j < reviews.len()
        invariant
            j <= reviews@.len(),
            forall|k: int| #![trigger reviews@[k]] 0 <= k < j ==> !(reviews@[k].state@ == "APPROVED"@
                && reviews@[k].submitted_at is Some && chars_le(t@, reviews@[k].submitted_at->0@)),
        decreases reviews@.len() - j,
    {
        if str_eq(reviews[j].state.as_str(), "APPROVED") {
            if let Some(at) = &reviews[j].submitted_at {
                if str_le(t, at.as_str()) {
                    assert(reviews@[j as int].submitted_at->0@ == at@);
                    return true;
                }
            }
        }
        j += 1;
    }
    false
}

/// Whether a comment by someone other than the viewer is still outstanding.
pub fn has_outstanding_comments(comments: &Vec<Comment>, reviews: &Vec<Review>, viewer_login: &str) -> (r: bool)
    ensures
        r == has_outstanding_comment(comments@, reviews@, viewer_login@),
{
    let mut i: usize = 0;
    while i < comments.len()
        invariant
            i <= comments@.len(),
            forall|k: int| #![trigger comments@[k]] 0 <= k < i ==> !(comments@[k].user.login@ != viewer_login@
                && !approved_at_or_after(reviews@, comments@[k].created_at@)),
        decreases comments@.len() - i,
    {
        if !str_eq(comments[i].user.login.as_str(), viewer_login)
            && !approved_since(reviews, comments[i].created_at.as_str()) {
            assert(comments@[i as int].user.login@ != viewer_login@);
            return true;
        }
        i += 1;
    }
    false
}

fn is_merged(pr: &PullRequest) -> (r: bool)
    ensures
        r == pr_merged(*pr),
{
    let flagged = match pr.merged {
        Some(m) => m,
        None => false,
    };
    flagged || pr.merged_at.is_some()
}

/// Law: a review anywhere in the list counts, whatever comes before or
/// after it: adding a review in state `state` makes the list have one, and
/// adding a review in another state changes nothing.
pub proof fn law_any_review_counts(reviews: Seq<Review>, state: Seq<char>, i: int, r: Review)
    ensures
        0 <= i < reviews.len() && reviews[i].state@ == state ==> has_review_in_state(reviews, state),
        has_review_in_state(reviews.push(r), state) == (has_review_in_state(reviews, state) || r.state@ == state),
        has_review_in_state(seq![r] + reviews, state) == (has_review_in_state(reviews, state) || r.state@ == state),
        !has_review_in_state(Seq::<Review>::empty(), state),
{
    let p = reviews.push(r);
    let q = seq![r] + reviews;
    assert(p[reviews.len() as int] == r);
    assert(q[0] == r);
    if has_review_in_state(reviews, state) {
        let k = choose|k: int| 0 <= k < reviews.len() && #[trigger] reviews[k].state@ == state;
        assert(p[k] == reviews[k]);
        assert(q[k + 1] == reviews[k]);
    }
    if has_review_in_state(p, state) {
        let k = choose|k: int| 0 <= k < p.len() && #[trigger] p[k].state@ == state;
        if k < reviews.len() {
            assert(p[k] == reviews[k]);
        }
    }
    if has_review_in_state(q, state) {
        let k = choose|k: int| 0 <= k < q.len() && #[trigger] q[k].state@ == state;
        if k > 0 {
            assert(q[k] == reviews[k - 1]);
        }
    }
}

/// Whether some review is in the given state.
pub fn any_review_in_state(reviews: &Vec<Review>, state: &str) -> (r: bool)
    ensures
        r == has_review_in_state(reviews@, state@),
{
    let mut i: usize = 0;
    while i < reviews.len()
        invariant
            i <= reviews@.len(),
            forall|j: int| 0 <= j < i ==> #[trigger] reviews@[j].state@ != state@,
        decreases reviews@.len() - i,
    {
        if str_eq(reviews[i].state.as_str(), state) {
            return true;
        }
        i += 1;
    }
    false
}

fn contains_id(ids: &Vec<i64>, id: i64) -> (r: bool)
    ensures
        r == ids@.contains(id),
{
    let mut i: usize = 0;
    while i < ids.len()
        invariant
            i <= ids@.len(),
            forall|j: int| 0 <= j < i ==> ids@[j] != id,
        decreases ids@.len() - i,
    {
        if ids[i] == id {
            return true;
        }
        i += 1;
    }
    false
}

fn has_unseen_external_comment(comments: &Vec<Comment>, viewer_login: &str, ids: &Vec<i64>) -> (r: bool)
    ensures
        r == has_new_comment_from_other(comments@, viewer_login@, Some(ids@)),
{
    let mut i: usize = 0;
    while i < comments.len()
        invariant
            i <= comments@.len(),
            forall|j: int| #![trigger comments@[j]] 0 <= j < i ==> comments@[j].user.login@ == viewer_login@
                || ids@.contains(comments@[j].id),
        decreases comments@.len() - i,
    {
        if !str_eq(comments[i].user.login.as_str(), viewer_login) && !contains_id(ids, comments[i].id) {
            assert(comments@[i as int].user.login@ != viewer_login@ && !ids@.contains(comments@[i as int].id));
            return true;
        }
        i += 1;
    }
    false
}

/// Whether someone other than the viewer wrote a comment that the previous
/// poll did not see.
pub fn has_new_external_comments(comments: &Vec<Comment>, viewer_login: &str, seen: &Option<Vec<i64>>) -> (r: bool)
    ensures
        r == has_new_comment_from_other(
            comments@,
            viewer_login@,
            match seen { Some(v) => Some(v@), None => None::<Seq<i64>> },
        ),
{
    match seen {
        Some(ids) => has_unseen_external_comment(comments, viewer_login, ids),
        None => false,
    }
}

/// The ids of the comments, to remember for the next poll.
pub fn comment_ids(comments: &Vec<Comment>) -> (r: Vec<i64>)
    ensures
        r@ == comment_id_seq(comments@),
{
    let mut r: Vec<i64> = Vec::new();
    let mut i: usize = 0;
    while i < comments.len()
        invariant
            i <= comments@.len(),
            r@ == comment_id_seq(comments@.take(i as int)),
        decreases comments@.len() - i,
    {
        r.push(comments[i].id);
        assert(comment_id_seq(comments@.take(i + 1)) =~= comment_id_seq(comments@.take(i as int)).push(comments@[i as int].id));
        i += 1;
    }
    assert(comments@.take(comments@.len() as int) =~= comments@);
    r
}

/// What a ticket card shows about its pull request.
pub struct PrInfo {
    pub number: i64,
    pub title: String,
    pub url: String,
    pub state: String,
    pub draft: bool,
    pub merged: bool,
    pub approved: bool,
    pub changes_requested: bool,
    pub comment_count: i64,
}

/// Summarises a pull request with its reviews and conversation comments.
pub fn summarize_pr(pr: PullRequest, reviews: &Vec<Review>, comments: &Vec<Comment>) -> (r: PrInfo)
    requires
        comments@.len() <= i64::MAX,
    ensures
        r.number == pr.number,
        r.title@ == pr.title@,
        r.url@ == pr.html_url@,
        r.state@ == pr.state@,
        r.draft == pr.draft,
        r.merged == pr_merged(pr),
        r.approved == has_review_in_state(reviews@, "APPROVED"@),
        r.changes_requested == has_review_in_state(reviews@, "CHANGES_REQUESTED"@),
        r.comment_count == comments@.len(),
{
    let approved = any_review_in_state(reviews, "APPROVED");
    let changes_requested = any_review_in_state(reviews, "CHANGES_REQUESTED");
    let merged = is_merged(&pr);
    PrInfo {
        number: pr.number,
        title: pr.title,
        url: pr.html_url,
        state: pr.state,
        draft: pr.draft,
        merged,
        approved,
        changes_requested,
        comment_count: comments.len() as i64,
    }
}

/// The statuses a ticket has once its pull request is known.
pub open spec fn in_review_stage(current: Seq<char>) -> bool {
    current == "in_review"@ || current == "attention_required"@ || current == "ready_to_merge"@
        || current == "done"@
}

/// The status polling gives a ticket whose branch has an open pull request:
/// merged moves it to done; a new comment from someone else to attention
/// required; an approval that leaves no comment outstanding (`approved` says
/// both) to ready to merge;
/// the first sight of the pull request moves a ticket not yet in review to in
/// review. Otherwise it keeps its status.
pub open spec fn polled_status(current: Seq<char>, merged: bool, approved: bool, new_external_comments: bool) -> Seq<char> {
    if merged {
        "done"@
    } else if new_external_comments {
        "attention_required"@
    } else if approved {
        "ready_to_merge"@
    } else if !in_review_stage(current) {
        "in_review"@
    } else {
        current
    }
}

/// The status polling gives a ticket (see `polled_status`).
pub fn next_ticket_status(current: &str, merged: bool, approved: bool, has_new_external_comments: bool) -> (r: String)
    ensures
        r@ == polled_status(current@, merged, approved, has_new_external_comments),
{
    if merged {
        owned("done")
    } else if has_new_external_comments {
        owned("attention_required")
    } else if approved {
        owned("ready_to_merge")
    } else if !(str_eq(current, "in_review") || str_eq(current, "attention_required")
        || str_eq(current, "ready_to_merge") || str_eq(current, "done")) {
        owned("in_review")
    } else {
        owned(current)
    }
}

/// The status one poll gives a ticket: a pull request closed without being
/// merged leaves it as it is; otherwise `polled_status` decides, with
/// "approved" meaning approved with no comment outstanding.
pub open spec fn pr_poll_status(
    current: Seq<char>,
    pr: PullRequest,
    reviews: Seq<Review>,
    comments: Seq<Comment>,
    viewer: Seq<char>,
    seen: Option<Seq<i64>>,
) -> Seq<char> {
    if pr_closed_unmerged(pr) {
        current
    } else {
        polled_status(
            current,
            pr_merged(pr),
            has_review_in_state(reviews, "APPROVED"@) && !has_outstanding_comment(comments, reviews, viewer),
            has_new_comment_from_other(comments, viewer, seen),
        )
    }
}

/// The new status for a ticket after one poll of its pull request, or
/// `None` when it stays as it is. `seen` holds the comment ids of the
/// previous poll of this pull request, if there was one.
pub fn poll_ticket_status(
    current: &str,
    pr: &PullRequest,
    reviews: &Vec<Review>,
    comments: &Vec<Comment>,
    viewer_login: &str,
    seen: &Option<Vec<i64>>,
) -> (r: Option<String>)
    ensures
        ({
            let s = pr_poll_status(
                current@,
                *pr,
                reviews@,
                comments@,
                viewer_login@,
                match seen { Some(v) => Some(v@), None => None::<Seq<i64>> },
            );
            match r {
                Some(n) => n@ == s && s != current@,
                None => s == current@,
            }
        }),
{
    let merged = is_merged(pr);
    if !merged && str_eq(pr.state.as_str(), "closed") {
        return None;
    }
    let external = has_new_external_comments(comments, viewer_login, seen);
    let approved = any_review_in_state(reviews, "APPROVED") && !has_outstanding_comments(comments, reviews, viewer_login);
    let next = next_ticket_status(current, merged, approved, external);
    if str_eq(next.as_str(), current) {
        None
    } else {
        Some(next)
    }
}

/// Law: polling is idempotent. A second poll that sees the same pull
/// request leaves the status that the first poll set.
pub proof fn law_polling_idempotent(current: Seq<char>, merged: bool, approved: bool, new_external_comments: bool)
    ensures
        polled_status(polled_status(current, merged, approved, new_external_comments), merged, approved, new_external_comments)
            == polled_status(current, merged, approved, new_external_comments),
{
}

/// Law: a merged pull request always moves its ticket to done; a new
/// comment from someone else to attention required; an approval without one
/// to ready to merge; and the first sight of the pull request moves a ticket
/// that is not yet in review to in review.
pub proof fn law_polling_transitions(current: Seq<char>, approved: bool, new_external_comments: bool)
    ensures
        polled_status(current, true, approved, new_external_comments) == "done"@,
        polled_status(current, false, approved, true) == "attention_required"@,
        polled_status(current, false, true, false) == "ready_to_merge"@,
        !in_review_stage(current) ==> polled_status(current, false, false, false) == "in_review"@,
        in_review_stage(current) ==> polled_status(current, false, false, false) == current,
{
}

/// Law: a merged pull request moves its ticket to done; one closed without
/// being merged leaves the ticket as it is; and a poll only moves a ticket to
/// ready to merge when its pull request is approved and no comment by
/// someone else is outstanding.
pub proof fn law_poll_merge_close_and_ready(
    current: Seq<char>,
    pr: PullRequest,
    reviews: Seq<Review>,
    comments: Seq<Comment>,
    viewer: Seq<char>,
    seen: Option<Seq<i64>>,
)
    ensures
        pr_merged(pr) ==> pr_poll_status(current, pr, reviews, comments, viewer, seen) == "done"@,
        pr_closed_unmerged(pr) ==> pr_poll_status(current, pr, reviews, comments, viewer, seen) == current,
        pr_poll_status(current, pr, reviews, comments, viewer, seen) == "ready_to_merge"@ && current != "ready_to_merge"@
            ==> has_review_in_state(reviews, "APPROVED"@) && !has_outstanding_comment(comments, reviews, viewer),
{
    reveal_strlit("ready_to_merge");
    reveal_strlit("in_review");
    reveal_strlit("done");
    reveal_strlit("attention_required");
    assert("in_review"@[0] != "ready_to_merge"@[0]);
    assert("done"@[0] != "ready_to_merge"@[0]);
    assert("attention_required"@[0] != "ready_to_merge"@[0]);
}

/// Law: comments seen at the previous poll, and comments by the viewer, never
/// count as new; without a previous poll nothing does.
pub proof fn law_only_unseen_comments_count(comments: Seq<Comment>, viewer: Seq<char>)
    ensures
        !has_new_comment_from_other(comments, viewer, Some(comment_id_seq(comments))),
        !has_new_comment_from_other(comments, viewer, None),
{
    assert forall|i: int| #![trigger comments[i]] 0 <= i < comments.len() implies comment_id_seq(comments).contains(comments[i].id) by {
        assert(comment_id_seq(comments)[i] == comments[i].id);
    }
}

/// The error shown when `gh pr create` fails: its trimmed error output, or
/// else its trimmed standard output, or else a generic message.
pub open spec fn gh_failure_text(stderr: Seq<char>, stdout: Seq<char>) -> Seq<char> {
    let msg = if trim_ws(stderr).len() > 0 { trim_ws(stderr) } else { trim_ws(stdout) };
    if msg.len() == 0 {
        "gh pr create failed"@
    } else {
        msg
    }
}

/// Builds the error for a failed `gh pr create` (see `gh_failure_text`).
pub fn gh_failure_message(stderr: &str, stdout: &str) -> (r: String)
    ensures
        r@ == gh_failure_text(stderr@, stdout@),
{
    let e = trim(stderr);
    let o = trim(stdout);
    let msg = if e.as_str().unicode_len() > 0 { e } else { o };
    if msg.as_str().unicode_len() == 0 {
        owned("gh pr create failed")
    } else {
        msg
    }
}

} // verus!
