use herd::github::{
    bearer_header, first_pull_request, has_outstanding_comments, comment_ids, gh_failure_message, has_new_external_comments, next_ticket_status,
    prs_for_branch_url, parse_remote_url, poll_ticket_status, pr_comments_url,
    pr_review_comments_url, pr_reviews_url, pr_url, summarize_pr, Comment, GitHubUser, PullRequest,
    Review,
};

fn user(l: &str) -> GitHubUser {
    GitHubUser { login: l.to_string() }
}

fn pr(merged: Option<bool>) -> PullRequest {
    PullRequest {
        number: 12,
        title: "Fix".to_string(),
        state: "open".to_string(),
        draft: false,
        html_url: "https://github.com/acme/widgets/pull/12".to_string(),
        merged,
        merged_at: None,
        user: user("me"),
    }
}

fn review(state: &str) -> Review {
    Review { id: 1, state: state.to_string(), user: user("rev"), submitted_at: None }
}

fn comment(by: &str) -> Comment {
    comment_with_id(1, by)
}

fn comment_with_id(id: i64, by: &str) -> Comment {
    Comment { id, body: "hi".to_string(), user: user(by), created_at: "t".to_string() }
}

#[test]
fn parses_https_and_ssh_remotes() {
    let ok = Ok(("acme".to_string(), "widgets".to_string()));
    assert_eq!(parse_remote_url("https://github.com/acme/widgets.git\n"), ok);
    assert_eq!(parse_remote_url("git@github.com:acme/widgets.git"), ok);
    assert_eq!(parse_remote_url("https://github.com/acme/widgets"), ok);
    assert_eq!(parse_remote_url("https://github.com/acme/widgets.git.git"), ok);
    assert_eq!(
        parse_remote_url("https://github.com/org/repo/sub"),
        Ok(("org".to_string(), "repo/sub".to_string()))
    );
}

#[test]
fn remote_parse_errors() {
    assert_eq!(parse_remote_url("https://gitlab.com/x/y"), Err("Could not parse GitHub URL from remote".to_string()));
    assert_eq!(parse_remote_url("https://github.com/acme"), Err("Could not parse repo".to_string()));
}

#[test]
fn api_urls() {
    assert_eq!(
        prs_for_branch_url("acme", "widgets", "eng-1-x"),
        "https://api.github.com/repos/acme/widgets/pulls?head=acme:eng-1-x&state=all&sort=created&direction=desc"
    );
    assert_eq!(pr_reviews_url("acme", "w", 42), "https://api.github.com/repos/acme/w/pulls/42/reviews");
    assert_eq!(pr_comments_url("acme", "w", 7), "https://api.github.com/repos/acme/w/issues/7/comments");
    assert_eq!(pr_review_comments_url("acme", "w", 1234567), "https://api.github.com/repos/acme/w/pulls/1234567/comments");
    assert_eq!(pr_url("a", "b", 0), "https://api.github.com/repos/a/b/pulls/0");
    assert_eq!(pr_url("a", "b", -3), "https://api.github.com/repos/a/b/pulls/-3");
    assert_eq!(pr_url("a", "b", i64::MIN), format!("https://api.github.com/repos/a/b/pulls/{}", i64::MIN));
    assert_eq!(bearer_header("tok"), "Bearer tok");
}

#[test]
fn first_pr_is_taken() {
    assert!(first_pull_request(vec![]).is_none());
    let mut second = pr(None);
    second.number = 99;
    assert_eq!(first_pull_request(vec![pr(None), second]).map(|p| p.number), Some(12));
}

#[test]
fn pr_summary() {
    let info = summarize_pr(pr(Some(true)), &vec![review("COMMENTED"), review("APPROVED")], &vec![comment("a"), comment("b")]);
    assert_eq!(info.number, 12);
    assert_eq!(info.url, "https://github.com/acme/widgets/pull/12");
    assert!(info.merged && info.approved && !info.changes_requested);
    assert_eq!(info.comment_count, 2);
    let info2 = summarize_pr(pr(None), &vec![review("CHANGES_REQUESTED")], &vec![]);
    assert!(!info2.merged && !info2.approved && info2.changes_requested);
    assert_eq!(info2.comment_count, 0);
}

#[test]
fn polling_status_transitions() {
    assert_eq!(next_ticket_status("in_review", true, false, false), "done");
    assert_eq!(next_ticket_status("in_review", false, true, true), "attention_required");
    assert_eq!(next_ticket_status("attention_required", false, true, false), "ready_to_merge");
    assert_eq!(next_ticket_status("in_review", false, false, true), "attention_required");
    assert_eq!(next_ticket_status("in_progress", false, false, false), "in_review");
    assert_eq!(next_ticket_status("attention_required", false, false, false), "attention_required");
    assert_eq!(next_ticket_status("ready_to_merge", false, false, false), "ready_to_merge");
}

#[test]
fn polling_is_idempotent_on_examples() {
    for status in ["in_progress", "in_review", "attention_required", "ready_to_merge", "done", "todo"] {
        for m in [false, true] {
            for a in [false, true] {
                for h in [false, true] {
                    let once = next_ticket_status(status, m, a, h);
                    assert_eq!(next_ticket_status(&once, m, a, h), once);
                }
            }
        }
    }
}

#[test]
fn poll_reports_only_changes() {
    let reviews = vec![review("COMMENTED")];
    let old = vec![comment_with_id(1, "bot")];
    let seen = Some(comment_ids(&old));
    assert_eq!(poll_ticket_status("in_progress", &pr(None), &reviews, &old, "me", &None), Some("in_review".to_string()));
    assert_eq!(poll_ticket_status("in_review", &pr(None), &reviews, &old, "me", &seen), None);
    let newer = vec![comment_with_id(1, "bot"), comment_with_id(2, "bot")];
    assert_eq!(poll_ticket_status("in_review", &pr(None), &reviews, &newer, "me", &seen), Some("attention_required".to_string()));
    let mine = vec![comment_with_id(1, "bot"), comment_with_id(3, "me")];
    assert_eq!(poll_ticket_status("in_review", &pr(None), &reviews, &mine, "me", &seen), None);
    assert_eq!(poll_ticket_status("attention_required", &pr(Some(true)), &reviews, &vec![], "me", &seen), Some("done".to_string()));
    let approved = vec![approval_at("u")];
    assert_eq!(poll_ticket_status("attention_required", &pr(None), &approved, &old, "me", &seen), Some("ready_to_merge".to_string()));
    assert_eq!(poll_ticket_status("in_review", &pr(None), &approved, &newer, "me", &seen), Some("attention_required".to_string()));
    assert!(has_new_external_comments(&newer, "me", &seen));
    assert!(!has_new_external_comments(&newer, "me", &None));
    assert!(!has_new_external_comments(&old, "me", &seen));
    assert_eq!(comment_ids(&newer), vec![1, 2]);
}

#[test]
fn gh_failure_messages() {
    assert_eq!(gh_failure_message("  no commits\n", "out"), "no commits");
    assert_eq!(gh_failure_message(" \n", " https://x \n"), "https://x");
    assert_eq!(gh_failure_message("", ""), "gh pr create failed");
}

fn approval_at(at: &str) -> Review {
    Review { id: 9, state: "APPROVED".to_string(), user: user("rev"), submitted_at: Some(at.to_string()) }
}

fn comment_at(id: i64, by: &str, at: &str) -> Comment {
    Comment { id, body: "hi".to_string(), user: user(by), created_at: at.to_string() }
}

#[test]
fn merged_or_closed_pull_requests() {
    let mut listed = pr(None);
    listed.state = "closed".to_string();
    listed.merged_at = Some("2024-05-02T00:00:00Z".to_string());
    assert_eq!(poll_ticket_status("ready_to_merge", &listed, &vec![], &vec![], "me", &None), Some("done".to_string()));
    let mut closed = pr(None);
    closed.state = "closed".to_string();
    assert_eq!(poll_ticket_status("in_review", &closed, &vec![], &vec![], "me", &None), None);
    assert!(summarize_pr(listed, &vec![], &vec![]).merged);
}

#[test]
fn ready_to_merge_needs_no_outstanding_comments() {
    let late = vec![comment_at(1, "bot", "2024-05-03T00:00:00Z")];
    let early = vec![comment_at(1, "bot", "2024-05-01T00:00:00Z")];
    let approvals = vec![approval_at("2024-05-02T00:00:00Z")];
    let seen = Some(vec![1]);
    assert!(has_outstanding_comments(&late, &approvals, "me"));
    assert!(!has_outstanding_comments(&early, &approvals, "me"));
    assert!(!has_outstanding_comments(&vec![comment_at(2, "me", "2024-05-09T00:00:00Z")], &approvals, "me"));
    assert_eq!(poll_ticket_status("attention_required", &pr(None), &approvals, &late, "me", &seen), None);
    assert_eq!(poll_ticket_status("in_review", &pr(None), &approvals, &early, "me", &seen), Some("ready_to_merge".to_string()));
    assert_eq!(poll_ticket_status("in_progress", &pr(None), &approvals, &late, "me", &seen), Some("in_review".to_string()));
}
