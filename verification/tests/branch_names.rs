use herd::worktree::{
    branch_status, copy_patterns, glob_pattern_in, herd_config_path, herd_db_path, join_path,
    local_checkout_branch, local_node_modules_action, local_worktree_path, plan_worktree,
    primary_branch_from, resolve_branch_name, scrollback_path, slug_chars, try_resolve_branch_name,
    worktree_path, worktrees_dir_for, BranchStatus, NodeModulesAction, WorktreeAction,
};
use herd::db::RepoRow;

fn repo() -> RepoRow {
    RepoRow {
        id: "r1".to_string(),
        name: "widgets".to_string(),
        path: "/code/widgets".to_string(),
        worktrees_dir: "/code/widgets-worktrees".to_string(),
        primary_branch: "main".to_string(),
        preview_port: 3000,
        is_active: true,
        created_at: "2024-01-01".to_string(),
    }
}

#[test]
fn derives_branch_from_identifier_and_title() {
    assert_eq!(resolve_branch_name("ENG-42", "Fix the Login bug!", None), "ENG-42-fix-the-login-bug");
}

#[test]
fn linear_branch_name_wins_when_present() {
    assert_eq!(resolve_branch_name("ENG-42", "Fix it", Some("bethan/eng-42-fix-it")), "bethan/eng-42-fix-it");
}

#[test]
fn empty_linear_branch_name_is_ignored() {
    assert_eq!(resolve_branch_name("ENG-7", "Add  --  spacing", Some("")), "ENG-7-add-spacing");
}

#[test]
fn slug_collapses_and_trims_dashes() {
    let s: String = slug_chars("  --Hello,   World!!  ").into_iter().collect();
    assert_eq!(s, "hello-world");
    let e: String = slug_chars("!!!").into_iter().collect();
    assert_eq!(e, "");
    assert_eq!(resolve_branch_name("X-1", "???", None), "X-1-");
}

#[test]
fn slug_is_cut_at_fifty_bytes() {
    let title = "a".repeat(60);
    let name = resolve_branch_name("T-1", &title, None);
    assert_eq!(name, format!("T-1-{}", "a".repeat(50)));
}

#[test]
fn unicode_letters_survive_in_slug() {
    assert_eq!(resolve_branch_name("ENG-9", "Café au Lait", None), "ENG-9-café-au-lait");
}

#[test]
fn cut_inside_a_character_is_refused() {
    let title = format!("{}éé", "a".repeat(49));
    assert_eq!(try_resolve_branch_name("T-2", &title, None), None);
    let ok = format!("{}éé", "a".repeat(48));
    assert_eq!(
        try_resolve_branch_name("T-2", &ok, None),
        Some(format!("T-2-{}é", "a".repeat(48)))
    );
    assert_eq!(try_resolve_branch_name("T-2", &title, Some("given")), Some("given".to_string()));
}

#[test]
fn branch_status_combines_local_and_remote() {
    assert!(matches!(branch_status(true, true), BranchStatus::ExistsBoth));
    assert!(matches!(branch_status(true, false), BranchStatus::ExistsLocal));
    assert!(matches!(branch_status(false, true), BranchStatus::ExistsRemote));
    assert!(matches!(branch_status(false, false), BranchStatus::DoesNotExist));
}

#[test]
fn new_branches_start_from_origin_primary() {
    match plan_worktree(&BranchStatus::DoesNotExist, "develop") {
        WorktreeAction::CreateFrom(b) => assert_eq!(b, "origin/develop"),
        WorktreeAction::UseExisting => panic!("expected a new branch"),
    }
    assert!(matches!(plan_worktree(&BranchStatus::ExistsRemote, "main"), WorktreeAction::UseExisting));
}

#[test]
fn paths_join_like_the_standard_library() {
    assert_eq!(join_path("/a/b", "c"), "/a/b/c");
    assert_eq!(join_path("/a/b/", "c"), "/a/b/c");
    assert_eq!(join_path("", "c"), "c");
    assert_eq!(join_path("/a", "/etc"), "/etc");
    assert_eq!(worktree_path("/code/w-worktrees", "eng-1-x"), "/code/w-worktrees/eng-1-x");
    let r = repo();
    assert_eq!(local_worktree_path(&r), "/code/widgets-worktrees/_local");
    assert_eq!(herd_config_path(&r), "/code/widgets/.herd.json");
    assert_eq!(worktrees_dir_for("/code", "widgets"), "/code/widgets-worktrees");
    for (base, p) in [("/a/b", "c"), ("/a/b/", "c"), ("", "c"), ("/a", "/etc"), ("rel", "x/y")] {
        let expected = std::path::Path::new(base).join(p).to_string_lossy().to_string();
        assert_eq!(join_path(base, p), expected);
    }
}

#[test]
fn app_files_live_under_the_data_dir() {
    assert_eq!(herd_db_path(Some("/Users/me/Library/Application Support")), "/Users/me/Library/Application Support/Loop/loop.db");
    assert_eq!(herd_db_path(None), "./Loop/loop.db");
    assert_eq!(scrollback_path(Some("/data"), "abc"), "/data/Loop/scrollbacks/abc.log");
}

#[test]
fn copy_patterns_default_and_split() {
    assert_eq!(copy_patterns(None), vec![".env*".to_string()]);
    assert_eq!(
        copy_patterns(Some(" .env , .env.local,")),
        vec![".env".to_string(), ".env.local".to_string(), "".to_string()]
    );
    assert_eq!(glob_pattern_in("/w/_local", ".env*"), "/w/_local/.env*");
}

#[test]
fn primary_branch_from_symbolic_ref() {
    assert_eq!(primary_branch_from(Some("origin/main\n")), "main");
    assert_eq!(primary_branch_from(Some("  origin/origin/dev ")), "dev");
    assert_eq!(primary_branch_from(Some("trunk")), "trunk");
    assert_eq!(primary_branch_from(None), "main");
}

#[test]
fn local_worktree_setup_decisions() {
    assert!(matches!(local_node_modules_action(true, true, true, true, true), NodeModulesAction::RemoveEmptyLocal));
    assert!(matches!(local_node_modules_action(true, true, false, true, true), NodeModulesAction::Nothing));
    assert!(matches!(local_node_modules_action(false, false, false, false, true), NodeModulesAction::LinkMainIntoLocal));
    assert!(matches!(local_node_modules_action(false, true, false, true, true), NodeModulesAction::Nothing));
    assert_eq!(local_checkout_branch(Some("feature"), "main"), "feature");
    assert_eq!(local_checkout_branch(None, "main"), "main");
}

#[test]
fn slug_of_already_lowercased_text() {
    let s: String = herd::worktree::slug_of_lowercase("fix: the   bug").into_iter().collect();
    assert_eq!(s, "fix-the-bug");
    let u: String = herd::worktree::slug_of_lowercase("Keep Case").into_iter().collect();
    assert_eq!(u, "Keep-Case");
}

#[test]
fn origin_refs() {
    assert_eq!(herd::worktree::origin_ref("main"), "origin/main");
}

#[test]
fn ticket_id_keeps_its_case_in_branch_names() {
    assert_eq!(resolve_branch_name("LOOP-101", "Fix auth bug", None), "LOOP-101-fix-auth-bug");
}
