use shepherd::cleanup::WorktreeCleanupDialog;
use shepherd::config::Config;
use shepherd::dialogs::CreateDialog;
use shepherd::dialogs::KillConfirmDialog;
use shepherd::paths::display_path_to_actual;
use shepherd::paths::join_path;
use shepherd::paths::path_to_display;
use shepherd::selector::SelectorItemKind;
use shepherd::selector::SessionSelector;
use shepherd::status::append_capped;
use shepherd::status::StatusBar;
use shepherd::status::StatusMessage;
use shepherd::status::MAX_LOG_LINES;
use shepherd::status::MESSAGE_TIMEOUT_MS;
use shepherd::util::str_basename;
use shepherd::util::str_contains;
use shepherd::util::to_lowercase;
use shepherd::util::trim_str;
use shepherd::util::usize_to_string;
use shepherd::workflow::GitProbe;
use shepherd::workflow::WorktreeWorkflow;

#[test]
fn config_remembers_most_recent_per_startup_path() {
    let mut c = Config {
        claude_args: Vec::new(),
        workflows_path: "/tmp/wt".to_string(),
        recent_sessions: Vec::new(),
    };
    c.set_recent_session("/repo".to_string(), "a".to_string(), "/wt/a".to_string());
    c.set_recent_session("/repo".to_string(), "b".to_string(), "/wt/b".to_string());
    let m = c.get_recent_session("/repo").unwrap();
    assert_eq!(m.name, "b");
    assert_eq!(m.path, "/wt/b");
    assert!(c.get_recent_session("/other").is_none());
    assert_eq!(c.recent_sessions.len(), 1);
}

#[test]
fn config_default_has_skip_permissions_arg() {
    let c = Config::default();
    assert_eq!(c.claude_args, vec!["--dangerously-skip-permissions".to_string()]);
    assert!(c.recent_sessions.is_empty());
}

#[test]
fn create_dialog_edits_and_takes_input() {
    let mut d = CreateDialog::new();
    d.push('h');
    d.push('i');
    assert_eq!(d.pop(), Some('i'));
    d.push('o');
    assert_eq!(d.take_input(), "ho");
    assert_eq!(d.take_input(), "");
    let mut k = KillConfirmDialog::new();
    k.set_session_name("feat");
    assert_eq!(k.session_name, "feat");
}

#[test]
fn selector_filters_and_wraps() {
    let sessions = vec![
        ("alpha".to_string(), "~/wt/Alpha".to_string()),
        ("beta".to_string(), "~/wt/beta".to_string()),
        ("gamma".to_string(), "~/wt/gamma".to_string()),
    ];
    let mut s = SessionSelector::new();
    s.set_counts(1, 1);
    s.update_filter(&sessions);
    assert_eq!(s.filtered_indices, vec![0, 1, 2]);
    assert_eq!(s.selected, Some(0));
    s.move_up();
    assert_eq!(s.selected, Some(2));
    s.move_down();
    assert_eq!(s.selected, Some(0));
    // Filtering is case-insensitive over names and paths.
    s.push_char('A');
    s.update_filter(&sessions);
    assert_eq!(s.filtered_indices, vec![0, 1, 2]);
    s.push_char('l');
    s.update_filter(&sessions);
    assert_eq!(s.filtered_indices, vec![0]);
    assert_eq!(s.selected_original_index(), Some(0));
    assert_eq!(s.selected_kind(), Some(SelectorItemKind::Live));
    // Nothing matches: the cursor leaves and moves do nothing.
    s.push_char('z');
    s.update_filter(&sessions);
    assert!(s.filtered_indices.is_empty());
    assert_eq!(s.selected, None);
    s.move_down();
    assert_eq!(s.selected, None);
}

#[test]
fn selector_kinds_follow_the_counts() {
    let sessions = vec![
        ("live".to_string(), "~/wt/live".to_string()),
        ("recent".to_string(), "~/wt/recent".to_string()),
        ("".to_string(), "~/wt/dir".to_string()),
    ];
    let mut s = SessionSelector::new();
    s.set_counts(1, 1);
    s.update_filter(&sessions);
    assert_eq!(s.selected_kind(), Some(SelectorItemKind::Live));
    s.move_down();
    assert_eq!(s.selected_kind(), Some(SelectorItemKind::Recent));
    s.move_down();
    assert_eq!(s.selected_kind(), Some(SelectorItemKind::Worktree));
}

#[test]
fn cleanup_dialog_toggles_and_reports_selection() {
    let mut d = WorktreeCleanupDialog::new();
    d.set_worktrees_with_active(
        vec!["/wt/a".to_string(), "/wt/b".to_string()],
        vec!["/wt/a".to_string()],
    );
    assert!(!d.has_selections());
    d.toggle_selection();
    assert!(d.has_selections());
    assert_eq!(d.get_selected_worktrees(), vec!["/wt/a".to_string()]);
    d.move_down();
    d.toggle_selection();
    assert_eq!(d.get_selected_worktrees().len(), 2);
    d.toggle_selection();
    assert_eq!(d.get_selected_worktrees(), vec!["/wt/a".to_string()]);
    assert_eq!(d.get_current_worktree(), Some("/wt/b".to_string()));
    assert!(!d.is_empty());
}

#[test]
fn status_bar_decays_after_timeout() {
    let mut b = StatusBar::new();
    b.update(1000, vec![StatusMessage::err("boom".to_string(), "log".to_string())]);
    assert_eq!(b.current_message().unwrap().display_message, "boom");
    b.update(1000 + MESSAGE_TIMEOUT_MS - 1, Vec::new());
    assert!(b.current_message().is_some());
    b.update(1000 + MESSAGE_TIMEOUT_MS, Vec::new());
    assert!(b.current_message().is_none());
}

#[test]
fn event_log_is_capped() {
    let mut lines: Vec<String> = Vec::new();
    for i in 0..(MAX_LOG_LINES + 10) {
        append_capped(&mut lines, format!("entry {}", i));
    }
    assert_eq!(lines.len(), MAX_LOG_LINES);
    assert_eq!(lines[0], "entry 10");
    assert_eq!(lines[MAX_LOG_LINES - 1], format!("entry {}", MAX_LOG_LINES + 9));
}

#[test]
fn display_paths_round_trip() {
    let disp = path_to_display("/home/u/wt/feat", "/home/u");
    assert_eq!(disp, "~/wt/feat");
    assert_eq!(display_path_to_actual(&disp, "/home/u"), "/home/u/wt/feat");
    assert_eq!(path_to_display("/srv/x", "/home/u"), "/srv/x");
    assert_eq!(display_path_to_actual("/srv/x", "/home/u"), "/srv/x");
    assert_eq!(join_path("/a/b", "c"), "/a/b/c");
}

#[test]
fn string_helpers_behave() {
    assert_eq!(usize_to_string(0), "0");
    assert_eq!(usize_to_string(42), "42");
    assert_eq!(usize_to_string(1000), "1000");
    assert_eq!(trim_str("  hi \t"), "hi");
    assert_eq!(to_lowercase("AbC-9"), "abc-9");
    assert!(str_contains("hello world", "lo w"));
    assert!(!str_contains("hello", "world"));
    assert_eq!(str_basename("/a/b/feat"), "feat");
    assert_eq!(str_basename("feat"), "feat");
}

#[test]
fn worktree_planning_follows_git_probes() {
    let w = WorktreeWorkflow;
    let config = Config {
        claude_args: Vec::new(),
        workflows_path: "/tmp/wt".to_string(),
        recent_sessions: Vec::new(),
    };
    let probe = GitProbe {
        toplevel: Some("/home/u/repo".to_string()),
        main_exists: true,
        master_exists: false,
    };
    let plan = w.pre_session_plan("feat-x", &config, &probe).unwrap();
    assert_eq!(plan.repo_name, "repo");
    assert_eq!(plan.branch, "main");
    assert_eq!(plan.worktree_path, "/tmp/wt/repo/feat-x");

    let fallback = GitProbe {
        toplevel: Some("/home/u/repo".to_string()),
        main_exists: false,
        master_exists: true,
    };
    assert_eq!(w.pre_session_plan("x", &config, &fallback).unwrap().branch, "master");

    let no_repo = GitProbe { toplevel: None, main_exists: false, master_exists: false };
    let err = w.pre_session_plan("x", &config, &no_repo).unwrap_err();
    assert_eq!(err.display_message, "Workflow worktree failed");
    assert_eq!(err.log_message, "not in a git repository");

    let no_branch = GitProbe {
        toplevel: Some("/r".to_string()),
        main_exists: false,
        master_exists: false,
    };
    let err = w.pre_session_plan("x", &config, &no_branch).unwrap_err();
    assert_eq!(err.log_message, "could not find main or master branch");

    let metadata = w.pre_session_complete(&plan, true, "", true, "").unwrap();
    assert_eq!(metadata.path, "/tmp/wt/repo/feat-x");
    let err = w.pre_session_complete(&plan, false, "no remote", true, "").unwrap_err();
    assert_eq!(err.log_message, "git fetch origin main failed: no remote");
    let err = w.pre_session_complete(&plan, true, "", false, "exists").unwrap_err();
    assert_eq!(err.log_message, "git worktree add failed: exists");
}

#[test]
fn toggling_twice_restores_the_checked_set() {
    let mut d = WorktreeCleanupDialog::new();
    d.set_worktrees_with_active(
        vec!["/wt/a".to_string(), "/wt/b".to_string()],
        Vec::new(),
    );
    d.toggle_selection();
    d.move_down();
    d.toggle_selection();
    let before = {
        let mut v = d.selected.clone();
        v.sort();
        v
    };
    d.toggle_selection();
    d.toggle_selection();
    let after = {
        let mut v = d.selected.clone();
        v.sort();
        v
    };
    assert_eq!(before, after);
}
