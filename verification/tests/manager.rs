use shepherd::config::Config;
use shepherd::history::SessionHistory;
use shepherd::manager::HotkeyOutcome;
use shepherd::manager::SelectorAction;
use shepherd::manager::TuiSessionManager;
use shepherd::manager::UiMode;
use shepherd::manager::CTRL_D;
use shepherd::manager::CTRL_H;
use shepherd::manager::CTRL_N;
use shepherd::session::AttachedSession;
use shepherd::status::StatusLevel;

fn config() -> Config {
    Config {
        claude_args: vec!["--verbose".to_string()],
        workflows_path: "/tmp/wt".to_string(),
        recent_sessions: Vec::new(),
    }
}

fn manager() -> TuiSessionManager {
    TuiSessionManager::new(24, 80, config(), "/repo".to_string(), SessionHistory::default())
}

fn session(id: u64, cwd: &str) -> AttachedSession {
    AttachedSession::new(id, "agent".to_string(), vec!["--verbose".to_string()], cwd.to_string())
}

fn with_three_sessions() -> TuiSessionManager {
    let mut m = manager();
    m.add_claude_session("a".to_string(), "/tmp/wt/r/a".to_string(), session(1, "/tmp/wt/r/a"), false);
    m.add_claude_session("b".to_string(), "/tmp/wt/r/b".to_string(), session(2, "/tmp/wt/r/b"), false);
    m.add_claude_session("c".to_string(), "/tmp/wt/r/c".to_string(), session(3, "/tmp/wt/r/c"), false);
    // c is active; a and b are in the background in that order.
    let _ = m.switch_to_session_by_name("a");
    // a active; background: b, c.
    m
}

#[test]
fn one_active_pair_and_switching_keeps_it() {
    let mut m = with_three_sessions();
    assert_eq!(m.active.as_ref().unwrap().name, "a");
    assert_eq!(m.background.len(), 2);
    assert!(m.switch_to_session_by_name("b"));
    assert_eq!(m.active.as_ref().unwrap().name, "b");
    assert_eq!(m.background.len(), 2);
    assert!(m.switch_to_session_by_name("b"));
    assert_eq!(m.background.len(), 2);
    assert!(!m.switch_to_session_by_name("missing"));
    assert_eq!(m.active.as_ref().unwrap().name, "b");
}

#[test]
fn selector_preview_and_revert_keeps_background_order() {
    let mut m = with_three_sessions();
    // a active; background b then c.
    let dirs: Vec<String> = Vec::new();
    m.open_session_selector(None, &dirs, "/home/u");
    assert_eq!(m.mode, UiMode::ListSessions);
    assert_eq!(m.selector_original_session.as_deref(), Some("a"));
    assert_eq!(m.selector_live_count, 3);
    // Preview b, then c.
    let down = [0x1bu8, b'[', b'B'];
    let _ = m.handle_list_input(&down);
    assert_eq!(m.active.as_ref().unwrap().name, "b");
    let _ = m.handle_list_input(&down);
    assert_eq!(m.active.as_ref().unwrap().name, "c");
    // Escape reverts to a.
    let esc = [0x1bu8];
    let _ = m.handle_list_input(&esc);
    assert_eq!(m.mode, UiMode::Normal);
    assert_eq!(m.active.as_ref().unwrap().name, "a");
    let bg: Vec<&str> = m.background.iter().map(|p| p.name.as_str()).collect();
    assert!(bg.contains(&"b") && bg.contains(&"c"));
}

#[test]
fn selector_with_zero_entries_does_nothing() {
    let mut m = manager();
    let dirs: Vec<String> = Vec::new();
    m.open_session_selector(None, &dirs, "/home/u");
    assert_eq!(m.mode, UiMode::ListSessions);
    let down = [0x1bu8, b'[', b'B'];
    let _ = m.handle_list_input(&down);
    assert!(m.active.is_none());
    let enter = [b'\r'];
    let r = m.handle_list_input(&enter);
    assert!(matches!(r, SelectorAction::Stay));
    assert!(m.active.is_none());
    assert_eq!(m.background.len(), 0);
}

#[test]
fn scroll_is_intercepted_and_text_forwarded() {
    let mut m = manager();
    m.add_claude_session("a".to_string(), "/tmp/wt/r/a".to_string(), session(1, "/tmp/wt/r/a"), false);
    // A scroll-only buffer moves the offset and forwards nothing.
    let r = m.handle_normal_input(b"\x1b[<64;1;1M");
    assert!(r.is_none());
    assert_eq!(m.active.as_ref().unwrap().scroll_offset, 1);
    // Text with an embedded scroll report: the child sees only the text and
    // the offset resets.
    let r = m.handle_normal_input(b"hello\x1b[<64;1;1Mworld");
    assert_eq!(r.unwrap(), b"helloworld".to_vec());
    assert_eq!(m.active.as_ref().unwrap().scroll_offset, 0);
    assert_eq!(m.active.as_ref().unwrap().claude.0.written, b"helloworld".to_vec());
    // A click-only buffer is dropped entirely.
    let r = m.handle_normal_input(b"\x1b[<0;3;4M");
    assert!(r.is_none());
    assert_eq!(m.active.as_ref().unwrap().claude.0.written, b"helloworld".to_vec());
}

#[test]
fn hotkeys_drive_the_mode_machine() {
    let mut m = manager();
    let r = m.handle_hotkey(&[CTRL_H]);
    assert!(matches!(r, HotkeyOutcome::Handled));
    assert_eq!(m.mode, UiMode::HelpPopup);
    let _ = m.handle_hotkey(&[CTRL_H]);
    assert_eq!(m.mode, UiMode::Normal);
    let _ = m.handle_hotkey(&[CTRL_N]);
    assert_eq!(m.mode, UiMode::NewSession);
    let _ = m.handle_hotkey(&[CTRL_D]);
    assert_eq!(m.mode, UiMode::QuitConfirmation);
    m.handle_quit_confirmation_input(b"n");
    assert_eq!(m.mode, UiMode::Normal);
    let _ = m.handle_hotkey(&[CTRL_D]);
    m.handle_quit_confirmation_input(b"y");
    assert!(m.should_quit);
    let r = m.handle_hotkey(b"x");
    assert!(matches!(r, HotkeyOutcome::NotHotkey));
}

#[test]
fn new_session_dialog_names_the_session() {
    let mut m = manager();
    let _ = m.handle_hotkey(&[CTRL_N]);
    assert!(m.handle_new_session_input(b"f").is_none());
    assert!(m.handle_new_session_input(b"x").is_none());
    let name = m.handle_new_session_input(b"\r");
    assert_eq!(name.unwrap(), "fx");
    assert_eq!(m.mode, UiMode::Normal);
    // A blank name is generated from the counter.
    let _ = m.handle_hotkey(&[CTRL_N]);
    let name = m.handle_new_session_input(b"\r");
    assert_eq!(name.unwrap(), "agent-1");
}

#[test]
fn resume_args_prepend_continue() {
    let c = config();
    let args = TuiSessionManager::resume_args(&c);
    assert_eq!(args, vec!["--continue".to_string(), "--verbose".to_string()]);
}

#[test]
fn resume_target_names_most_recent_session() {
    let mut m = manager();
    m.history.set_recent_session("repo".to_string(), "feat-x".to_string(), "/repo".to_string());
    let (name, path) = m.resume_target("repo").unwrap();
    assert_eq!(name, "feat-x");
    assert_eq!(path, "/tmp/wt/repo/feat-x");
    assert!(m.resume_target("other").is_none());
}

#[test]
fn dead_resumed_session_asks_for_restart() {
    let mut m = manager();
    m.add_claude_session("feat".to_string(), "/tmp/wt/r/feat".to_string(), session(1, "/tmp/wt/r/feat"), true);
    if let Some(p) = &mut m.active {
        p.claude.0.record_failure("Process exited".to_string());
    }
    let reap = m.check_dead_sessions();
    assert!(m.active.is_none());
    let (name, path) = reap.restart.unwrap();
    assert_eq!(name, "feat");
    assert_eq!(path, "/tmp/wt/r/feat");
    assert!(reap.dead_claude.unwrap().0.shutdown_requested);
    m.complete_restart(name.clone(), path, session(2, "/tmp/wt/r/feat"));
    let p = m.active.as_ref().unwrap();
    assert_eq!(p.name, "feat");
    assert!(!p.resumed);
    let messages = m.take_status();
    assert!(messages.iter().any(|s| s.display_message == "Session restarted"));
}

#[test]
fn dead_plain_session_is_not_restarted() {
    let mut m = manager();
    m.add_claude_session("feat".to_string(), "/tmp/wt/r/feat".to_string(), session(1, "/tmp/wt/r/feat"), false);
    if let Some(p) = &mut m.active {
        p.claude.0.record_failure("Process exited".to_string());
    }
    let reap = m.check_dead_sessions();
    assert!(reap.restart.is_none());
    assert!(m.active.is_none());
}

#[test]
fn kill_confirmation_shuts_the_session_down() {
    let mut m = manager();
    m.add_claude_session("a".to_string(), "/p/a".to_string(), session(1, "/p/a"), false);
    let _ = m.handle_hotkey(&[0x18u8]);
    assert_eq!(m.mode, UiMode::KillConfirmation);
    assert_eq!(m.kill_confirm_dialog.session_name, "a");
    let out = m.handle_kill_confirmation_input(b"y");
    assert!(m.active.is_none());
    assert!(out.claude.unwrap().shutdown_requested);
    assert_eq!(m.mode, UiMode::Normal);
}

#[test]
fn degenerate_resize_is_not_propagated() {
    let mut m = manager();
    m.publish_inner_size(0, 0);
    assert_eq!(m.size.get(), (1, 1));
    m.publish_inner_size(30, 0);
    assert_eq!(m.size.get(), (30, 1));
    m.publish_inner_size(40, 120);
    assert_eq!(m.size.get(), (40, 120));
}

#[test]
fn shell_toggle_asks_for_a_pane_then_switches_views() {
    let mut m = manager();
    m.add_claude_session("a".to_string(), "/p/a".to_string(), session(1, "/p/a"), false);
    let r = m.handle_hotkey(&[0x14u8]);
    match r {
        HotkeyOutcome::SpawnShellPane { name, path, to_shell } => {
            assert_eq!(name, "a");
            assert_eq!(path, "/p/a");
            assert!(to_shell);
            m.add_shell_pane("a", session(2, "/p/a"), true);
        }
        other => panic!("expected a pane spawn, got {:?}", std::mem::discriminant(&other)),
    }
    assert!(matches!(m.active.as_ref().unwrap().view, shepherd::pair::SessionView::Shell));
    // Toggling again returns to the agent view without a new pane.
    let r = m.handle_hotkey(&[0x14u8]);
    assert!(matches!(r, HotkeyOutcome::Handled));
    assert!(matches!(m.active.as_ref().unwrap().view, shepherd::pair::SessionView::Claude));
}

#[test]
fn closing_last_pane_returns_to_claude_view() {
    let mut m = manager();
    m.add_claude_session("a".to_string(), "/p/a".to_string(), session(1, "/p/a"), false);
    m.add_shell_pane("a", session(2, "/p/a"), true);
    let closed = m.close_shell_pane();
    assert!(closed.unwrap().0.shutdown_requested);
    assert!(matches!(m.active.as_ref().unwrap().view, shepherd::pair::SessionView::Claude));
}

#[test]
fn worktree_deletion_kills_live_sessions_first() {
    let mut m = manager();
    m.add_claude_session(
        "live-one".to_string(),
        "/tmp/wt/repo/live-one".to_string(),
        session(1, "/tmp/wt/repo/live-one"),
        false,
    );
    m.open_worktree_cleanup(vec![
        "/tmp/wt/repo/live-one".to_string(),
        "/tmp/wt/repo/stale".to_string(),
    ]);
    assert_eq!(m.mode, UiMode::WorktreeCleanup);
    // Check both rows, then ask to delete.
    m.handle_worktree_cleanup_input(b"\r");
    let down = [0x1bu8, b'[', b'B'];
    m.handle_worktree_cleanup_input(&down);
    m.handle_worktree_cleanup_input(b"\r");
    m.handle_worktree_cleanup_input(b"d");
    assert_eq!(m.mode, UiMode::WorktreeDeleteConfirm);
    let to_delete = m.handle_delete_confirm_input(b"y").unwrap();
    assert_eq!(to_delete.len(), 2);
    // The host kills sessions at those paths first.
    let killed = m.kill_session_at_path("/tmp/wt/repo/live-one");
    assert!(killed.claude.unwrap().shutdown_requested);
    assert!(m.active.is_none());
    let killed = m.kill_session_at_path("/tmp/wt/repo/stale");
    assert!(killed.claude.is_none());
    // Both deletions succeeded; history forgets the live one.
    m.history.set_recent_session("repo".to_string(), "live-one".to_string(), "/repo".to_string());
    let repo = "repo".to_string();
    m.finish_worktree_deletion(
        vec![
            ("/tmp/wt/repo/live-one".to_string(), None),
            ("/tmp/wt/repo/stale".to_string(), None),
        ],
        Some(&repo),
        Vec::new(),
    );
    assert_eq!(m.mode, UiMode::Normal);
    assert!(m.history.get_recent_session("repo").is_none());
    let messages = m.take_status();
    let last = messages.last().unwrap();
    assert_eq!(last.display_message, "Deleted 2 worktree(s)");
    assert_eq!(last.level, StatusLevel::Info);
}

#[test]
fn failed_deletions_are_aggregated() {
    let mut m = manager();
    m.finish_worktree_deletion(
        vec![
            ("/a".to_string(), None),
            ("/b".to_string(), Some("permission denied".to_string())),
            ("/c".to_string(), Some("busy".to_string())),
        ],
        None,
        vec!["/b".to_string(), "/c".to_string()],
    );
    assert_eq!(m.mode, UiMode::WorktreeCleanup);
    let messages = m.take_status();
    let last = messages.last().unwrap();
    assert_eq!(last.display_message, "Deleted 1 of 3 worktree(s)");
    assert_eq!(last.log_message, "permission denied; busy");
}
