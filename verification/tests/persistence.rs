use shepherd::config::Config;
use shepherd::config::MostRecentSession;
use shepherd::history::RecentSession;
use shepherd::history::SessionHistory;
use shepherd::json::decode_config;
use shepherd::json::decode_history;
use shepherd::json::encode_config;
use shepherd::json::encode_history;

fn entry(name: &str, path: &str) -> RecentSession {
    RecentSession { name: name.to_string(), project_path: path.to_string() }
}

#[test]
fn empty_history_round_trips() {
    let h = SessionHistory::default();
    let text = encode_history(&h);
    assert_eq!(text, "{}");
    let back = decode_history(&text).unwrap();
    assert_eq!(back.recent_sessions.len(), 0);
}

#[test]
fn history_round_trips() {
    let mut h = SessionHistory::default();
    h.set_recent_session("repo".to_string(), "feat-x".to_string(), "/r".to_string());
    h.set_recent_session("repo".to_string(), "feat-y".to_string(), "/r".to_string());
    h.set_recent_session("other".to_string(), "a b".to_string(), "/o/deep".to_string());
    let text = encode_history(&h);
    let back = decode_history(&text).unwrap();
    let list = back.get_recent_sessions("repo");
    assert_eq!(list.len(), 2);
    assert_eq!(list[0].name, "feat-y");
    assert_eq!(list[1].name, "feat-x");
    let other = back.get_recent_sessions("other");
    assert_eq!(other[0].name, "a b");
    assert_eq!(other[0].project_path, "/o/deep");
    // Saving what was loaded gives the same text again.
    assert_eq!(encode_history(&back), text);
}

#[test]
fn history_escapes_quotes_and_backslashes() {
    let mut h = SessionHistory::default();
    h.set_recent_session(
        "re\"po".to_string(),
        "na\\me".to_string(),
        "C:\\tmp\\\"x\"".to_string(),
    );
    let text = encode_history(&h);
    let back = decode_history(&text).unwrap();
    let list = back.get_recent_sessions("re\"po");
    assert_eq!(list[0].name, "na\\me");
    assert_eq!(list[0].project_path, "C:\\tmp\\\"x\"");
}

#[test]
fn malformed_history_is_rejected() {
    assert!(decode_history("").is_none());
    assert!(decode_history("{").is_none());
    assert!(decode_history("{}x").is_none());
    assert!(decode_history("not json").is_none());
    // A history breaking the per-repository rules is rejected even when the
    // syntax is fine.
    let mut h = SessionHistory::default();
    h.recent_sessions.push((
        "repo".to_string(),
        vec![entry("a", "/p"), entry("a", "/p")],
    ));
    let text = encode_history(&h);
    assert!(decode_history(&text).is_none());
}

#[test]
fn config_round_trips() {
    let c = Config {
        claude_args: vec!["--verbose".to_string(), "--x".to_string()],
        workflows_path: "/tmp/wt".to_string(),
        recent_sessions: vec![
            (
                "/repo".to_string(),
                MostRecentSession { name: "feat".to_string(), path: "/wt/feat".to_string() },
            ),
        ],
    };
    let text = encode_config(&c);
    let back = decode_config(&text).unwrap();
    assert_eq!(back.claude_args, c.claude_args);
    assert_eq!(back.workflows_path, c.workflows_path);
    assert_eq!(back.recent_sessions.len(), 1);
    assert_eq!(back.recent_sessions[0].0, "/repo");
    assert_eq!(back.recent_sessions[0].1.name, "feat");
    assert_eq!(encode_config(&back), text);
}

#[test]
fn empty_config_round_trips() {
    let c = Config {
        claude_args: Vec::new(),
        workflows_path: String::new(),
        recent_sessions: Vec::new(),
    };
    let text = encode_config(&c);
    let back = decode_config(&text).unwrap();
    assert!(back.claude_args.is_empty());
    assert_eq!(back.workflows_path, "");
    assert!(back.recent_sessions.is_empty());
}
