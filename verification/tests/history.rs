use shepherd::history::SessionHistory;

fn touched(h: &mut SessionHistory, repo: &str, name: &str, path: &str) {
    h.set_recent_session(repo.to_string(), name.to_string(), path.to_string());
}

#[test]
fn touch_puts_entry_in_front() {
    let mut h = SessionHistory::default();
    touched(&mut h, "repo", "a", "/p/a");
    touched(&mut h, "repo", "b", "/p/b");
    let list = h.get_recent_sessions("repo");
    assert_eq!(list.len(), 2);
    assert_eq!(list[0].name, "b");
    assert_eq!(list[1].name, "a");
    let front = h.get_recent_session("repo").unwrap();
    assert_eq!(front.name, "b");
    assert_eq!(front.project_path, "/p/b");
}

#[test]
fn touch_deduplicates() {
    let mut h = SessionHistory::default();
    touched(&mut h, "repo", "a", "/p/a");
    touched(&mut h, "repo", "b", "/p/b");
    touched(&mut h, "repo", "a", "/p/a");
    let list = h.get_recent_sessions("repo");
    assert_eq!(list.len(), 2);
    assert_eq!(list[0].name, "a");
    assert_eq!(list[1].name, "b");
}

#[test]
fn list_is_capped_at_five() {
    let mut h = SessionHistory::default();
    for i in 0..7 {
        touched(&mut h, "repo", &format!("s{}", i), "/p");
    }
    let list = h.get_recent_sessions("repo");
    assert_eq!(list.len(), 5);
    assert_eq!(list[0].name, "s6");
    assert_eq!(list[4].name, "s2");
}

#[test]
fn repos_are_independent() {
    let mut h = SessionHistory::default();
    touched(&mut h, "one", "a", "/p/a");
    touched(&mut h, "two", "b", "/p/b");
    assert_eq!(h.get_recent_session("one").unwrap().name, "a");
    assert_eq!(h.get_recent_session("two").unwrap().name, "b");
    assert!(h.get_recent_session("three").is_none());
}

#[test]
fn remove_by_name_removes_all_matches() {
    let mut h = SessionHistory::default();
    touched(&mut h, "repo", "a", "/p/a");
    touched(&mut h, "repo", "b", "/p/b");
    h.remove_by_name("repo", "a");
    let list = h.get_recent_sessions("repo");
    assert_eq!(list.len(), 1);
    assert_eq!(list[0].name, "b");
    h.remove_by_name("repo", "missing");
    assert_eq!(h.get_recent_sessions("repo").len(), 1);
}
