use shepherd::multiplexer::TerminalMultiplexer;
use shepherd::session::AttachedSession;

fn pane(id: u64) -> AttachedSession {
    AttachedSession::new(id, "sh".to_string(), Vec::new(), "/tmp".to_string())
}

#[test]
fn add_pane_focuses_it() {
    let mut m = TerminalMultiplexer::new();
    assert!(m.is_empty());
    m.add_pane(pane(1));
    assert_eq!(m.active_pane, 0);
    m.add_pane(pane(2));
    assert_eq!(m.active_pane, 1);
    assert!(m.active_pane < m.panes.len());
}

#[test]
fn close_last_pane_empties_the_multiplexer() {
    let mut m = TerminalMultiplexer::new();
    m.add_pane(pane(1));
    let closed = m.close_active_pane();
    assert!(closed.is_some());
    assert_eq!(closed.unwrap().0.id, 1);
    assert!(m.is_empty());
    assert!(m.close_active_pane().is_none());
}

#[test]
fn close_clamps_focus() {
    let mut m = TerminalMultiplexer::new();
    m.add_pane(pane(1));
    m.add_pane(pane(2));
    m.add_pane(pane(3));
    assert_eq!(m.active_pane, 2);
    let closed = m.close_active_pane();
    assert_eq!(closed.unwrap().0.id, 3);
    assert_eq!(m.active_pane, 1);
}

#[test]
fn focus_wraps_both_ways() {
    let mut m = TerminalMultiplexer::new();
    m.add_pane(pane(1));
    m.add_pane(pane(2));
    m.add_pane(pane(3));
    m.focus_right();
    assert_eq!(m.active_pane, 0);
    m.focus_left();
    assert_eq!(m.active_pane, 2);
    m.focus_left();
    assert_eq!(m.active_pane, 1);
}

#[test]
fn remove_dead_panes_keeps_living_order() {
    let mut m = TerminalMultiplexer::new();
    m.add_pane(pane(1));
    let mut dead_pane = pane(2);
    dead_pane.0.record_failure("gone".to_string());
    m.add_pane(dead_pane);
    m.add_pane(pane(3));
    let dead = m.remove_dead_panes();
    assert_eq!(dead.len(), 1);
    assert_eq!(dead[0].0.id, 2);
    assert_eq!(m.panes.len(), 2);
    assert_eq!(m.panes[0].0.id, 1);
    assert_eq!(m.panes[1].0.id, 3);
    assert!(m.active_pane < m.panes.len());
}

#[test]
fn pane_layout_splits_width_with_dividers() {
    let rects = shepherd::multiplexer::pane_layout(2, 11, 3);
    // 11 columns minus 2 dividers leaves 9, so each pane gets 3.
    assert_eq!(rects, vec![(2, 3), (6, 3), (10, 3)]);
    let one = shepherd::multiplexer::pane_layout(0, 80, 1);
    assert_eq!(one, vec![(0, 80)]);
    assert!(shepherd::multiplexer::pane_layout(0, 80, 0).is_empty());
}
