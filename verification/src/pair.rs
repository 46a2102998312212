//! Session pairs: a session together with its UI metadata.
//!
//! Exactly one pair may be active at a time (the manager holds it in an
//! `Option`); the rest are background pairs. Detaching and attaching move a
//! pair between the two forms and preserve every field.

use vstd::prelude::*;

use crate::mouse::MAX_SCROLLBACK;
use crate::session::AttachedSession;
use crate::session::DetachedSession;
use crate::session::Session;

verus! {

/// Which view is currently shown for a pair.
#[derive(Clone, Copy, PartialEq, Eq, Structural)]
pub enum SessionView {
    Claude,
    Shell,
}

/// Activity status of a session, fed by hook notifications.
#[derive(Clone, Copy, PartialEq, Eq, Structural)]
pub enum SessionActivity {
    Active,
    /// The child stopped and needs user attention.
    Stopped,
}

/// The active pair: its session is attached and receives input.
pub struct ActivePair {
    pub name: String,
    pub path: String,
    pub view: SessionView,
    pub claude: AttachedSession,
    /// Whether the child was started with a resume argument.
    pub resumed: bool,
    /// Scrollback offset; 0 shows current output.
    pub scroll_offset: usize,
    pub activity: SessionActivity,
}

/// A background pair: its session is detached but keeps running.
pub struct BackgroundPair {
    pub name: String,
    pub path: String,
    pub last_view: SessionView,
    pub claude: DetachedSession,
    pub resumed: bool,
    pub scroll_offset: usize,
    pub activity: SessionActivity,
}

/// The background form of an active pair.
pub open spec fn detached_of(p: ActivePair) -> BackgroundPair {
    BackgroundPair {
        name: p.name,
        path: p.path,
        last_view: p.view,
        claude: DetachedSession(Session { active: false, ..p.claude.0 }),
        resumed: p.resumed,
        scroll_offset: p.scroll_offset,
        activity: p.activity,
    }
}

/// The active form of a background pair.
pub open spec fn attached_of(b: BackgroundPair) -> ActivePair {
    ActivePair {
        name: b.name,
        path: b.path,
        view: b.last_view,
        claude: AttachedSession(Session { active: true, ..b.claude.0 }),
        resumed: b.resumed,
        scroll_offset: b.scroll_offset,
        activity: b.activity,
    }
}

impl ActivePair {
    /// The pair is attached and its scroll offset lies in the scrollback
    /// range.
    pub open spec fn wf(self) -> bool {
        &&& self.claude.0.active
        &&& self.claude.0.wf()
        &&& self.scroll_offset <= MAX_SCROLLBACK
    }

    /// A fresh pair around a newly spawned session: agent view, no
    /// scrollback offset, active.
    pub fn new(name: String, path: String, claude: AttachedSession, resumed: bool) -> (p: Self)
        ensures
            p == (ActivePair {
                name,
                path,
                view: SessionView::Claude,
                claude,
                resumed,
                scroll_offset: 0,
                activity: SessionActivity::Active,
            }),
    {
        ActivePair {
            name,
            path,
            view: SessionView::Claude,
            claude,
            resumed,
            scroll_offset: 0,
            activity: SessionActivity::Active,
        }
    }

    /// Move the pair to the background, remembering the view it showed.
    pub fn detach(self) -> (b: BackgroundPair)
        ensures
            b == detached_of(self),
    {
        BackgroundPair {
            name: self.name,
            path: self.path,
            last_view: self.view,
            claude: self.claude.detach(),
            resumed: self.resumed,
            scroll_offset: self.scroll_offset,
            activity: self.activity,
        }
    }
}

impl BackgroundPair {
    /// The pair is detached and its scroll offset lies in the scrollback
    /// range.
    pub open spec fn wf(self) -> bool {
        &&& !self.claude.0.active
        &&& self.claude.0.wf()
        &&& self.scroll_offset <= MAX_SCROLLBACK
    }

    /// Bring the pair back to the foreground, restoring its view and
    /// keeping its activity state.
    pub fn attach(self) -> (p: ActivePair)
        ensures
            p == attached_of(self),
    {
        ActivePair {
            name: self.name,
            path: self.path,
            view: self.last_view,
            claude: self.claude.attach(),
            resumed: self.resumed,
            scroll_offset: self.scroll_offset,
            activity: self.activity,
        }
    }
}

/// A pair's scrollback offset always lies in the scrollback range.
pub proof fn lemma_scroll_offset_in_range(p: ActivePair)
    requires
        p.wf(),
    ensures
        p.scroll_offset <= MAX_SCROLLBACK,
{
}

/// Detaching and then attaching a pair restores it: name, path, view,
/// scroll offset, activity, resumed flag and session state all return.
pub proof fn lemma_detach_attach_round_trip(p: ActivePair)
    requires
        p.claude.0.active,
    ensures
        attached_of(detached_of(p)) == p,
{
    let q = attached_of(detached_of(p));
    assert(q.claude.0 == p.claude.0);
}

/// Attaching and then detaching a background pair restores it likewise.
pub proof fn lemma_attach_detach_round_trip(b: BackgroundPair)
    requires
        !b.claude.0.active,
    ensures
        detached_of(attached_of(b)) == b,
{
    let q = detached_of(attached_of(b));
    assert(q.claude.0 == b.claude.0);
}

} // verus!
