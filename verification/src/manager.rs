//! The session manager: one active pair, many background pairs, the modal
//! UI state machine, and the decisions of the main loop.
//!
//! The manager is modelled as plain state. Where the original loop performs
//! outside work — spawning a child, running git, listing directories,
//! drawing — the methods here either take the observed results as arguments
//! or hand back what the host must do; every decision in between is
//! verified. At most one pair is ever active (the `active` field), session
//! names are unique, and every multiplexer belongs to a named pair.

use vstd::prelude::*;

use crate::cleanup::DeleteConfirmDialog;
use crate::cleanup::WorktreeCleanupDialog;
use crate::config::Config;
use crate::dialogs::CreateDialog;
use crate::dialogs::HelpPopup;
use crate::dialogs::KillConfirmDialog;
use crate::dialogs::MainView;
use crate::dialogs::QuitConfirmDialog;
use crate::history::RecentSession;
use crate::history::SessionHistory;
use crate::multiplexer::TerminalMultiplexer;
use crate::pair::ActivePair;
use crate::pair::BackgroundPair;
use crate::pair::SessionActivity;
use crate::pair::SessionView;
use crate::pair::attached_of;
use crate::pair::detached_of;
use crate::selector::SessionSelector;
use crate::session::AttachedSession;
use crate::session::SharedSize;
use crate::status::StatusBar;
use crate::status::StatusMessage;
use crate::util::str_eq;

verus! {

/// The modal state of the UI; one mode is active at a time.
#[derive(Clone, Copy, PartialEq, Eq, Structural, Debug)]
pub enum UiMode {
    Normal,
    HelpPopup,
    ListSessions,
    NewSession,
    KillConfirmation,
    QuitConfirmation,
    WorktreeCleanup,
    WorktreeDeleteConfirm,
}

/// The session manager's state.
pub struct TuiSessionManager {
    /// The one pair the user sees and types into.
    pub active: Option<ActivePair>,
    /// Running pairs not currently shown.
    pub background: Vec<BackgroundPair>,
    /// The inner size the host publishes for the PTYs.
    pub size: SharedSize,
    pub mode: UiMode,
    /// Counter behind auto-generated session names.
    pub session_counter: usize,
    pub config: Config,
    /// Where the manager was started.
    pub startup_path: String,
    pub main_view: MainView,
    pub help_popup: HelpPopup,
    pub session_selector: SessionSelector,
    pub create_dialog: CreateDialog,
    pub kill_confirm_dialog: KillConfirmDialog,
    pub quit_confirm_dialog: QuitConfirmDialog,
    pub worktree_cleanup_dialog: WorktreeCleanupDialog,
    pub delete_confirm_dialog: DeleteConfirmDialog,
    pub status_bar: StatusBar,
    /// The active session's name when the selector opened, for revert.
    pub selector_original_session: Option<String>,
    /// The cached (name, display path) list the selector indexes into.
    pub selector_sessions: Vec<(String, String)>,
    pub selector_live_count: usize,
    pub selector_recent_count: usize,
    pub history: SessionHistory,
    /// Shell multiplexers keyed by session name.
    pub multiplexers: Vec<(String, TerminalMultiplexer)>,
    /// Set when the main loop should exit.
    pub should_quit: bool,
    /// Status messages produced and not yet shown.
    pub pending_status: Vec<StatusMessage>,
}

impl TuiSessionManager {
    /// Whether the active pair carries this name.
    pub open spec fn active_named(self, name: Seq<char>) -> bool {
        match self.active {
            Some(p) => p.name@ == name,
            None => false,
        }
    }

    /// Whether some background pair carries this name.
    pub open spec fn background_named(self, name: Seq<char>) -> bool {
        exists|i: int|
            0 <= i < self.background@.len() && (#[trigger] self.background@[i]).name@ == name
    }

    /// Whether any pair, active or background, carries this name.
    pub open spec fn has_pair_named(self, name: Seq<char>) -> bool {
        self.active_named(name) || self.background_named(name)
    }

    /// Session names are unique across the active and background pairs.
    pub open spec fn names_unique(self) -> bool {
        &&& forall|i: int, j: int|
            0 <= i < j < self.background@.len()
                ==> (#[trigger] self.background@[i]).name@
                != (#[trigger] self.background@[j]).name@
        &&& match self.active {
            Some(p) => forall|i: int|
                0 <= i < self.background@.len() ==> (#[trigger] self.background@[i]).name@
                    != p.name@,
            None => true,
        }
    }

    /// Whether a multiplexer is kept for this session name.
    pub open spec fn mux_named(self, name: Seq<char>) -> bool {
        exists|i: int|
            0 <= i < self.multiplexers@.len() && (#[trigger] self.multiplexers@[i]).0@ == name
    }

    /// The slot of this session name's multiplexer (meaningful under `wf`).
    pub open spec fn mux_index(self, name: Seq<char>) -> int {
        choose|i: int|
            0 <= i < self.multiplexers@.len() && (#[trigger] self.multiplexers@[i]).0@ == name
    }

    /// The multiplexer kept for this session name.
    pub open spec fn mux_of(self, name: Seq<char>) -> TerminalMultiplexer {
        self.multiplexers@[self.mux_index(name)].1
    }

    /// Under unique keys, a slot holding `name` is the slot `mux_index`
    /// names.
    pub proof fn lemma_mux_index(self, name: Seq<char>, i: int)
        requires
            forall|a: int, b: int|
                0 <= a < b < self.multiplexers@.len()
                    ==> (#[trigger] self.multiplexers@[a]).0@
                    != (#[trigger] self.multiplexers@[b]).0@,
            0 <= i < self.multiplexers@.len(),
            self.multiplexers@[i].0@ == name,
        ensures
            self.mux_named(name),
            self.mux_index(name) == i,
    {
        assert(self.mux_named(name));
        let j = self.mux_index(name);
        if j != i {
            if j < i {
                assert(self.multiplexers@[j].0@ != self.multiplexers@[i].0@);
            } else {
                assert(self.multiplexers@[i].0@ != self.multiplexers@[j].0@);
            }
        }
    }

    /// The paths of every live pair, active first, as owned values.
    pub open spec fn live_paths_of(self) -> Seq<String> {
        (match self.active {
            Some(p) => seq![p.path],
            None => Seq::empty(),
        }) + self.background@.map_values(|b: BackgroundPair| b.path)
    }

    /// The worktree paths the repository's history names, in order.
    pub open spec fn hist_wt_paths(self, repo: Seq<char>) -> Seq<Seq<char>> {
        self.history.list_or_empty(repo).map_values(
            |e: RecentSession| wt_path_of(self.config.workflows_path@, repo, e.name@),
        )
    }

    /// Whether the active pair lives at this path.
    pub open spec fn active_at_path(self, path: Seq<char>) -> bool {
        match self.active {
            Some(p) => p.path@ == path,
            None => false,
        }
    }

    /// Whether some background pair lives at this path.
    pub open spec fn background_at_path(self, path: Seq<char>) -> bool {
        exists|i: int|
            0 <= i < self.background@.len() && (#[trigger] self.background@[i]).path@ == path
    }

    /// The manager's invariant: at most one active pair (by type), all pairs
    /// well formed with unique names, multiplexers keyed uniquely and only
    /// by names of pairs, and the sub-states well formed.
    pub open spec fn wf(self) -> bool {
        &&& match self.active {
            Some(p) => p.wf(),
            None => true,
        }
        &&& forall|i: int|
            0 <= i < self.background@.len() ==> (#[trigger] self.background@[i]).wf()
        &&& self.names_unique()
        &&& forall|i: int, j: int|
            0 <= i < j < self.multiplexers@.len()
                ==> (#[trigger] self.multiplexers@[i]).0@
                != (#[trigger] self.multiplexers@[j]).0@
        &&& forall|i: int|
            0 <= i < self.multiplexers@.len() ==> (#[trigger] self.multiplexers@[i]).1.wf()
        &&& forall|i: int|
            0 <= i < self.multiplexers@.len() ==> self.has_pair_named(
                (#[trigger] self.multiplexers@[i]).0@,
            )
        &&& self.history.wf()
        &&& self.config.wf()
        &&& self.session_selector.wf()
        &&& self.worktree_cleanup_dialog.wf()
    }

    /// A fresh manager around what the host read at startup: no sessions,
    /// normal mode, nothing pending.
    pub fn new(
        rows: u16,
        cols: u16,
        config: Config,
        startup_path: String,
        history: SessionHistory,
    ) -> (m: Self)
        requires
            config.wf(),
            history.wf(),
        ensures
            m.wf(),
            m.active is None,
            m.background@.len() == 0,
            m.multiplexers@.len() == 0,
            m.mode == UiMode::Normal,
            m.session_counter == 0,
            m.should_quit == false,
            m.pending_status@.len() == 0,
            m.config == config,
            m.history == history,
            m.startup_path == startup_path,
            m.size.rows() == rows,
            m.size.cols() == cols,
    {
        TuiSessionManager {
            active: None,
            background: Vec::new(),
            size: SharedSize::new(rows, cols),
            mode: UiMode::Normal,
            session_counter: 0,
            config,
            startup_path,
            main_view: MainView::new(),
            help_popup: HelpPopup::new(),
            session_selector: SessionSelector::new(),
            create_dialog: CreateDialog::new(),
            kill_confirm_dialog: KillConfirmDialog::new(),
            quit_confirm_dialog: QuitConfirmDialog::new(),
            worktree_cleanup_dialog: WorktreeCleanupDialog::new(),
            delete_confirm_dialog: DeleteConfirmDialog::new(),
            status_bar: StatusBar::new(),
            selector_original_session: None,
            selector_sessions: Vec::new(),
            selector_live_count: 0,
            selector_recent_count: 0,
            history,
            multiplexers: Vec::new(),
            should_quit: false,
            pending_status: Vec::new(),
        }
    }

    /// Queue a status message for the bar and the log.
    pub fn push_status(&mut self, m: StatusMessage)
        ensures
            *final(self) == (TuiSessionManager {
                pending_status: final(self).pending_status,
                ..*old(self)
            }),
            final(self).pending_status@ == old(self).pending_status@.push(m),
    {
        self.pending_status.push(m);
    }

    /// Hand the queued status messages to the host, leaving none pending.
    pub fn take_status(&mut self) -> (r: Vec<StatusMessage>)
        ensures
            *final(self) == (TuiSessionManager {
                pending_status: final(self).pending_status,
                ..*old(self)
            }),
            final(self).pending_status@.len() == 0,
            r@ == old(self).pending_status@,
    {
        let mut out: Vec<StatusMessage> = Vec::new();
        core::mem::swap(&mut self.pending_status, &mut out);
        out
    }

    /// Publish the frame's inner area as the PTY size; a degenerate size is
    /// not propagated — each side is kept at least one cell.
    pub fn publish_inner_size(&mut self, rows: u16, cols: u16)
        ensures
            *final(self) == (TuiSessionManager { size: final(self).size, ..*old(self) }),
            final(self).size.rows() == (if rows == 0 { 1u16 } else { rows }),
            final(self).size.cols() == (if cols == 0 { 1u16 } else { cols }),
    {
        let r: u16 = if rows == 0 { 1 } else { rows };
        let c: u16 = if cols == 0 { 1 } else { cols };
        self.size.set(r, c);
    }

    /// The paths of every live session, active first.
    pub fn get_active_session_paths(&self) -> (r: Vec<String>)
        ensures
            r@.len() == (match self.active {
                Some(p) => 1int,
                None => 0int,
            }) + self.background@.len(),
            match self.active {
                Some(p) => r@[0] == p.path && forall|i: int|
                    0 <= i < self.background@.len() ==> r@[i + 1]
                        == (#[trigger] self.background@[i]).path,
                None => forall|i: int|
                    0 <= i < self.background@.len() ==> r@[i]
                        == (#[trigger] self.background@[i]).path,
            },
    {
        let mut out: Vec<String> = Vec::new();
        match &self.active {
            Some(p) => {
                out.push(p.path.clone());
            }
            None => {}
        }
        let base = out.len();
        let n = self.background.len();
        let mut i: usize = 0;
        while i < n
            invariant
                n == self.background@.len(),
                i <= n,
                out@.len() == base + i,
                base == (match self.active {
                    Some(p) => 1int,
                    None => 0int,
                }),
                match self.active {
                    Some(p) => out@[0] == p.path,
                    None => true,
                },
                forall|k: int|
                    0 <= k < i ==> out@[base + k] == (#[trigger] self.background@[k]).path,
            decreases n - i,
        {
            out.push(self.background[i].path.clone());
            i += 1;
        }
        out
    }

    /// Install a freshly spawned session as the active pair, moving any
    /// previous active pair to the background. The new pair starts in the
    /// agent view with no scrollback offset.
    pub fn add_claude_session(
        &mut self,
        name: String,
        path: String,
        session: AttachedSession,
        resumed: bool,
    )
        requires
            old(self).wf(),
            !old(self).has_pair_named(name@),
            session.0.active,
            session.0.wf(),
        ensures
            final(self).wf(),
            final(self).active == Some(
                ActivePair {
                    name,
                    path,
                    view: SessionView::Claude,
                    claude: session,
                    resumed,
                    scroll_offset: 0,
                    activity: SessionActivity::Active,
                },
            ),
            final(self).background@ == (match old(self).active {
                Some(p) => old(self).background@.push(detached_of(p)),
                None => old(self).background@,
            }),
            final(self).multiplexers == old(self).multiplexers,
            final(self).mode == old(self).mode,
            final(self).should_quit == old(self).should_quit,
            final(self).history == old(self).history,
            final(self).config == old(self).config,
            final(self).pending_status == old(self).pending_status,
            final(self).session_counter == old(self).session_counter,
            forall|n2: Seq<char>|
                #[trigger] final(self).has_pair_named(n2) == (old(self).has_pair_named(n2)
                    || n2 == name@),
    {
        let ghost prior = *self;
        let mut taken: Option<ActivePair> = None;
        core::mem::swap(&mut self.active, &mut taken);
        match taken {
            Some(old_pair) => {
                let bg = old_pair.detach();
                self.background.push(bg);
            }
            None => {}
        }
        self.active = Some(ActivePair::new(name, path, session, resumed));
        proof {
            let fin = *self;
            assert(fin.active->0.wf());
            assert forall|n2: Seq<char>| #[trigger] fin.has_pair_named(n2) == (
            prior.has_pair_named(n2) || n2 == name@) by {
                match prior.active {
                    Some(p) => {
                        assert(fin.background@ == prior.background@.push(detached_of(p)));
                        assert(fin.background@[fin.background@.len() - 1].name@ == p.name@);
                        assert(forall|i: int|
                            0 <= i < prior.background@.len()
                                ==> #[trigger] fin.background@[i] == prior.background@[i]);
                        if prior.has_pair_named(n2) {
                            if prior.active_named(n2) {
                                assert(fin.background_named(n2));
                            } else {
                                let i = choose|i: int|
                                    0 <= i < prior.background@.len() && (
                                    #[trigger] prior.background@[i]).name@ == n2;
                                assert(fin.background@[i].name@ == n2);
                                assert(fin.background_named(n2));
                            }
                        }
                        if fin.background_named(n2) {
                            let i = choose|i: int|
                                0 <= i < fin.background@.len() && (
                                #[trigger] fin.background@[i]).name@ == n2;
                            if i < prior.background@.len() {
                                assert(prior.background@[i].name@ == n2);
                                assert(prior.background_named(n2));
                            } else {
                                assert(n2 == p.name@);
                            }
                        }
                    }
                    None => {
                        assert(fin.background@ == prior.background@);
                        if prior.background_named(n2) {
                            assert(fin.background_named(n2));
                        }
                        if fin.background_named(n2) {
                            assert(prior.background_named(n2));
                        }
                    }
                }
            }
            assert(fin.names_unique()) by {
                match prior.active {
                    Some(p) => {
                        assert(forall|i: int|
                            0 <= i < prior.background@.len()
                                ==> #[trigger] fin.background@[i] == prior.background@[i]);
                        assert(fin.background@[fin.background@.len() - 1].name@ == p.name@);
                        assert forall|a: int, b: int|
                            0 <= a < b < fin.background@.len() implies (
                        #[trigger] fin.background@[a]).name@ != (#[trigger] fin.background@[
                        b]).name@ by {
                            if b < prior.background@.len() {
                            } else {
                                assert(fin.background@[b].name@ == p.name@);
                                assert(prior.background@[a].name@ != p.name@);
                            }
                        }
                        assert forall|a: int|
                            0 <= a < fin.background@.len() implies (
                        #[trigger] fin.background@[a]).name@ != name@ by {
                            if a < prior.background@.len() {
                                if prior.background@[a].name@ == name@ {
                                    assert(prior.background_named(name@));
                                    assert(prior.has_pair_named(name@));
                                }
                            } else {
                                assert(fin.background@[a].name@ == p.name@);
                                if p.name@ == name@ {
                                    assert(prior.active_named(name@));
                                    assert(prior.has_pair_named(name@));
                                }
                            }
                        }
                    }
                    None => {
                        assert forall|a: int|
                            0 <= a < fin.background@.len() implies (
                        #[trigger] fin.background@[a]).name@ != name@ by {
                            if fin.background@[a].name@ == name@ {
                                assert(prior.background_named(name@));
                                assert(prior.has_pair_named(name@));
                            }
                        }
                    }
                }
            }
            assert forall|i: int|
                0 <= i < fin.multiplexers@.len() implies fin.has_pair_named(
                (#[trigger] fin.multiplexers@[i]).0@,
            ) by {
                assert(prior.has_pair_named(prior.multiplexers@[i].0@));
            }
            assert forall|i: int|
                0 <= i < fin.background@.len() implies (#[trigger] fin.background@[i]).wf() by {
                match prior.active {
                    Some(p) => {
                        if i < prior.background@.len() {
                            assert(prior.background@[i].wf());
                        } else {
                            assert(fin.background@[i] == detached_of(p));
                            assert(p.wf());
                        }
                    }
                    None => {
                        assert(prior.background@[i].wf());
                    }
                }
            }
            assert(fin.wf());
        }
    }

    /// Switch to a session by name, searching the active pair and the
    /// background. With the name already active nothing changes; a
    /// background pair is brought forward and the active pair is pushed to
    /// the back of the background. Returns whether the name was found.
    pub fn switch_to_session_by_name(&mut self, name: &str) -> (found: bool)
        requires
            old(self).wf(),
        ensures
            final(self).wf(),
            found == old(self).has_pair_named(name@),
            old(self).active_named(name@) ==> *final(self) == *old(self),
            !old(self).has_pair_named(name@) ==> *final(self) == *old(self),
            (!old(self).active_named(name@) && old(self).background_named(name@)) ==> exists|
                i: int,
            |
                0 <= i < old(self).background@.len() && (#[trigger] old(self).background@[i]).name@ == name@ && final(self).active == Some(
                    attached_of(old(self).background@[i]),
                ) && final(self).background@ == (match old(self).active {
                    Some(p) => old(self).background@.remove(i).push(detached_of(p)),
                    None => old(self).background@.remove(i),
                }),
            *final(self) == (TuiSessionManager {
                active: final(self).active,
                background: final(self).background,
                ..*old(self)
            }),
            forall|n2: Seq<char>|
                #[trigger] final(self).has_pair_named(n2) == old(self).has_pair_named(n2),
    {
        let ghost prior = *self;
        match &self.active {
            Some(p) => {
                if str_eq(p.name.as_str(), name) {
                    return true;
                }
            }
            None => {}
        }
        let n = self.background.len();
        let mut idx: usize = 0;
        while idx < n
            invariant
                prior == *old(self),
                prior == *self,
                prior.wf(),
                !prior.active_named(name@),
                n == self.background@.len(),
                idx <= n,
                forall|j: int|
                    0 <= j < idx ==> (#[trigger] self.background@[j]).name@ != name@,
            decreases n - idx,
        {
            if str_eq(self.background[idx].name.as_str(), name) {
                let i = idx;
                let bg_pair = self.background.remove(i);
                let mut taken: Option<ActivePair> = None;
                core::mem::swap(&mut self.active, &mut taken);
                match taken {
                    Some(old_pair) => {
                        self.background.push(old_pair.detach());
                    }
                    None => {}
                }
                self.active = Some(bg_pair.attach());
                proof {
                    lemma_switch_post(*self, prior, name@, i as int);
                    assert(prior.background_named(name@)) by {
                        assert(prior.background@[i as int].name@ == name@);
                    }
                }
                return true;
            }
            idx += 1;
        }
        proof {
            assert(!prior.background_named(name@));
            assert(!prior.active_named(name@));
        }
        false
    }
    /// The multiplexer slot kept for this session name, if any.
    fn find_mux(&self, name: &str) -> (r: Option<usize>)
        ensures
            match r {
                Some(i) => i < self.multiplexers@.len()
                    && self.multiplexers@[i as int].0@ == name@,
                None => !self.mux_named(name@),
            },
    {
        let n = self.multiplexers.len();
        let mut i: usize = 0;
        while i < n
            invariant
                n == self.multiplexers@.len(),
                i <= n,
                forall|j: int|
                    0 <= j < i ==> (#[trigger] self.multiplexers@[j]).0@ != name@,
            decreases n - i,
        {
            if str_eq(self.multiplexers[i].0.as_str(), name) {
                return Some(i);
            }
            i += 1;
        }
        None
    }

    /// Add a shell pane to the named session's multiplexer, creating the
    /// multiplexer if the session has none yet; the new pane gets the
    /// focus. When asked, and the named session is the active one, the view
    /// switches to Shell.
    pub fn add_shell_pane(&mut self, name: &str, session: AttachedSession, to_shell: bool)
        requires
            old(self).wf(),
            old(self).has_pair_named(name@),
        ensures
            final(self).wf(),
            final(self).mux_named(name@),
            final(self).mux_of(name@).panes@ == (if old(self).mux_named(name@) {
                old(self).mux_of(name@).panes@
            } else {
                Seq::<AttachedSession>::empty()
            }).push(session),
            final(self).mux_of(name@).active_pane + 1 == final(self).mux_of(
                name@,
            ).panes@.len(),
            final(self).active is Some == (old(self).active is Some),
            final(self).background == old(self).background,
            final(self).mode == old(self).mode,
            to_shell && old(self).active_named(name@) ==> final(self).active->0.view
                == SessionView::Shell,
            !(to_shell && old(self).active_named(name@)) ==> final(self).active == old(self).active,
    {
        let ghost prior = *self;
        let i: usize;
        match self.find_mux(name) {
            Some(j) => {
                i = j;
                proof {
                    prior.lemma_mux_index(name@, j as int);
                    assert(prior.mux_of(name@) == prior.multiplexers@[j as int].1);
                }
            }
            None => {
                i = self.multiplexers.len();
                let key = crate::util::str_chars(name);
                self.multiplexers.push(
                    (crate::util::chars_to_string(&key), TerminalMultiplexer::new()),
                );
                proof {
                    assert(forall|q: int|
                        0 <= q < prior.multiplexers@.len()
                            ==> #[trigger] self.multiplexers@[q] == prior.multiplexers@[q]);
                }
            }
        }
        let pair = self.multiplexers.remove(i);
        let key = pair.0;
        let mut mux = pair.1;
        mux.add_pane(session);
        let ghost mid_mux = mux;
        self.multiplexers.insert(i, (key, mux));
        proof {
            let fin = *self;
            assert(fin.multiplexers@[i as int].0@ == name@);
            assert(fin.mux_named(name@));
            assert(fin.multiplexers@.len() == (if prior.mux_named(name@) {
                prior.multiplexers@.len() as int
            } else {
                prior.multiplexers@.len() + 1int
            }));
            assert forall|q: int|
                0 <= q < fin.multiplexers@.len() && q != i as int implies #[trigger] fin
                .multiplexers@[q] == prior.multiplexers@[q] by {}
            assert(fin.wf()) by {
                assert(mid_mux.wf());
                assert forall|a: int, b: int|
                    0 <= a < b < fin.multiplexers@.len() implies (
                #[trigger] fin.multiplexers@[a]).0@ != (#[trigger] fin.multiplexers@[
                b]).0@ by {
                    if a != i as int && b != i as int {
                        assert(prior.multiplexers@[a].0@ != prior.multiplexers@[b].0@);
                    } else if !prior.mux_named(name@) {
                        if a == i as int {
                            assert(b < prior.multiplexers@.len());
                            if prior.multiplexers@[b].0@ == name@ {
                                assert(prior.mux_named(name@));
                            }
                        } else {
                            if prior.multiplexers@[a].0@ == name@ {
                                assert(prior.mux_named(name@));
                            }
                        }
                    } else {
                        assert(prior.multiplexers@[a].0@ != prior.multiplexers@[b].0@);
                    }
                }
                assert forall|q: int|
                    0 <= q < fin.multiplexers@.len() implies fin.has_pair_named(
                    (#[trigger] fin.multiplexers@[q]).0@,
                ) by {
                    assert(forall|n2: Seq<char>|
                        #[trigger] fin.has_pair_named(n2) == prior.has_pair_named(n2));
                    if q == i as int {
                        assert(prior.has_pair_named(name@));
                    } else {
                        assert(prior.has_pair_named(prior.multiplexers@[q].0@));
                    }
                }
            }
        }
        if to_shell {
            let is_active = match &self.active {
                Some(p) => str_eq(p.name.as_str(), name),
                None => false,
            };
            if is_active {
                self.set_active_view(SessionView::Shell);
            }
        }
        proof {
            assert(self.mux_named(name@)) by {
                assert(self.multiplexers@[i as int].0@ == name@);
            }
            self.lemma_mux_index(name@, i as int);
            assert(self.mux_of(name@) == self.multiplexers@[i as int].1);
            assert(self.mux_of(name@) == mid_mux);
        }
    }

    /// Set the view shown for the active pair; with no active pair nothing
    /// changes.
    pub fn set_active_view(&mut self, view: SessionView)
        requires
            old(self).wf(),
        ensures
            final(self).wf(),
            match old(self).active {
                Some(p) => *final(self) == (TuiSessionManager {
                    active: Some(ActivePair { view, ..p }),
                    ..*old(self)
                }),
                None => *final(self) == *old(self),
            },
            forall|n2: Seq<char>|
                #[trigger] final(self).has_pair_named(n2) == old(self).has_pair_named(n2),
    {
        let ghost prior = *self;
        match &mut self.active {
            Some(p) => {
                p.view = view;
            }
            None => {}
        }
        proof {
            match prior.active {
                Some(p) => {
                    assert(self.active == Some(ActivePair { view, ..p }));
                    assert(self.active->0.wf());
                    assert forall|n2: Seq<char>|
                        #[trigger] self.has_pair_named(n2) == prior.has_pair_named(n2) by {
                        assert(self.active_named(n2) == prior.active_named(n2));
                    }
                    assert forall|q: int|
                        0 <= q < self.multiplexers@.len() implies self.has_pair_named(
                        (#[trigger] self.multiplexers@[q]).0@,
                    ) by {
                        assert(prior.has_pair_named(prior.multiplexers@[q].0@));
                    }
                }
                None => {}
            }
        }
    }

    /// Reap dead panes of the active pair's multiplexer while in the shell
    /// view; when the last pane goes, the view falls back to agent. The
    /// dead panes come back for the host to dispose of.
    pub fn cleanup_dead_multiplexer_panes(&mut self) -> (dead: Vec<AttachedSession>)
        requires
            old(self).wf(),
        ensures
            final(self).wf(),
            final(self).background == old(self).background,
            final(self).mode == old(self).mode,
            final(self).history == old(self).history,
            final(self).config == old(self).config,
            final(self).should_quit == old(self).should_quit,
            final(self).pending_status == old(self).pending_status,
            match old(self).active {
                None => *final(self) == *old(self) && dead@.len() == 0,
                Some(p) => {
                    &&& p.view != SessionView::Shell ==> *final(self) == *old(self)
                        && dead@.len() == 0
                    &&& final(self).active is Some
                    &&& final(self).active->0.name == p.name
                    &&& final(self).active->0.path == p.path
                    &&& final(self).active->0.claude == p.claude
                    &&& (p.view == SessionView::Shell && !old(self).mux_named(p.name@)
                        ==> *final(self) == *old(self) && dead@.len() == 0)
                    &&& (p.view == SessionView::Shell && old(self).mux_named(p.name@)
                        ==> {
                        let m = old(self).mux_of(p.name@);
                        &&& final(self).mux_named(p.name@)
                        &&& final(self).mux_of(p.name@).panes@ == crate::multiplexer::alive_of(
                            m.panes@,
                        )
                        &&& dead@ == crate::multiplexer::dead_of(m.panes@)
                        &&& (crate::multiplexer::alive_of(m.panes@).len() == 0
                            ==> final(self).active->0.view == SessionView::Claude)
                        &&& (crate::multiplexer::alive_of(m.panes@).len() > 0
                            ==> final(self).active->0.view == SessionView::Shell)
                    })
                },
            },
    {
        let ghost prior = *self;
        let in_shell = match &self.active {
            Some(p) => p.view == SessionView::Shell,
            None => false,
        };
        if !in_shell {
            return Vec::new();
        }
        let name = match &self.active {
            Some(p) => p.name.clone(),
            None => String::new(),
        };
        match self.find_mux(name.as_str()) {
            None => Vec::new(),
            Some(i) => {
                proof {
                    prior.lemma_mux_index(name@, i as int);
                    assert(prior.mux_of(name@) == prior.multiplexers@[i as int].1);
                }
                let pair = self.multiplexers.remove(i);
                let key = pair.0;
                let mut mux = pair.1;
                let dead = mux.remove_dead_panes();
                let now_empty = mux.is_empty();
                self.multiplexers.insert(i, (key, mux));
                proof {
                    let fin = *self;
                    assert(fin.multiplexers@ =~= prior.multiplexers@.update(
                        i as int,
                        fin.multiplexers@[i as int],
                    ));
                    assert(fin.multiplexers@[i as int].0@ == prior.multiplexers@[i as int].0@);
                    assert forall|a: int, b: int|
                        0 <= a < b < fin.multiplexers@.len() implies (
                    #[trigger] fin.multiplexers@[a]).0@ != (#[trigger] fin.multiplexers@[
                    b]).0@ by {
                        assert(prior.multiplexers@[a].0@ != prior.multiplexers@[b].0@);
                    }
                    assert forall|q: int|
                        0 <= q < fin.multiplexers@.len() implies fin.has_pair_named(
                        (#[trigger] fin.multiplexers@[q]).0@,
                    ) by {
                        assert(prior.has_pair_named(prior.multiplexers@[q].0@));
                        assert(forall|n2: Seq<char>|
                            #[trigger] fin.has_pair_named(n2) == prior.has_pair_named(n2));
                    }
                }
                proof {
                    let fin = *self;
                    fin.lemma_mux_index(name@, i as int);
                    assert(fin.mux_of(name@) == fin.multiplexers@[i as int].1);
                }
                if now_empty {
                    self.set_active_view(SessionView::Claude);
                } else {
                    proof {
                        assert(self.active->0.view == SessionView::Shell);
                    }
                }
                proof {
                    assert(self.mux_named(name@)) by {
                        assert(self.multiplexers@[i as int].0@ == name@);
                    }
                    self.lemma_mux_index(name@, i as int);
                }
                dead
            }
        }
    }

    /// Close the focused shell pane of the active session: the pane comes
    /// back shut down; when the last pane goes, the view falls back to
    /// agent.
    pub fn close_shell_pane(&mut self) -> (r: Option<AttachedSession>)
        requires
            old(self).wf(),
        ensures
            final(self).wf(),
            final(self).background == old(self).background,
            final(self).mode == old(self).mode,
            final(self).active is Some == (old(self).active is Some),
            final(self).history == old(self).history,
            final(self).config == old(self).config,
            final(self).should_quit == old(self).should_quit,
            match r {
                Some(pane) => pane.0.shutdown_requested,
                None => true,
            },
            match old(self).active {
                Some(p) => p.view == SessionView::Shell && old(self).mux_named(p.name@)
                    && old(self).mux_of(p.name@).wf() && old(self).mux_of(
                    p.name@,
                ).panes@.len() == 1 ==> {
                    &&& r is Some
                    &&& final(self).active->0.view == SessionView::Claude
                    &&& final(self).mux_named(p.name@)
                    &&& final(self).mux_of(p.name@).panes@.len() == 0
                },
                None => true,
            },
    {
        let ghost prior = *self;
        let in_shell = match &self.active {
            Some(p) => p.view == SessionView::Shell,
            None => false,
        };
        if !in_shell {
            return None;
        }
        let name = match &self.active {
            Some(p) => p.name.clone(),
            None => String::new(),
        };
        match self.find_mux(name.as_str()) {
            None => {
                proof {
                    match prior.active {
                        Some(p) => {
                            assert(!prior.mux_named(p.name@) || !(p.view
                                == SessionView::Shell));
                        }
                        None => {}
                    }
                }
                None
            }
            Some(i) => {
                proof {
                    prior.lemma_mux_index(name@, i as int);
                }
                let pair = self.multiplexers.remove(i);
                let key = pair.0;
                let mut mux = pair.1;
                let closed = mux.close_active_pane();
                let now_empty = mux.is_empty();
                self.multiplexers.insert(i, (key, mux));
                proof {
                    let fin = *self;
                    assert(fin.multiplexers@ =~= prior.multiplexers@.update(
                        i as int,
                        fin.multiplexers@[i as int],
                    ));
                    assert(fin.multiplexers@[i as int].0@ == prior.multiplexers@[i as int].0@);
                    assert forall|a: int, b: int|
                        0 <= a < b < fin.multiplexers@.len() implies (
                    #[trigger] fin.multiplexers@[a]).0@ != (#[trigger] fin.multiplexers@[
                    b]).0@ by {
                        assert(prior.multiplexers@[a].0@ != prior.multiplexers@[b].0@);
                    }
                    assert forall|q: int|
                        0 <= q < fin.multiplexers@.len() implies fin.has_pair_named(
                        (#[trigger] fin.multiplexers@[q]).0@,
                    ) by {
                        assert(prior.has_pair_named(prior.multiplexers@[q].0@));
                        assert(forall|n2: Seq<char>|
                            #[trigger] fin.has_pair_named(n2) == prior.has_pair_named(n2));
                    }
                    fin.lemma_mux_index(name@, i as int);
                }
                if now_empty {
                    self.set_active_view(SessionView::Claude);
                }
                proof {
                    self.lemma_mux_index(name@, i as int);
                }
                match closed {
                    Some(mut pane) => {
                        pane.0.shutdown();
                        Some(pane)
                    }
                    None => None,
                }
            }
        }
    }

    /// Cycle the focus of the active session's shell panes: in the shell
    /// view the focus advances by one, wrapping; the panes themselves do
    /// not change.
    pub fn cycle_shell_pane(&mut self)
        requires
            old(self).wf(),
        ensures
            final(self).wf(),
            final(self).active == old(self).active,
            final(self).background == old(self).background,
            final(self).mode == old(self).mode,
            final(self).history == old(self).history,
            final(self).config == old(self).config,
            final(self).should_quit == old(self).should_quit,
            match old(self).active {
                Some(p) => {
                    &&& (p.view == SessionView::Shell && old(self).mux_named(p.name@)
                        ==> {
                        let m = old(self).mux_of(p.name@);
                        &&& final(self).mux_named(p.name@)
                        &&& final(self).mux_of(p.name@).panes == m.panes
                        &&& (m.panes@.len() > 0 ==> final(self).mux_of(
                            p.name@,
                        ).active_pane as int == (if m.active_pane + 1 == m.panes@.len() {
                            0int
                        } else {
                            m.active_pane + 1
                        }))
                    })
                    &&& (!(p.view == SessionView::Shell && old(self).mux_named(p.name@))
                        ==> *final(self) == *old(self))
                },
                None => *final(self) == *old(self),
            },
    {
        let ghost prior = *self;
        let in_shell = match &self.active {
            Some(p) => p.view == SessionView::Shell,
            None => false,
        };
        if !in_shell {
            return;
        }
        let name = match &self.active {
            Some(p) => p.name.clone(),
            None => String::new(),
        };
        match self.find_mux(name.as_str()) {
            None => {}
            Some(i) => {
                proof {
                    prior.lemma_mux_index(name@, i as int);
                }
                let pair = self.multiplexers.remove(i);
                let key = pair.0;
                let mut mux = pair.1;
                mux.focus_right();
                self.multiplexers.insert(i, (key, mux));
                proof {
                    let fin = *self;
                    assert(fin.multiplexers@ =~= prior.multiplexers@.update(
                        i as int,
                        fin.multiplexers@[i as int],
                    ));
                    assert(fin.multiplexers@[i as int].0@ == prior.multiplexers@[i as int].0@);
                    assert forall|a: int, b: int|
                        0 <= a < b < fin.multiplexers@.len() implies (
                    #[trigger] fin.multiplexers@[a]).0@ != (#[trigger] fin.multiplexers@[
                    b]).0@ by {
                        assert(prior.multiplexers@[a].0@ != prior.multiplexers@[b].0@);
                    }
                    assert forall|q: int|
                        0 <= q < fin.multiplexers@.len() implies fin.has_pair_named(
                        (#[trigger] fin.multiplexers@[q]).0@,
                    ) by {
                        assert(prior.has_pair_named(prior.multiplexers@[q].0@));
                        assert(forall|n2: Seq<char>|
                            #[trigger] fin.has_pair_named(n2) == prior.has_pair_named(n2));
                    }
                    fin.lemma_mux_index(name@, i as int);
                    assert(fin.mux_of(name@) == fin.multiplexers@[i as int].1);
                    assert(prior.mux_of(name@) == prior.multiplexers@[i as int].1);
                }
            }
        }
    }

    /// Handle the global hotkeys, and the shell hotkeys while the shell
    /// view is shown. Says whether the key was consumed and what outside
    /// work, if any, the host owes.
    pub fn handle_hotkey(&mut self, bytes: &[u8]) -> (r: HotkeyOutcome)
        requires
            old(self).wf(),
        ensures
            final(self).wf(),
            !is_hotkey_bytes(
                bytes@,
                old(self).mode == UiMode::Normal && active_in_shell(*old(self)),
            ) ==> r is NotHotkey && *final(self) == *old(self),
            bytes@ == seq![CTRL_H] ==> r is Handled && final(self).mode == (if old(self).mode == UiMode::HelpPopup {
                UiMode::Normal
            } else {
                UiMode::HelpPopup
            }),
            bytes@ == seq![CTRL_D] ==> r is Handled && final(self).mode
                == UiMode::QuitConfirmation,
            bytes@ == seq![CTRL_N] ==> r is Handled && final(self).mode == UiMode::NewSession
                && final(self).create_dialog.input@.len() == 0,
            bytes@ == seq![CTRL_L] ==> (if old(self).mode == UiMode::ListSessions {
                r is Handled && final(self).mode == UiMode::Normal
            } else {
                r is OpenSelector && final(self).mode == old(self).mode
            }),
            bytes@ == seq![CTRL_K] && !(old(self).mode == UiMode::Normal && active_in_shell(
                *old(self),
            )) ==> (if old(self).mode == UiMode::WorktreeCleanup {
                r is Handled && final(self).mode == UiMode::Normal
            } else {
                r is OpenWorktreeCleanup && final(self).mode == old(self).mode
            }),
            bytes@ == seq![CTRL_X] ==> r is Handled && (match old(self).active {
                Some(p) => final(self).mode == UiMode::KillConfirmation
                    && final(self).kill_confirm_dialog.session_name@ == p.name@,
                None => final(self).mode == old(self).mode,
            }),
            bytes@ == seq![CTRL_T] ==> {
                &&& final(self).mode == UiMode::Normal
                &&& (match old(self).active {
                    None => r is Handled && final(self).active is None,
                    Some(p) => {
                        &&& (p.view == SessionView::Shell ==> r is Handled && final(self).active->0.view == SessionView::Claude)
                        &&& (p.view == SessionView::Claude && old(self).mux_named(p.name@)
                            && old(self).mux_of(p.name@).panes@.len() > 0 ==> r
                            is Handled && final(self).active->0.view == SessionView::Shell)
                        &&& (p.view == SessionView::Claude && !(old(self).mux_named(
                            p.name@,
                        ) && old(self).mux_of(p.name@).panes@.len() > 0) ==> (match r {
                            HotkeyOutcome::SpawnShellPane { name, path, to_shell } => name@
                                == p.name@ && path@ == p.path@ && to_shell,
                            _ => false,
                        }) && final(self).active->0.view == SessionView::Claude)
                    },
                })
            },
            final(self).active is Some == (old(self).active is Some),
            final(self).should_quit == old(self).should_quit,
            final(self).history == old(self).history,
            final(self).config == old(self).config,
            match r {
                HotkeyOutcome::SpawnShellPane { name, path, to_shell } => {
                    &&& old(self).active is Some
                    &&& name@ == old(self).active->0.name@
                    &&& path@ == old(self).active->0.path@
                    &&& final(self).has_pair_named(name@)
                },
                _ => true,
            },
    {
        let ghost prior = *self;
        let in_shell_view = match &self.active {
            Some(p) => p.view == SessionView::Shell,
            None => false,
        };

        if self.mode == UiMode::Normal && in_shell_view && bytes.len() == 1 {
            let b = bytes[0];
            if b == CTRL_BACKSLASH {
                let (name, path) = match &self.active {
                    Some(p) => (p.name.clone(), p.path.clone()),
                    None => (String::new(), String::new()),
                };
                proof {
                    assert(prior.has_pair_named(name@));
                }
                return HotkeyOutcome::SpawnShellPane { name, path, to_shell: false };
            }
            if b == CTRL_W {
                let closed = self.close_shell_pane();
                match closed {
                    Some(pane) => {
                        return HotkeyOutcome::ClosedPane { pane };
                    }
                    None => {
                        return HotkeyOutcome::Handled;
                    }
                }
            }
            if b == CTRL_Y {
                self.cycle_shell_pane();
                return HotkeyOutcome::Handled;
            }
        }

        if bytes.len() != 1 {
            return HotkeyOutcome::NotHotkey;
        }
        let b = bytes[0];
        if b != CTRL_H && b != CTRL_T && b != CTRL_N && b != CTRL_L && b != CTRL_X && b
            != CTRL_D && b != CTRL_K {
            return HotkeyOutcome::NotHotkey;
        }

        if self.mode == UiMode::NewSession {
            self.create_dialog.clear();
        }

        if b == CTRL_H {
            if self.mode == UiMode::HelpPopup {
                self.mode = UiMode::Normal;
            } else {
                self.mode = UiMode::HelpPopup;
            }
            return HotkeyOutcome::Handled;
        }
        if b == CTRL_T {
            self.mode = UiMode::Normal;
            return self.toggle_shell();
        }
        if b == CTRL_N {
            if self.mode != UiMode::NewSession {
                self.create_dialog.clear();
                self.mode = UiMode::NewSession;
            }
            return HotkeyOutcome::Handled;
        }
        if b == CTRL_L {
            if self.mode == UiMode::ListSessions {
                self.mode = UiMode::Normal;
                return HotkeyOutcome::Handled;
            }
            return HotkeyOutcome::OpenSelector;
        }
        if b == CTRL_X {
            let name = match &self.active {
                Some(p) => Some(p.name.clone()),
                None => None,
            };
            match name {
                Some(n) => {
                    self.kill_confirm_dialog.set_session_name(n.as_str());
                    self.mode = UiMode::KillConfirmation;
                }
                None => {}
            }
            return HotkeyOutcome::Handled;
        }
        if b == CTRL_D {
            self.mode = UiMode::QuitConfirmation;
            return HotkeyOutcome::Handled;
        }
        if self.mode == UiMode::WorktreeCleanup {
            self.mode = UiMode::Normal;
            return HotkeyOutcome::Handled;
        }
        HotkeyOutcome::OpenWorktreeCleanup
    }

    /// Toggle between the agent and Shell views. A first switch to Shell
    /// with no living pane asks the host to spawn one.
    fn toggle_shell(&mut self) -> (r: HotkeyOutcome)
        requires
            old(self).wf(),
        ensures
            final(self).wf(),
            r is Handled || r is SpawnShellPane,
            final(self).active is Some == (old(self).active is Some),
            final(self).background == old(self).background,
            final(self).mode == old(self).mode,
            final(self).should_quit == old(self).should_quit,
            final(self).history == old(self).history,
            final(self).config == old(self).config,
            match r {
                HotkeyOutcome::SpawnShellPane { name, path, to_shell } => {
                    &&& old(self).active is Some
                    &&& name@ == old(self).active->0.name@
                    &&& path@ == old(self).active->0.path@
                    &&& final(self).has_pair_named(name@)
                },
                _ => true,
            },
            match old(self).active {
                None => r is Handled && final(self).active is None,
                Some(p) => {
                    &&& (p.view == SessionView::Shell ==> r is Handled && final(self).active->0.view == SessionView::Claude)
                    &&& (p.view == SessionView::Claude && old(self).mux_named(p.name@)
                        && old(self).mux_of(p.name@).panes@.len() > 0 ==> r is Handled
                        && final(self).active->0.view == SessionView::Shell)
                    &&& (p.view == SessionView::Claude && !(old(self).mux_named(p.name@)
                        && old(self).mux_of(p.name@).panes@.len() > 0) ==> (match r {
                        HotkeyOutcome::SpawnShellPane { name, path, to_shell } => name@
                            == p.name@ && path@ == p.path@ && to_shell,
                        _ => false,
                    }) && final(self).active->0.view == SessionView::Claude)
                },
            },
    {
        let ghost prior = *self;
        let ctx = match &self.active {
            Some(p) => Some((p.name.clone(), p.path.clone(), p.view)),
            None => None,
        };
        match ctx {
            None => HotkeyOutcome::Handled,
            Some((name, path, view)) => {
                if view == SessionView::Shell {
                    self.set_active_view(SessionView::Claude);
                    HotkeyOutcome::Handled
                } else {
                    let needs_pane = match self.find_mux(name.as_str()) {
                        Some(i) => {
                            proof {
                                prior.lemma_mux_index(name@, i as int);
                                assert(prior.mux_of(name@) == prior.multiplexers@[
                                    i as int].1);
                            }
                            let empty = self.multiplexers[i].1.is_empty();
                            empty
                        }
                        None => true,
                    };
                    if needs_pane {
                        proof {
                            assert(prior.has_pair_named(name@));
                        }
                        HotkeyOutcome::SpawnShellPane { name, path, to_shell: true }
                    } else {
                        self.set_active_view(SessionView::Shell);
                        HotkeyOutcome::Handled
                    }
                }
            }
        }
    }

    /// Route input in normal mode: mouse reports are intercepted, scroll
    /// reports move the scrollback offset, and only the non-mouse bytes are
    /// forwarded to the focused child — or dropped when it has died. Any
    /// non-mouse input first resets the scrollback offset.
    pub fn handle_normal_input(&mut self, bytes: &[u8]) -> (forward: Option<Vec<u8>>)
        requires
            old(self).wf(),
        ensures
            final(self).wf(),
            final(self).mode == old(self).mode,
            final(self).background == old(self).background,
            final(self).history == old(self).history,
            final(self).config == old(self).config,
            final(self).should_quit == old(self).should_quit,
            final(self).active is Some == (old(self).active is Some),
            old(self).active is None ==> *final(self) == *old(self) && forward is None,
            match old(self).active {
                Some(p) => {
                    let delta = crate::mouse::scan_spec(bytes@).0;
                    let rest = crate::mouse::scan_spec(bytes@).1;
                    &&& final(self).active->0.scroll_offset == (if rest.len() > 0 {
                        0int
                    } else {
                        crate::mouse::scrolled(p.scroll_offset as int, delta)
                    })
                    &&& final(self).active->0.name == p.name
                    &&& final(self).active->0.path == p.path
                    &&& final(self).active->0.view == p.view
                    &&& final(self).active->0.resumed == p.resumed
                    &&& (match forward {
                        Some(f) => f@ == rest && rest.len() > 0,
                        None => true,
                    })
                    &&& (rest.len() == 0 ==> forward is None)
                    &&& (p.view == SessionView::Claude && rest.len() > 0
                        && !p.claude.0.is_dead_spec() ==> forward is Some
                        && final(self).active->0.claude.0.written@ == p.claude.0.written@
                        + rest)
                    &&& (p.view == SessionView::Claude && rest.len() > 0
                        && p.claude.0.is_dead_spec() ==> forward is None && final(self).active->0.claude == p.claude)
                    &&& (p.view == SessionView::Claude ==> final(self).multiplexers == old(self).multiplexers)
                    &&& (p.view == SessionView::Shell && rest.len() > 0 && !old(self).mux_named(p.name@) ==> forward is None && final(self).multiplexers
                        == old(self).multiplexers)
                    &&& (p.view == SessionView::Shell && rest.len() > 0 && old(self).mux_named(p.name@) ==> ({
                        let m = old(self).mux_of(p.name@);
                        &&& (m.panes@.len() == 0 ==> forward is None
                            && final(self).multiplexers@ == old(self).multiplexers@)
                        &&& (m.panes@.len() > 0
                            && m.panes@[m.active_pane as int].0.is_dead_spec()
                            ==> forward is None)
                        &&& (m.panes@.len() > 0
                            && !m.panes@[m.active_pane as int].0.is_dead_spec() ==> {
                            &&& forward is Some
                            &&& final(self).mux_named(p.name@)
                            &&& final(self).mux_of(p.name@).panes@.len()
                                == m.panes@.len()
                            &&& final(self).mux_of(p.name@).panes@[m.active_pane as int].0.written@
                                == m.panes@[m.active_pane as int].0.written@ + rest
                            &&& (forall|k: int|
                                0 <= k < m.panes@.len() && k != m.active_pane as int
                                    ==> #[trigger] final(self).mux_of(
                                    p.name@,
                                ).panes@[k] == m.panes@[k])
                        })
                    }))
                },
                None => true,
            },
    {
        let ghost prior = *self;
        let has_active = match &self.active {
            Some(_) => true,
            None => false,
        };
        if !has_active {
            return None;
        }
        let (delta, rest) = crate::mouse::scan_input(bytes);

        if rest.len() == 0 {
            match &mut self.active {
                Some(p) => {
                    p.scroll_offset = crate::mouse::apply_scroll(p.scroll_offset, delta);
                }
                None => {}
            }
            proof {
                assert(self.active->0.wf());
                assert forall|n2: Seq<char>|
                    #[trigger] self.has_pair_named(n2) == prior.has_pair_named(n2) by {}
                assert forall|q: int|
                    0 <= q < self.multiplexers@.len() implies self.has_pair_named(
                    (#[trigger] self.multiplexers@[q]).0@,
                ) by {
                    assert(prior.has_pair_named(prior.multiplexers@[q].0@));
                }
            }
            return None;
        }

        match &mut self.active {
            Some(p) => {
                p.scroll_offset = 0;
            }
            None => {}
        }
        let ghost mid = *self;
        proof {
            assert(mid.active->0.wf());
            assert forall|n2: Seq<char>|
                #[trigger] mid.has_pair_named(n2) == prior.has_pair_named(n2) by {}
            assert forall|q: int|
                0 <= q < mid.multiplexers@.len() implies mid.has_pair_named(
                (#[trigger] mid.multiplexers@[q]).0@,
            ) by {
                assert(prior.has_pair_named(prior.multiplexers@[q].0@));
            }
            assert(mid.wf());
        }

        let view = match &self.active {
            Some(p) => p.view,
            None => SessionView::Claude,
        };
        if view == SessionView::Claude {
            let mut wrote = false;
            match &mut self.active {
                Some(p) => {
                    if !p.claude.0.is_dead() {
                        p.claude.write_input(rest.as_slice());
                        wrote = true;
                    }
                }
                None => {}
            }
            proof {
                assert(self.active->0.wf());
                assert forall|n2: Seq<char>|
                    #[trigger] self.has_pair_named(n2) == prior.has_pair_named(n2) by {}
                assert forall|q: int|
                    0 <= q < self.multiplexers@.len() implies self.has_pair_named(
                    (#[trigger] self.multiplexers@[q]).0@,
                ) by {
                    assert(prior.has_pair_named(prior.multiplexers@[q].0@));
                }
            }
            if wrote {
                return Some(rest);
            }
            return None;
        }

        let name = match &self.active {
            Some(p) => p.name.clone(),
            None => String::new(),
        };
        match self.find_mux(name.as_str()) {
            None => {
                proof {
                    lemma_mux_of_carries(*self, prior, name@);
                }
                None
            }
            Some(i) => {
                proof {
                    prior.lemma_mux_index(name@, i as int);
                    assert(prior.mux_of(name@) == prior.multiplexers@[i as int].1);
                }
                let pair = self.multiplexers.remove(i);
                let key = pair.0;
                let mut mux = pair.1;
                let mut wrote = false;
                match mux.active_pane_mut() {
                    Some(pane) => {
                        if !pane.0.is_dead() {
                            pane.write_input(rest.as_slice());
                            wrote = true;
                        }
                    }
                    None => {}
                }
                self.multiplexers.insert(i, (key, mux));
                proof {
                    let fin = *self;
                    assert(fin.multiplexers@ =~= mid.multiplexers@.update(
                        i as int,
                        fin.multiplexers@[i as int],
                    ));
                    assert(fin.multiplexers@[i as int].0@ == mid.multiplexers@[i as int].0@);
                    assert forall|a: int, b: int|
                        0 <= a < b < fin.multiplexers@.len() implies (
                    #[trigger] fin.multiplexers@[a]).0@ != (#[trigger] fin.multiplexers@[
                    b]).0@ by {
                        assert(mid.multiplexers@[a].0@ != mid.multiplexers@[b].0@);
                    }
                    assert forall|q: int|
                        0 <= q < fin.multiplexers@.len() implies fin.has_pair_named(
                        (#[trigger] fin.multiplexers@[q]).0@,
                    ) by {
                        assert(mid.has_pair_named(mid.multiplexers@[q].0@));
                        assert(forall|n2: Seq<char>|
                            #[trigger] fin.has_pair_named(n2) == mid.has_pair_named(n2));
                    }
                    fin.lemma_mux_index(name@, i as int);
                    assert(fin.mux_of(name@) == fin.multiplexers@[i as int].1);
                    if prior.mux_of(name@).panes@.len() == 0 {
                        assert(fin.multiplexers@ =~= prior.multiplexers@);
                    }
                }
                if wrote {
                    Some(rest)
                } else {
                    None
                }
            }
        }
    }

    /// `y` kills the active session and its shell panes; `n` or Escape
    /// cancels. The shut-down sessions come back for the host to dispose of.
    pub fn handle_kill_confirmation_input(&mut self, bytes: &[u8]) -> (r: KillOutcome)
        requires
            old(self).wf(),
        ensures
            final(self).wf(),
            bytes@.len() == 0 ==> *final(self) == *old(self) && r.claude is None,
            bytes@ == seq![0x1bu8] ==> final(self).mode == UiMode::Normal && r.claude
                is None,
            bytes@.len() > 0 && (bytes@[0] == 110 || bytes@[0] == 78) ==> final(self).mode
                == UiMode::Normal && r.claude is None,
            bytes@.len() > 0 && (bytes@[0] == 121 || bytes@[0] == 89) ==> {
                &&& final(self).mode == UiMode::Normal
                &&& final(self).active is None
                &&& (match old(self).active {
                    Some(p) => {
                        &&& r.claude == Some(p.claude.0.after_shutdown())
                        &&& !final(self).mux_named(p.name@)
                        &&& (old(self).mux_named(p.name@) ==> panes_shut_down(
                            r.panes@,
                            old(self).mux_of(p.name@).panes@,
                        ))
                        &&& (!old(self).mux_named(p.name@) ==> r.panes@.len() == 0)
                    },
                    None => r.claude is None,
                })
                &&& final(self).background == old(self).background
            },
            match r.claude {
                Some(s) => s.shutdown_requested,
                None => true,
            },
            forall|k: int|
                0 <= k < r.panes@.len() ==> (#[trigger] r.panes@[k]).0.shutdown_requested,
    {
        let ghost prior = *self;
        if bytes.len() == 0 {
            return KillOutcome { claude: None, panes: Vec::new() };
        }
        let b = bytes[0];
        if b == 0x1b && bytes.len() == 1 {
            self.mode = UiMode::Normal;
            return KillOutcome { claude: None, panes: Vec::new() };
        }
        if b == 121 || b == 89 {
            let mut taken: Option<ActivePair> = None;
            core::mem::swap(&mut self.active, &mut taken);
            let mut claude: Option<crate::session::Session> = None;
            let mut panes: Vec<AttachedSession> = Vec::new();
            match taken {
                Some(pair) => {
                    let name = pair.name;
                    let AttachedSession(mut inner) = pair.claude;
                    inner.shutdown();
                    claude = Some(inner);
                    proof {
                        assert forall|n2: Seq<char>|
                            prior.has_pair_named(n2) implies #[trigger] self.has_pair_named(
                            n2,
                        ) || n2 == name@ by {
                            if prior.background_named(n2) {
                                assert(self.background_named(n2));
                            }
                        }
                        lemma_mux_of_carries(*self, prior, name@);
                    }
                    panes = self.remove_mux_and_shutdown(name.as_str());
                    self.push_status(
                        StatusMessage::info(
                            "Session killed".to_owned(),
                            "Killed the active session".to_owned(),
                        ),
                    );
                }
                None => {}
            }
            self.mode = UiMode::Normal;
            return KillOutcome { claude, panes };
        }
        if b == 110 || b == 78 {
            self.mode = UiMode::Normal;
        }
        KillOutcome { claude: None, panes: Vec::new() }
    }

    /// Remove the named session's multiplexer, shutting down and returning
    /// every pane in it. Needed once the named pair is gone.
    pub fn remove_mux_and_shutdown(&mut self, name: &str) -> (panes: Vec<AttachedSession>)
        requires
            old(self).active is None || !old(self).active_named(name@),
            match old(self).active {
                Some(p) => p.wf(),
                None => true,
            },
            forall|i: int|
                0 <= i < old(self).background@.len()
                    ==> (#[trigger] old(self).background@[i]).wf(),
            old(self).names_unique(),
            forall|i: int, j: int|
                0 <= i < j < old(self).multiplexers@.len()
                    ==> (#[trigger] old(self).multiplexers@[i]).0@
                    != (#[trigger] old(self).multiplexers@[j]).0@,
            forall|i: int|
                0 <= i < old(self).multiplexers@.len()
                    ==> (#[trigger] old(self).multiplexers@[i]).1.wf(),
            forall|i: int|
                0 <= i < old(self).multiplexers@.len() ==> (old(self).has_pair_named(
                    (#[trigger] old(self).multiplexers@[i]).0@,
                ) || (#[trigger] old(self).multiplexers@[i]).0@ == name@),
            old(self).history.wf(),
            old(self).config.wf(),
            old(self).session_selector.wf(),
            old(self).worktree_cleanup_dialog.wf(),
        ensures
            final(self).wf(),
            !final(self).mux_named(name@),
            final(self).active == old(self).active,
            final(self).background == old(self).background,
            final(self).mode == old(self).mode,
            final(self).history == old(self).history,
            final(self).config == old(self).config,
            final(self).should_quit == old(self).should_quit,
            forall|k: int|
                0 <= k < panes@.len() ==> (#[trigger] panes@[k]).0.shutdown_requested,
            old(self).mux_named(name@) ==> panes_shut_down(
                panes@,
                old(self).mux_of(name@).panes@,
            ),
            !old(self).mux_named(name@) ==> *final(self) == *old(self) && panes@.len()
                == 0,
    {
        let ghost prior = *self;
        let mut panes: Vec<AttachedSession> = Vec::new();
        match self.find_mux(name) {
            None => {
                proof {
                    assert(self.wf()) by {
                        assert forall|i: int|
                            0 <= i < self.multiplexers@.len() implies self.has_pair_named(
                            (#[trigger] self.multiplexers@[i]).0@,
                        ) by {
                            if self.multiplexers@[i].0@ == name@ {
                                assert(self.mux_named(name@));
                            }
                        }
                    }
                }
                panes
            }
            Some(i) => {
                let pair = self.multiplexers.remove(i);
                let mut mux = pair.1;
                proof {
                    let fin = *self;
                    assert forall|a: int, b: int|
                        0 <= a < b < fin.multiplexers@.len() implies (
                    #[trigger] fin.multiplexers@[a]).0@ != (#[trigger] fin.multiplexers@[
                    b]).0@ by {
                        let sa: int = if a < i as int {
                            a
                        } else {
                            a + 1
                        };
                        let sb: int = if b < i as int {
                            b
                        } else {
                            b + 1
                        };
                        assert(fin.multiplexers@[a] == prior.multiplexers@[sa]);
                        assert(fin.multiplexers@[b] == prior.multiplexers@[sb]);
                    }
                    assert(!fin.mux_named(name@)) by {
                        if fin.mux_named(name@) {
                            let w = choose|w: int|
                                0 <= w < fin.multiplexers@.len() && (
                                #[trigger] fin.multiplexers@[w]).0@ == name@;
                            let sw: int = if w < i as int {
                                w
                            } else {
                                w + 1
                            };
                            assert(prior.multiplexers@[sw].0@ == name@);
                            assert(prior.multiplexers@[i as int].0@ == name@);
                            if sw < i as int {
                                assert(prior.multiplexers@[sw].0@ != prior.multiplexers@[
                                    i as int].0@);
                            } else {
                                assert(prior.multiplexers@[i as int].0@
                                    != prior.multiplexers@[sw].0@);
                            }
                            assert(false);
                        }
                    }
                    assert(fin.wf()) by {
                        assert forall|q: int|
                            0 <= q < fin.multiplexers@.len() implies fin.has_pair_named(
                            (#[trigger] fin.multiplexers@[q]).0@,
                        ) by {
                            let sq: int = if q < i as int {
                                q
                            } else {
                                q + 1
                            };
                            assert(fin.multiplexers@[q] == prior.multiplexers@[sq]);
                            if prior.multiplexers@[sq].0@ == name@ {
                                assert(prior.multiplexers@[sq].0@ != prior.multiplexers@[
                                    i as int].0@ || sq == i as int);
                                assert(false);
                            }
                            assert(prior.has_pair_named(prior.multiplexers@[sq].0@));
                            assert(forall|n2: Seq<char>|
                                #[trigger] fin.has_pair_named(n2) == prior.has_pair_named(
                                    n2,
                                ));
                        }
                    }
                }
                let ghost orig_panes = mux.panes@;
                proof {
                    prior.lemma_mux_index(name@, i as int);
                    assert(prior.mux_of(name@) == prior.multiplexers@[i as int].1);
                }
                while mux.panes.len() > 0
                    invariant
                        orig_panes.len() >= mux.panes@.len(),
                        mux.panes@ =~= orig_panes.skip(
                            orig_panes.len() - mux.panes@.len(),
                        ),
                        panes@.len() == orig_panes.len() - mux.panes@.len(),
                        forall|m: int|
                            0 <= m < panes@.len() ==> (#[trigger] panes@[m]).0
                                == orig_panes[m].0.after_shutdown(),
                    decreases mux.panes@.len(),
                {
                    let ghost done = panes@.len() as int;
                    let mut pane = mux.panes.remove(0);
                    proof {
                        assert(orig_panes.skip(done)[0] == orig_panes[done]);
                        assert(orig_panes.skip(done).remove(0) =~= orig_panes.skip(
                            done + 1,
                        ));
                    }
                    pane.0.shutdown();
                    panes.push(pane);
                }
                panes
            }
        }
    }

    /// Whether any pair carries this name, as the callers of
    /// `add_agent_session` must check.
    pub fn has_pair(&self, name: &str) -> (r: bool)
        ensures
            r == self.has_pair_named(name@),
    {
        match &self.active {
            Some(p) => {
                if str_eq(p.name.as_str(), name) {
                    return true;
                }
            }
            None => {}
        }
        let n = self.background.len();
        let mut i: usize = 0;
        while i < n
            invariant
                n == self.background@.len(),
                i <= n,
                forall|j: int|
                    0 <= j < i ==> (#[trigger] self.background@[j]).name@ != name@,
            decreases n - i,
        {
            if str_eq(self.background[i].name.as_str(), name) {
                return true;
            }
            i += 1;
        }
        proof {
            assert(!self.background_named(name@));
        }
        false
    }

    /// The arguments a resumed child is started with: the continue flag in
    /// front of the configured arguments.
    pub fn resume_args(config: &Config) -> (r: Vec<String>)
        ensures
            r@.len() == 1 + config.claude_args@.len(),
            r@[0]@ == "--continue"@,
            forall|i: int|
                0 <= i < config.claude_args@.len() ==> r@[i + 1]
                    == config.claude_args@[i],
    {
        let mut out: Vec<String> = Vec::new();
        out.push("--continue".to_owned());
        let n = config.claude_args.len();
        let mut i: usize = 0;
        while i < n
            invariant
                n == config.claude_args@.len(),
                i <= n,
                out@.len() == 1 + i,
                out@[0]@ == "--continue"@,
                forall|k: int| 0 <= k < i ==> out@[k + 1] == config.claude_args@[k],
            decreases n - i,
        {
            out.push(config.claude_args[i].clone());
            i += 1;
        }
        out
    }

    /// What a resume would start: the most recent session of this
    /// repository and the worktree path it would live at. The host checks
    /// the path still exists before spawning.
    pub fn resume_target(&self, repo_name: &str) -> (r: Option<(String, String)>)
        requires
            self.wf(),
        ensures
            match r {
                Some(t) => self.history.has_repo(repo_name@) && self.history.repo_list(
                    repo_name@,
                ).len() > 0 && t.0@ == self.history.repo_list(repo_name@)[0].name@ && t.1@
                    == self.config.workflows_path@ + seq!['/'] + repo_name@ + seq!['/']
                    + self.history.repo_list(repo_name@)[0].name@,
                None => !self.history.has_repo(repo_name@) || self.history.repo_list(
                    repo_name@,
                ).len() == 0,
            },
    {
        match self.history.get_recent_session(repo_name) {
            None => None,
            Some(entry) => {
                let name = entry.name.clone();
                let repo_dir = crate::paths::join_path(
                    self.config.workflows_path.as_str(),
                    repo_name,
                );
                let path = crate::paths::join_path(repo_dir.as_str(), name.as_str());
                proof {
                    assert(path@ =~= self.config.workflows_path@ + seq!['/'] + repo_name@
                        + seq!['/'] + self.history.repo_list(repo_name@)[0].name@);
                }
                Some((name, path))
            }
        }
    }

    /// Note a workflow failure: the message is shown and the new-session
    /// dialog returns so the user can retry.
    pub fn report_workflow_failure(&mut self, msg: StatusMessage)
        requires
            old(self).wf(),
        ensures
            final(self).wf(),
            final(self).mode == UiMode::NewSession,
            final(self).pending_status@ == old(self).pending_status@.push(msg),
            *final(self) == (TuiSessionManager {
                mode: UiMode::NewSession,
                pending_status: final(self).pending_status,
                ..*old(self)
            }),
    {
        self.push_status(msg);
        self.mode = UiMode::NewSession;
    }

    /// Keys typed into the new-session dialog. Enter yields the name to
    /// create — the typed name, or an automatic `agent-N` when blank — and
    /// the host then runs the workflow and spawns the child.
    pub fn handle_new_session_input(&mut self, bytes: &[u8]) -> (r: Option<String>)
        requires
            old(self).wf(),
        ensures
            final(self).wf(),
            bytes@.len() == 0 ==> *final(self) == *old(self) && r is None,
            bytes@ == seq![0x1bu8] ==> final(self).mode == UiMode::Normal && final(self).create_dialog.input@.len() == 0 && r is None,
            bytes@.len() > 0 && (bytes@[0] == 13 || bytes@[0] == 10) ==> {
                &&& final(self).mode == UiMode::Normal
                &&& final(self).create_dialog.input@.len() == 0
                &&& r is Some
                &&& (crate::util::trim_spec(old(self).create_dialog.input@).len() > 0
                    ==> r->0@ == crate::util::trim_spec(old(self).create_dialog.input@))
                &&& (crate::util::trim_spec(old(self).create_dialog.input@).len() == 0
                    ==> r->0@ == "agent-"@ + crate::util::dec_digits(
                    final(self).session_counter as nat,
                ))
            },
            final(self).active == old(self).active,
            final(self).background == old(self).background,
            final(self).multiplexers == old(self).multiplexers,
            final(self).history == old(self).history,
    {
        if bytes.len() == 0 {
            return None;
        }
        let b = bytes[0];
        if b == 0x1b && bytes.len() == 1 {
            self.create_dialog.clear();
            self.mode = UiMode::Normal;
            return None;
        }
        if b == 13 || b == 10 {
            let input = self.create_dialog.take_input();
            let trimmed = crate::util::trim_str(input.as_str());
            let name: String;
            if trimmed.as_str().unicode_len() == 0 {
                if self.session_counter < usize::MAX {
                    self.session_counter = self.session_counter + 1;
                }
                let counter_text = crate::util::usize_to_string(self.session_counter);
                name = "agent-".to_owned().concat(counter_text.as_str());
            } else {
                name = trimmed;
            }
            self.mode = UiMode::Normal;
            return Some(name);
        }
        if b == 0x7f {
            let _ = self.create_dialog.pop();
            return None;
        }
        if (33 <= b && b <= 126) || b == 32 {
            self.create_dialog.push(b as char);
            return None;
        }
        None
    }

    /// One tick's reaping: dead shell panes go first; then, when the shown
    /// agent session has died, it is removed with its multiplexer, and a
    /// session that had been resumed is asked to restart fresh.
    pub fn check_dead_sessions(&mut self) -> (r: ReapResult)
        requires
            old(self).wf(),
        ensures
            final(self).wf(),
            final(self).background == old(self).background,
            final(self).history == old(self).history,
            final(self).config == old(self).config,
            final(self).should_quit == old(self).should_quit,
            match old(self).active {
                None => r.restart is None && r.dead_claude is None,
                Some(p) => {
                    &&& (p.view == SessionView::Claude && p.claude.0.is_dead_spec() ==> {
                        &&& final(self).active is None
                        &&& r.dead_claude is Some
                        &&& (r.dead_claude->0).0.shutdown_requested
                        &&& !final(self).mux_named(p.name@)
                        &&& (p.resumed ==> r.restart is Some && (r.restart->0).0@ == p.name@
                            && (r.restart->0).1@ == p.path@)
                        &&& (!p.resumed ==> r.restart is None)
                    })
                    &&& (!p.claude.0.is_dead_spec() ==> r.restart is None && r.dead_claude
                        is None && final(self).active is Some)
                },
            },
            forall|k: int|
                0 <= k < r.closed_panes@.len() ==> (
                #[trigger] r.closed_panes@[k]).0.shutdown_requested,
            match old(self).active {
                Some(p) => {
                    &&& (p.view == SessionView::Shell && old(self).mux_named(p.name@)
                        ==> r.dead_panes@ == crate::multiplexer::dead_of(
                        old(self).mux_of(p.name@).panes@,
                    ))
                    &&& (!(p.view == SessionView::Shell && old(self).mux_named(p.name@))
                        ==> r.dead_panes@.len() == 0)
                },
                None => r.dead_panes@.len() == 0,
            },
    {
        let ghost prior = *self;
        let dead_panes = self.cleanup_dead_multiplexer_panes();
        let ghost mid = *self;

        let dead_info: Option<(String, String, bool)> = match &self.active {
            Some(p) => {
                if p.view == SessionView::Claude && p.claude.0.is_dead() {
                    Some((p.name.clone(), p.path.clone(), p.resumed))
                } else {
                    None
                }
            }
            None => None,
        };
        match dead_info {
            None => {
                ReapResult {
                    dead_panes,
                    closed_panes: Vec::new(),
                    dead_claude: None,
                    restart: None,
                }
            }
            Some((name, path, was_resumed)) => {
                let err_text = match &self.active {
                    Some(p) => match p.claude.0.get_error() {
                        Some(e) => e,
                        None => "Process exited".to_owned(),
                    },
                    None => String::new(),
                };
                self.push_status(
                    StatusMessage::err("Session died".to_owned(), err_text),
                );
                let mut taken: Option<ActivePair> = None;
                core::mem::swap(&mut self.active, &mut taken);
                let mut dead_claude: Option<AttachedSession> = None;
                match taken {
                    Some(pair) => {
                        let mut session = pair.claude;
                        session.0.shutdown();
                        dead_claude = Some(session);
                    }
                    None => {}
                }
                proof {
                    assert forall|n2: Seq<char>|
                        mid.has_pair_named(n2) implies #[trigger] self.has_pair_named(n2)
                        || n2 == name@ by {
                        if mid.background_named(n2) {
                            assert(self.background_named(n2));
                        }
                    }
                }
                let closed_panes = self.remove_mux_and_shutdown(name.as_str());
                if self.mode == UiMode::ListSessions {
                    self.mode = UiMode::Normal;
                }
                let restart: Option<(String, String)> = if was_resumed {
                    Some((name, path))
                } else {
                    None
                };
                ReapResult { dead_panes, closed_panes, dead_claude, restart }
            }
        }
    }

    /// Install the fresh session that replaced a dead resumed one, and say
    /// so. The host spawned it without the continue flag.
    pub fn complete_restart(&mut self, name: String, path: String, session: AttachedSession)
        requires
            old(self).wf(),
            !old(self).has_pair_named(name@),
            session.0.active,
            session.0.wf(),
        ensures
            final(self).wf(),
            final(self).active is Some,
            final(self).active->0.name == name,
            final(self).active->0.path == path,
            final(self).active->0.resumed == false,
            final(self).pending_status@.len() == old(self).pending_status@.len() + 1,
            final(self).pending_status@.last().display_message@ == "Session restarted"@,
    {
        self.add_claude_session(name, path, session, false);
        self.push_status(
            StatusMessage::info(
                "Session restarted".to_owned(),
                "Started a fresh session in the same directory".to_owned(),
            ),
        );
    }

    /// Any key closes the help overlay.
    pub fn handle_help_input(&mut self, bytes: &[u8])
        requires
            old(self).wf(),
        ensures
            final(self).wf(),
            bytes@.len() > 0 ==> *final(self) == (TuiSessionManager {
                mode: UiMode::Normal,
                ..*old(self)
            }),
            bytes@.len() == 0 ==> *final(self) == *old(self),
    {
        if bytes.len() > 0 {
            self.mode = UiMode::Normal;
        }
    }

    /// Build the selector's list: live sessions first (active, then
    /// background, indices stable), then recent sessions of this repository
    /// that are not live, then worktree directories not already listed.
    /// Returns the list with the live and recent counts. Worktree entries
    /// carry an empty name.
    pub fn build_session_list(
        &self,
        repo_name: Option<&String>,
        worktree_dirs: &Vec<String>,
        home: &str,
    ) -> (r: (Vec<(String, String)>, usize, usize))
        requires
            self.wf(),
        ensures
            r.1 == (match self.active {
                Some(p) => 1int,
                None => 0int,
            }) + self.background@.len(),
            r.1 + r.2 <= r.0@.len(),
            match self.active {
                Some(p) => r.0@.len() > 0 && r.0@[0].0@ == p.name@ && r.0@[0].1@
                    == crate::paths::display_of(p.path@, home@) && forall|i: int|
                    0 <= i < self.background@.len() ==> (#[trigger] r.0@[i + 1]).0@
                        == self.background@[i].name@ && r.0@[i + 1].1@
                        == crate::paths::display_of(self.background@[i].path@, home@),
                None => forall|i: int|
                    0 <= i < self.background@.len() ==> (#[trigger] r.0@[i]).0@
                        == self.background@[i].name@ && r.0@[i].1@
                        == crate::paths::display_of(self.background@[i].path@, home@),
            },
            forall|k: int| r.1 + r.2 <= k < r.0@.len() ==> (#[trigger] r.0@[k]).0@.len() == 0,
            (match repo_name {
                Some(repo) => ({
                    let rr = recent_rows(
                        self.history.list_or_empty(repo@),
                        self.config.workflows_path@,
                        repo@,
                        self.live_paths_of(),
                        home@,
                    );
                    let wr = worktree_rows(
                        worktree_dirs@,
                        self.live_paths_of(),
                        self.hist_wt_paths(repo@),
                        home@,
                    );
                    &&& r.2 == rr.len()
                    &&& (forall|k: int|
                        0 <= k < rr.len() ==> ((#[trigger] r.0@[r.1 + k]).0@ == rr[k].0
                            && r.0@[r.1 + k].1@ == rr[k].1))
                    &&& r.0@.len() == r.1 + r.2 + wr.len()
                    &&& (forall|k: int|
                        0 <= k < wr.len() ==> (#[trigger] r.0@[r.1 + r.2 + k]).1@
                            == wr[k])
                }),
                None => ({
                    let wr = worktree_rows(
                        worktree_dirs@,
                        self.live_paths_of(),
                        Seq::<Seq<char>>::empty(),
                        home@,
                    );
                    &&& r.2 == 0
                    &&& r.0@.len() == r.1 + wr.len()
                    &&& (forall|k: int|
                        0 <= k < wr.len() ==> (#[trigger] r.0@[r.1 + k]).1@ == wr[k])
                }),
            }),
    {
        let mut list: Vec<(String, String)> = Vec::new();
        let mut live_paths: Vec<String> = Vec::new();
        match &self.active {
            Some(p) => {
                list.push((p.name.clone(), crate::paths::path_to_display(p.path.as_str(), home)));
                live_paths.push(p.path.clone());
            }
            None => {}
        }
        let ghost base = list@.len();
        let n = self.background.len();
        let mut i: usize = 0;
        while i < n
            invariant
                n == self.background@.len(),
                i <= n,
                list@.len() == base + i,
                base == (match self.active {
                    Some(p) => 1int,
                    None => 0int,
                }),
                match self.active {
                    Some(p) => base == 1 && list@[0].0@ == p.name@ && list@[0].1@
                        == crate::paths::display_of(p.path@, home@),
                    None => true,
                },
                forall|k: int|
                    0 <= k < i ==> (#[trigger] list@[base + k]).0@
                        == self.background@[k].name@ && list@[base + k].1@
                        == crate::paths::display_of(self.background@[k].path@, home@),
                live_paths@.len() == list@.len(),
                match self.active {
                    Some(p) => live_paths@[0] == p.path,
                    None => true,
                },
                forall|k: int|
                    0 <= k < i ==> #[trigger] live_paths@[base + k]
                        == self.background@[k].path,
            decreases n - i,
        {
            let p = &self.background[i];
            list.push((p.name.clone(), crate::paths::path_to_display(p.path.as_str(), home)));
            live_paths.push(p.path.clone());
            i += 1;
        }
        let live_count = list.len();
        let ghost live_snap = list@;
        proof {
            let lp = self.live_paths_of();
            let bgp = self.background@.map_values(|b: BackgroundPair| b.path);
            assert(lp.len() == base + self.background@.len());
            assert forall|k: int| 0 <= k < live_paths@.len() implies live_paths@[k]
                == lp[k] by {
                match self.active {
                    Some(p) => {
                        assert(base == 1);
                        if k == 0 {
                            assert(lp[0] == p.path);
                        } else {
                            assert(lp[k] == bgp[k - 1]);
                            assert(bgp[k - 1] == self.background@[k - 1].path);
                            assert(live_paths@[base + (k - 1)] == self.background@[k
                                - 1].path);
                        }
                    }
                    None => {
                        assert(base == 0);
                        assert(lp[k] == bgp[k]);
                        assert(bgp[k] == self.background@[k].path);
                        assert(live_paths@[base + k] == self.background@[k].path);
                    }
                }
            }
            assert(live_paths@ =~= self.live_paths_of());
        }
        proof {
            match &self.active {
                Some(p) => {
                    assert(live_snap[0].0@ == p.name@ && live_snap[0].1@
                        == crate::paths::display_of(p.path@, home@));
                    assert forall|k: int|
                        0 <= k < self.background@.len() implies (
                    #[trigger] live_snap[k + 1]).0@ == self.background@[k].name@ && live_snap[
                        k + 1].1@ == crate::paths::display_of(
                        self.background@[k].path@,
                        home@,
                    ) by {
                        assert(list@[base + k].0@ == self.background@[k].name@);
                        assert(list@[base + k].1@ == crate::paths::display_of(
                            self.background@[k].path@,
                            home@,
                        ));
                    }
                }
                None => {
                    assert forall|k: int|
                        0 <= k < self.background@.len() implies (#[trigger] live_snap[k]).0@
                        == self.background@[k].name@ && live_snap[k].1@
                        == crate::paths::display_of(self.background@[k].path@, home@) by {
                        assert(list@[base + k].0@ == self.background@[k].name@);
                        assert(list@[base + k].1@ == crate::paths::display_of(
                            self.background@[k].path@,
                            home@,
                        ));
                    }
                }
            }
        }

        let mut recent_paths: Vec<String> = Vec::new();
        let ghost live_spec = self.live_paths_of();
        match repo_name {
            Some(repo) => {
                let ghost hist = self.history.list_or_empty(repo@);
                let entries = self.history.get_recent_sessions(repo.as_str());
                let en = entries.len();
                let mut j: usize = 0;
                proof {
                    assert(recent_rows(
                        hist.take(0),
                        self.config.workflows_path@,
                        repo@,
                        live_spec,
                        home@,
                    ) =~= Seq::<(Seq<char>, Seq<char>)>::empty());
                }
                while j < en
                    invariant
                        en == entries@.len(),
                        entries@ == hist,
                        hist == self.history.list_or_empty(repo@),
                        live_spec == self.live_paths_of(),
                        live_paths@ == live_spec,
                        j <= en,
                        live_count == live_snap.len(),
                        forall|k: int|
                            0 <= k < live_count ==> #[trigger] list@[k] == live_snap[k],
                        live_section_ok(*self, live_snap, home@),
                        list@.len() == live_count + recent_rows(
                            hist.take(j as int),
                            self.config.workflows_path@,
                            repo@,
                            live_spec,
                            home@,
                        ).len(),
                        forall|k: int|
                            live_count <= k < list@.len() ==> ((#[trigger] list@[k]).0@
                                == recent_rows(
                                hist.take(j as int),
                                self.config.workflows_path@,
                                repo@,
                                live_spec,
                                home@,
                            )[k - live_count].0 && list@[k].1@ == recent_rows(
                                hist.take(j as int),
                                self.config.workflows_path@,
                                repo@,
                                live_spec,
                                home@,
                            )[k - live_count].1),
                        recent_paths@.len() == j,
                        forall|k: int|
                            0 <= k < j ==> (#[trigger] recent_paths@[k])@ == wt_path_of(
                                self.config.workflows_path@,
                                repo@,
                                hist[k].name@,
                            ),
                    decreases en - j,
                {
                    let ghost before = list@;
                    let ghost t1 = hist.take(j + 1);
                    proof {
                        assert(t1.drop_last() =~= hist.take(j as int));
                        assert(t1.last() == hist[j as int]);
                    }
                    let e = &entries[j];
                    let repo_dir = crate::paths::join_path(
                        self.config.workflows_path.as_str(),
                        repo.as_str(),
                    );
                    let wt_path = crate::paths::join_path(repo_dir.as_str(), e.name.as_str());
                    proof {
                        assert(wt_path@ =~= wt_path_of(
                            self.config.workflows_path@,
                            repo@,
                            hist[j as int].name@,
                        ));
                    }
                    recent_paths.push(wt_path.clone());
                    if !crate::util::string_vec_contains(&live_paths, wt_path.as_str()) {
                        let disp = crate::paths::path_to_display(wt_path.as_str(), home);
                        list.push((e.name.clone(), disp));
                    }
                    proof {
                        assert(forall|k: int|
                            0 <= k < before.len() ==> #[trigger] list@[k] == before[k]);
                    }
                    j += 1;
                }
                proof {
                    assert(hist.take(en as int) =~= hist);
                }
            }
            None => {}
        }
        let recent_count = list.len() - live_count;

        let wn = worktree_dirs.len();
        let mut w: usize = 0;
        let ghost mid_len = list@.len();
        let ghost mid_snap = list@;
        let ghost hpaths: Seq<Seq<char>> = match repo_name {
            Some(repo) => self.hist_wt_paths(repo@),
            None => Seq::<Seq<char>>::empty(),
        };
        proof {
            assert(recent_paths@.len() == hpaths.len());
            assert(forall|k: int|
                0 <= k < hpaths.len() ==> (#[trigger] recent_paths@[k])@ == hpaths[k]);
            assert(worktree_rows(worktree_dirs@.take(0), live_spec, hpaths, home@)
                =~= Seq::<Seq<char>>::empty());
        }
        while w < wn
            invariant
                wn == worktree_dirs@.len(),
                w <= wn,
                live_count == live_snap.len(),
                mid_len == live_count + recent_count,
                mid_len <= list@.len(),
                live_spec == self.live_paths_of(),
                live_paths@ == live_spec,
                recent_paths@.len() == hpaths.len(),
                forall|k: int|
                    0 <= k < hpaths.len() ==> (#[trigger] recent_paths@[k])@ == hpaths[k],
                forall|k: int|
                    0 <= k < mid_len ==> #[trigger] list@[k] == mid_snap[k],
                list@.len() == mid_len + worktree_rows(
                    worktree_dirs@.take(w as int),
                    live_spec,
                    hpaths,
                    home@,
                ).len(),
                forall|k: int|
                    mid_len <= k < list@.len() ==> ((#[trigger] list@[k]).0@.len() == 0
                        && list@[k].1@ == worktree_rows(
                        worktree_dirs@.take(w as int),
                        live_spec,
                        hpaths,
                        home@,
                    )[k - mid_len]),
            decreases wn - w,
        {
            let ghost before = list@;
            let ghost t1 = worktree_dirs@.take(w + 1);
            proof {
                assert(t1.drop_last() =~= worktree_dirs@.take(w as int));
                assert(t1.last() == worktree_dirs@[w as int]);
            }
            let d = &worktree_dirs[w];
            let in_live = crate::util::string_vec_contains(&live_paths, d.as_str());
            let in_recent = crate::util::string_vec_contains(&recent_paths, d.as_str());
            proof {
                assert(in_recent == path_listed(hpaths, d@)) by {
                    if crate::util::holds_string(recent_paths@, d@) {
                        let k = choose|k: int|
                            0 <= k < recent_paths@.len()
                                && (#[trigger] recent_paths@[k])@ == d@;
                        assert(hpaths[k] == d@);
                    }
                    if path_listed(hpaths, d@) {
                        let k = choose|k: int|
                            0 <= k < hpaths.len() && #[trigger] hpaths[k] == d@;
                        assert((recent_paths@[k])@ == d@);
                        assert(crate::util::holds_string(recent_paths@, d@));
                    }
                }
            }
            if !in_live && !in_recent {
                let disp = crate::paths::path_to_display(d.as_str(), home);
                list.push((String::new(), disp));
            }
            proof {
                assert(forall|k: int|
                    0 <= k < before.len() ==> #[trigger] list@[k] == before[k]);
            }
            w += 1;
        }
        proof {
            assert(worktree_dirs@.take(wn as int) =~= worktree_dirs@);
            assert(forall|k: int|
                0 <= k < live_count ==> #[trigger] list@[k] == live_snap[k]);
        }
        proof {
            match &self.active {
                Some(p) => {
                    assert(list@[0] == live_snap[0]);
                    assert forall|k: int|
                        0 <= k < self.background@.len() implies (#[trigger] list@[k + 1]).0@
                        == self.background@[k].name@ && list@[k + 1].1@
                        == crate::paths::display_of(self.background@[k].path@, home@) by {
                        assert(list@[k + 1] == live_snap[k + 1]);
                        assert(live_snap[k + 1].0@ == self.background@[k].name@);
                    }
                }
                None => {
                    assert forall|k: int|
                        0 <= k < self.background@.len() implies (#[trigger] list@[k]).0@
                        == self.background@[k].name@ && list@[k].1@
                        == crate::paths::display_of(self.background@[k].path@, home@) by {
                        assert(list@[k] == live_snap[k]);
                        assert(live_snap[k].0@ == self.background@[k].name@);
                    }
                }
            }
        }
        (list, live_count, recent_count)
    }

    /// Open the selector over the current sessions, remembering the active
    /// one for revert; the filter starts empty and the cursor on the first
    /// row.
    pub fn open_session_selector(
        &mut self,
        repo_name: Option<&String>,
        worktree_dirs: &Vec<String>,
        home: &str,
    )
        requires
            old(self).wf(),
        ensures
            final(self).wf(),
            final(self).mode == UiMode::ListSessions,
            final(self).active == old(self).active,
            final(self).background == old(self).background,
            final(self).multiplexers == old(self).multiplexers,
            final(self).history == old(self).history,
            final(self).config == old(self).config,
            match old(self).active {
                Some(p) => final(self).selector_original_session is Some && final(self).selector_original_session->0@ == p.name@,
                None => final(self).selector_original_session is None,
            },
            final(self).selector_live_count == (match old(self).active {
                Some(p) => 1int,
                None => 0int,
            }) + old(self).background@.len(),
            final(self).session_selector.query@.len() == 0,
            final(self).session_selector.filtered_indices@.len() == final(self).selector_sessions@.len(),
            forall|k: int|
                0 <= k < final(self).selector_sessions@.len() ==> #[trigger] final(self).session_selector.filtered_indices@[k] == k,
            final(self).selector_sessions@.len() > 0 ==> final(self).session_selector.selected
                == Some(0usize),
            final(self).selector_sessions@.len() == 0 ==> final(self).session_selector.selected
                is None,
            match old(self).active {
                Some(p) => final(self).selector_sessions@.len() > 0 && final(self).selector_sessions@[0].0@ == p.name@ && forall|i: int|
                    0 <= i < old(self).background@.len()
                        ==> (#[trigger] final(self).selector_sessions@[i + 1]).0@
                        == old(self).background@[i].name@,
                None => forall|i: int|
                    0 <= i < old(self).background@.len()
                        ==> (#[trigger] final(self).selector_sessions@[i]).0@
                        == old(self).background@[i].name@,
            },
    {
        self.session_selector.reset();
        let original = match &self.active {
            Some(p) => Some(p.name.clone()),
            None => None,
        };
        self.selector_original_session = original;
        let has_active = match &self.active {
            Some(_) => true,
            None => false,
        };
        let built = self.build_session_list(repo_name, worktree_dirs, home);
        let sessions = built.0;
        let live_count = built.1;
        let recent_count = built.2;
        self.selector_sessions = sessions;
        self.selector_live_count = live_count;
        self.selector_recent_count = recent_count;
        let mut sel = SessionSelector::new();
        core::mem::swap(&mut self.session_selector, &mut sel);
        sel.set_counts(live_count, recent_count);
        if has_active {
            sel.set_active_index(Some(0));
        }
        sel.update_filter(&self.selector_sessions);
        core::mem::swap(&mut self.session_selector, &mut sel);
        self.mode = UiMode::ListSessions;
        proof {
            assert(self.session_selector.wf());
            assert forall|q: int|
                0 <= q < self.multiplexers@.len() implies self.has_pair_named(
                (#[trigger] self.multiplexers@[q]).0@,
            ) by {
                assert(old(self).has_pair_named(old(self).multiplexers@[q].0@));
                assert(forall|n2: Seq<char>|
                    #[trigger] self.has_pair_named(n2) == old(self).has_pair_named(n2));
            }
        }
    }

    /// Bring the selected live session forward without closing the
    /// selector; recent and worktree rows are not previewed.
    fn preview_selected_session(&mut self)
        requires
            old(self).wf(),
        ensures
            final(self).wf(),
            final(self).mode == old(self).mode,
            final(self).selector_sessions == old(self).selector_sessions,
            final(self).selector_original_session == old(self).selector_original_session,
            final(self).session_selector == old(self).session_selector,
            forall|n2: Seq<char>|
                #[trigger] final(self).has_pair_named(n2) == old(self).has_pair_named(n2),
            match old(self).session_selector.selected {
                None => final(self).active == old(self).active && final(self).background
                    == old(self).background,
                Some(c) => {
                    let row = old(self).session_selector.filtered_indices@[c as int] as int;
                    &&& (old(self).session_selector.kind_of(row)
                        != crate::selector::SelectorItemKind::Live ==> final(self).active
                        == old(self).active && final(self).background == old(self).background)
                    &&& (old(self).session_selector.kind_of(row)
                        == crate::selector::SelectorItemKind::Live && row < old(self).selector_sessions@.len() && old(self).has_pair_named(
                        old(self).selector_sessions@[row].0@,
                    ) ==> final(self).active_named(old(self).selector_sessions@[row].0@))
                    &&& (old(self).session_selector.kind_of(row)
                        == crate::selector::SelectorItemKind::Live && !(row < old(self).selector_sessions@.len() && old(self).has_pair_named(
                        old(self).selector_sessions@[row].0@,
                    )) ==> final(self).active == old(self).active && final(self).background == old(self).background)
                },
            },
    {
        let kind = self.session_selector.selected_kind();
        match kind {
            Some(k) => {
                if k != crate::selector::SelectorItemKind::Live {
                    return;
                }
            }
            None => {
                return;
            }
        }
        let idx = match self.session_selector.selected_original_index() {
            Some(i) => i,
            None => {
                return;
            }
        };
        if idx < self.selector_sessions.len() {
            let name = self.selector_sessions[idx].0.clone();
            let _ = self.switch_to_session_by_name(name.as_str());
        }
    }

    /// Keys typed while the selector is open: Escape reverts to the
    /// original session and closes; arrows move and preview; Enter keeps a
    /// live selection, or asks the host to resume a recent session or start
    /// one in a worktree directory; other keys edit the filter.
    pub fn handle_list_input(&mut self, bytes: &[u8]) -> (r: SelectorAction)
        requires
            old(self).wf(),
        ensures
            final(self).wf(),
            bytes@.len() == 0 ==> *final(self) == *old(self) && r is Stay,
            bytes@ == seq![0x1bu8] ==> {
                &&& final(self).mode == UiMode::Normal
                &&& r is Stay
                &&& (match old(self).selector_original_session {
                    Some(o) => {
                        &&& (old(self).has_pair_named(o@) ==> final(self).active_named(
                            o@,
                        ))
                        &&& (old(self).active_named(o@) || !old(self).has_pair_named(o@)
                            ==> final(self).active == old(self).active && final(self).background == old(self).background)
                        &&& (!old(self).active_named(o@) && old(self).background_named(o@)
                            ==> exists|i: int|
                            {
                                &&& 0 <= i < old(self).background@.len()
                                &&& (#[trigger] old(self).background@[i]).name@ == o@
                                &&& final(self).active == Some(
                                    attached_of(old(self).background@[i]),
                                )
                                &&& final(self).background@ == (match old(self).active {
                                    Some(p) => old(self).background@.remove(i).push(
                                        detached_of(p),
                                    ),
                                    None => old(self).background@.remove(i),
                                })
                            })
                    },
                    None => final(self).active == old(self).active && final(self).background == old(self).background,
                })
            },
            bytes@.len() >= 3 && bytes@[0] == 0x1b && bytes@[1] == 91 && (bytes@[2] == 65
                || bytes@[2] == 66) ==> {
                let sel = old(self).session_selector;
                let moved: Option<usize> = if sel.filtered_indices@.len() == 0 {
                    sel.selected
                } else if bytes@[2] == 65 {
                    Some(
                        (if sel.selected->0 == 0 {
                            (sel.filtered_indices@.len() - 1) as usize
                        } else {
                            ((sel.selected->0) - 1) as usize
                        }),
                    )
                } else {
                    Some(
                        (if sel.selected->0 + 1 >= sel.filtered_indices@.len() {
                            0usize
                        } else {
                            ((sel.selected->0) + 1) as usize
                        }),
                    )
                };
                &&& r is Stay
                &&& final(self).mode == old(self).mode
                &&& final(self).session_selector.selected == moved
                &&& final(self).session_selector.filtered_indices == sel.filtered_indices
                &&& final(self).session_selector.query == sel.query
                &&& final(self).selector_sessions == old(self).selector_sessions
                &&& (sel.filtered_indices@.len() == 0 ==> final(self).active == old(self).active)
                &&& (match moved {
                    Some(m) => {
                        let row = sel.filtered_indices@[m as int] as int;
                        &&& (sel.kind_of(row) == crate::selector::SelectorItemKind::Live
                            && row < old(self).selector_sessions@.len() && old(self).has_pair_named(old(self).selector_sessions@[row].0@) ==> final(self).active_named(old(self).selector_sessions@[row].0@))
                        &&& (sel.kind_of(row)
                            != crate::selector::SelectorItemKind::Live ==> final(self).active == old(self).active)
                    },
                    None => final(self).active == old(self).active,
                })
            },
            bytes@.len() > 0 && (bytes@[0] == 13 || bytes@[0] == 10) ==> {
                let sel = old(self).session_selector;
                &&& final(self).mode == UiMode::Normal
                &&& final(self).active == old(self).active
                &&& final(self).background == old(self).background
                &&& (match sel.selected {
                    None => r is Stay,
                    Some(c) => {
                        let row = sel.filtered_indices@[c as int] as int;
                        &&& (row >= old(self).selector_sessions@.len() ==> r is Stay)
                        &&& (row < old(self).selector_sessions@.len() ==> {
                            &&& (sel.kind_of(row)
                                == crate::selector::SelectorItemKind::Live ==> r is Stay)
                            &&& (sel.kind_of(row)
                                == crate::selector::SelectorItemKind::Recent ==> (
                            match r {
                                SelectorAction::Resume { name, path_display } => name@
                                    == old(self).selector_sessions@[row].0@
                                    && path_display@ == old(self).selector_sessions@[row].1@,
                                _ => false,
                            }))
                            &&& (sel.kind_of(row)
                                == crate::selector::SelectorItemKind::Worktree ==> (
                            match r {
                                SelectorAction::StartWorktree { path_display } => path_display@
                                    == old(self).selector_sessions@[row].1@,
                                _ => false,
                            }))
                        })
                    },
                })
            },
            bytes@.len() == 1 && bytes@[0] == 0x7f ==> {
                let sel = old(self).session_selector;
                &&& final(self).session_selector.query@ == (if sel.query@.len() == 0 {
                    sel.query@
                } else {
                    sel.query@.drop_last()
                })
                &&& final(self).session_selector.filtered_indices@
                    == crate::selector::matching_indices(
                    old(self).selector_sessions@,
                    crate::util::lower_of(final(self).session_selector.query@),
                )
                &&& final(self).selector_sessions == old(self).selector_sessions
            },
            bytes@.len() == 1 && ((33 <= bytes@[0] && bytes@[0] <= 126) || bytes@[0]
                == 32) ==> {
                let sel = old(self).session_selector;
                &&& final(self).session_selector.query@ == sel.query@.push(
                    bytes@[0] as char,
                )
                &&& final(self).session_selector.filtered_indices@
                    == crate::selector::matching_indices(
                    old(self).selector_sessions@,
                    crate::util::lower_of(final(self).session_selector.query@),
                )
                &&& final(self).selector_sessions == old(self).selector_sessions
            },
            forall|n2: Seq<char>|
                #[trigger] final(self).has_pair_named(n2) == old(self).has_pair_named(n2),
            match r {
                SelectorAction::Resume { name, path_display } => old(self).session_selector.selected is Some,
                _ => true,
            },
    {
        if bytes.len() == 0 {
            return SelectorAction::Stay;
        }
        let b = bytes[0];
        if b == 0x1b {
            if bytes.len() == 1 {
                let original = match &self.selector_original_session {
                    Some(o) => Some(o.clone()),
                    None => None,
                };
                match original {
                    Some(o) => {
                        let _ = self.switch_to_session_by_name(o.as_str());
                    }
                    None => {}
                }
                let ghost mid = *self;
                self.mode = UiMode::Normal;
                proof {
                    lemma_same_pairs(*self, mid);
                }
                return SelectorAction::Stay;
            }
            if bytes.len() >= 3 && bytes[1] == 91 {
                let ghost pre = *self;
                let c = bytes[2];
                if c == 65 {
                    self.session_selector.move_up();
                    proof {
                        lemma_same_pairs(*self, pre);
                    }
                    self.preview_selected_session();
                } else if c == 66 {
                    self.session_selector.move_down();
                    proof {
                        lemma_same_pairs(*self, pre);
                    }
                    self.preview_selected_session();
                }
            }
            return SelectorAction::Stay;
        }
        if b == 13 || b == 10 {
            let kind = self.session_selector.selected_kind();
            let idx = self.session_selector.selected_original_index();
            let mut r = SelectorAction::Stay;
            match (kind, idx) {
                (Some(k), Some(sel)) => {
                    if sel < self.selector_sessions.len() {
                        if k == crate::selector::SelectorItemKind::Recent {
                            let entry = &self.selector_sessions[sel];
                            r = SelectorAction::Resume {
                                name: entry.0.clone(),
                                path_display: entry.1.clone(),
                            };
                        } else if k == crate::selector::SelectorItemKind::Worktree {
                            let entry = &self.selector_sessions[sel];
                            r = SelectorAction::StartWorktree {
                                path_display: entry.1.clone(),
                            };
                        }
                    }
                }
                _ => {}
            }
            self.mode = UiMode::Normal;
            proof {
                lemma_same_pairs(*self, *old(self));
            }
            return r;
        }
        if b == 0x7f {
            let ghost pre = *self;
            self.session_selector.pop_char();
            let mut sel = SessionSelector::new();
            core::mem::swap(&mut self.session_selector, &mut sel);
            sel.update_filter(&self.selector_sessions);
            core::mem::swap(&mut self.session_selector, &mut sel);
            proof {
                lemma_same_pairs(*self, pre);
            }
            self.preview_selected_session();
            return SelectorAction::Stay;
        }
        if (33 <= b && b <= 126) || b == 32 {
            let ghost pre = *self;
            self.session_selector.push_char(b as char);
            let mut sel = SessionSelector::new();
            core::mem::swap(&mut self.session_selector, &mut sel);
            sel.update_filter(&self.selector_sessions);
            core::mem::swap(&mut self.session_selector, &mut sel);
            proof {
                lemma_same_pairs(*self, pre);
            }
            self.preview_selected_session();
        }
        SelectorAction::Stay
    }

    /// Open the worktree cleanup dialog over the given directories; paths
    /// of live sessions are marked.
    pub fn open_worktree_cleanup(&mut self, worktrees: Vec<String>)
        requires
            old(self).wf(),
        ensures
            final(self).wf(),
            final(self).mode == UiMode::WorktreeCleanup,
            final(self).active == old(self).active,
            final(self).background == old(self).background,
            final(self).multiplexers == old(self).multiplexers,
            final(self).history == old(self).history,
            final(self).worktree_cleanup_dialog.worktrees == worktrees,
            final(self).worktree_cleanup_dialog.selected@.len() == 0,
            final(self).worktree_cleanup_dialog.active_paths@.len() == (match old(self).active {
                Some(p) => 1int,
                None => 0int,
            }) + old(self).background@.len(),
            match old(self).active {
                Some(p) => final(self).worktree_cleanup_dialog.active_paths@[0] == p.path
                    && forall|i: int|
                    0 <= i < old(self).background@.len() ==> final(self).worktree_cleanup_dialog.active_paths@[i + 1]
                        == (#[trigger] old(self).background@[i]).path,
                None => forall|i: int|
                    0 <= i < old(self).background@.len() ==> final(self).worktree_cleanup_dialog.active_paths@[i]
                        == (#[trigger] old(self).background@[i]).path,
            },
    {
        let active_paths = self.get_active_session_paths();
        let mut dialog = WorktreeCleanupDialog::new();
        core::mem::swap(&mut self.worktree_cleanup_dialog, &mut dialog);
        dialog.reset();
        dialog.set_worktrees_with_active(worktrees, active_paths);
        core::mem::swap(&mut self.worktree_cleanup_dialog, &mut dialog);
        self.mode = UiMode::WorktreeCleanup;
        proof {
            lemma_same_pairs(*self, *old(self));
            assert forall|q: int|
                0 <= q < self.multiplexers@.len() implies self.has_pair_named(
                (#[trigger] self.multiplexers@[q]).0@,
            ) by {
                assert(old(self).has_pair_named(old(self).multiplexers@[q].0@));
            }
        }
    }

    /// Keys typed in the cleanup dialog: Escape closes, arrows move, Enter
    /// toggles the checkbox, `d` opens the delete confirmation over the
    /// checked worktrees (or the one under the cursor), and other keys edit
    /// the filter.
    pub fn handle_worktree_cleanup_input(&mut self, bytes: &[u8])
        requires
            old(self).wf(),
        ensures
            final(self).wf(),
            bytes@.len() == 0 ==> *final(self) == *old(self),
            bytes@ == seq![0x1bu8] ==> final(self).mode == UiMode::Normal,
            final(self).active == old(self).active,
            final(self).background == old(self).background,
            final(self).multiplexers == old(self).multiplexers,
            final(self).history == old(self).history,
            bytes@.len() > 0 && (bytes@[0] == 13 || bytes@[0] == 10) ==> {
                let d = old(self).worktree_cleanup_dialog;
                &&& final(self).mode == old(self).mode
                &&& (match d.cursor {
                    None => final(self).worktree_cleanup_dialog.selected == d.selected,
                    Some(c) => {
                        let idx = d.filtered_indices@[c as int];
                        &&& (d.selected@.contains(idx) ==> !final(self).worktree_cleanup_dialog.selected@.contains(idx))
                        &&& (!d.selected@.contains(idx) ==> final(self).worktree_cleanup_dialog.selected@ == d.selected@.push(idx))
                    },
                })
                &&& final(self).worktree_cleanup_dialog.worktrees == d.worktrees
                &&& final(self).worktree_cleanup_dialog.filtered_indices
                    == d.filtered_indices
                &&& final(self).worktree_cleanup_dialog.cursor == d.cursor
            },
            bytes@.len() > 0 && bytes@[0] == 100 ==> {
                let d = old(self).worktree_cleanup_dialog;
                &&& (d.selected@.len() > 0 ==> {
                    &&& final(self).mode == UiMode::WorktreeDeleteConfirm
                    &&& final(self).delete_confirm_dialog.worktrees@.len()
                        == d.selected@.len()
                    &&& forall|k: int|
                        0 <= k < d.selected@.len() ==> #[trigger] final(self).delete_confirm_dialog.worktrees@[k]
                            == d.worktrees@[d.selected@[k] as int]
                })
                &&& (d.selected@.len() == 0 && d.cursor is Some ==> {
                    &&& final(self).mode == UiMode::WorktreeDeleteConfirm
                    &&& final(self).delete_confirm_dialog.worktrees@.len() == 1
                    &&& final(self).delete_confirm_dialog.worktrees@[0]
                        == d.worktrees@[d.filtered_indices@[d.cursor->0 as int] as int]
                })
                &&& (d.selected@.len() == 0 && d.cursor is None ==> final(self).mode
                    == old(self).mode && final(self).delete_confirm_dialog == old(self).delete_confirm_dialog)
            },
            bytes@.len() > 0 && bytes@[0] == 0x7f && bytes@.len() == 1 ==> {
                let d = old(self).worktree_cleanup_dialog;
                &&& final(self).worktree_cleanup_dialog.query@ == (if d.query@.len() == 0 {
                    d.query@
                } else {
                    d.query@.drop_last()
                })
                &&& final(self).worktree_cleanup_dialog.filtered_indices@
                    == crate::cleanup::matching_paths(
                    d.worktrees@,
                    crate::util::lower_of(final(self).worktree_cleanup_dialog.query@),
                )
            },
            bytes@.len() > 0 && ((33 <= bytes@[0] && bytes@[0] <= 126 && bytes@[0] != 100)
                || bytes@[0] == 32) ==> {
                let d = old(self).worktree_cleanup_dialog;
                &&& final(self).worktree_cleanup_dialog.query@ == d.query@.push(
                    bytes@[0] as char,
                )
                &&& final(self).worktree_cleanup_dialog.filtered_indices@
                    == crate::cleanup::matching_paths(
                    d.worktrees@,
                    crate::util::lower_of(final(self).worktree_cleanup_dialog.query@),
                )
            },
    {
        let ghost prior = *self;
        if bytes.len() == 0 {
            return;
        }
        let b = bytes[0];
        if b == 0x1b {
            if bytes.len() == 1 {
                self.mode = UiMode::Normal;
                proof {
                    lemma_same_pairs(*self, prior);
                    self.lemma_mux_pairs_carry(prior);
                }
                return;
            }
            if bytes.len() >= 3 && bytes[1] == 91 {
                let c = bytes[2];
                let mut dialog = WorktreeCleanupDialog::new();
                core::mem::swap(&mut self.worktree_cleanup_dialog, &mut dialog);
                if c == 65 {
                    dialog.move_up();
                } else if c == 66 {
                    dialog.move_down();
                }
                core::mem::swap(&mut self.worktree_cleanup_dialog, &mut dialog);
            }
            proof {
                lemma_same_pairs(*self, prior);
                self.lemma_mux_pairs_carry(prior);
            }
            return;
        }
        if b == 13 || b == 10 {
            let mut dialog = WorktreeCleanupDialog::new();
            core::mem::swap(&mut self.worktree_cleanup_dialog, &mut dialog);
            dialog.toggle_selection();
            core::mem::swap(&mut self.worktree_cleanup_dialog, &mut dialog);
            proof {
                lemma_same_pairs(*self, prior);
                self.lemma_mux_pairs_carry(prior);
            }
            return;
        }
        if b == 100 {
            let has = self.worktree_cleanup_dialog.has_selections();
            let to_delete: Vec<String>;
            if has {
                to_delete = self.worktree_cleanup_dialog.get_selected_worktrees();
            } else {
                let mut dialog = WorktreeCleanupDialog::new();
                core::mem::swap(&mut self.worktree_cleanup_dialog, &mut dialog);
                let current = dialog.get_current_worktree();
                core::mem::swap(&mut self.worktree_cleanup_dialog, &mut dialog);
                match current {
                    Some(p) => {
                        let mut v: Vec<String> = Vec::new();
                        v.push(p);
                        to_delete = v;
                    }
                    None => {
                        to_delete = Vec::new();
                    }
                }
            }
            if to_delete.len() > 0 {
                let active_paths = self.get_active_session_paths();
                self.delete_confirm_dialog.set_worktrees_with_active(to_delete, active_paths);
                self.mode = UiMode::WorktreeDeleteConfirm;
            }
            proof {
                lemma_same_pairs(*self, prior);
                self.lemma_mux_pairs_carry(prior);
            }
            return;
        }
        if b == 0x7f {
            let mut dialog = WorktreeCleanupDialog::new();
            core::mem::swap(&mut self.worktree_cleanup_dialog, &mut dialog);
            dialog.pop_char();
            dialog.update_filter();
            core::mem::swap(&mut self.worktree_cleanup_dialog, &mut dialog);
            proof {
                lemma_same_pairs(*self, prior);
                self.lemma_mux_pairs_carry(prior);
            }
            return;
        }
        if (33 <= b && b <= 126) || b == 32 {
            let mut dialog = WorktreeCleanupDialog::new();
            core::mem::swap(&mut self.worktree_cleanup_dialog, &mut dialog);
            dialog.push_char(b as char);
            dialog.update_filter();
            core::mem::swap(&mut self.worktree_cleanup_dialog, &mut dialog);
            proof {
                lemma_same_pairs(*self, prior);
                self.lemma_mux_pairs_carry(prior);
            }
        }
    }

    /// Carry the multiplexer-ownership clause between states with the same
    /// pairs and multiplexers.
    proof fn lemma_mux_pairs_carry(self, prior: Self)
        requires
            self.multiplexers == prior.multiplexers,
            self.active == prior.active,
            self.background == prior.background,
            forall|i: int|
                0 <= i < prior.multiplexers@.len() ==> prior.has_pair_named(
                    (#[trigger] prior.multiplexers@[i]).0@,
                ),
        ensures
            forall|i: int|
                0 <= i < self.multiplexers@.len() ==> self.has_pair_named(
                    (#[trigger] self.multiplexers@[i]).0@,
                ),
    {
        lemma_same_pairs(self, prior);
        assert forall|i: int|
            0 <= i < self.multiplexers@.len() implies self.has_pair_named(
            (#[trigger] self.multiplexers@[i]).0@,
        ) by {
            assert(prior.has_pair_named(prior.multiplexers@[i].0@));
        }
    }

    /// Keys typed in the delete confirmation: `y` yields the worktrees to
    /// delete — the host kills the sessions at those paths, removes the
    /// worktrees, and reports back — while `n` or Escape returns to the
    /// cleanup dialog.
    pub fn handle_delete_confirm_input(&mut self, bytes: &[u8]) -> (r: Option<Vec<String>>)
        requires
            old(self).wf(),
        ensures
            final(self).wf(),
            bytes@.len() == 0 ==> *final(self) == *old(self) && r is None,
            bytes@ == seq![0x1bu8] ==> final(self).mode == UiMode::WorktreeCleanup && r
                is None,
            bytes@.len() > 0 && (bytes@[0] == 110 || bytes@[0] == 78) ==> final(self).mode
                == UiMode::WorktreeCleanup && r is None,
            bytes@.len() > 0 && (bytes@[0] == 121 || bytes@[0] == 89) ==> r is Some
                && (r->0)@ == old(self).delete_confirm_dialog.worktrees@ && *final(self)
                == *old(self),
    {
        if bytes.len() == 0 {
            return None;
        }
        let b = bytes[0];
        if b == 0x1b && bytes.len() == 1 {
            self.mode = UiMode::WorktreeCleanup;
            return None;
        }
        if b == 121 || b == 89 {
            let n = self.delete_confirm_dialog.worktrees.len();
            let mut out: Vec<String> = Vec::new();
            let mut i: usize = 0;
            while i < n
                invariant
                    n == self.delete_confirm_dialog.worktrees@.len(),
                    i <= n,
                    out@ == self.delete_confirm_dialog.worktrees@.take(i as int),
                    *self == *old(self),
                decreases n - i,
            {
                out.push(self.delete_confirm_dialog.worktrees[i].clone());
                proof {
                    assert(out@ =~= self.delete_confirm_dialog.worktrees@.take(i + 1));
                }
                i += 1;
            }
            proof {
                assert(self.delete_confirm_dialog.worktrees@.take(n as int)
                    =~= self.delete_confirm_dialog.worktrees@);
            }
            return Some(out);
        }
        if b == 110 || b == 78 {
            self.mode = UiMode::WorktreeCleanup;
        }
        None
    }

    /// Kill the session living at this path, active or background: its
    /// agent session and shell panes come back shut down for disposal.
    #[verifier::rlimit(100)]
    #[verifier::spinoff_prover]
    pub fn kill_session_at_path(&mut self, path: &str) -> (r: KillOutcome)
        requires
            old(self).wf(),
        ensures
            final(self).wf(),
            final(self).mode == old(self).mode,
            final(self).history == old(self).history,
            final(self).config == old(self).config,
            final(self).should_quit == old(self).should_quit,
            match r.claude {
                Some(s) => s.shutdown_requested,
                None => true,
            },
            forall|k: int|
                0 <= k < r.panes@.len() ==> (#[trigger] r.panes@[k]).0.shutdown_requested,
            match old(self).active {
                Some(p) => p.path@ == path@ ==> {
                    &&& final(self).active is None
                    &&& final(self).background == old(self).background
                    &&& r.claude == Some(p.claude.0.after_shutdown())
                    &&& !final(self).mux_named(p.name@)
                    &&& (old(self).mux_named(p.name@) ==> panes_shut_down(
                        r.panes@,
                        old(self).mux_of(p.name@).panes@,
                    ))
                    &&& (!old(self).mux_named(p.name@) ==> r.panes@.len() == 0)
                },
                None => true,
            },
            (!old(self).active_at_path(path@) && old(self).background_at_path(path@))
                ==> exists|i: int|
                {
                    &&& 0 <= i < old(self).background@.len()
                    &&& (#[trigger] old(self).background@[i]).path@ == path@
                    &&& final(self).background@ == old(self).background@.remove(i)
                    &&& final(self).active == old(self).active
                    &&& r.claude == Some(old(self).background@[i].claude.0.after_shutdown())
                    &&& !final(self).mux_named(old(self).background@[i].name@)
                    &&& (old(self).mux_named(old(self).background@[i].name@)
                        ==> panes_shut_down(
                        r.panes@,
                        old(self).mux_of(old(self).background@[i].name@).panes@,
                    ))
                    &&& (!old(self).mux_named(old(self).background@[i].name@)
                        ==> r.panes@.len() == 0)
                },
            (!old(self).active_at_path(path@) && !old(self).background_at_path(path@))
                ==> *final(self) == *old(self) && r.claude is None && r.panes@.len() == 0,
    {
        let ghost prior = *self;
        let active_matches = match &self.active {
            Some(p) => str_eq(p.path.as_str(), path),
            None => false,
        };
        if active_matches {
            let mut taken: Option<ActivePair> = None;
            core::mem::swap(&mut self.active, &mut taken);
            match taken {
                Some(pair) => {
                    let name = pair.name;
                    let AttachedSession(mut inner) = pair.claude;
                    inner.shutdown();
                    proof {
                        assert forall|n2: Seq<char>|
                            prior.has_pair_named(n2) implies #[trigger] self.has_pair_named(
                            n2,
                        ) || n2 == name@ by {
                            if prior.background_named(n2) {
                                assert(self.background_named(n2));
                            }
                        }
                        lemma_mux_of_carries(*self, prior, name@);
                    }
                    let panes = self.remove_mux_and_shutdown(name.as_str());
                    return KillOutcome { claude: Some(inner), panes };
                }
                None => {
                    return KillOutcome { claude: None, panes: Vec::new() };
                }
            }
        }
        let n = self.background.len();
        let mut idx: usize = 0;
        while idx < n
            invariant
                prior == *old(self),
                prior == *self,
                prior.wf(),
                !prior.active_at_path(path@),
                n == self.background@.len(),
                idx <= n,
                forall|j: int|
                    0 <= j < idx ==> (#[trigger] self.background@[j]).path@ != path@,
            decreases n - idx,
        {
            if str_eq(self.background[idx].path.as_str(), path) {
                let ghost witness = idx as int;
                let bg_pair = self.background.remove(idx);
                let name = bg_pair.name;
                let crate::session::DetachedSession(mut inner) = bg_pair.claude;
                inner.shutdown();
                proof {
                    let removed = prior.background@.remove(idx as int);
                    assert(forall|k: int|
                        0 <= k < idx ==> #[trigger] removed[k] == prior.background@[k]);
                    assert(forall|k: int|
                        idx <= k < removed.len() ==> #[trigger] removed[k]
                            == prior.background@[k + 1]);
                    assert(self.names_unique()) by {
                        assert forall|a: int, b: int|
                            0 <= a < b < self.background@.len() implies (
                        #[trigger] self.background@[a]).name@ != (
                        #[trigger] self.background@[b]).name@ by {
                            let sa: int = if a < idx as int {
                                a
                            } else {
                                a + 1
                            };
                            let sb: int = if b < idx as int {
                                b
                            } else {
                                b + 1
                            };
                            assert(self.background@[a] == prior.background@[sa]);
                            assert(self.background@[b] == prior.background@[sb]);
                        }
                        match self.active {
                            Some(q) => {
                                assert forall|a: int|
                                    0 <= a < self.background@.len() implies (
                                #[trigger] self.background@[a]).name@ != q.name@ by {
                                    let sa: int = if a < idx as int {
                                        a
                                    } else {
                                        a + 1
                                    };
                                    assert(self.background@[a] == prior.background@[sa]);
                                }
                            }
                            None => {}
                        }
                    }
                    assert forall|a: int|
                        0 <= a < self.background@.len() implies (
                    #[trigger] self.background@[a]).wf() by {
                        let sa: int = if a < idx as int {
                            a
                        } else {
                            a + 1
                        };
                        assert(self.background@[a] == prior.background@[sa]);
                        assert(prior.background@[sa].wf());
                    }
                    assert forall|q: int|
                        0 <= q < self.multiplexers@.len() implies (self.has_pair_named(
                            (#[trigger] self.multiplexers@[q]).0@,
                        ) || self.multiplexers@[q].0@ == name@) by {
                        assert(prior.has_pair_named(prior.multiplexers@[q].0@));
                        let k = prior.multiplexers@[q].0@;
                        if prior.active_named(k) {
                            assert(self.active_named(k));
                        } else {
                            let w = choose|w: int|
                                0 <= w < prior.background@.len() && (
                                #[trigger] prior.background@[w]).name@ == k;
                            if w == idx as int {
                                assert(k == name@);
                            } else if w < idx as int {
                                assert(self.background@[w].name@ == k);
                                assert(self.background_named(k));
                            } else {
                                assert(self.background@[w - 1].name@ == k);
                                assert(self.background_named(k));
                            }
                        }
                    }
                }
                proof {
                    lemma_mux_of_carries(*self, prior, name@);
                }
                let panes = self.remove_mux_and_shutdown(name.as_str());
                proof {
                    assert(prior.background_at_path(path@)) by {
                        assert(prior.background@[witness].path@ == path@);
                    }
                    assert(prior.background@[witness].name@ == name@);
                    assert(inner == prior.background@[witness].claude.0.after_shutdown());
                    assert(self.background@ == prior.background@.remove(witness));
                }
                return KillOutcome { claude: Some(inner), panes };
            }
            idx += 1;
        }
        proof {
            assert(!prior.background_at_path(path@));
        }
        KillOutcome { claude: None, panes: Vec::new() }
    }

    /// Note the results of deleting worktrees: successful paths leave the
    /// history, one message reports the outcome, the dialog shows what
    /// remains, and the mode returns to Normal only when nothing is left.
    pub fn finish_worktree_deletion(
        &mut self,
        outcomes: Vec<(String, Option<String>)>,
        repo_name: Option<&String>,
        remaining: Vec<String>,
    )
        requires
            old(self).wf(),
        ensures
            final(self).wf(),
            final(self).pending_status@.len() == old(self).pending_status@.len() + 1,
            remaining@.len() == 0 ==> final(self).mode == UiMode::Normal,
            remaining@.len() > 0 ==> final(self).mode == UiMode::WorktreeCleanup,
            final(self).active == old(self).active,
            final(self).background == old(self).background,
            final(self).multiplexers == old(self).multiplexers,
            errors_of(outcomes@).len() == 0 ==> {
                let msg = final(self).pending_status@.last();
                &&& msg.level == crate::status::StatusLevel::Info
                &&& msg.display_message@ == "Deleted "@ + crate::util::dec_digits(
                    ok_count(outcomes@) as nat,
                ) + " worktree(s)"@
                &&& msg.log_message@ == "Successfully deleted "@ + crate::util::dec_digits(
                    ok_count(outcomes@) as nat,
                ) + " worktree(s)"@
            },
            errors_of(outcomes@).len() > 0 ==> {
                let msg = final(self).pending_status@.last();
                &&& msg.level == crate::status::StatusLevel::Error
                &&& msg.display_message@ == "Deleted "@ + crate::util::dec_digits(
                    ok_count(outcomes@) as nat,
                ) + " of "@ + crate::util::dec_digits(outcomes@.len() as nat)
                    + " worktree(s)"@
                &&& msg.log_message@ == crate::util::joined(errors_of(outcomes@), "; "@)
            },
            match repo_name {
                Some(repo) => {
                    &&& (forall|r: Seq<char>|
                        #[trigger] final(self).history.has_repo(r) == old(self).history.has_repo(r))
                    &&& (old(self).history.has_repo(repo@)
                        ==> crate::history::keys_of(
                        final(self).history.repo_list(repo@),
                    ) == drop_deleted(
                        crate::history::keys_of(old(self).history.repo_list(repo@)),
                        outcomes@,
                    ))
                    &&& (forall|r: Seq<char>|
                        r != repo@ && old(self).history.has_repo(r)
                            ==> #[trigger] final(self).history.repo_list(r) == old(self).history.repo_list(r))
                    &&& (!old(self).history.has_repo(repo@) ==> final(self).history
                        == old(self).history)
                },
                None => final(self).history == old(self).history,
            },
            final(self).worktree_cleanup_dialog.worktrees == remaining,
            final(self).worktree_cleanup_dialog.selected@.len() == 0,
    {
        let ghost prior = *self;
        let n = outcomes.len();
        let mut deleted: usize = 0;
        let mut errors: Vec<String> = Vec::new();
        let mut i: usize = 0;
        while i < n
            invariant
                n == outcomes@.len(),
                i <= n,
                deleted <= i,
                deleted == ok_count(outcomes@.take(i as int)),
                errors@ == errors_of(outcomes@.take(i as int)),
                self.history.wf(),
                *self == (TuiSessionManager { history: self.history, ..prior }),
                prior.wf(),
                forall|r: Seq<char>|
                    #[trigger] self.history.has_repo(r) == prior.history.has_repo(r),
                match repo_name {
                    Some(repo) => {
                        &&& (prior.history.has_repo(repo@)
                            ==> crate::history::keys_of(
                            self.history.repo_list(repo@),
                        ) == drop_deleted(
                            crate::history::keys_of(prior.history.repo_list(repo@)),
                            outcomes@.take(i as int),
                        ))
                        &&& (forall|r: Seq<char>|
                            r != repo@ && prior.history.has_repo(r)
                                ==> #[trigger] self.history.repo_list(r)
                                == prior.history.repo_list(r))
                        &&& (!prior.history.has_repo(repo@) ==> self.history
                            == prior.history)
                    },
                    None => self.history == prior.history,
                },
            decreases n - i,
        {
            let ghost t1 = outcomes@.take(i + 1);
            proof {
                assert(t1.drop_last() =~= outcomes@.take(i as int));
                assert(t1.last() == outcomes@[i as int]);
            }
            let ghost hist_before = self.history;
            let outcome = &outcomes[i];
            match &outcome.1 {
                None => {
                    deleted = deleted + 1;
                    match repo_name {
                        Some(repo) => {
                            let base = crate::util::str_basename(outcome.0.as_str());
                            self.history.remove_by_name(repo.as_str(), base.as_str());
                            proof {
                                if prior.history.has_repo(repo@) {
                                    assert(hist_before.has_repo(repo@));
                                }
                            }
                        }
                        None => {}
                    }
                    proof {
                        assert(errors@ =~= errors_of(t1));
                    }
                }
                Some(e) => {
                    errors.push(e.clone());
                    proof {
                        assert(errors@ =~= errors_of(t1));
                    }
                }
            }
            i += 1;
        }
        proof {
            assert(outcomes@.take(n as int) =~= outcomes@);
        }
        let total = n;
        if errors.len() == 0 {
            let count_text = crate::util::usize_to_string(deleted);
            let display = "Deleted ".to_owned().concat(count_text.as_str()).concat(
                " worktree(s)",
            );
            let log = "Successfully deleted ".to_owned().concat(count_text.as_str()).concat(
                " worktree(s)",
            );
            self.push_status(StatusMessage::info(display, log));
        } else {
            let deleted_text = crate::util::usize_to_string(deleted);
            let total_text = crate::util::usize_to_string(total);
            let display = "Deleted ".to_owned().concat(deleted_text.as_str()).concat(
                " of ",
            ).concat(total_text.as_str()).concat(" worktree(s)");
            let log = crate::util::join_with(&errors, "; ");
            self.push_status(StatusMessage::err(display, log));
        }
        let active_paths = self.get_active_session_paths();
        let is_empty = remaining.len() == 0;
        self.worktree_cleanup_dialog.set_worktrees_with_active(remaining, active_paths);
        if is_empty {
            self.mode = UiMode::Normal;
        } else {
            self.mode = UiMode::WorktreeCleanup;
        }
        proof {
            self.lemma_mux_pairs_carry(prior);
        }
    }

    /// `y` confirms quitting; `n` or Escape cancels.
    pub fn handle_quit_confirmation_input(&mut self, bytes: &[u8])
        requires
            old(self).wf(),
        ensures
            final(self).wf(),
            bytes@.len() > 0 && (bytes@[0] == 121 || bytes@[0] == 89) ==> *final(self) == (
            TuiSessionManager { should_quit: true, ..*old(self) }),
            bytes@ == seq![0x1bu8] || (bytes@.len() > 0 && (bytes@[0] == 110 || bytes@[0]
                == 78)) ==> *final(self) == (TuiSessionManager {
                mode: UiMode::Normal,
                ..*old(self)
            }),
    {
        if bytes.len() == 0 {
            return;
        }
        let b = bytes[0];
        if b == 0x1b && bytes.len() == 1 {
            self.mode = UiMode::Normal;
        } else if b == 121 || b == 89 {
            self.should_quit = true;
        } else if b == 110 || b == 78 {
            self.mode = UiMode::Normal;
        }
    }
}

/// The outgoing panes are the original panes, in order, each with shutdown
/// requested.
pub open spec fn panes_shut_down(out: Seq<AttachedSession>, orig: Seq<AttachedSession>) -> bool {
    out.len() == orig.len() && forall|k: int|
        0 <= k < out.len() ==> (#[trigger] out[k]).0 == orig[k].0.after_shutdown()
}

/// The worktree path of a session of this repository.
pub open spec fn wt_path_of(workflows: Seq<char>, repo: Seq<char>, name: Seq<char>) -> Seq<char> {
    workflows + seq!['/'] + repo + seq!['/'] + name
}

/// Whether one of the listed path views is `p`.
pub open spec fn path_listed(paths: Seq<Seq<char>>, p: Seq<char>) -> bool {
    exists|k: int| 0 <= k < paths.len() && paths[k] == p
}

/// The recent rows of the selector list: history entries whose worktree
/// path is not live, as (name, display path) views, most recent first.
pub open spec fn recent_rows(
    hist: Seq<RecentSession>,
    workflows: Seq<char>,
    repo: Seq<char>,
    live: Seq<String>,
    home: Seq<char>,
) -> Seq<(Seq<char>, Seq<char>)>
    decreases hist.len(),
{
    if hist.len() == 0 {
        Seq::empty()
    } else {
        let prev = recent_rows(hist.drop_last(), workflows, repo, live, home);
        let p = wt_path_of(workflows, repo, hist.last().name@);
        if crate::util::holds_string(live, p) {
            prev
        } else {
            prev.push((hist.last().name@, crate::paths::display_of(p, home)))
        }
    }
}

/// The worktree rows of the selector list: the given directories that are
/// neither live nor named by the repository's history, as display views.
pub open spec fn worktree_rows(
    dirs: Seq<String>,
    live: Seq<String>,
    hist_paths: Seq<Seq<char>>,
    home: Seq<char>,
) -> Seq<Seq<char>>
    decreases dirs.len(),
{
    if dirs.len() == 0 {
        Seq::empty()
    } else {
        let prev = worktree_rows(dirs.drop_last(), live, hist_paths, home);
        if crate::util::holds_string(live, dirs.last()@) || path_listed(
            hist_paths,
            dirs.last()@,
        ) {
            prev
        } else {
            prev.push(crate::paths::display_of(dirs.last()@, home))
        }
    }
}

/// How many worktree deletions succeeded.
pub open spec fn ok_count(outcomes: Seq<(String, Option<String>)>) -> int
    decreases outcomes.len(),
{
    if outcomes.len() == 0 {
        0
    } else {
        ok_count(outcomes.drop_last()) + (if outcomes.last().1 is None {
            1int
        } else {
            0int
        })
    }
}

/// The error messages of the failed deletions, in order.
pub open spec fn errors_of(outcomes: Seq<(String, Option<String>)>) -> Seq<String>
    decreases outcomes.len(),
{
    if outcomes.len() == 0 {
        Seq::empty()
    } else {
        let rest = errors_of(outcomes.drop_last());
        match outcomes.last().1 {
            Some(e) => rest.push(e),
            None => rest,
        }
    }
}

/// A repository's history keys after forgetting every successfully deleted
/// worktree, by the last path component.
pub open spec fn drop_deleted(
    keys: Seq<crate::history::EntryKey>,
    outcomes: Seq<(String, Option<String>)>,
) -> Seq<crate::history::EntryKey>
    decreases outcomes.len(),
{
    if outcomes.len() == 0 {
        keys
    } else {
        let prev = drop_deleted(keys, outcomes.drop_last());
        if outcomes.last().1 is None {
            crate::history::drop_name(
                prev,
                crate::util::basename_of(outcomes.last().0@),
            )
        } else {
            prev
        }
    }
}

/// Whether the active pair shows the shell view.
pub open spec fn active_in_shell(m: TuiSessionManager) -> bool {
    match m.active {
        Some(p) => p.view == SessionView::Shell,
        None => false,
    }
}

/// Whether a buffer is one of the hotkeys, given whether the shell-view
/// hotkeys are live.
pub open spec fn is_hotkey_bytes(b: Seq<u8>, shell_ctx: bool) -> bool {
    b.len() == 1 && (b[0] == CTRL_H || b[0] == CTRL_T || b[0] == CTRL_N || b[0] == CTRL_L
        || b[0] == CTRL_X || b[0] == CTRL_D || b[0] == CTRL_K || (shell_ctx && (b[0]
        == CTRL_BACKSLASH || b[0] == CTRL_W || b[0] == CTRL_Y)))
}

pub const CTRL_H: u8 = 0x08;

pub const CTRL_T: u8 = 0x14;

pub const CTRL_N: u8 = 0x0E;

pub const CTRL_L: u8 = 0x0C;

pub const CTRL_X: u8 = 0x18;

pub const CTRL_BACKSLASH: u8 = 0x1c;

pub const CTRL_W: u8 = 0x17;

pub const CTRL_D: u8 = 0x04;

pub const CTRL_K: u8 = 0x0B;

pub const CTRL_Y: u8 = 0x19;

/// Whether the buffer is the menu hotkey.
pub fn is_menu_hotkey(bytes: &[u8]) -> (r: bool)
    ensures
        r == (bytes@ == seq![CTRL_K]),
{
    let r = bytes.len() == 1 && bytes[0] == CTRL_K;
    proof {
        if r {
            assert(bytes@ =~= seq![CTRL_K]);
        } else {
            if bytes@ == seq![CTRL_K] {
                assert(bytes@.len() == 1 && bytes@[0] == CTRL_K);
            }
        }
    }
    r
}

/// Whether the buffer is the shell hotkey.
pub fn is_shell_hotkey(bytes: &[u8]) -> (r: bool)
    ensures
        r == (bytes@ == seq![CTRL_T]),
{
    let r = bytes.len() == 1 && bytes[0] == CTRL_T;
    proof {
        if r {
            assert(bytes@ =~= seq![CTRL_T]);
        } else {
            if bytes@ == seq![CTRL_T] {
                assert(bytes@.len() == 1 && bytes@[0] == CTRL_T);
            }
        }
    }
    r
}

/// What the host owes after a key in the selector.
pub enum SelectorAction {
    /// Nothing beyond the state change.
    Stay,
    /// Resume this recent session: convert the display path, check it
    /// exists, spawn with the resume arguments and install it.
    Resume { name: String, path_display: String },
    /// Start a fresh session in this worktree directory, named after its
    /// last path component.
    StartWorktree { path_display: String },
}

/// What one reaping tick removed and what the host owes: dead panes and a
/// dead session's panes to dispose of, and possibly a fresh session to
/// spawn at the same name and path.
pub struct ReapResult {
    pub dead_panes: Vec<AttachedSession>,
    pub closed_panes: Vec<AttachedSession>,
    pub dead_claude: Option<AttachedSession>,
    pub restart: Option<(String, String)>,
}

/// What a confirmed kill removed: the agent session and the shell panes,
/// all with shutdown requested.
pub struct KillOutcome {
    pub claude: Option<crate::session::Session>,
    pub panes: Vec<AttachedSession>,
}

/// What the host owes after a hotkey.
pub enum HotkeyOutcome {
    /// Not a hotkey: dispatch the buffer to the current mode's handler.
    NotHotkey,
    /// Consumed; nothing to do.
    Handled,
    /// Spawn the user's shell at `path` and hand it to `add_shell_pane`.
    SpawnShellPane { name: String, path: String, to_shell: bool },
    /// The focused pane was closed and shut down; dispose of its PTY.
    ClosedPane { pane: AttachedSession },
    /// Gather the session list and call `open_session_selector`.
    OpenSelector,
    /// List the worktree directories and call `open_worktree_cleanup`.
    OpenWorktreeCleanup,
}

/// The live section of a selector list matches the manager's pairs.
pub open spec fn live_section_ok(
    m: TuiSessionManager,
    live_snap: Seq<(String, String)>,
    home: Seq<char>,
) -> bool {
    match m.active {
        Some(p) => live_snap.len() == 1 + m.background@.len() && live_snap[0].0@ == p.name@
            && live_snap[0].1@ == crate::paths::display_of(p.path@, home) && forall|k: int|
            0 <= k < m.background@.len() ==> (#[trigger] live_snap[k + 1]).0@
                == m.background@[k].name@ && live_snap[k + 1].1@ == crate::paths::display_of(
                m.background@[k].path@,
                home,
            ),
        None => live_snap.len() == m.background@.len() && forall|k: int|
            0 <= k < m.background@.len() ==> (#[trigger] live_snap[k]).0@
                == m.background@[k].name@ && live_snap[k].1@ == crate::paths::display_of(
                m.background@[k].path@,
                home,
            ),
    }
}

/// Every multiplexer the manager keeps belongs to a session that exists:
/// a pair, active or background, carries its name.
pub proof fn lemma_multiplexers_have_pairs(m: TuiSessionManager)
    requires
        m.wf(),
    ensures
        forall|i: int|
            0 <= i < m.multiplexers@.len() ==> m.has_pair_named(
                (#[trigger] m.multiplexers@[i]).0@,
            ),
{
}

/// Two states with the same multiplexer table keep the same multiplexer for
/// each name.
proof fn lemma_mux_of_carries(a: TuiSessionManager, b: TuiSessionManager, name: Seq<char>)
    requires
        a.multiplexers == b.multiplexers,
        forall|i: int, j: int|
            0 <= i < j < a.multiplexers@.len() ==> (#[trigger] a.multiplexers@[i]).0@
                != (#[trigger] a.multiplexers@[j]).0@,
    ensures
        a.mux_named(name) == b.mux_named(name),
        a.mux_named(name) ==> a.mux_of(name) == b.mux_of(name),
{
    if a.mux_named(name) {
        let w = choose|w: int|
            0 <= w < a.multiplexers@.len() && (#[trigger] a.multiplexers@[w]).0@ == name;
        a.lemma_mux_index(name, w);
        assert(b.multiplexers@[w].0@ == name);
        b.lemma_mux_index(name, w);
        assert(b.mux_named(name));
    }
    if b.mux_named(name) {
        let w = choose|w: int|
            0 <= w < b.multiplexers@.len() && (#[trigger] b.multiplexers@[w]).0@ == name;
        assert(a.multiplexers@[w].0@ == name);
        assert(a.mux_named(name));
    }
}

/// Two states with the same pairs name the same sessions.
proof fn lemma_same_pairs(a: TuiSessionManager, b: TuiSessionManager)
    requires
        a.active == b.active,
        a.background == b.background,
    ensures
        forall|n2: Seq<char>| #[trigger] a.has_pair_named(n2) == b.has_pair_named(n2),
{
    assert forall|n2: Seq<char>| #[trigger] a.has_pair_named(n2) == b.has_pair_named(
        n2,
    ) by {
        if a.background_named(n2) {
            let w = choose|w: int|
                0 <= w < a.background@.len() && (#[trigger] a.background@[w]).name@ == n2;
            assert(b.background@[w].name@ == n2);
            assert(b.background_named(n2));
        }
        if b.background_named(n2) {
            let w = choose|w: int|
                0 <= w < b.background@.len() && (#[trigger] b.background@[w]).name@ == n2;
            assert(a.background@[w].name@ == n2);
            assert(a.background_named(n2));
        }
    }
}

/// The bookkeeping behind `switch_to_session_by_name`: the switched state
/// keeps the invariant and the set of pair names.
proof fn lemma_switch_post(
    post: TuiSessionManager,
    prior: TuiSessionManager,
    name: Seq<char>,
    i: int,
)
    requires
        prior.wf(),
        0 <= i < prior.background@.len(),
        prior.background@[i].name@ == name,
        !prior.active_named(name),
        post.active == Some(attached_of(prior.background@[i])),
        post.background@ == (match prior.active {
            Some(p) => prior.background@.remove(i).push(detached_of(p)),
            None => prior.background@.remove(i),
        }),
        post.multiplexers == prior.multiplexers,
        post.history == prior.history,
        post.config == prior.config,
        post.session_selector == prior.session_selector,
        post.worktree_cleanup_dialog == prior.worktree_cleanup_dialog,
    ensures
        post.wf(),
        forall|n2: Seq<char>| #[trigger] post.has_pair_named(n2) == prior.has_pair_named(n2),
{
    let removed = prior.background@.remove(i);
    let blen = prior.background@.len();
    assert(forall|k: int| 0 <= k < i ==> #[trigger] removed[k] == prior.background@[k]);
    assert(forall|k: int|
        i <= k < removed.len() ==> #[trigger] removed[k] == prior.background@[k + 1]);
    assert(post.active->0.wf()) by {
        assert(prior.background@[i].wf());
    }
    // Where each slot of the new background came from.
    assert forall|a: int| 0 <= a < post.background@.len() implies {
        &&& a < i ==> #[trigger] post.background@[a] == prior.background@[a]
        &&& (i <= a < blen - 1) ==> post.background@[a] == prior.background@[a + 1]
        &&& a >= blen - 1 ==> prior.active is Some && post.background@[a] == detached_of(
            prior.active->0,
        )
    } by {
        if a >= blen - 1 {
            if prior.active is None {
                assert(post.background@.len() == removed.len());
                assert(false);
            }
        }
    }
    assert forall|a: int|
        0 <= a < post.background@.len() implies (#[trigger] post.background@[a]).wf() by {
        if a < i {
            assert(prior.background@[a].wf());
        } else if a < blen - 1 {
            assert(prior.background@[a + 1].wf());
        } else {
            assert(prior.active->0.wf());
        }
    }
    assert forall|n2: Seq<char>| #[trigger] post.has_pair_named(n2) == prior.has_pair_named(
        n2,
    ) by {
        if prior.has_pair_named(n2) {
            if prior.active_named(n2) {
                assert(post.background@[post.background@.len() - 1].name@ == n2);
                assert(post.background_named(n2));
            } else {
                let w = choose|w: int|
                    0 <= w < prior.background@.len() && (#[trigger] prior.background@[w]).name@ == n2;
                if w == i {
                    assert(post.active_named(n2));
                } else if w < i {
                    assert(post.background@[w].name@ == n2);
                    assert(post.background_named(n2));
                } else {
                    assert(post.background@[w - 1].name@ == n2);
                    assert(post.background_named(n2));
                }
            }
        }
        if post.has_pair_named(n2) {
            if post.active_named(n2) {
                assert(prior.background@[i].name@ == n2);
                assert(prior.background_named(n2));
            } else {
                let w = choose|w: int|
                    0 <= w < post.background@.len() && (#[trigger] post.background@[w]).name@ == n2;
                if w < i {
                    assert(prior.background@[w].name@ == n2);
                    assert(prior.background_named(n2));
                } else if w < blen - 1 {
                    assert(prior.background@[w + 1].name@ == n2);
                    assert(prior.background_named(n2));
                } else {
                    assert(prior.active_named(n2));
                }
            }
        }
    }
    assert(post.names_unique()) by {
        assert forall|a: int, b: int|
            0 <= a < b < post.background@.len() implies (#[trigger] post.background@[
        a]).name@ != (#[trigger] post.background@[b]).name@ by {
            if b < blen - 1 {
                let sa: int = if a < i {
                    a
                } else {
                    a + 1
                };
                let sb: int = if b < i {
                    b
                } else {
                    b + 1
                };
                assert(post.background@[a].name@ == prior.background@[sa].name@);
                assert(post.background@[b].name@ == prior.background@[sb].name@);
                assert(sa < sb);
            } else {
                let p = prior.active->0;
                assert(post.background@[b].name@ == p.name@);
                if a < i {
                    assert(prior.background@[a].name@ != p.name@);
                } else {
                    assert(prior.background@[a + 1].name@ != p.name@);
                }
            }
        }
        match post.active {
            Some(q) => {
                assert forall|a: int|
                    0 <= a < post.background@.len() implies (#[trigger] post.background@[
                a]).name@ != q.name@ by {
                    assert(q.name@ == prior.background@[i].name@);
                    if a < i {
                        assert(prior.background@[a].name@ != prior.background@[i].name@);
                    } else if a < blen - 1 {
                        assert(prior.background@[i].name@ != prior.background@[a + 1].name@);
                    } else {
                        assert(post.background@[a].name@ == prior.active->0.name@);
                        assert(!prior.active_named(name));
                    }
                }
            }
            None => {}
        }
    }
    assert forall|k: int|
        0 <= k < post.multiplexers@.len() implies post.has_pair_named(
        (#[trigger] post.multiplexers@[k]).0@,
    ) by {
        assert(prior.has_pair_named(prior.multiplexers@[k].0@));
    }
}

} // verus!
