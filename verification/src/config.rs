//! User preferences: child arguments, the worktrees directory, and the most
//! recent session per startup directory.

use vstd::prelude::*;

use crate::paths::home_dir_string;
use crate::paths::join_path;
use crate::util::str_eq;

verus! {

/// The most recent session remembered for one startup directory.
pub struct MostRecentSession {
    pub name: String,
    pub path: String,
}

impl MostRecentSession {
    /// The pair of views that identifies this record.
    pub open spec fn key(self) -> (Seq<char>, Seq<char>) {
        (self.name@, self.path@)
    }
}

impl Clone for MostRecentSession {
    fn clone(&self) -> (r: Self)
        ensures
            r == *self,
    {
        MostRecentSession { name: self.name.clone(), path: self.path.clone() }
    }
}

/// User configuration.
pub struct Config {
    pub claude_args: Vec<String>,
    pub workflows_path: String,
    pub recent_sessions: Vec<(String, MostRecentSession)>,
}

impl Config {
    /// Whether a recent session is remembered for this startup directory.
    pub open spec fn has_recent(self, startup: Seq<char>) -> bool {
        exists|i: int|
            0 <= i < self.recent_sessions@.len() && self.recent_sessions@[i].0@ == startup
    }

    /// The index of this startup directory's row (meaningful under `wf`).
    pub open spec fn recent_index(self, startup: Seq<char>) -> int {
        choose|i: int|
            0 <= i < self.recent_sessions@.len() && self.recent_sessions@[i].0@ == startup
    }

    /// The record remembered for this startup directory.
    pub open spec fn recent_for(self, startup: Seq<char>) -> MostRecentSession {
        self.recent_sessions@[self.recent_index(startup)].1
    }

    /// Well-formedness: startup directories are unique.
    pub open spec fn wf(self) -> bool {
        forall|i: int, j: int|
            0 <= i < j < self.recent_sessions@.len()
                ==> (#[trigger] self.recent_sessions@[i]).0@
                != (#[trigger] self.recent_sessions@[j]).0@
    }

    /// Under `wf`, a row holding `startup` is the row `recent_index` names.
    pub proof fn lemma_recent_index(self, startup: Seq<char>, i: int)
        requires
            self.wf(),
            0 <= i < self.recent_sessions@.len(),
            self.recent_sessions@[i].0@ == startup,
        ensures
            self.has_recent(startup),
            self.recent_index(startup) == i,
    {
        assert(self.has_recent(startup));
        let j = self.recent_index(startup);
        if j != i {
            if j < i {
                assert(self.recent_sessions@[j].0@ != self.recent_sessions@[i].0@);
            } else {
                assert(self.recent_sessions@[i].0@ != self.recent_sessions@[j].0@);
            }
        }
    }

    fn find_recent(&self, startup_path: &str) -> (r: Option<usize>)
        ensures
            match r {
                Some(i) => i < self.recent_sessions@.len()
                    && self.recent_sessions@[i as int].0@ == startup_path@,
                None => !self.has_recent(startup_path@),
            },
    {
        let n = self.recent_sessions.len();
        let mut i: usize = 0;
        while i < n
            invariant
                n == self.recent_sessions@.len(),
                i <= n,
                forall|j: int|
                    0 <= j < i ==> (#[trigger] self.recent_sessions@[j]).0@ != startup_path@,
            decreases n - i,
        {
            if str_eq(self.recent_sessions[i].0.as_str(), startup_path) {
                return Some(i);
            }
            i += 1;
        }
        None
    }

    /// Remember `session_name` at `session_path` as the most recent session
    /// for `startup_path`, replacing any earlier record for it.
    pub fn set_recent_session(
        &mut self,
        startup_path: String,
        session_name: String,
        session_path: String,
    )
        requires
            old(self).wf(),
        ensures
            final(self).wf(),
            final(self).has_recent(startup_path@),
            final(self).recent_for(startup_path@).key() == (session_name@, session_path@),
            final(self).claude_args == old(self).claude_args,
            final(self).workflows_path == old(self).workflows_path,
            forall|r: Seq<char>|
                r != startup_path@ ==> #[trigger] final(self).has_recent(r) == old(
                    self,
                ).has_recent(r),
            forall|r: Seq<char>|
                r != startup_path@ && old(self).has_recent(r)
                    ==> #[trigger] final(self).recent_for(r) == old(self).recent_for(r),
    {
        let ghost prior = *self;
        let record = MostRecentSession { name: session_name, path: session_path };
        let i: usize;
        match self.find_recent(startup_path.as_str()) {
            Some(j) => {
                i = j;
            }
            None => {
                i = self.recent_sessions.len();
                self.recent_sessions.push((startup_path.clone(), record.clone()));
            }
        }
        let ghost mid = *self;
        proof {
            assert(mid.recent_sessions@[i as int].0@ == startup_path@);
            assert(mid.wf()) by {
                if !prior.has_recent(startup_path@) {
                    assert(forall|q: int|
                        0 <= q < prior.recent_sessions@.len()
                            ==> mid.recent_sessions@[q] == prior.recent_sessions@[q]);
                    assert(forall|q: int|
                        0 <= q < prior.recent_sessions@.len()
                            ==> (#[trigger] prior.recent_sessions@[q]).0@ != startup_path@);
                }
            }
        }
        let pair = self.recent_sessions.remove(i);
        let key = pair.0;
        self.recent_sessions.insert(i, (key, record));
        proof {
            let fin = *self;
            assert(fin.recent_sessions@ =~= mid.recent_sessions@.update(
                i as int,
                fin.recent_sessions@[i as int],
            ));
            assert(fin.recent_sessions@[i as int].0@ == startup_path@);
            assert(fin.recent_sessions@[i as int].1.key() == (session_name@, session_path@));
            assert(forall|q: int|
                0 <= q < mid.recent_sessions@.len() && q != i as int
                    ==> fin.recent_sessions@[q] == mid.recent_sessions@[q]);
            assert(fin.wf());
            fin.lemma_recent_index(startup_path@, i as int);

            assert forall|r: Seq<char>| r != startup_path@ implies
                #[trigger] fin.has_recent(r) == prior.has_recent(r) by {
                if prior.has_recent(r) {
                    let q = prior.recent_index(r);
                    assert(prior.recent_sessions@[q].0@ == r);
                    assert(mid.recent_sessions@[q] == prior.recent_sessions@[q]);
                    assert(fin.recent_sessions@[q].0@ == r);
                }
                if fin.has_recent(r) {
                    let q = fin.recent_index(r);
                    assert(fin.recent_sessions@[q].0@ == r);
                    assert(q != i as int);
                    assert(mid.recent_sessions@[q] == fin.recent_sessions@[q]);
                    if !prior.has_recent(startup_path@)
                        && q == prior.recent_sessions@.len() as int {
                        assert(mid.recent_sessions@[q].0@ == startup_path@);
                        assert(false);
                    }
                    assert(prior.recent_sessions@[q].0@ == r);
                }
            }
            assert forall|r: Seq<char>| r != startup_path@ && prior.has_recent(r) implies
                #[trigger] fin.recent_for(r) == prior.recent_for(r) by {
                let q = prior.recent_index(r);
                prior.lemma_recent_index(r, q);
                assert(mid.recent_sessions@[q] == prior.recent_sessions@[q]);
                assert(fin.recent_sessions@[q] == prior.recent_sessions@[q]);
                fin.lemma_recent_index(r, q);
            }
        }
    }

    /// Decide well-formedness: startup directories unique.
    pub fn check_wf(&self) -> (r: bool)
        ensures
            r == self.wf(),
    {
        let n = self.recent_sessions.len();
        let mut i: usize = 0;
        while i < n
            invariant
                n == self.recent_sessions@.len(),
                i <= n,
                forall|a: int, b: int|
                    0 <= a < b < self.recent_sessions@.len() && a < i
                        ==> (#[trigger] self.recent_sessions@[a]).0@
                        != (#[trigger] self.recent_sessions@[b]).0@,
            decreases n - i,
        {
            let mut j: usize = i + 1;
            while j < n
                invariant
                    n == self.recent_sessions@.len(),
                    i < j <= n,
                    i < n,
                    forall|b: int|
                        i < b < j ==> (#[trigger] self.recent_sessions@[b]).0@
                            != self.recent_sessions@[i as int].0@,
                decreases n - j,
            {
                if str_eq(
                    self.recent_sessions[i].0.as_str(),
                    self.recent_sessions[j].0.as_str(),
                ) {
                    proof {
                        assert(self.recent_sessions@[i as int].0@
                            == self.recent_sessions@[j as int].0@);
                        assert(!self.wf());
                    }
                    return false;
                }
                j += 1;
            }
            i += 1;
        }
        true
    }

    /// The most recent session for a startup directory, if any.
    pub fn get_recent_session(&self, startup_path: &str) -> (r: Option<&MostRecentSession>)
        requires
            self.wf(),
        ensures
            match r {
                Some(m) => self.has_recent(startup_path@) && *m == self.recent_for(
                    startup_path@,
                ),
                None => !self.has_recent(startup_path@),
            },
    {
        match self.find_recent(startup_path) {
            Some(i) => {
                proof {
                    self.lemma_recent_index(startup_path@, i as int);
                }
                Some(&self.recent_sessions[i].1)
            }
            None => None,
        }
    }
}

impl Default for Config {
    /// The out-of-the-box configuration: one default child argument, the
    /// worktrees directory under home, and no remembered sessions.
    fn default() -> (c: Self)
        ensures
            c.wf(),
            c.recent_sessions@.len() == 0,
            c.claude_args@.len() == 1,
            c.claude_args@[0]@ == "--dangerously-skip-permissions"@,
    {
        let mut claude_args: Vec<String> = Vec::new();
        claude_args.push("--dangerously-skip-permissions".to_owned());
        let workflows_path = match home_dir_string() {
            Some(h) => join_path(h.as_str(), "worktrees"),
            None => "~/worktrees".to_owned(),
        };
        Config { claude_args, workflows_path, recent_sessions: Vec::new() }
    }
}

} // verus!
