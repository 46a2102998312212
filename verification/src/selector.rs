//! The session selector: a filterable list over live sessions, recent
//! sessions and worktree directories, with a cursor that wraps.

use vstd::prelude::*;

use vstd::string::StrSliceExecFns;

use crate::util::chars_to_string;
use crate::util::contains_sub;
use crate::util::lower_of;
use crate::util::str_contains;
use crate::util::to_lowercase;

verus! {

/// Categories of items in the session selector, in list order.
#[derive(Debug, Clone, Copy, PartialEq, Eq, Structural)]
pub enum SelectorItemKind {
    /// A live session: previewed and switched to.
    Live,
    /// A recent session from history: resumed.
    Recent,
    /// A worktree directory: a fresh session starts there.
    Worktree,
}

/// Whether an entry matches a lower-cased query: an empty query matches all;
/// otherwise the query must occur in the lower-cased name or path.
pub open spec fn entry_matches(name: Seq<char>, path: Seq<char>, q: Seq<char>) -> bool {
    q.len() == 0 || contains_sub(lower_of(name), q) || contains_sub(lower_of(path), q)
}

/// The indices of the entries matching a lower-cased query, ascending.
pub open spec fn matching_indices(s: Seq<(String, String)>, q: Seq<char>) -> Seq<usize>
    decreases s.len(),
{
    if s.len() == 0 {
        Seq::empty()
    } else {
        let rest = matching_indices(s.drop_last(), q);
        if entry_matches(s.last().0@, s.last().1@, q) {
            rest.push((s.len() - 1) as usize)
        } else {
            rest
        }
    }
}

/// With an empty query every entry matches: the filter lists every index.
pub proof fn lemma_matching_all(s: Seq<(String, String)>, q: Seq<char>)
    requires
        q.len() == 0,
        s.len() <= usize::MAX,
    ensures
        matching_indices(s, q).len() == s.len(),
        forall|k: int| 0 <= k < s.len() ==> #[trigger] matching_indices(s, q)[k] == k,
    decreases s.len(),
{
    if s.len() > 0 {
        lemma_matching_all(s.drop_last(), q);
        assert(entry_matches(s.last().0@, s.last().1@, q));
        assert(matching_indices(s, q) == matching_indices(s.drop_last(), q).push(
            (s.len() - 1) as usize,
        ));
        assert forall|k: int| 0 <= k < s.len() implies #[trigger] matching_indices(
            s,
            q,
        )[k] == k by {
            if k < s.len() - 1 {
                assert(matching_indices(s, q)[k] == matching_indices(s.drop_last(), q)[k]);
            } else {
                assert(matching_indices(s, q)[k] == (s.len() - 1) as usize);
            }
        }
    }
}

/// A filterable session selector with incremental search.
pub struct SessionSelector {
    /// The current filter query.
    pub query: Vec<char>,
    /// The cursor into the filtered list.
    pub selected: Option<usize>,
    /// Indices of entries that match the current filter.
    pub filtered_indices: Vec<usize>,
    /// Index of the active session in the full list.
    pub active_index: Option<usize>,
    /// Number of live sessions at the front of the full list.
    pub live_count: usize,
    /// Number of recent sessions after the live ones.
    pub recent_count: usize,
}

impl SessionSelector {
    /// The cursor lies inside the filtered list, which it leaves only when
    /// the list is empty.
    pub open spec fn wf(self) -> bool {
        &&& match self.selected {
            Some(s) => s < self.filtered_indices@.len(),
            None => true,
        }
        &&& self.filtered_indices@.len() > 0 ==> self.selected is Some
    }

    /// The category of the full-list index `idx`.
    pub open spec fn kind_of(self, idx: int) -> SelectorItemKind {
        if idx < self.live_count {
            SelectorItemKind::Live
        } else if idx < self.live_count + self.recent_count {
            SelectorItemKind::Recent
        } else {
            SelectorItemKind::Worktree
        }
    }

    /// A fresh, empty selector.
    pub fn new() -> (s: Self)
        ensures
            s.query@.len() == 0,
            s.selected is None,
            s.filtered_indices@.len() == 0,
            s.active_index is None,
            s.live_count == 0,
            s.recent_count == 0,
            s.wf(),
    {
        SessionSelector {
            query: Vec::new(),
            selected: None,
            filtered_indices: Vec::new(),
            active_index: None,
            live_count: 0,
            recent_count: 0,
        }
    }

    /// Reset the selector for a fresh selection.
    pub fn reset(&mut self)
        ensures
            final(self).query@.len() == 0,
            final(self).selected is None,
            final(self).filtered_indices@.len() == 0,
            final(self).live_count == 0,
            final(self).recent_count == 0,
            final(self).active_index == old(self).active_index,
            final(self).wf(),
    {
        self.query.clear();
        self.filtered_indices.clear();
        self.selected = None;
        self.live_count = 0;
        self.recent_count = 0;
    }

    /// Mark which full-list index holds the active session.
    pub fn set_active_index(&mut self, index: Option<usize>)
        ensures
            *final(self) == (SessionSelector { active_index: index, ..*old(self) }),
    {
        self.active_index = index;
    }

    /// Set the category counts of the full list.
    pub fn set_counts(&mut self, live_count: usize, recent_count: usize)
        ensures
            *final(self) == (SessionSelector { live_count, recent_count, ..*old(self) }),
    {
        self.live_count = live_count;
        self.recent_count = recent_count;
    }

    /// Append a character to the query.
    pub fn push_char(&mut self, c: char)
        ensures
            *final(self) == (SessionSelector {
                query: final(self).query,
                ..*old(self)
            }),
            final(self).query@ == old(self).query@.push(c),
    {
        self.query.push(c);
    }

    /// Remove the last character of the query.
    pub fn pop_char(&mut self)
        ensures
            *final(self) == (SessionSelector {
                query: final(self).query,
                ..*old(self)
            }),
            final(self).query@ == if old(self).query@.len() == 0 {
                old(self).query@
            } else {
                old(self).query@.drop_last()
            },
    {
        let _ = self.query.pop();
    }

    /// The full-list index under the cursor, if any entry matches.
    pub fn selected_original_index(&self) -> (r: Option<usize>)
        requires
            self.wf(),
        ensures
            match self.selected {
                Some(s) => r == Some(self.filtered_indices@[s as int]),
                None => r is None,
            },
    {
        match self.selected {
            Some(s) => Some(self.filtered_indices[s]),
            None => None,
        }
    }

    /// The category of the item under the cursor.
    pub fn selected_kind(&self) -> (r: Option<SelectorItemKind>)
        requires
            self.wf(),
        ensures
            match self.selected {
                Some(s) => r == Some(
                    self.kind_of(self.filtered_indices@[s as int] as int),
                ),
                None => r is None,
            },
    {
        match self.selected {
            Some(s) => {
                let idx = self.filtered_indices[s];
                if idx < self.live_count {
                    Some(SelectorItemKind::Live)
                } else if self.recent_count > usize::MAX - self.live_count {
                    Some(SelectorItemKind::Recent)
                } else if idx < self.live_count + self.recent_count {
                    Some(SelectorItemKind::Recent)
                } else {
                    Some(SelectorItemKind::Worktree)
                }
            }
            None => None,
        }
    }

    /// Move the cursor up, wrapping; with nothing listed, nothing moves.
    pub fn move_up(&mut self)
        requires
            old(self).wf(),
        ensures
            final(self).wf(),
            *final(self) == (SessionSelector { selected: final(self).selected, ..*old(self) }),
            old(self).filtered_indices@.len() == 0 ==> *final(self) == *old(self),
            old(self).filtered_indices@.len() > 0 ==> final(self).selected == Some(
                {
                    let cur = old(self).selected->0;
                    if cur == 0 {
                        (old(self).filtered_indices@.len() - 1) as usize
                    } else {
                        (cur - 1) as usize
                    }
                },
            ),
    {
        let n = self.filtered_indices.len();
        if n == 0 {
            return;
        }
        let cur = match self.selected {
            Some(s) => s,
            None => 0,
        };
        let next: usize = if cur == 0 {
            n - 1
        } else {
            cur - 1
        };
        self.selected = Some(next);
    }

    /// Move the cursor down, wrapping; with nothing listed, nothing moves.
    pub fn move_down(&mut self)
        requires
            old(self).wf(),
        ensures
            final(self).wf(),
            *final(self) == (SessionSelector { selected: final(self).selected, ..*old(self) }),
            old(self).filtered_indices@.len() == 0 ==> *final(self) == *old(self),
            old(self).filtered_indices@.len() > 0 ==> final(self).selected == Some(
                {
                    let cur = old(self).selected->0;
                    if cur + 1 >= old(self).filtered_indices@.len() {
                        0usize
                    } else {
                        (cur + 1) as usize
                    }
                },
            ),
    {
        let n = self.filtered_indices.len();
        if n == 0 {
            return;
        }
        let cur = match self.selected {
            Some(s) => s,
            None => 0,
        };
        let next: usize = if cur + 1 >= n {
            0
        } else {
            cur + 1
        };
        self.selected = Some(next);
    }

    /// Recompute the filtered indices from the query; the cursor stays on a
    /// valid row, or leaves when nothing matches.
    pub fn update_filter(&mut self, sessions: &Vec<(String, String)>)
        ensures
            final(self).wf(),
            final(self).query == old(self).query,
            final(self).active_index == old(self).active_index,
            final(self).live_count == old(self).live_count,
            final(self).recent_count == old(self).recent_count,
            final(self).filtered_indices@ == matching_indices(
                sessions@,
                lower_of(old(self).query@),
            ),
            old(self).query@.len() == 0 ==> final(self).filtered_indices@.len()
                == sessions@.len() && forall|k: int|
                0 <= k < sessions@.len() ==> #[trigger] final(self).filtered_indices@[k]
                    == k,
            final(self).filtered_indices@.len() == 0 ==> final(self).selected is None,
            final(self).filtered_indices@.len() > 0 ==> final(self).selected == Some(
                {
                    let cur = match old(self).selected {
                        Some(c) => c as int,
                        None => 0int,
                    };
                    if cur >= final(self).filtered_indices@.len() {
                        (final(self).filtered_indices@.len() - 1) as usize
                    } else {
                        cur as usize
                    }
                },
            ),
    {
        let query_string = chars_to_string(&self.query);
        let query_lower = to_lowercase(query_string.as_str());
        let q = query_lower.as_str();
        let qlen = q.unicode_len();

        let n = sessions.len();
        let mut found: Vec<usize> = Vec::new();
        proof {
            assert(matching_indices(sessions@.take(0), lower_of(old(self).query@))
                =~= Seq::<usize>::empty());
        }
        let mut j: usize = 0;
        while j < n
            invariant
                n == sessions@.len(),
                j <= n,
                q@ == lower_of(old(self).query@),
                qlen == q@.len(),
                found@ == matching_indices(sessions@.take(j as int), lower_of(old(self).query@)),
            decreases n - j,
        {
            let ghost t1 = sessions@.take(j + 1);
            proof {
                assert(t1.drop_last() =~= sessions@.take(j as int));
                assert(t1.last() == sessions@[j as int]);
            }
            let entry = &sessions[j];
            let m: bool;
            if qlen == 0 {
                m = true;
            } else {
                let name_lower = to_lowercase(entry.0.as_str());
                if str_contains(name_lower.as_str(), q) {
                    m = true;
                } else {
                    let path_lower = to_lowercase(entry.1.as_str());
                    m = str_contains(path_lower.as_str(), q);
                }
            }
            proof {
                assert(m == entry_matches(
                    sessions@[j as int].0@,
                    sessions@[j as int].1@,
                    lower_of(old(self).query@),
                ));
            }
            if m {
                found.push(j);
            }
            proof {
                assert(found@ =~= matching_indices(t1, lower_of(old(self).query@)));
            }
            j += 1;
        }
        proof {
            assert(sessions@.take(n as int) =~= sessions@);
        }
        self.filtered_indices = found;
        proof {
            if old(self).query@.len() == 0 {
                lemma_matching_all(sessions@, lower_of(old(self).query@));
            }
        }

        let flen = self.filtered_indices.len();
        if flen == 0 {
            self.selected = None;
        } else {
            let cur = match self.selected {
                Some(c) => c,
                None => 0,
            };
            if cur >= flen {
                self.selected = Some(flen - 1);
            } else {
                self.selected = Some(cur);
            }
        }
    }
}

} // verus!
