//! The worktree cleanup dialog: a filterable, multi-selectable list of
//! worktree paths, and the confirmation dialog for deleting them.

use vstd::prelude::*;

use vstd::string::StrSliceExecFns;

use crate::util::chars_to_string;
use crate::util::contains_sub;
use crate::util::lower_of;
use crate::util::str_contains;
use crate::util::to_lowercase;

verus! {

/// Whether a path matches a lower-cased query.
pub open spec fn path_matches(p: Seq<char>, q: Seq<char>) -> bool {
    q.len() == 0 || contains_sub(lower_of(p), q)
}

/// The indices of the paths matching a lower-cased query, ascending.
pub open spec fn matching_paths(s: Seq<String>, q: Seq<char>) -> Seq<usize>
    decreases s.len(),
{
    if s.len() == 0 {
        Seq::empty()
    } else {
        let rest = matching_paths(s.drop_last(), q);
        if path_matches(s.last()@, q) {
            rest.push((s.len() - 1) as usize)
        } else {
            rest
        }
    }
}

/// A dialog for selecting and deleting worktrees.
pub struct WorktreeCleanupDialog {
    /// All listed worktree paths.
    pub worktrees: Vec<String>,
    /// The cursor into the filtered list.
    pub cursor: Option<usize>,
    /// Indices of checked worktrees (multi-select); no index twice.
    pub selected: Vec<usize>,
    /// The current filter query.
    pub query: Vec<char>,
    /// Indices of paths matching the query.
    pub filtered_indices: Vec<usize>,
    /// Paths that have live sessions.
    pub active_paths: Vec<String>,
}

impl WorktreeCleanupDialog {
    /// The cursor lies in the filtered list, which it leaves only when the
    /// list is empty.
    pub open spec fn cursor_wf(self) -> bool {
        &&& match self.cursor {
            Some(s) => s < self.filtered_indices@.len(),
            None => true,
        }
        &&& self.filtered_indices@.len() > 0 ==> self.cursor is Some
    }

    /// Checked indices are distinct and name listed worktrees.
    pub open spec fn selection_wf(self) -> bool {
        &&& forall|i: int, j: int|
            0 <= i < j < self.selected@.len() ==> self.selected@[i] != self.selected@[j]
        &&& forall|i: int|
            0 <= i < self.selected@.len() ==> #[trigger] self.selected@[i]
                < self.worktrees@.len()
    }

    /// Filtered indices name listed worktrees.
    pub open spec fn filtered_wf(self) -> bool {
        forall|i: int|
            0 <= i < self.filtered_indices@.len() ==> #[trigger] self.filtered_indices@[i]
                < self.worktrees@.len()
    }

    /// The dialog's invariant.
    pub open spec fn wf(self) -> bool {
        self.cursor_wf() && self.selection_wf() && self.filtered_wf()
    }

    /// A fresh, empty dialog.
    pub fn new() -> (d: Self)
        ensures
            d.worktrees@.len() == 0,
            d.cursor is None,
            d.selected@.len() == 0,
            d.query@.len() == 0,
            d.filtered_indices@.len() == 0,
            d.active_paths@.len() == 0,
            d.wf(),
    {
        WorktreeCleanupDialog {
            worktrees: Vec::new(),
            cursor: None,
            selected: Vec::new(),
            query: Vec::new(),
            filtered_indices: Vec::new(),
            active_paths: Vec::new(),
        }
    }

    /// Reset the dialog for a fresh view.
    pub fn reset(&mut self)
        ensures
            final(self).worktrees@.len() == 0,
            final(self).cursor is None,
            final(self).selected@.len() == 0,
            final(self).query@.len() == 0,
            final(self).filtered_indices@.len() == 0,
            final(self).active_paths@.len() == 0,
            final(self).wf(),
    {
        self.worktrees.clear();
        self.selected.clear();
        self.query.clear();
        self.filtered_indices.clear();
        self.active_paths.clear();
        self.cursor = None;
    }

    /// Show a list of worktrees together with the paths of live sessions;
    /// the checked set starts empty and the filter is re-applied.
    pub fn set_worktrees_with_active(&mut self, worktrees: Vec<String>, active_paths: Vec<String>)
        ensures
            final(self).wf(),
            final(self).worktrees == worktrees,
            final(self).active_paths == active_paths,
            final(self).selected@.len() == 0,
            final(self).query == old(self).query,
            final(self).filtered_indices@ == matching_paths(
                worktrees@,
                lower_of(old(self).query@),
            ),
    {
        self.worktrees = worktrees;
        self.active_paths = active_paths;
        self.selected.clear();
        self.update_filter();
    }

    /// Append a character to the filter query.
    pub fn push_char(&mut self, c: char)
        ensures
            *final(self) == (WorktreeCleanupDialog { query: final(self).query, ..*old(self) }),
            final(self).query@ == old(self).query@.push(c),
    {
        self.query.push(c);
    }

    /// Remove the last character of the filter query.
    pub fn pop_char(&mut self)
        ensures
            *final(self) == (WorktreeCleanupDialog { query: final(self).query, ..*old(self) }),
            final(self).query@ == if old(self).query@.len() == 0 {
                old(self).query@
            } else {
                old(self).query@.drop_last()
            },
    {
        let _ = self.query.pop();
    }

    /// Recompute the filtered indices from the query; the cursor stays on a
    /// valid row, or leaves when nothing matches.
    pub fn update_filter(&mut self)
        ensures
            final(self).cursor_wf(),
            final(self).filtered_wf(),
            old(self).selection_wf() ==> final(self).wf(),
            final(self).worktrees == old(self).worktrees,
            final(self).active_paths == old(self).active_paths,
            final(self).selected == old(self).selected,
            final(self).query == old(self).query,
            final(self).filtered_indices@ == matching_paths(
                old(self).worktrees@,
                lower_of(old(self).query@),
            ),
            final(self).filtered_indices@.len() == 0 ==> final(self).cursor is None,
            final(self).filtered_indices@.len() > 0 ==> final(self).cursor is Some,
    {
        let query_string = chars_to_string(&self.query);
        let query_lower = to_lowercase(query_string.as_str());
        let q = query_lower.as_str();
        let qlen = q.unicode_len();

        let n = self.worktrees.len();
        let mut found: Vec<usize> = Vec::new();
        proof {
            assert(matching_paths(self.worktrees@.take(0), lower_of(old(self).query@))
                =~= Seq::<usize>::empty());
        }
        let mut j: usize = 0;
        while j < n
            invariant
                n == self.worktrees@.len(),
                self.worktrees == old(self).worktrees,
                j <= n,
                q@ == lower_of(old(self).query@),
                qlen == q@.len(),
                found@ == matching_paths(
                    self.worktrees@.take(j as int),
                    lower_of(old(self).query@),
                ),
            decreases n - j,
        {
            let ghost t1 = self.worktrees@.take(j + 1);
            proof {
                assert(t1.drop_last() =~= self.worktrees@.take(j as int));
                assert(t1.last() == self.worktrees@[j as int]);
            }
            let m: bool;
            if qlen == 0 {
                m = true;
            } else {
                let path_lower = to_lowercase(self.worktrees[j].as_str());
                m = str_contains(path_lower.as_str(), q);
            }
            proof {
                assert(m == path_matches(self.worktrees@[j as int]@, lower_of(old(self).query@)));
            }
            if m {
                found.push(j);
            }
            proof {
                assert(found@ =~= matching_paths(t1, lower_of(old(self).query@)));
            }
            j += 1;
        }
        proof {
            assert(self.worktrees@.take(n as int) =~= self.worktrees@);
        }
        self.filtered_indices = found;
        proof {
            lemma_matching_paths_bounded(self.worktrees@, lower_of(old(self).query@));
        }

        let flen = self.filtered_indices.len();
        if flen == 0 {
            self.cursor = None;
        } else {
            let cur = match self.cursor {
                Some(c) => c,
                None => 0,
            };
            if cur >= flen {
                self.cursor = Some(flen - 1);
            } else {
                self.cursor = Some(cur);
            }
        }
    }

    /// Move the cursor up, wrapping; with nothing listed, nothing moves.
    pub fn move_up(&mut self)
        requires
            old(self).wf(),
        ensures
            final(self).wf(),
            *final(self) == (WorktreeCleanupDialog { cursor: final(self).cursor, ..*old(self) }),
            old(self).filtered_indices@.len() == 0 ==> *final(self) == *old(self),
            old(self).filtered_indices@.len() > 0 ==> final(self).cursor == Some(
                {
                    let cur = old(self).cursor->0;
                    if cur == 0 {
                        (old(self).filtered_indices@.len() - 1) as usize
                    } else {
                        (cur - 1) as usize
                    }
                },
            ),
    {
        let n = self.filtered_indices.len();
        if n == 0 {
            return;
        }
        let cur = match self.cursor {
            Some(s) => s,
            None => 0,
        };
        let next: usize = if cur == 0 {
            n - 1
        } else {
            cur - 1
        };
        self.cursor = Some(next);
    }

    /// Move the cursor down, wrapping; with nothing listed, nothing moves.
    pub fn move_down(&mut self)
        requires
            old(self).wf(),
        ensures
            final(self).wf(),
            *final(self) == (WorktreeCleanupDialog { cursor: final(self).cursor, ..*old(self) }),
            old(self).filtered_indices@.len() == 0 ==> *final(self) == *old(self),
            old(self).filtered_indices@.len() > 0 ==> final(self).cursor == Some(
                {
                    let cur = old(self).cursor->0;
                    if cur + 1 >= old(self).filtered_indices@.len() {
                        0usize
                    } else {
                        (cur + 1) as usize
                    }
                },
            ),
    {
        let n = self.filtered_indices.len();
        if n == 0 {
            return;
        }
        let cur = match self.cursor {
            Some(s) => s,
            None => 0,
        };
        let next: usize = if cur + 1 >= n {
            0
        } else {
            cur + 1
        };
        self.cursor = Some(next);
    }

    /// Toggle the checkbox on the row under the cursor.
    pub fn toggle_selection(&mut self)
        requires
            old(self).wf(),
        ensures
            final(self).wf(),
            *final(self) == (WorktreeCleanupDialog {
                selected: final(self).selected,
                ..*old(self)
            }),
            match old(self).cursor {
                None => final(self).selected == old(self).selected,
                Some(s) => {
                    let idx = old(self).filtered_indices@[s as int];
                    &&& old(self).selected@.contains(idx) ==> exists|a: int|
                        0 <= a < old(self).selected@.len() && old(self).selected@[a]
                            == idx && final(self).selected@ == old(self).selected@.remove(
                            a,
                        )
                    &&& !old(self).selected@.contains(idx) ==> final(self).selected@ == old(
                        self,
                    ).selected@.push(idx)
                },
            },
    {
        let cursor = self.cursor;
        match cursor {
            None => {}
            Some(s) => {
                let idx = self.filtered_indices[s];
                match find_index(&self.selected, idx) {
                    Some(a) => {
                        let ghost before = self.selected@;
                        let _ = self.selected.remove(a);
                        proof {
                            assert(before.contains(idx)) by {
                                assert(before[a as int] == idx);
                            }
                            assert(!self.selected@.contains(idx)) by {
                                assert(forall|m: int|
                                    0 <= m < before.len() && m != a
                                        ==> before[m] != idx);
                                assert(forall|m: int|
                                    0 <= m < self.selected@.len()
                                        ==> #[trigger] self.selected@[m] != idx);
                            }
                        }
                    }
                    None => {
                        proof {
                            assert(!self.selected@.contains(idx));
                        }
                        self.selected.push(idx);
                    }
                }
            }
        }
    }

    /// Whether any worktree is checked.
    pub fn has_selections(&self) -> (r: bool)
        ensures
            r == (self.selected@.len() > 0),
    {
        self.selected.len() > 0
    }

    /// The checked worktree paths, in the order they were checked.
    pub fn get_selected_worktrees(&self) -> (r: Vec<String>)
        requires
            self.wf(),
        ensures
            r@.len() == self.selected@.len(),
            forall|k: int|
                0 <= k < r@.len() ==> #[trigger] r@[k]
                    == self.worktrees@[self.selected@[k] as int],
    {
        let n = self.selected.len();
        let mut out: Vec<String> = Vec::new();
        let mut k: usize = 0;
        while k < n
            invariant
                self.wf(),
                n == self.selected@.len(),
                k <= n,
                out@.len() == k,
                forall|m: int|
                    0 <= m < k ==> #[trigger] out@[m]
                        == self.worktrees@[self.selected@[m] as int],
            decreases n - k,
        {
            let idx = self.selected[k];
            out.push(self.worktrees[idx].clone());
            k += 1;
        }
        out
    }

    /// The path under the cursor, if any.
    pub fn get_current_worktree(&self) -> (r: Option<String>)
        requires
            self.wf(),
        ensures
            match self.cursor {
                Some(s) => r == Some(
                    self.worktrees@[self.filtered_indices@[s as int] as int],
                ),
                None => r is None,
            },
    {
        match self.cursor {
            Some(s) => {
                let idx = self.filtered_indices[s];
                Some(self.worktrees[idx].clone())
            }
            None => None,
        }
    }

    /// Whether there are any worktrees to show.
    pub fn is_empty(&self) -> (r: bool)
        ensures
            r == (self.worktrees@.len() == 0),
    {
        self.worktrees.len() == 0
    }
}

/// Every index `matching_paths` yields lies inside the list.
pub proof fn lemma_matching_paths_bounded(s: Seq<String>, q: Seq<char>)
    ensures
        forall|i: int|
            0 <= i < matching_paths(s, q).len() ==> #[trigger] matching_paths(s, q)[i]
                < s.len(),
    decreases s.len(),
{
    if s.len() > 0 {
        lemma_matching_paths_bounded(s.drop_last(), q);
        let rest = matching_paths(s.drop_last(), q);
        assert(forall|i: int|
            0 <= i < rest.len() ==> #[trigger] rest[i] < s.len() - 1);
        if path_matches(s.last()@, q) {
            assert(matching_paths(s, q) == rest.push((s.len() - 1) as usize));
        }
    }
}

fn find_index(v: &Vec<usize>, x: usize) -> (r: Option<usize>)
    ensures
        match r {
            Some(i) => i < v@.len() && v@[i as int] == x && forall|m: int|
                0 <= m < i ==> v@[m] != x,
            None => !v@.contains(x),
        },
{
    let n = v.len();
    let mut k: usize = 0;
    while k < n
        invariant
            n == v@.len(),
            k <= n,
            forall|m: int| 0 <= m < k ==> v@[m] != x,
        decreases n - k,
    {
        if v[k] == x {
            return Some(k);
        }
        k += 1;
    }
    proof {
        assert(forall|m: int| 0 <= m < v@.len() ==> v@[m] != x);
    }
    None
}

/// The confirmation dialog before worktrees are deleted.
pub struct DeleteConfirmDialog {
    pub worktrees: Vec<String>,
    pub active_paths: Vec<String>,
}

impl DeleteConfirmDialog {
    /// A dialog about nothing yet.
    pub fn new() -> (d: Self)
        ensures
            d.worktrees@.len() == 0,
            d.active_paths@.len() == 0,
    {
        DeleteConfirmDialog { worktrees: Vec::new(), active_paths: Vec::new() }
    }

    /// Point the dialog at the worktrees to delete and the live paths.
    pub fn set_worktrees_with_active(&mut self, worktrees: Vec<String>, active_paths: Vec<String>)
        ensures
            final(self).worktrees == worktrees,
            final(self).active_paths == active_paths,
    {
        self.worktrees = worktrees;
        self.active_paths = active_paths;
    }

    /// The worktrees to delete.
    pub fn get_worktrees(&self) -> (r: &Vec<String>)
        ensures
            *r == self.worktrees,
    {
        &self.worktrees
    }

    /// The paths that have live sessions.
    pub fn get_active_paths(&self) -> (r: &Vec<String>)
        ensures
            *r == self.active_paths,
    {
        &self.active_paths
    }
}

} // verus!
