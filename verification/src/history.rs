//! Per-repository recent-session history.
//!
//! A history maps a repository name to an ordered list of remembered
//! sessions, most recent first. Touching an entry removes any equal entry,
//! puts the new one at the front, and trims the list to
//! `MAX_RECENT_PER_WORKSPACE`. Lists never hold duplicates.

use vstd::prelude::*;

use crate::util::str_eq;

verus! {

/// Upper bound on remembered sessions per repository.
pub const MAX_RECENT_PER_WORKSPACE: usize = 5;

/// The identifying views of one entry: session name and project path.
pub type EntryKey = (Seq<char>, Seq<char>);

/// One remembered session: its name and the project path it was created from.
pub struct RecentSession {
    pub name: String,
    pub project_path: String,
}

impl RecentSession {
    /// The pair of views that identifies this entry.
    pub open spec fn key(self) -> EntryKey {
        (self.name@, self.project_path@)
    }

    /// Two entries are the same record when name and project path agree.
    pub fn same_entry(&self, other: &RecentSession) -> (r: bool)
        ensures
            r == (self.key() == other.key()),
    {
        str_eq(self.name.as_str(), other.name.as_str())
            && str_eq(self.project_path.as_str(), other.project_path.as_str())
    }
}

impl Clone for RecentSession {
    fn clone(&self) -> (r: Self)
        ensures
            r == *self,
    {
        RecentSession { name: self.name.clone(), project_path: self.project_path.clone() }
    }
}

/// The keys of a list of entries, in order.
pub open spec fn keys_of(s: Seq<RecentSession>) -> Seq<EntryKey> {
    s.map_values(|e: RecentSession| e.key())
}

/// No two elements of `s` are equal.
pub open spec fn distinct_seq<A>(s: Seq<A>) -> bool {
    forall|i: int, j: int| 0 <= i < j < s.len() ==> s[i] != s[j]
}

/// `s` with every occurrence of the key `k` removed, order kept.
pub open spec fn drop_key(s: Seq<EntryKey>, k: EntryKey) -> Seq<EntryKey>
    decreases s.len(),
{
    if s.len() == 0 {
        s
    } else {
        let rest = drop_key(s.drop_last(), k);
        if s.last() == k {
            rest
        } else {
            rest.push(s.last())
        }
    }
}

/// `s` with every entry whose name is `name` removed, order kept.
pub open spec fn drop_name(s: Seq<EntryKey>, name: Seq<char>) -> Seq<EntryKey>
    decreases s.len(),
{
    if s.len() == 0 {
        s
    } else {
        let rest = drop_name(s.drop_last(), name);
        if s.last().0 == name {
            rest
        } else {
            rest.push(s.last())
        }
    }
}

/// `s` clipped to the per-repository bound.
pub open spec fn clip(s: Seq<EntryKey>) -> Seq<EntryKey> {
    if s.len() <= MAX_RECENT_PER_WORKSPACE {
        s
    } else {
        s.take(MAX_RECENT_PER_WORKSPACE as int)
    }
}

/// The list of keys after touching `k`: `k` in front, earlier occurrences of
/// `k` gone, clipped to the bound.
pub open spec fn touch_keys(s: Seq<EntryKey>, k: EntryKey) -> Seq<EntryKey> {
    clip(seq![k] + drop_key(s, k))
}

proof fn lemma_drop_key_shape(s: Seq<EntryKey>, k: EntryKey)
    ensures
        drop_key(s, k).len() <= s.len(),
        forall|p: int| 0 <= p < drop_key(s, k).len() ==> #[trigger] drop_key(s, k)[p] != k,
        forall|p: int|
            0 <= p < drop_key(s, k).len() ==> s.contains(#[trigger] drop_key(s, k)[p]),
        distinct_seq(s) ==> distinct_seq(drop_key(s, k)),
    decreases s.len(),
{
    if s.len() > 0 {
        lemma_drop_key_shape(s.drop_last(), k);
        let rest = drop_key(s.drop_last(), k);
        assert(forall|p: int|
            0 <= p < rest.len() ==> s.contains(#[trigger] rest[p])) by {
            assert(forall|p: int|
                0 <= p < rest.len() ==> s.drop_last().contains(#[trigger] rest[p]));
            assert(forall|q: int|
                0 <= q < s.drop_last().len() ==> s.drop_last()[q] == s[q]);
        };
        if s.last() != k {
            assert(s.contains(s.last())) by {
                assert(s[s.len() - 1] == s.last());
            }
            if distinct_seq(s) {
                assert(distinct_seq(s.drop_last())) by {
                    assert(forall|q: int|
                        0 <= q < s.drop_last().len() ==> s.drop_last()[q] == s[q]);
                }
                assert forall|p: int| 0 <= p < rest.len() implies rest[p] != s.last() by {
                    assert(s.drop_last().contains(rest[p]));
                    let q = choose|q: int|
                        0 <= q < s.drop_last().len() && s.drop_last()[q] == rest[p];
                    assert(s[q] == rest[p]);
                    assert(s[q] != s[s.len() - 1]);
                }
            }
        } else {
            if distinct_seq(s) {
                assert(distinct_seq(s.drop_last())) by {
                    assert(forall|q: int|
                        0 <= q < s.drop_last().len() ==> s.drop_last()[q] == s[q]);
                }
            }
        }
    }
}

proof fn lemma_drop_name_shape(s: Seq<EntryKey>, name: Seq<char>)
    ensures
        drop_name(s, name).len() <= s.len(),
        forall|p: int|
            0 <= p < drop_name(s, name).len() ==> s.contains(#[trigger] drop_name(s, name)[p]),
        distinct_seq(s) ==> distinct_seq(drop_name(s, name)),
    decreases s.len(),
{
    if s.len() > 0 {
        lemma_drop_name_shape(s.drop_last(), name);
        let rest = drop_name(s.drop_last(), name);
        assert(forall|p: int|
            0 <= p < rest.len() ==> s.contains(#[trigger] rest[p])) by {
            assert(forall|p: int|
                0 <= p < rest.len() ==> s.drop_last().contains(#[trigger] rest[p]));
            assert(forall|q: int|
                0 <= q < s.drop_last().len() ==> s.drop_last()[q] == s[q]);
        };
        if s.last().0 != name && distinct_seq(s) {
            assert(s.contains(s.last())) by {
                assert(s[s.len() - 1] == s.last());
            }
            assert(distinct_seq(s.drop_last())) by {
                assert(forall|q: int|
                    0 <= q < s.drop_last().len() ==> s.drop_last()[q] == s[q]);
            }
            assert forall|p: int| 0 <= p < rest.len() implies rest[p] != s.last() by {
                assert(s.drop_last().contains(rest[p]));
                let q = choose|q: int|
                    0 <= q < s.drop_last().len() && s.drop_last()[q] == rest[p];
                assert(s[q] == rest[p]);
                assert(s[q] != s[s.len() - 1]);
            }
        } else if distinct_seq(s) {
            assert(distinct_seq(s.drop_last())) by {
                assert(forall|q: int|
                    0 <= q < s.drop_last().len() ==> s.drop_last()[q] == s[q]);
            }
        }
    }
}

/// Touching keeps lists distinct and within the bound, and puts the touched
/// key in front.
pub proof fn lemma_touch_keys_wf(s: Seq<EntryKey>, k: EntryKey)
    requires
        distinct_seq(s),
    ensures
        distinct_seq(touch_keys(s, k)),
        1 <= touch_keys(s, k).len() <= MAX_RECENT_PER_WORKSPACE,
        touch_keys(s, k)[0] == k,
{
    lemma_drop_key_shape(s, k);
    let cleaned = seq![k] + drop_key(s, k);
    assert(cleaned[0] == k);
    assert(forall|p: int| 1 <= p < cleaned.len() ==> cleaned[p] == drop_key(s, k)[p - 1]);
    assert(distinct_seq(cleaned));
    if cleaned.len() > MAX_RECENT_PER_WORKSPACE {
        let t = cleaned.take(MAX_RECENT_PER_WORKSPACE as int);
        assert(forall|p: int| 0 <= p < t.len() ==> t[p] == cleaned[p]);
        assert(distinct_seq(t));
    }
}

/// Stores recent sessions per repository name.
pub struct SessionHistory {
    pub recent_sessions: Vec<(String, Vec<RecentSession>)>,
}

impl SessionHistory {
    /// Whether some table row carries this repository name.
    pub open spec fn has_repo(self, repo: Seq<char>) -> bool {
        exists|i: int|
            0 <= i < self.recent_sessions@.len() && self.recent_sessions@[i].0@ == repo
    }

    /// The index of this repository's row (meaningful under `wf`).
    pub open spec fn repo_index(self, repo: Seq<char>) -> int {
        choose|i: int|
            0 <= i < self.recent_sessions@.len() && self.recent_sessions@[i].0@ == repo
    }

    /// The list of entries stored for this repository.
    pub open spec fn repo_list(self, repo: Seq<char>) -> Seq<RecentSession> {
        self.recent_sessions@[self.repo_index(repo)].1@
    }

    /// The list for this repository, or empty when the repository is unknown.
    pub open spec fn list_or_empty(self, repo: Seq<char>) -> Seq<RecentSession> {
        if self.has_repo(repo) {
            self.repo_list(repo)
        } else {
            Seq::empty()
        }
    }

    /// Well-formedness: repository names are unique; each list is within the
    /// bound and free of duplicate entries.
    pub open spec fn wf(self) -> bool {
        &&& forall|i: int, j: int|
            0 <= i < j < self.recent_sessions@.len()
                ==> (#[trigger] self.recent_sessions@[i]).0@
                != (#[trigger] self.recent_sessions@[j]).0@
        &&& forall|i: int|
            0 <= i < self.recent_sessions@.len() ==> {
                let l = (#[trigger] self.recent_sessions@[i]).1@;
                l.len() <= MAX_RECENT_PER_WORKSPACE && distinct_seq(keys_of(l))
            }
    }

    /// Under `wf`, a row holding `repo` is the row `repo_index` names.
    pub proof fn lemma_repo_index(self, repo: Seq<char>, i: int)
        requires
            self.wf(),
            0 <= i < self.recent_sessions@.len(),
            self.recent_sessions@[i].0@ == repo,
        ensures
            self.has_repo(repo),
            self.repo_index(repo) == i,
    {
        assert(self.has_repo(repo));
        let j = self.repo_index(repo);
        if j != i {
            if j < i {
                assert(self.recent_sessions@[j].0@ != self.recent_sessions@[i].0@);
            } else {
                assert(self.recent_sessions@[i].0@ != self.recent_sessions@[j].0@);
            }
        }
    }

    fn find_repo(&self, repo_name: &str) -> (r: Option<usize>)
        ensures
            match r {
                Some(i) => i < self.recent_sessions@.len()
                    && self.recent_sessions@[i as int].0@ == repo_name@,
                None => !self.has_repo(repo_name@),
            },
    {
        let n = self.recent_sessions.len();
        let mut i: usize = 0;
        while i < n
            invariant
                n == self.recent_sessions@.len(),
                i <= n,
                forall|j: int|
                    0 <= j < i ==> (#[trigger] self.recent_sessions@[j]).0@ != repo_name@,
            decreases n - i,
        {
            if str_eq(self.recent_sessions[i].0.as_str(), repo_name) {
                return Some(i);
            }
            i += 1;
        }
        None
    }

    /// Remember `session_name` at `project_path` for `repo_name`: the entry
    /// moves to the front of that repository's list, any equal entry is
    /// removed, and the list is trimmed to the bound. Other repositories are
    /// untouched.
    pub fn set_recent_session(
        &mut self,
        repo_name: String,
        session_name: String,
        project_path: String,
    )
        requires
            old(self).wf(),
        ensures
            final(self).wf(),
            final(self).has_repo(repo_name@),
            keys_of(final(self).repo_list(repo_name@)) == touch_keys(
                keys_of(old(self).list_or_empty(repo_name@)),
                (session_name@, project_path@),
            ),
            final(self).repo_list(repo_name@).len() >= 1,
            keys_of(final(self).repo_list(repo_name@))[0] == (session_name@, project_path@),
            forall|r: Seq<char>|
                r != repo_name@ ==> #[trigger] final(self).has_repo(r) == old(self).has_repo(r),
            forall|r: Seq<char>|
                r != repo_name@ && old(self).has_repo(r)
                    ==> #[trigger] final(self).repo_list(r) == old(self).repo_list(r),
    {
        let ghost k: EntryKey = (session_name@, project_path@);
        let ghost prior = *self;

        let i: usize;
        match self.find_repo(repo_name.as_str()) {
            Some(j) => {
                i = j;
            }
            None => {
                i = self.recent_sessions.len();
                self.recent_sessions.push((repo_name.clone(), Vec::new()));
            }
        }
        let ghost mid = *self;
        proof {
            assert(mid.recent_sessions@[i as int].0@ == repo_name@);
            assert(mid.wf()) by {
                if !prior.has_repo(repo_name@) {
                    assert(forall|q: int|
                        0 <= q < prior.recent_sessions@.len()
                            ==> mid.recent_sessions@[q] == prior.recent_sessions@[q]);
                    assert(forall|q: int|
                        0 <= q < prior.recent_sessions@.len()
                            ==> (#[trigger] prior.recent_sessions@[q]).0@ != repo_name@);
                    assert(keys_of(Seq::<RecentSession>::empty()) =~= Seq::<EntryKey>::empty());
                }
            }
            assert(keys_of(mid.recent_sessions@[i as int].1@)
                == keys_of(prior.list_or_empty(repo_name@))) by {
                if prior.has_repo(repo_name@) {
                    prior.lemma_repo_index(repo_name@, i as int);
                } else {
                    assert(mid.recent_sessions@[i as int].1@ =~= Seq::<RecentSession>::empty());
                    assert(keys_of(Seq::<RecentSession>::empty()) =~= Seq::<EntryKey>::empty());
                    assert(keys_of(mid.recent_sessions@[i as int].1@)
                        =~= keys_of(prior.list_or_empty(repo_name@)));
                }
            }
        }

        let pair = self.recent_sessions.remove(i);
        let repo_key = pair.0;
        let old_list = pair.1;
        let ghost old_keys = keys_of(old_list@);
        let entry = RecentSession { name: session_name, project_path };
        proof {
            assert(entry.key() == k);
        }

        let mut new_list: Vec<RecentSession> = Vec::new();
        new_list.push(entry.clone());
        proof {
            assert(keys_of(new_list@) =~= clip(seq![k] + drop_key(old_keys.take(0), k)));
        }

        let n = old_list.len();
        let mut j: usize = 0;
        while j < n
            invariant
                n == old_list@.len(),
                j <= n,
                old_keys == keys_of(old_list@),
                entry.key() == k,
                new_list@.len() >= 1,
                keys_of(new_list@) == clip(seq![k] + drop_key(old_keys.take(j as int), k)),
            decreases n - j,
        {
            let e = &old_list[j];
            let ghost taken = old_keys.take(j as int);
            let ghost taken1 = old_keys.take(j + 1);
            proof {
                assert(taken1.drop_last() =~= taken);
                assert(taken1.last() == old_keys[j as int]);
                assert(old_keys[j as int] == old_list@[j as int].key());
            }
            let is_same = e.same_entry(&entry);
            if !is_same && new_list.len() < MAX_RECENT_PER_WORKSPACE {
                let ghost cleaned = seq![k] + drop_key(taken, k);
                let ghost before = new_list@;
                proof {
                    assert(keys_of(before).len() == before.len());
                    assert(keys_of(before) == clip(cleaned));
                    assert(cleaned.len() <= MAX_RECENT_PER_WORKSPACE) by {
                        if cleaned.len() > MAX_RECENT_PER_WORKSPACE {
                            assert(clip(cleaned).len() == MAX_RECENT_PER_WORKSPACE);
                        }
                    }
                    assert(clip(cleaned) == cleaned);
                    assert(drop_key(taken1, k) == drop_key(taken, k).push(e.key()));
                }
                new_list.push(e.clone());
                proof {
                    assert(new_list@ == before.push(*e));
                    assert(keys_of(new_list@) =~= keys_of(before).push(e.key()));
                    let cleaned1 = seq![k] + drop_key(taken1, k);
                    assert(cleaned1 =~= cleaned.push(e.key()));
                    assert(cleaned1.len() <= MAX_RECENT_PER_WORKSPACE);
                    assert(clip(cleaned1) == cleaned1);
                    assert(keys_of(new_list@) =~= cleaned1);
                }
            } else {
                proof {
                    if is_same {
                        assert(drop_key(taken1, k) == drop_key(taken, k));
                        assert(keys_of(new_list@) =~= clip(seq![k] + drop_key(taken1, k)));
                    } else {
                        let cleaned = seq![k] + drop_key(taken, k);
                        let cleaned1 = seq![k] + drop_key(taken1, k);
                        assert(drop_key(taken1, k) == drop_key(taken, k).push(e.key()));
                        assert(clip(cleaned).len() == MAX_RECENT_PER_WORKSPACE);
                        assert(cleaned.len() >= MAX_RECENT_PER_WORKSPACE);
                        assert(clip(cleaned1) =~= clip(cleaned));
                    }
                }
            }
            j += 1;
        }
        proof {
            assert(old_keys.take(n as int) =~= old_keys);
        }

        let ghost new_list_snap = new_list@;
        self.recent_sessions.insert(i, (repo_key, new_list));

        proof {
            let fin = *self;
            assert(fin.recent_sessions@ =~= mid.recent_sessions@.update(
                i as int,
                (repo_key, fin.recent_sessions@[i as int].1),
            ));
            assert(fin.recent_sessions@[i as int].1@ == new_list_snap);
            assert(fin.recent_sessions@.len() == mid.recent_sessions@.len());
            assert(forall|q: int|
                0 <= q < mid.recent_sessions@.len() && q != i as int
                    ==> fin.recent_sessions@[q] == mid.recent_sessions@[q]);
            assert(fin.recent_sessions@[i as int].0@ == repo_name@);

            assert(distinct_seq(old_keys)) by {
                if prior.has_repo(repo_name@) {
                    prior.lemma_repo_index(repo_name@, i as int);
                }
            }
            lemma_touch_keys_wf(old_keys, k);
            assert(keys_of(new_list_snap) == touch_keys(old_keys, k));

            assert(fin.wf()) by {
                assert(keys_of(new_list_snap).len() == new_list_snap.len());
            }
            fin.lemma_repo_index(repo_name@, i as int);
            assert(fin.repo_list(repo_name@) == new_list_snap);

            assert forall|r: Seq<char>| r != repo_name@ implies
                #[trigger] fin.has_repo(r) == prior.has_repo(r) by {
                if prior.has_repo(r) {
                    let q = prior.repo_index(r);
                    assert(prior.recent_sessions@[q].0@ == r);
                    assert(mid.recent_sessions@[q] == prior.recent_sessions@[q]);
                    assert(fin.recent_sessions@[q].0@ == r);
                    assert(fin.has_repo(r));
                }
                if fin.has_repo(r) {
                    let q = fin.repo_index(r);
                    assert(fin.recent_sessions@[q].0@ == r);
                    assert(q != i as int);
                    assert(mid.recent_sessions@[q] == fin.recent_sessions@[q]);
                    if !prior.has_repo(repo_name@) && q == prior.recent_sessions@.len() as int {
                        assert(mid.recent_sessions@[q].0@ == repo_name@);
                        assert(false);
                    }
                    assert(prior.recent_sessions@[q].0@ == r);
                    assert(prior.has_repo(r));
                }
            }
            assert forall|r: Seq<char>| r != repo_name@ && prior.has_repo(r) implies
                #[trigger] fin.repo_list(r) == prior.repo_list(r) by {
                let q = prior.repo_index(r);
                assert(prior.wf());
                prior.lemma_repo_index(r, q);
                assert(mid.recent_sessions@[q] == prior.recent_sessions@[q]);
                assert(fin.recent_sessions@[q] == prior.recent_sessions@[q]);
                fin.lemma_repo_index(r, q);
            }
        }
    }

    /// Decide well-formedness: repository names unique, every list within
    /// the bound and free of duplicate entries.
    pub fn check_wf(&self) -> (r: bool)
        ensures
            r == self.wf(),
    {
        let n = self.recent_sessions.len();
        let mut i: usize = 0;
        while i < n
            invariant
                n == self.recent_sessions@.len(),
                i <= n,
                forall|a: int, b: int|
                    0 <= a < b < self.recent_sessions@.len() && a < i
                        ==> (#[trigger] self.recent_sessions@[a]).0@
                        != (#[trigger] self.recent_sessions@[b]).0@,
                forall|a: int|
                    0 <= a < i ==> {
                        let l = (#[trigger] self.recent_sessions@[a]).1@;
                        l.len() <= MAX_RECENT_PER_WORKSPACE && distinct_seq(keys_of(l))
                    },
            decreases n - i,
        {
            let mut j: usize = i + 1;
            while j < n
                invariant
                    n == self.recent_sessions@.len(),
                    i < j <= n,
                    i < n,
                    forall|b: int|
                        i < b < j ==> (#[trigger] self.recent_sessions@[b]).0@
                            != self.recent_sessions@[i as int].0@,
                decreases n - j,
            {
                if str_eq(
                    self.recent_sessions[i].0.as_str(),
                    self.recent_sessions[j].0.as_str(),
                ) {
                    proof {
                        assert(!self.wf()) by {
                            assert(self.recent_sessions@[i as int].0@
                                == self.recent_sessions@[j as int].0@);
                        }
                    }
                    return false;
                }
                j += 1;
            }
            let list = &self.recent_sessions[i].1;
            if list.len() > MAX_RECENT_PER_WORKSPACE {
                proof {
                    assert(!self.wf()) by {
                        assert((self.recent_sessions@[i as int]).1@.len()
                            > MAX_RECENT_PER_WORKSPACE);
                    }
                }
                return false;
            }
            let ln = list.len();
            let mut a: usize = 0;
            while a < ln
                invariant
                    ln == list@.len(),
                    a <= ln,
                    i < n,
                    n == self.recent_sessions@.len(),
                    list@ == (self.recent_sessions@[i as int]).1@,
                    forall|x: int, y: int|
                        0 <= x < y < ln && x < a ==> keys_of(list@)[x] != keys_of(
                            list@,
                        )[y],
                decreases ln - a,
            {
                let mut b2: usize = a + 1;
                while b2 < ln
                    invariant
                        ln == list@.len(),
                        a < b2 <= ln,
                        a < ln,
                        i < n,
                        n == self.recent_sessions@.len(),
                        list@ == (self.recent_sessions@[i as int]).1@,
                        forall|y: int|
                            a < y < b2 ==> keys_of(list@)[y] != keys_of(list@)[a as int],
                    decreases ln - b2,
                {
                    if list[a].same_entry(&list[b2]) {
                        proof {
                            let ks = keys_of(list@);
                            assert(ks[a as int] == list@[a as int].key());
                            assert(ks[b2 as int] == list@[b2 as int].key());
                            assert(ks[a as int] == ks[b2 as int]);
                            assert(0 <= a < b2 < ks.len());
                            assert(!distinct_seq(ks));
                            assert((self.recent_sessions@[i as int]).1@ == list@);
                            assert(!self.wf());
                        }
                        return false;
                    }
                    proof {
                        assert(keys_of(list@)[b2 as int] == list@[b2 as int].key());
                        assert(keys_of(list@)[a as int] == list@[a as int].key());
                    }
                    b2 += 1;
                }
                a += 1;
            }
            proof {
                assert(distinct_seq(keys_of(list@)));
            }
            i += 1;
        }
        true
    }

    /// The most recent session for a repository, if any.
    pub fn get_recent_session(&self, repo_name: &str) -> (r: Option<&RecentSession>)
        requires
            self.wf(),
        ensures
            match r {
                Some(e) => self.has_repo(repo_name@) && self.repo_list(repo_name@).len() > 0
                    && *e == self.repo_list(repo_name@)[0],
                None => !self.has_repo(repo_name@) || self.repo_list(repo_name@).len() == 0,
            },
    {
        match self.find_repo(repo_name) {
            Some(i) => {
                proof {
                    self.lemma_repo_index(repo_name@, i as int);
                }
                let list = &self.recent_sessions[i].1;
                if list.len() > 0 {
                    Some(&list[0])
                } else {
                    None
                }
            }
            None => None,
        }
    }

    /// All recent sessions for a repository, most recent first.
    pub fn get_recent_sessions(&self, repo_name: &str) -> (r: Vec<RecentSession>)
        requires
            self.wf(),
        ensures
            r@ == self.list_or_empty(repo_name@),
    {
        match self.find_repo(repo_name) {
            Some(i) => {
                proof {
                    self.lemma_repo_index(repo_name@, i as int);
                }
                let list = &self.recent_sessions[i].1;
                let n = list.len();
                let mut out: Vec<RecentSession> = Vec::new();
                let mut j: usize = 0;
                while j < n
                    invariant
                        n == list@.len(),
                        j <= n,
                        out@ == list@.take(j as int),
                    decreases n - j,
                {
                    out.push(list[j].clone());
                    proof {
                        assert(out@ =~= list@.take(j + 1));
                    }
                    j += 1;
                }
                proof {
                    assert(list@.take(n as int) =~= list@);
                }
                out
            }
            None => Vec::new(),
        }
    }

    /// Remove every entry named `session_name` from a repository's list.
    pub fn remove_by_name(&mut self, repo_name: &str, session_name: &str)
        requires
            old(self).wf(),
        ensures
            final(self).wf(),
            forall|r: Seq<char>|
                #[trigger] final(self).has_repo(r) == old(self).has_repo(r),
            old(self).has_repo(repo_name@) ==> keys_of(
                final(self).repo_list(repo_name@),
            ) == drop_name(keys_of(old(self).repo_list(repo_name@)), session_name@),
            forall|r: Seq<char>|
                r != repo_name@ && old(self).has_repo(r)
                    ==> #[trigger] final(self).repo_list(r) == old(self).repo_list(r),
            !old(self).has_repo(repo_name@) ==> *final(self) == *old(self),
    {
        let ghost prior = *self;
        let found = self.find_repo(repo_name);
        match found {
            None => {
            }
            Some(i) => {
                proof {
                    prior.lemma_repo_index(repo_name@, i as int);
                }
                let pair = self.recent_sessions.remove(i);
                let repo_key = pair.0;
                let old_list = pair.1;
                let ghost old_keys = keys_of(old_list@);

                let mut new_list: Vec<RecentSession> = Vec::new();
                let n = old_list.len();
                let mut j: usize = 0;
                while j < n
                    invariant
                        n == old_list@.len(),
                        j <= n,
                        old_keys == keys_of(old_list@),
                        keys_of(new_list@) == drop_name(old_keys.take(j as int), session_name@),
                        new_list@.len() <= j,
                    decreases n - j,
                {
                    let e = &old_list[j];
                    let ghost taken = old_keys.take(j as int);
                    let ghost taken1 = old_keys.take(j + 1);
                    proof {
                        assert(taken1.drop_last() =~= taken);
                        assert(taken1.last() == old_keys[j as int]);
                        assert(old_keys[j as int] == old_list@[j as int].key());
                    }
                    if !str_eq(e.name.as_str(), session_name) {
                        new_list.push(e.clone());
                        proof {
                            assert(keys_of(new_list@) =~= drop_name(taken1, session_name@));
                        }
                    } else {
                        proof {
                            assert(keys_of(new_list@) =~= drop_name(taken1, session_name@));
                        }
                    }
                    j += 1;
                }
                proof {
                    assert(old_keys.take(n as int) =~= old_keys);
                }

                let ghost new_list_snap = new_list@;
                let ghost mid = *self;
                self.recent_sessions.insert(i, (repo_key, new_list));

                proof {
                    let fin = *self;
                    assert(fin.recent_sessions@ =~= prior.recent_sessions@.update(
                        i as int,
                        (repo_key, fin.recent_sessions@[i as int].1),
                    ));
                    assert(fin.recent_sessions@[i as int].1@ == new_list_snap);
                    assert(forall|q: int|
                        0 <= q < prior.recent_sessions@.len() && q != i as int
                            ==> fin.recent_sessions@[q] == prior.recent_sessions@[q]);
                    assert(fin.recent_sessions@[i as int].0@ == repo_name@);

                    lemma_drop_name_shape(old_keys, session_name@);
                    assert(keys_of(new_list_snap) == drop_name(old_keys, session_name@));
                    assert(fin.wf()) by {
                        assert(keys_of(new_list_snap).len() == new_list_snap.len());
                        assert(new_list_snap.len() <= MAX_RECENT_PER_WORKSPACE);
                    }
                    fin.lemma_repo_index(repo_name@, i as int);

                    assert forall|r: Seq<char>| #[trigger] fin.has_repo(r)
                        == prior.has_repo(r) by {
                        if prior.has_repo(r) {
                            let q = prior.repo_index(r);
                            assert(fin.recent_sessions@[q].0@ == r);
                        }
                        if fin.has_repo(r) {
                            let q = fin.repo_index(r);
                            assert(prior.recent_sessions@[q].0@ == r);
                        }
                    }
                    assert forall|r: Seq<char>| r != repo_name@ && prior.has_repo(r) implies
                        #[trigger] fin.repo_list(r) == prior.repo_list(r) by {
                        let q = prior.repo_index(r);
                        prior.lemma_repo_index(r, q);
                        assert(fin.recent_sessions@[q] == prior.recent_sessions@[q]);
                        fin.lemma_repo_index(r, q);
                    }
                }
            }
        }
    }
}

impl Default for SessionHistory {
    /// An empty history.
    fn default() -> (h: Self)
        ensures
            h.wf(),
            h.recent_sessions@.len() == 0,
    {
        SessionHistory { recent_sessions: Vec::new() }
    }
}

} // verus!
