//! The versions of a session: the commits of its history, the state saved at each
//! commit, the head of each branch, and the moves between them (record, branch,
//! checkout, undo, redo).

use vstd::prelude::*;
use crate::refs::{AetherError, ErrorV};
use crate::session::{
    branch_decision, checkout_target, commits_unique, history_view, parent_of, redo_spec, redo_target, undo_spec,
    undo_target, EntryView, HistoryEntry,
};
use crate::text::{
    first_index, keys_distinct, lemma_first_index, lemma_first_index_props, lemma_table_index, lemma_table_push,
    lemma_table_replace, owned, push_str, str_eq, table, text_pairs,
};

verus! {

// ---------------------------------------------------------------------------
// The model
// ---------------------------------------------------------------------------

/// The state saved at a commit.
pub struct Checkpoint<P> {
    pub commit: String,
    pub state: P,
}

/// The versions of a session: the current branch and commit, the history of
/// commits, the state saved at each commit and the head commit of each branch.
/// The empty commit stands for the state before any commit.
pub struct VersionStore<P> {
    branch: String,
    commit: String,
    history: Vec<HistoryEntry>,
    checkpoints: Vec<Checkpoint<P>>,
    heads: Vec<(String, String)>,
}

/// The versions of a session, as values.
pub struct VersionsView<P> {
    pub branch: Seq<char>,
    pub commit: Seq<char>,
    pub history: Seq<EntryView>,
    pub checkpoints: Map<Seq<char>, P>,
    pub heads: Map<Seq<char>, Seq<char>>,
}

/// The entries of the saved states, by commit.
pub open spec fn checkpoint_entries<P>(s: Seq<Checkpoint<P>>) -> Seq<(Seq<char>, P)> {
    s.map_values(|c: Checkpoint<P>| (c.commit@, c.state))
}

impl<P> View for VersionStore<P> {
    type V = VersionsView<P>;

    closed spec fn view(&self) -> VersionsView<P> {
        VersionsView {
            branch: self.branch@,
            commit: self.commit@,
            history: history_view(self.history@),
            checkpoints: table(checkpoint_entries(self.checkpoints@)),
            heads: table(text_pairs(self.heads@)),
        }
    }
}

/// A session can be at commit `c`: the empty commit, or one whose state is saved.
pub open spec fn restorable<P>(s: VersionsView<P>, c: Seq<char>) -> bool {
    c.len() == 0 || s.checkpoints.contains_key(c)
}

/// Every commit the session is at, or can move to by checkout, undo or redo, has
/// its state saved (or is the empty commit), and each commit is recorded once.
pub open spec fn consistent<P>(s: VersionsView<P>) -> bool {
    &&& restorable(s, s.commit)
    &&& forall|n: Seq<char>| #[trigger] s.heads.contains_key(n) ==> restorable(s, s.heads[n])
    &&& forall|i: int| 0 <= i < s.history.len() ==> restorable(s, (#[trigger] s.history[i]).commit)
        && restorable(s, parent_of(s.history[i]))
    &&& commits_unique(s.history)
}

/// The versions of a new session: on branch `main`, whose head is the empty commit,
/// with nothing recorded.
pub open spec fn initial_versions<P>() -> VersionsView<P> {
    VersionsView {
        branch: "main"@,
        commit: Seq::empty(),
        history: Seq::empty(),
        checkpoints: Map::empty(),
        heads: Map::empty().insert("main"@, Seq::empty()),
    }
}

/// The history after recording entry `e`: an entry of the same commit leaves its
/// place, and `e` comes last.
pub open spec fn recorded_history(h: Seq<EntryView>, e: EntryView) -> Seq<EntryView> {
    match first_index(h, |x: EntryView| x.commit == e.commit) {
        Some(i) => h.remove(i).push(e),
        None => h.push(e),
    }
}

/// The versions after recording commit `hash` with state `state`: the commit becomes
/// current and the head of the current branch, its parent being the commit before.
pub open spec fn record_spec<P>(s: VersionsView<P>, hash: Seq<char>, state: P) -> VersionsView<P> {
    VersionsView {
        branch: s.branch,
        commit: hash,
        history: recorded_history(s.history, EntryView { commit: hash, parent: Some(s.commit), branch: s.branch }),
        checkpoints: s.checkpoints.insert(hash, state),
        heads: s.heads.insert(s.branch, hash),
    }
}

/// The versions at `commit` on `branch`, all else as in `s`.
pub open spec fn moved<P>(s: VersionsView<P>, branch: Seq<char>, commit: Seq<char>) -> VersionsView<P> {
    VersionsView { branch, commit, ..s }
}

/// Creating branch `name`: refused when the branch exists; else its head is the
/// current commit.
pub open spec fn branch_spec<P>(s: VersionsView<P>, name: Seq<char>) -> (VersionsView<P>, Result<Seq<char>, Seq<char>>) {
    if s.heads.contains_key(name) {
        (s, Err("Branch '"@ + name + "' already exists"@))
    } else {
        (VersionsView { heads: s.heads.insert(name, s.commit), ..s }, Ok("Branch '"@ + name + "' created successfully"@))
    }
}

/// Checking out `name`: the head of branch `name`, which becomes current; else the
/// commit `name` when its state is saved, detached from any branch; else refused.
pub open spec fn checkout_spec<P>(s: VersionsView<P>, name: Seq<char>) -> (VersionsView<P>, Result<Seq<char>, Seq<char>>) {
    if s.heads.contains_key(name) {
        (moved(s, name, s.heads[name]), Ok("Switched to branch or commit '"@ + name + "'"@))
    } else if s.checkpoints.contains_key(name) {
        (moved(s, "detached"@, name), Ok("Switched to branch or commit '"@ + name + "'"@))
    } else {
        (s, Err("Branch or commit '"@ + name + "' not found"@))
    }
}

/// Undo: back to the parent of the current commit, on the same branch.
pub open spec fn undo_versions<P>(s: VersionsView<P>) -> (VersionsView<P>, Result<Seq<char>, Seq<char>>) {
    match undo_spec(s.commit, s.history) {
        Ok(t) => (moved(s, s.branch, t), Ok("Successfully rolled back project to state '"@ + t + "'"@)),
        Err(m) => (s, Err(m)),
    }
}

/// Redo: forward to the first commit recorded on the current branch whose parent
/// is the current commit.
pub open spec fn redo_versions<P>(s: VersionsView<P>) -> (VersionsView<P>, Result<Seq<char>, Seq<char>>) {
    match redo_spec(s.commit, s.branch, s.history) {
        Ok(t) => (moved(s, s.branch, t), Ok("Successfully fast-forwarded project to state '"@ + t + "'"@)),
        Err(m) => (s, Err(m)),
    }
}

/// `r` is the message or the refusal `e` gives.
pub open spec fn message_outcome(r: Result<String, AetherError>, e: Result<Seq<char>, Seq<char>>) -> bool {
    match e {
        Ok(m) => r matches Ok(x) && x@ == m,
        Err(m) => r matches Err(x) && x@ == ErrorV::OperationFailed(m),
    }
}

// ---------------------------------------------------------------------------
// The store
// ---------------------------------------------------------------------------

proof fn lemma_history_replace(h: Seq<HistoryEntry>, i: int, e: HistoryEntry)
    requires
        0 <= i < h.len(),
    ensures
        history_view(h.remove(i).push(e)) == history_view(h).remove(i).push(e@),
{
    assert(history_view(h.remove(i).push(e)) =~= history_view(h).remove(i).push(e@));
}

proof fn lemma_history_push(h: Seq<HistoryEntry>, e: HistoryEntry)
    ensures
        history_view(h.push(e)) == history_view(h).push(e@),
{
    assert(history_view(h.push(e)) =~= history_view(h).push(e@));
}

/// Recording an entry keeps each commit recorded once.
proof fn lemma_recorded_unique(h: Seq<EntryView>, e: EntryView)
    requires
        commits_unique(h),
    ensures
        commits_unique(recorded_history(h, e)),
        forall|j: int| 0 <= j < recorded_history(h, e).len() - 1 ==> h.contains(#[trigger] recorded_history(h, e)[j]),
        recorded_history(h, e).len() > 0,
        recorded_history(h, e).last() == e,
{
    let p = |x: EntryView| x.commit == e.commit;
    lemma_first_index_props(h, p);
    let t = recorded_history(h, e);
    match first_index(h, p) {
        Some(i) => {
            let r = h.remove(i);
            assert forall|a: int, b: int| 0 <= a < t.len() && 0 <= b < t.len() && a != b implies t[a].commit != t[b].commit by {
                if a < r.len() {
                    let oa = if a < i { a } else { a + 1 };
                    assert(t[a] == h[oa]);
                    assert(oa != i);
                }
                if b < r.len() {
                    let ob = if b < i { b } else { b + 1 };
                    assert(t[b] == h[ob]);
                    assert(ob != i);
                }
                if a < r.len() && b < r.len() {
                    let oa = if a < i { a } else { a + 1 };
                    let ob = if b < i { b } else { b + 1 };
                    assert(oa != ob);
                } else if a < r.len() {
                    let oa = if a < i { a } else { a + 1 };
                    assert(h[oa].commit != h[i].commit);
                } else if b < r.len() {
                    let ob = if b < i { b } else { b + 1 };
                    assert(h[ob].commit != h[i].commit);
                }
            }
            assert forall|j: int| 0 <= j < t.len() - 1 implies h.contains(#[trigger] t[j]) by {
                let oj = if j < i { j } else { j + 1 };
                assert(t[j] == h[oj]);
            }
        },
        None => {
            assert forall|a: int, b: int| 0 <= a < t.len() && 0 <= b < t.len() && a != b implies t[a].commit != t[b].commit by {
                if a < h.len() && b < h.len() {
                } else if a < h.len() {
                    assert(!p(h[a]));
                } else if b < h.len() {
                    assert(!p(h[b]));
                }
            }
            assert forall|j: int| 0 <= j < t.len() - 1 implies h.contains(#[trigger] t[j]) by {
                assert(t[j] == h[j]);
            }
        },
    }
}

impl<P> VersionStore<P> {
    /// The store's invariant: one saved state per commit, one head per branch, and
    /// the versions consistent.
    pub closed spec fn wf(&self) -> bool {
        &&& keys_distinct(checkpoint_entries(self.checkpoints@))
        &&& keys_distinct(text_pairs(self.heads@))
        &&& consistent(self@)
    }

    /// The versions of a new session: on branch `main`, at the empty commit.
    pub fn new() -> (s: Self)
        ensures
            s.wf(),
            s@ == initial_versions::<P>(),
    {
        let mut heads: Vec<(String, String)> = Vec::new();
        heads.push((owned("main"), String::new()));
        let s = VersionStore { branch: owned("main"), commit: String::new(), history: Vec::new(), checkpoints: Vec::new(), heads };
        proof {
            let e: Seq<(Seq<char>, Seq<char>)> = Seq::empty();
            assert(table(e) =~= Map::<Seq<char>, Seq<char>>::empty());
            lemma_table_push(e, "main"@, Seq::<char>::empty());
            assert(text_pairs(s.heads@) =~= e.push(("main"@, Seq::<char>::empty())));
            assert(table(checkpoint_entries(s.checkpoints@)) =~= Map::<Seq<char>, P>::empty());
            assert(history_view(s.history@) =~= Seq::<EntryView>::empty());
            assert(s@.heads =~= initial_versions::<P>().heads);
        }
        s
    }

    fn find_head(&self, name: &str) -> (r: Option<usize>)
        requires
            keys_distinct(text_pairs(self.heads@)),
        ensures
            match r {
                Some(i) => i < self.heads@.len() && self.heads@[i as int].0@ == name@
                    && self@.heads.contains_key(name@) && self@.heads[name@] == self.heads@[i as int].1@,
                None => !self@.heads.contains_key(name@),
            },
    {
        let ghost e = text_pairs(self.heads@);
        let mut i: usize = 0;
        while i < self.heads.len()
            invariant
                e == text_pairs(self.heads@),
                keys_distinct(e),
                i <= self.heads@.len(),
                forall|j: int| 0 <= j < i ==> (#[trigger] self.heads@[j]).0@ != name@,
            decreases self.heads.len() - i,
        {
            if str_eq(self.heads[i].0.as_str(), name) {
                proof {
                    lemma_table_index(e, i as int);
                }
                return Some(i);
            }
            i = i + 1;
        }
        proof {
            if table(e).contains_key(name@) {
                let j = choose|j: int| 0 <= j < e.len() && e[j].0 == name@;
                assert(self.heads@[j].0@ == e[j].0);
            }
        }
        None
    }

    fn find_checkpoint(&self, commit: &str) -> (r: Option<usize>)
        requires
            keys_distinct(checkpoint_entries(self.checkpoints@)),
        ensures
            match r {
                Some(i) => i < self.checkpoints@.len() && self.checkpoints@[i as int].commit@ == commit@
                    && self@.checkpoints.contains_key(commit@) && self@.checkpoints[commit@] == self.checkpoints@[i as int].state,
                None => !self@.checkpoints.contains_key(commit@),
            },
    {
        let ghost e = checkpoint_entries(self.checkpoints@);
        let mut i: usize = 0;
        while i < self.checkpoints.len()
            invariant
                e == checkpoint_entries(self.checkpoints@),
                keys_distinct(e),
                i <= self.checkpoints@.len(),
                forall|j: int| 0 <= j < i ==> (#[trigger] self.checkpoints@[j]).commit@ != commit@,
            decreases self.checkpoints.len() - i,
        {
            if str_eq(self.checkpoints[i].commit.as_str(), commit) {
                proof {
                    lemma_table_index(e, i as int);
                }
                return Some(i);
            }
            i = i + 1;
        }
        proof {
            if table(e).contains_key(commit@) {
                let j = choose|j: int| 0 <= j < e.len() && e[j].0 == commit@;
                assert(self.checkpoints@[j].commit@ == e[j].0);
            }
        }
        None
    }

    /// Creates branch `name` with the current commit as its head; refused, changing
    /// nothing, when the branch exists.
    pub fn create_branch(&mut self, name: &str) -> (r: Result<String, AetherError>)
        requires
            old(self).wf(),
        ensures
            final(self).wf(),
            final(self)@ == branch_spec(old(self)@, name@).0,
            message_outcome(r, branch_spec(old(self)@, name@).1),
    {
        let found = self.find_head(name);
        let r = branch_decision(name, found.is_some());
        if found.is_none() {
            let ghost before = self@;
            let ghost old_heads = text_pairs(self.heads@);
            let head = (owned(name), self.commit.clone());
            self.heads.push(head);
            proof {
                assert(text_pairs(self.heads@) =~= old_heads.push((name@, before.commit)));
                lemma_table_push(old_heads, name@, before.commit);
                assert(self@.heads == before.heads.insert(name@, before.commit));
                assert(self@ == branch_spec(before, name@).0);
            }
        }
        r
    }

    /// Checks out `name`: the head of branch `name`, or else the commit `name`
    /// (detached); refused, changing nothing, when it is neither. The caller then
    /// restores the state saved at the new current commit.
    pub fn checkout(&mut self, name: &str) -> (r: Result<String, AetherError>)
        requires
            old(self).wf(),
        ensures
            final(self).wf(),
            final(self)@ == checkout_spec(old(self)@, name@).0,
            message_outcome(r, checkout_spec(old(self)@, name@).1),
    {
        let head = match self.find_head(name) {
            Some(i) => Some(self.heads[i].1.clone()),
            None => None,
        };
        let saved = self.find_checkpoint(name).is_some();
        match checkout_target(name, &head, saved) {
            Ok((b, c)) => {
                self.branch = b;
                self.commit = c;
                let mut m = owned("Switched to branch or commit '");
                push_str(&mut m, name);
                push_str(&mut m, "'");
                Ok(m)
            },
            Err(e) => Err(e),
        }
    }

    /// Undo: moves back to the parent of the current commit; refused at the empty
    /// commit. The caller then restores the state saved at the new current commit.
    pub fn undo(&mut self) -> (r: Result<String, AetherError>)
        requires
            old(self).wf(),
        ensures
            final(self).wf(),
            final(self)@ == undo_versions(old(self)@).0,
            message_outcome(r, undo_versions(old(self)@).1),
    {
        let ghost before = self@;
        proof {
            lemma_first_index_props(before.history, |e: EntryView| e.commit == before.commit);
        }
        match undo_target(self.commit.as_str(), &self.history) {
            Ok(t) => {
                let mut m = owned("Successfully rolled back project to state '");
                push_str(&mut m, t.as_str());
                push_str(&mut m, "'");
                self.commit = t;
                Ok(m)
            },
            Err(e) => Err(e),
        }
    }

    /// Redo: moves forward to the first commit of the current branch whose parent is
    /// the current commit; refused when there is none. The caller then restores the
    /// state saved at the new current commit.
    pub fn redo(&mut self) -> (r: Result<String, AetherError>)
        requires
            old(self).wf(),
        ensures
            final(self).wf(),
            final(self)@ == redo_versions(old(self)@).0,
            message_outcome(r, redo_versions(old(self)@).1),
    {
        let ghost before = self@;
        proof {
            lemma_first_index_props(before.history, |e: EntryView| e.parent == Some(before.commit) && e.branch == before.branch);
        }
        match redo_target(self.commit.as_str(), self.branch.as_str(), &self.history) {
            Ok(t) => {
                let mut m = owned("Successfully fast-forwarded project to state '");
                push_str(&mut m, t.as_str());
                push_str(&mut m, "'");
                self.commit = t;
                Ok(m)
            },
            Err(e) => Err(e),
        }
    }

    /// Records commit `hash`, whose state is `state`: the commit becomes current and
    /// the head of the current branch, with the commit before as its parent. A
    /// commit recorded before under the same hash is replaced.
    pub fn record(&mut self, hash: String, state: P)
        requires
            old(self).wf(),
        ensures
            final(self).wf(),
            final(self)@ == record_spec(old(self)@, hash@, state),
    {
        let ghost before = self@;
        let ghost entry = EntryView { commit: hash@, parent: Some(before.commit), branch: before.branch };
        let e = HistoryEntry { commit: hash.clone(), parent: Some(self.commit.clone()), branch: self.branch.clone() };
        let ghost h0 = self.history@;
        match crate::session::find_commit(&self.history, hash.as_str()) {
            Some(i) => {
                self.history.remove(i);
                self.history.push(e);
                proof {
                    lemma_history_replace(h0, i as int, e);
                }
            },
            None => {
                self.history.push(e);
                proof {
                    lemma_history_push(h0, e);
                }
            },
        }
        assert(history_view(self.history@) == recorded_history(before.history, entry));
        let ghost c0 = checkpoint_entries(self.checkpoints@);
        let found = self.find_checkpoint(hash.as_str());
        match found {
            Some(i) => {
                self.checkpoints.remove(i);
            },
            None => {},
        }
        let ghost k0 = text_pairs(self.heads@);
        let found_head = self.find_head(self.branch.as_str());
        match found_head {
            Some(i) => {
                self.heads.remove(i);
            },
            None => {},
        }
        let head = (self.branch.clone(), hash.clone());
        self.heads.push(head);
        self.checkpoints.push(Checkpoint { commit: hash.clone(), state });
        self.commit = hash;
        proof {
            match found {
                Some(i) => {
                    assert(checkpoint_entries(self.checkpoints@) =~= c0.remove(i as int).push((c0[i as int].0, state)));
                    lemma_table_replace(c0, i as int, state);
                },
                None => {
                    assert(checkpoint_entries(self.checkpoints@) =~= c0.push((hash@, state)));
                    lemma_table_push(c0, hash@, state);
                },
            }
            match found_head {
                Some(i) => {
                    assert(text_pairs(self.heads@) =~= k0.remove(i as int).push((k0[i as int].0, hash@)));
                    lemma_table_replace(k0, i as int, hash@);
                },
                None => {
                    assert(text_pairs(self.heads@) =~= k0.push((before.branch, hash@)));
                    lemma_table_push(k0, before.branch, hash@);
                },
            }
            let after = self@;
            assert(after.checkpoints == before.checkpoints.insert(hash@, state));
            assert(after.heads == before.heads.insert(before.branch, hash@));
            lemma_recorded_unique(before.history, entry);
            assert forall|n: Seq<char>| #[trigger] after.heads.contains_key(n) implies restorable(after, after.heads[n]) by {
                if n != before.branch {
                    assert(restorable(before, before.heads[n]));
                }
            }
            assert forall|i: int| 0 <= i < after.history.len() implies restorable(after, (#[trigger] after.history[i]).commit)
                && restorable(after, parent_of(after.history[i])) by {
                if i < after.history.len() - 1 {
                    assert(before.history.contains(after.history[i]));
                    let k = choose|k: int| 0 <= k < before.history.len() && before.history[k] == after.history[i];
                    assert(restorable(before, before.history[k].commit));
                    assert(restorable(before, parent_of(before.history[k])));
                } else {
                    assert(after.history[i] == entry);
                }
            }
            assert(after == record_spec(before, hash@, state));
        }
    }

    /// The current branch (`detached` after checking out a bare commit).
    pub fn branch(&self) -> (r: &String)
        ensures
            r@ == self@.branch,
    {
        &self.branch
    }

    /// The current commit; empty before the first one.
    pub fn commit(&self) -> (r: &String)
        ensures
            r@ == self@.commit,
    {
        &self.commit
    }

    /// The history of commits, in the order they were recorded.
    pub fn history(&self) -> (r: &Vec<HistoryEntry>)
        ensures
            history_view(r@) == self@.history,
    {
        &self.history
    }

    /// The state saved at `commit`, if any.
    pub fn saved_state(&self, commit: &str) -> (r: Option<&P>)
        requires
            self.wf(),
        ensures
            match r {
                Some(p) => self@.checkpoints.contains_key(commit@) && *p == self@.checkpoints[commit@],
                None => !self@.checkpoints.contains_key(commit@),
            },
    {
        match self.find_checkpoint(commit) {
            Some(i) => Some(&self.checkpoints[i].state),
            None => None,
        }
    }

    /// The state saved at the current commit; none at the empty commit, whose state
    /// is the empty project.
    pub fn state(&self) -> (r: Option<&P>)
        requires
            self.wf(),
        ensures
            match r {
                Some(p) => self@.commit.len() > 0 && self@.checkpoints.contains_key(self@.commit) && *p
                    == self@.checkpoints[self@.commit],
                None => self@.commit.len() == 0,
            },
    {
        if self.commit.unicode_len() == 0 {
            None
        } else {
            self.saved_state(self.commit.as_str())
        }
    }
}

// ---------------------------------------------------------------------------
// Laws
// ---------------------------------------------------------------------------

/// Checking out the current branch after recording a commit on it goes to that
/// commit, whose saved state is the one recorded.
pub proof fn law_record_then_checkout<P>(s: VersionsView<P>, hash: Seq<char>, state: P)
    ensures
        ({
            let t = record_spec(s, hash, state);
            let (u, m) = checkout_spec(t, s.branch);
            &&& m is Ok
            &&& u.branch == s.branch
            &&& u.commit == hash
            &&& u.checkpoints.contains_key(hash)
            &&& u.checkpoints[hash] == state
        }),
{
}

/// Recording a new commit on one branch leaves every other branch as it was:
/// checking it out goes to the same commit, with the same saved state.
pub proof fn law_branches_independent<P>(s: VersionsView<P>, hash: Seq<char>, state: P, other: Seq<char>)
    requires
        consistent(s),
        hash.len() > 0,
        !s.checkpoints.contains_key(hash),
        s.heads.contains_key(other),
        other != s.branch,
    ensures
        ({
            let t = record_spec(s, hash, state);
            let before = checkout_spec(s, other).0;
            let after = checkout_spec(t, other).0;
            &&& after.branch == before.branch
            &&& after.commit == before.commit
            &&& (before.checkpoints.contains_key(before.commit) ==> after.checkpoints.contains_key(after.commit)
                && after.checkpoints[after.commit] == before.checkpoints[before.commit])
        }),
{
    assert(restorable(s, s.heads[other]));
}

proof fn lemma_last_entry_first(h: Seq<EntryView>, e: EntryView)
    requires
        commits_unique(h),
    ensures
        first_index(recorded_history(h, e), |x: EntryView| x.commit == e.commit)
            == Some((recorded_history(h, e).len() - 1) as int),
{
    lemma_recorded_unique(h, e);
    let t = recorded_history(h, e);
    let n = t.len() - 1;
    assert forall|j: int| 0 <= j < n implies !(#[trigger] t[j].commit == e.commit) by {
        assert(t[j].commit != t[n].commit);
    }
    lemma_first_index(t, |x: EntryView| x.commit == e.commit, n);
}

/// Undo takes back a recorded commit: it goes back to the commit that was current
/// before, on the same branch.
pub proof fn law_undo_after_record<P>(s: VersionsView<P>, hash: Seq<char>, state: P)
    requires
        consistent(s),
        hash.len() > 0,
    ensures
        ({
            let (u, m) = undo_versions(record_spec(s, hash, state));
            &&& m is Ok
            &&& u.commit == s.commit
            &&& u.branch == s.branch
        }),
{
    let e = EntryView { commit: hash, parent: Some(s.commit), branch: s.branch };
    lemma_last_entry_first(s.history, e);
    lemma_recorded_unique(s.history, e);
}

/// Redo takes back the undo of a recorded commit, when the branch had no commit
/// after the current one yet.
pub proof fn law_redo_after_undo<P>(s: VersionsView<P>, hash: Seq<char>, state: P)
    requires
        consistent(s),
        hash.len() > 0,
        redo_spec(s.commit, s.branch, s.history) is Err,
    ensures
        ({
            let u = undo_versions(record_spec(s, hash, state)).0;
            let (v, m) = redo_versions(u);
            &&& m is Ok
            &&& v.commit == hash
            &&& v.branch == s.branch
        }),
{
    law_undo_after_record(s, hash, state);
    let e = EntryView { commit: hash, parent: Some(s.commit), branch: s.branch };
    lemma_recorded_unique(s.history, e);
    let t = recorded_history(s.history, e);
    let p = |x: EntryView| x.parent == Some(s.commit) && x.branch == s.branch;
    lemma_first_index_props(s.history, p);
    let n = t.len() - 1;
    assert forall|j: int| 0 <= j < n implies !p(#[trigger] t[j]) by {
        assert(s.history.contains(t[j]));
        let k = choose|k: int| 0 <= k < s.history.len() && s.history[k] == t[j];
        assert(!p(s.history[k]));
    }
    lemma_first_index(t, p, n);
}

/// Every move keeps the versions consistent: the session is always at a commit whose
/// state is saved, or at the empty commit.
pub proof fn law_moves_keep_consistency<P>(s: VersionsView<P>, name: Seq<char>, hash: Seq<char>, state: P)
    requires
        consistent(s),
    ensures
        consistent(branch_spec(s, name).0),
        consistent(checkout_spec(s, name).0),
        consistent(undo_versions(s).0),
        consistent(redo_versions(s).0),
        consistent(record_spec(s, hash, state)),
{
    lemma_first_index_props(s.history, |e: EntryView| e.commit == s.commit);
    lemma_first_index_props(s.history, |e: EntryView| e.parent == Some(s.commit) && e.branch == s.branch);
    let e = EntryView { commit: hash, parent: Some(s.commit), branch: s.branch };
    lemma_recorded_unique(s.history, e);
    let t = record_spec(s, hash, state);
    assert forall|n: Seq<char>| #[trigger] t.heads.contains_key(n) implies restorable(t, t.heads[n]) by {
        if n != s.branch {
            assert(restorable(s, s.heads[n]));
        }
    }
    assert forall|i: int| 0 <= i < t.history.len() implies restorable(t, (#[trigger] t.history[i]).commit)
        && restorable(t, parent_of(t.history[i])) by {
        if i < t.history.len() - 1 {
            assert(s.history.contains(t.history[i]));
            let k = choose|k: int| 0 <= k < s.history.len() && s.history[k] == t.history[i];
            assert(restorable(s, s.history[k].commit));
            assert(restorable(s, parent_of(s.history[k])));
        } else {
            assert(t.history[i] == e);
        }
    }
    let b = branch_spec(s, name).0;
    assert forall|n: Seq<char>| #[trigger] b.heads.contains_key(n) implies restorable(b, b.heads[n]) by {
        if n != name || s.heads.contains_key(name) {
            assert(restorable(s, s.heads[n]));
        }
    }
}

} // verus!
