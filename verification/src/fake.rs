//! A deterministic in-memory repository state, used as a test double.
//!
//! The state keeps index and HEAD contents as association lists with unique
//! keys, the branch set as a list of unique names in creation order, and an
//! optional simulated write error. Every externally observable mutation is
//! followed, at the caller's side, by a change notification carrying the
//! repository's path; the methods here return normally exactly when that
//! notification is owed.

use core::cmp::Ordering;
use vstd::prelude::*;

use crate::branch::Branch;
use crate::branch::BranchView;
use crate::repo_path::lemma_path_cmp_flip;
use crate::repo_path::lemma_path_le_refl;
use crate::repo_path::lemma_path_le_trans;
use crate::repo_path::path_cmp_spec;
use crate::repo_path::path_is_descendant;
use crate::repo_path::path_le;
use crate::repo_path::RepoPath;

verus! {

/// The value bound to `key`, scanning the entries in order.
pub open spec fn assoc_lookup(entries: Seq<(Seq<char>, Seq<char>)>, key: Seq<char>) -> Option<
    Seq<char>,
>
    decreases entries.len(),
{
    if entries.len() == 0 {
        None
    } else if entries[0].0 == key {
        Some(entries[0].1)
    } else {
        assoc_lookup(entries.drop_first(), key)
    }
}

/// Whether the entries bind each key at most once.
pub open spec fn unique_keys(entries: Seq<(Seq<char>, Seq<char>)>) -> bool {
    forall|i: int, j: int|
        0 <= i < j < entries.len() ==> (#[trigger] entries[i]).0 != (#[trigger] entries[j]).0
}

proof fn lemma_lookup_none_iff(entries: Seq<(Seq<char>, Seq<char>)>, key: Seq<char>)
    ensures
        (assoc_lookup(entries, key) is None) <==> (forall|i: int|
            0 <= i < entries.len() ==> (#[trigger] entries[i]).0 != key),
    decreases entries.len(),
{
    if entries.len() > 0 {
        lemma_lookup_none_iff(entries.drop_first(), key);
        if entries[0].0 != key {
            assert forall|i: int|
                0 <= i < entries.len() && (assoc_lookup(entries, key) is None) implies (
            #[trigger] entries[i]).0 != key by {
                if i > 0 {
                    assert(entries.drop_first()[i - 1] == entries[i]);
                }
            }
            if forall|i: int| 0 <= i < entries.len() ==> (#[trigger] entries[i]).0 != key {
                assert(forall|i: int|
                    0 <= i < entries.drop_first().len() ==> (
                    #[trigger] entries.drop_first()[i]).0 != key);
            }
        }
    }
}

proof fn lemma_lookup_push(
    entries: Seq<(Seq<char>, Seq<char>)>,
    e: (Seq<char>, Seq<char>),
    key: Seq<char>,
)
    ensures
        assoc_lookup(entries.push(e), key) == if assoc_lookup(entries, key) is Some {
            assoc_lookup(entries, key)
        } else if e.0 == key {
            Some(e.1)
        } else {
            None
        },
    decreases entries.len(),
{
    let p = entries.push(e);
    if entries.len() == 0 {
        assert(p.len() == 1);
        assert(p[0] == e);
        assert(p.drop_first() =~= Seq::<(Seq<char>, Seq<char>)>::empty());
        if e.0 == key {
            assert(assoc_lookup(p, key) == Some(e.1));
        } else {
            assert(assoc_lookup(p, key) == assoc_lookup(p.drop_first(), key));
            assert(assoc_lookup(p.drop_first(), key) is None);
        }
    } else {
        assert(p[0] == entries[0]);
        assert(p.drop_first() =~= entries.drop_first().push(e));
        lemma_lookup_push(entries.drop_first(), e, key);
        if entries[0].0 == key {
            assert(assoc_lookup(p, key) == Some(entries[0].1));
            assert(assoc_lookup(entries, key) == Some(entries[0].1));
        } else {
            assert(assoc_lookup(p, key) == assoc_lookup(entries.drop_first().push(e), key));
            assert(assoc_lookup(entries, key) == assoc_lookup(entries.drop_first(), key));
        }
    }
}

proof fn lemma_lookup_remove(entries: Seq<(Seq<char>, Seq<char>)>, i: int, key: Seq<char>)
    requires
        0 <= i < entries.len(),
        unique_keys(entries),
    ensures
        assoc_lookup(entries.remove(i), key) == if entries[i].0 == key {
            None
        } else {
            assoc_lookup(entries, key)
        },
    decreases entries.len(),
{
    if i == 0 {
        assert(entries.remove(0) =~= entries.drop_first());
        if entries[0].0 == key {
            lemma_lookup_none_iff(entries.drop_first(), key);
            assert forall|j: int| 0 <= j < entries.drop_first().len() implies (
            #[trigger] entries.drop_first()[j]).0 != key by {
                assert(entries.drop_first()[j] == entries[j + 1]);
            }
        }
    } else {
        assert(entries.remove(i)[0] == entries[0]);
        assert(entries.remove(i).drop_first() =~= entries.drop_first().remove(i - 1));
        assert(unique_keys(entries.drop_first())) by {
            assert forall|a: int, b: int|
                0 <= a < b < entries.drop_first().len() implies (
            #[trigger] entries.drop_first()[a]).0 != (#[trigger] entries.drop_first()[b]).0 by {
                assert(entries.drop_first()[a] == entries[a + 1]);
                assert(entries.drop_first()[b] == entries[b + 1]);
            }
        }
        assert(entries.drop_first()[i - 1] == entries[i]);
        lemma_lookup_remove(entries.drop_first(), i - 1, key);
    }
}

/// A fully synchronous, in-memory repository state.
#[derive(Debug)]
pub struct FakeGitRepositoryState {
    /// Where the repository nominally lives; the value carried by every
    /// change notification.
    pub path: String,
    /// Contents of HEAD, one entry per path.
    pub head_contents: Vec<(RepoPath, String)>,
    /// Contents of the index, one entry per path.
    pub index_contents: Vec<(RepoPath, String)>,
    /// The checked-out branch, if any.
    pub current_branch_name: Option<String>,
    /// All branches, in creation order.
    pub branches: Vec<String>,
    /// When set, every index write fails with this text instead of
    /// mutating anything.
    pub simulated_index_write_error_message: Option<String>,
}

impl FakeGitRepositoryState {
    /// Whether the association lists bind each path once and the branch
    /// names are distinct.
    pub open spec fn wf(&self) -> bool {
        &&& unique_keys(self.head_contents.deep_view())
        &&& unique_keys(self.index_contents.deep_view())
        &&& forall|i: int, j: int|
            0 <= i < j < self.branches@.len() ==> #[trigger] self.branches@[i]@ != (
            #[trigger] self.branches@[j])@
    }

    /// A fresh state: nothing committed, nothing staged, no branches.
    pub fn new(path: String) -> (r: Self)
        ensures
            r.path == path,
            r.head_contents.deep_view().len() == 0,
            r.index_contents.deep_view().len() == 0,
            r.current_branch_name is None,
            r.branches@.len() == 0,
            r.simulated_index_write_error_message is None,
            r.wf(),
    {
        FakeGitRepositoryState {
            path,
            head_contents: Vec::new(),
            index_contents: Vec::new(),
            current_branch_name: None,
            branches: Vec::new(),
            simulated_index_write_error_message: None,
        }
    }
}

/// The index of the entry bound to `key`, if any.
fn find_key(entries: &Vec<(RepoPath, String)>, key: &RepoPath) -> (r: Option<usize>)
    ensures
        match r {
            Some(i) => {
                &&& i < entries@.len()
                &&& entries.deep_view()[i as int].0 == key@
                &&& forall|j: int|
                    0 <= j < i ==> (#[trigger] entries.deep_view()[j]).0 != key@
            },
            None => assoc_lookup(entries.deep_view(), key@) is None,
        },
{
    let mut i: usize = 0;
    while i < entries.len()
        invariant
            i <= entries@.len(),
            forall|j: int| 0 <= j < i ==> (#[trigger] entries.deep_view()[j]).0 != key@,
        decreases entries@.len() - i,
    {
        proof {
            assert(entries.deep_view()[i as int] == entries@[i as int].deep_view());
        }
        let e = &entries[i];
        if e.0.0.eq(&key.0) {
            return Some(i);
        }
        i = i + 1;
    }
    proof {
        lemma_lookup_none_iff(entries.deep_view(), key@);
    }
    None
}

/// The value bound to `key`, cloned.
fn lookup_content(entries: &Vec<(RepoPath, String)>, key: &RepoPath) -> (r: Option<String>)
    ensures
        match r {
            Some(s) => assoc_lookup(entries.deep_view(), key@) == Some(s@),
            None => assoc_lookup(entries.deep_view(), key@) is None,
        },
{
    match find_key(entries, key) {
        Some(i) => {
            proof {
                lemma_lookup_at(entries.deep_view(), i as int, key@);
            }
            Some(entries[i].1.clone())
        },
        None => None,
    }
}

proof fn lemma_lookup_at(entries: Seq<(Seq<char>, Seq<char>)>, i: int, key: Seq<char>)
    requires
        0 <= i < entries.len(),
        entries[i].0 == key,
        forall|j: int| 0 <= j < i ==> (#[trigger] entries[j]).0 != key,
    ensures
        assoc_lookup(entries, key) == Some(entries[i].1),
    decreases entries.len(),
{
    if i == 0 {
    } else {
        assert(entries.drop_first()[i - 1] == entries[i]);
        assert forall|j: int| 0 <= j < i - 1 implies (
        #[trigger] entries.drop_first()[j]).0 != key by {
            assert(entries.drop_first()[j] == entries[j + 1]);
        }
        lemma_lookup_at(entries.drop_first(), i - 1, key);
    }
}

impl FakeGitRepositoryState {
    /// The staged content at `path`, or nothing when the path has never
    /// been staged; absence is an ordinary result, not an error.
    pub fn load_index_text(&self, path: &RepoPath) -> (r: Option<String>)
        ensures
            match r {
                Some(s) => assoc_lookup(self.index_contents.deep_view(), path@) == Some(s@),
                None => assoc_lookup(self.index_contents.deep_view(), path@) is None,
            },
    {
        lookup_content(&self.index_contents, path)
    }

    /// The committed content at `path`, or nothing when HEAD has no entry
    /// for it; absence is an ordinary result, not an error.
    pub fn load_committed_text(&self, path: &RepoPath) -> (r: Option<String>)
        ensures
            match r {
                Some(s) => assoc_lookup(self.head_contents.deep_view(), path@) == Some(s@),
                None => assoc_lookup(self.head_contents.deep_view(), path@) is None,
            },
    {
        lookup_content(&self.head_contents, path)
    }

    /// Binds `path` in the head contents, replacing any previous binding;
    /// used to arrange committed state for tests.
    pub fn set_head_text(&mut self, path: &RepoPath, content: String)
        requires
            old(self).wf(),
        ensures
            final(self).wf(),
            assoc_lookup(final(self).head_contents.deep_view(), path@) == Some(content@),
            forall|k: Seq<char>|
                k != path@ ==> #[trigger] assoc_lookup(final(self).head_contents.deep_view(), k)
                    == assoc_lookup(old(self).head_contents.deep_view(), k),
            final(self).index_contents == old(self).index_contents,
            final(self).path == old(self).path,
            final(self).current_branch_name == old(self).current_branch_name,
            final(self).branches == old(self).branches,
            final(self).simulated_index_write_error_message == old(
                self,
            ).simulated_index_write_error_message,
    {
        assoc_set(&mut self.head_contents, path, content);
    }

    /// Stages `content` at `path` when it is present, and removes the path
    /// from the index when it is absent; when a simulated write error is
    /// set, fails with that text and changes nothing. On success the caller
    /// owes a change notification.
    pub fn set_index_text(&mut self, path: &RepoPath, content: Option<String>) -> (r: Result<
        (),
        String,
    >)
        requires
            old(self).wf(),
        ensures
            final(self).wf(),
            match old(self).simulated_index_write_error_message {
                Some(m) => {
                    &&& r matches Err(e) && e@ == m@
                    &&& final(self).index_contents == old(self).index_contents
                    &&& final(self).head_contents == old(self).head_contents
                },
                None => {
                    &&& r is Ok
                    &&& assoc_lookup(final(self).index_contents.deep_view(), path@) == match content {
                        Some(c) => Some(c@),
                        None => None::<Seq<char>>,
                    }
                    &&& forall|k: Seq<char>|
                        k != path@ ==> #[trigger] assoc_lookup(
                            final(self).index_contents.deep_view(),
                            k,
                        ) == assoc_lookup(old(self).index_contents.deep_view(), k)
                    &&& final(self).head_contents == old(self).head_contents
                },
            },
            final(self).path == old(self).path,
            final(self).current_branch_name == old(self).current_branch_name,
            final(self).branches == old(self).branches,
            final(self).simulated_index_write_error_message == old(
                self,
            ).simulated_index_write_error_message,
    {
        match &self.simulated_index_write_error_message {
            Some(m) => {
                return Err(m.clone());
            },
            None => {},
        }
        match content {
            Some(c) => {
                assoc_set(&mut self.index_contents, path, c);
            },
            None => {
                assoc_remove(&mut self.index_contents, path);
            },
        }
        Ok(())
    }
}

/// Binds `path` to `content`, replacing any previous binding.
fn assoc_set(entries: &mut Vec<(RepoPath, String)>, path: &RepoPath, content: String)
    requires
        unique_keys(old(entries).deep_view()),
    ensures
        unique_keys(final(entries).deep_view()),
        assoc_lookup(final(entries).deep_view(), path@) == Some(content@),
        forall|k: Seq<char>|
            k != path@ ==> #[trigger] assoc_lookup(final(entries).deep_view(), k) == assoc_lookup(
                old(entries).deep_view(),
                k,
            ),
{
    assoc_remove(entries, path);
    let ghost base = entries.deep_view();
    entries.push((path.clone(), content));
    proof {
        assert(entries.deep_view() =~= base.push((path@, content@)));
        assert forall|k: Seq<char>| true implies assoc_lookup(base.push((path@, content@)), k)
            == if assoc_lookup(base, k) is Some {
            assoc_lookup(base, k)
        } else if k == path@ {
            Some(content@)
        } else {
            None
        } by {
            lemma_lookup_push(base, (path@, content@), k);
        }
        assert(unique_keys(base.push((path@, content@)))) by {
            lemma_lookup_none_iff(base, path@);
            assert forall|i: int, j: int|
                0 <= i < j < base.push((path@, content@)).len() implies (#[trigger] base.push(
                (path@, content@),
            )[i]).0 != (#[trigger] base.push((path@, content@))[j]).0 by {
                if j < base.len() {
                    assert(base.push((path@, content@))[i] == base[i]);
                    assert(base.push((path@, content@))[j] == base[j]);
                } else {
                    assert(base.push((path@, content@))[i] == base[i]);
                    assert(base.push((path@, content@))[j] == (path@, content@));
                }
            }
        }
    }
}

/// Removes any binding of `path`.
fn assoc_remove(entries: &mut Vec<(RepoPath, String)>, path: &RepoPath)
    requires
        unique_keys(old(entries).deep_view()),
    ensures
        unique_keys(final(entries).deep_view()),
        assoc_lookup(final(entries).deep_view(), path@) is None,
        forall|k: Seq<char>|
            k != path@ ==> #[trigger] assoc_lookup(final(entries).deep_view(), k) == assoc_lookup(
                old(entries).deep_view(),
                k,
            ),
{
    let ghost base = entries.deep_view();
    match find_key(entries, path) {
        Some(i) => {
            entries.remove(i);
            proof {
                assert(entries.deep_view() =~= base.remove(i as int));
                assert forall|k: Seq<char>| true implies assoc_lookup(base.remove(i as int), k)
                    == if base[i as int].0 == k {
                    None
                } else {
                    assoc_lookup(base, k)
                } by {
                    lemma_lookup_remove(base, i as int, k);
                }
                assert(assoc_lookup(base, path@) is Some ==> base[i as int].0 == path@);
                if assoc_lookup(base, path@) is None {
                    lemma_lookup_none_iff(base, path@);
                    lemma_lookup_none_iff(base.remove(i as int), path@);
                    assert forall|j: int| 0 <= j < base.remove(i as int).len() implies (
                    #[trigger] base.remove(i as int)[j]).0 != path@ by {
                        if j < i {
                            assert(base.remove(i as int)[j] == base[j]);
                        } else {
                            assert(base.remove(i as int)[j] == base[j + 1]);
                        }
                    }
                }
                assert(unique_keys(base.remove(i as int))) by {
                    assert forall|a: int, b: int|
                        0 <= a < b < base.remove(i as int).len() implies (#[trigger] base.remove(
                        i as int,
                    )[a]).0 != (#[trigger] base.remove(i as int)[b]).0 by {
                        let aa = if a < i {
                            a
                        } else {
                            a + 1
                        };
                        let bb = if b < i {
                            b
                        } else {
                            b + 1
                        };
                        assert(base.remove(i as int)[a] == base[aa]);
                        assert(base.remove(i as int)[b] == base[bb]);
                    }
                }
            }
        },
        None => {},
    }
}

impl FakeGitRepositoryState {
    /// There is no remote configured, whatever its name.
    pub fn remote_url(&self, name: &str) -> (r: Option<String>)
        ensures
            r is None,
    {
        let _ = name;
        None
    }

    /// There is no commit checked out.
    pub fn head_sha(&self) -> (r: Option<String>)
        ensures
            r is None,
    {
        None
    }

    /// There is no merge in progress.
    pub fn merge_head_shas(&self) -> (r: Vec<String>)
        ensures
            r@.len() == 0,
    {
        Vec::new()
    }

    /// All branches, in creation order; a branch is the head exactly when
    /// its name is the checked-out one.
    pub fn branches(&self) -> (r: Vec<Branch>)
        ensures
            r.deep_view() == Seq::new(
                self.branches@.len() as nat,
                |i: int|
                    BranchView {
                        is_head: match self.current_branch_name {
                            Some(c) => c@ == self.branches@[i]@,
                            None => false,
                        },
                        name: self.branches@[i]@,
                        upstream: None,
                        most_recent_commit: None,
                    },
            ),
    {
        let ghost target = Seq::new(
            self.branches@.len() as nat,
            |i: int|
                BranchView {
                    is_head: match self.current_branch_name {
                        Some(c) => c@ == self.branches@[i]@,
                        None => false,
                    },
                    name: self.branches@[i]@,
                    upstream: None,
                    most_recent_commit: None,
                },
        );
        let mut r: Vec<Branch> = Vec::new();
        let mut i: usize = 0;
        while i < self.branches.len()
            invariant
                i <= self.branches@.len(),
                target == Seq::new(
                    self.branches@.len() as nat,
                    |k: int|
                        BranchView {
                            is_head: match self.current_branch_name {
                                Some(c) => c@ == self.branches@[k]@,
                                None => false,
                            },
                            name: self.branches@[k]@,
                            upstream: None,
                            most_recent_commit: None,
                        },
                ),
                r.deep_view() == target.take(i as int),
            decreases self.branches@.len() - i,
        {
            let name = &self.branches[i];
            let is_head = match &self.current_branch_name {
                Some(c) => c.eq(name),
                None => false,
            };
            let ghost old_dv = r.deep_view();
            r.push(
                Branch {
                    is_head,
                    name: name.clone(),
                    upstream: None,
                    most_recent_commit: None,
                },
            );
            proof {
                assert(r.deep_view() =~= old_dv.push(target[i as int]));
                assert(target.take(i + 1) =~= target.take(i as int).push(target[i as int]));
            }
            i = i + 1;
        }
        proof {
            assert(target.take(self.branches@.len() as int) =~= target);
        }
        r
    }

    /// Whether a branch of that name exists.
    pub fn branch_exits(&self, name: &str) -> (r: bool)
        ensures
            r == exists|i: int|
                0 <= i < self.branches@.len() && (#[trigger] self.branches@[i])@ == name@,
    {
        let target = String::from_str(name);
        let mut i: usize = 0;
        while i < self.branches.len()
            invariant
                i <= self.branches@.len(),
                target@ == name@,
                forall|j: int| 0 <= j < i ==> (#[trigger] self.branches@[j])@ != name@,
            decreases self.branches@.len() - i,
        {
            if self.branches[i].eq(&target) {
                return true;
            }
            i = i + 1;
        }
        false
    }

    /// Checks out the named branch; the caller owes a change notification.
    pub fn change_branch(&mut self, name: &str) -> (r: Result<(), String>)
        requires
            old(self).wf(),
        ensures
            final(self).wf(),
            r is Ok,
            final(self).current_branch_name matches Some(c) && c@ == name@,
            final(self).branches == old(self).branches,
            final(self).head_contents == old(self).head_contents,
            final(self).index_contents == old(self).index_contents,
            final(self).path == old(self).path,
            final(self).simulated_index_write_error_message == old(
                self,
            ).simulated_index_write_error_message,
    {
        self.current_branch_name = Some(String::from_str(name));
        Ok(())
    }

    /// Creates the named branch when it does not exist yet; the caller owes
    /// a change notification.
    pub fn create_branch(&mut self, name: &str) -> (r: Result<(), String>)
        requires
            old(self).wf(),
        ensures
            final(self).wf(),
            r is Ok,
            final(self).branches@.len() >= old(self).branches@.len(),
            (exists|i: int|
                0 <= i < old(self).branches@.len() && (#[trigger] old(self).branches@[i])@
                    == name@) ==> final(self).branches == old(self).branches,
            !(exists|i: int|
                0 <= i < old(self).branches@.len() && (#[trigger] old(self).branches@[i])@
                    == name@) ==> final(self).branches.deep_view() == old(
                self,
            ).branches.deep_view().push(name@),
            final(self).current_branch_name == old(self).current_branch_name,
            final(self).head_contents == old(self).head_contents,
            final(self).index_contents == old(self).index_contents,
            final(self).path == old(self).path,
            final(self).simulated_index_write_error_message == old(
                self,
            ).simulated_index_write_error_message,
    {
        if !self.branch_exits(name) {
            let ghost old_dv = self.branches.deep_view();
            self.branches.push(String::from_str(name));
            proof {
                assert(self.branches.deep_view() =~= old_dv.push(name@));
            }
        }
        Ok(())
    }
}

/// Whether any of the prefixes is an ancestor of `path`.
fn matches_any_prefix(path: &RepoPath, prefixes: &Vec<RepoPath>) -> (r: bool)
    ensures
        r == exists|p: int|
            0 <= p < prefixes@.len() && path_is_descendant(path@, (#[trigger] prefixes@[p])@),
{
    let mut p: usize = 0;
    while p < prefixes.len()
        invariant
            p <= prefixes@.len(),
            forall|q: int| 0 <= q < p ==> !path_is_descendant(path@, (#[trigger] prefixes@[q])@),
        decreases prefixes@.len() - p,
    {
        if path.starts_with(&prefixes[p]) {
            return true;
        }
        p = p + 1;
    }
    false
}

/// The entries whose key has one of the prefixes as an ancestor, in entry
/// order.
pub open spec fn spec_status_filter<V>(
    entries: Seq<(RepoPath, V)>,
    prefixes: Seq<RepoPath>,
) -> Seq<(RepoPath, V)>
    decreases entries.len(),
{
    if entries.len() == 0 {
        Seq::<(RepoPath, V)>::empty()
    } else {
        let rest = spec_status_filter(entries.drop_first(), prefixes);
        if exists|p: int|
            0 <= p < prefixes.len() && path_is_descendant(entries[0].0@, (
            #[trigger] prefixes[p])@) {
            seq![entries[0]] + rest
        } else {
            rest
        }
    }
}

/// The entries whose key descends from one of the prefixes, sorted by path;
/// entries with equal paths may come out in either order.
pub fn status_entries<V: Copy>(entries: &Vec<(RepoPath, V)>, path_prefixes: &Vec<RepoPath>) -> (r:
    Vec<(RepoPath, V)>)
    ensures
        r@.to_multiset() == spec_status_filter(entries@, path_prefixes@).to_multiset(),
        forall|i: int, j: int| 0 <= i < j < r@.len() ==> path_le(#[trigger] r@[i].0@, #[trigger] r@[j].0@),
{
    broadcast use vstd::seq_lib::group_to_multiset_ensures;
    broadcast use vstd::multiset::group_multiset_axioms;

    let ghost ev = entries@;
    let mut work: Vec<(RepoPath, V)> = Vec::new();
    let mut i: usize = 0;
    proof {
        assert(ev.skip(0) =~= ev);
        assert(work@ + spec_status_filter(ev, path_prefixes@) =~= spec_status_filter(
            ev,
            path_prefixes@,
        ));
    }
    while i < entries.len()
        invariant
            i <= entries@.len(),
            ev == entries@,
            spec_status_filter(ev, path_prefixes@) == work@ + spec_status_filter(
                ev.skip(i as int),
                path_prefixes@,
            ),
        decreases entries@.len() - i,
    {
        proof {
            assert(ev.skip(i as int)[0] == ev[i as int]);
            assert(ev.skip(i as int).drop_first() =~= ev.skip(i + 1));
        }
        let e = &entries[i];
        if matches_any_prefix(&e.0, path_prefixes) {
            let ghost old_w = work@;
            work.push((e.0.clone(), e.1));
            proof {
                assert(work@ =~= old_w.push(ev[i as int]));
                assert(old_w + (seq![ev[i as int]] + spec_status_filter(
                    ev.skip(i + 1),
                    path_prefixes@,
                )) =~= old_w.push(ev[i as int]) + spec_status_filter(
                    ev.skip(i + 1),
                    path_prefixes@,
                ));
            }
        }
        i = i + 1;
    }
    proof {
        assert(ev.skip(i as int).len() == 0);
        assert(work@ + Seq::<(RepoPath, V)>::empty() =~= work@);
    }
    let ghost total = work@;
    let mut r: Vec<(RepoPath, V)> = Vec::new();
    proof {
        vstd::multiset::lemma_multiset_empty_len::<(RepoPath, V)>(r@.to_multiset());
        assert(r@.to_multiset().add(work@.to_multiset()) =~= work@.to_multiset());
    }
    while work.len() > 0
        invariant
            r@.to_multiset().add(work@.to_multiset()) =~= total.to_multiset(),
            forall|i: int, j: int|
                0 <= i < j < r@.len() ==> path_le(#[trigger] r@[i].0@, #[trigger] r@[j].0@),
            forall|i: int, k: int|
                0 <= i < r@.len() && 0 <= k < work@.len() ==> path_le(
                    (#[trigger] r@[i]).0@,
                    (#[trigger] work@[k]).0@,
                ),
        decreases work@.len(),
    {
        let mut mi: usize = 0;
        let mut j: usize = 1;
        proof {
            lemma_path_le_refl(work@[0].0@);
        }
        while j < work.len()
            invariant
                mi < j <= work@.len(),
                forall|k: int| 0 <= k < j ==> path_le(work@[mi as int].0@, (#[trigger] work@[k]).0@),
            decreases work@.len() - j,
        {
            let c = work[j].0.cmp_path(&work[mi].0);
            match c {
                Ordering::Less => {
                    proof {
                        assert forall|k: int| 0 <= k < j + 1 implies path_le(
                            work@[j as int].0@,
                            (#[trigger] work@[k]).0@,
                        ) by {
                            if k < j {
                                lemma_path_le_trans(
                                    work@[j as int].0@,
                                    work@[mi as int].0@,
                                    work@[k].0@,
                                );
                            } else {
                                lemma_path_le_refl(work@[j as int].0@);
                            }
                        }
                    }
                    mi = j;
                },
                _ => {
                    proof {
                        lemma_path_cmp_flip(work@[j as int].0@, work@[mi as int].0@);
                        assert(path_le(work@[mi as int].0@, work@[j as int].0@));
                    }
                },
            }
            j = j + 1;
        }
        let ghost old_work = work@;
        let ghost old_r = r@;
        let e = work.remove(mi);
        r.push(e);
        proof {
            broadcast use vstd::seq_lib::group_to_multiset_ensures;
            broadcast use vstd::multiset::group_multiset_axioms;

            assert(r@ =~= old_r.push(e));
            assert(work@ =~= old_work.remove(mi as int));
            assert(old_work[mi as int] == e);
            assert(old_work.contains(e));
            assert(old_r.push(e).to_multiset() =~= old_r.to_multiset().insert(e));
            assert(old_work.remove(mi as int).to_multiset() =~= old_work.to_multiset().remove(e));
            assert(r@.to_multiset() == old_r.to_multiset().insert(e));
            assert(work@.to_multiset() == old_work.to_multiset().remove(e));
            assert(r@.to_multiset().add(work@.to_multiset()) =~= total.to_multiset());
            assert forall|a: int, b: int| 0 <= a < b < r@.len() implies path_le(
                #[trigger] r@[a].0@,
                #[trigger] r@[b].0@,
            ) by {
                if b == r@.len() - 1 {
                    assert(r@[b] == e);
                    assert(old_r[a] == r@[a]);
                    assert(old_work[mi as int] == e);
                }
            }
            assert forall|a: int, k: int|
                0 <= a < r@.len() && 0 <= k < work@.len() implies path_le(
                (#[trigger] r@[a]).0@,
                (#[trigger] work@[k]).0@,
            ) by {
                let kk = if k < mi {
                    k
                } else {
                    k + 1
                };
                assert(work@[k] == old_work[kk]);
                if a < r@.len() - 1 {
                    assert(r@[a] == old_r[a]);
                } else {
                    assert(r@[a] == e);
                    assert(old_work[mi as int] == e);
                }
            }
        }
    }
    proof {
        assert(work@.to_multiset().len() == 0);
        assert(r@.to_multiset().add(work@.to_multiset()) =~= r@.to_multiset());
    }
    r
}

} // verus!
