//! Repository-relative paths.
//!
//! A [`RepoPath`] is an owned, immutable, relative path, written with `/`
//! between its components. The distinguished empty path stands for the
//! repository root as a unit of work. Ordering is lexicographic over path
//! components, and a dedicated seek target treats every descendant of a
//! prefix as greater than the prefix, so that a sorted collection can be
//! searched for the contiguous run of descendants.

use core::cmp::Ordering;
use vstd::prelude::*;

use crate::strutil::chars_eq;
use crate::strutil::chars_of;
use crate::strutil::spec_split;
use crate::strutil::split_chars;

verus! {

/// Why a candidate repository path was rejected.
#[derive(Clone, Copy, Debug, PartialEq, Eq, Structural)]
pub enum RepoPathError {
    /// The path has no characters at all.
    Empty,
    /// The path begins with a drive or share prefix such as `c:`.
    Prefixed,
    /// The path is rooted: it begins with a directory separator.
    Rooted,
    /// The path begins with the current-directory component `.`.
    CurDirLeading,
    /// The path begins with the parent-directory component `..`.
    ParentDirLeading,
}

/// An owned, immutable, repository-relative path.
#[derive(Debug, Hash)]
pub struct RepoPath(pub String);

impl View for RepoPath {
    type V = Seq<char>;

    open spec fn view(&self) -> Seq<char> {
        self.0@
    }
}

impl DeepView for RepoPath {
    type V = Seq<char>;

    open spec fn deep_view(&self) -> Seq<char> {
        self.0@
    }
}

impl Clone for RepoPath {
    fn clone(&self) -> (r: Self)
        ensures
            r == *self,
            r@ == self@,
    {
        RepoPath(self.0.clone())
    }
}

impl PartialEq for RepoPath {
    fn eq(&self, other: &RepoPath) -> (r: bool) {
        self.0 == other.0
    }
}

impl Eq for RepoPath {

}

impl vstd::std_specs::cmp::PartialEqSpecImpl for RepoPath {
    open spec fn obeys_eq_spec() -> bool {
        true
    }

    open spec fn eq_spec(&self, other: &RepoPath) -> bool {
        self@ == other@
    }
}

/// Whether `s` begins with a drive-letter prefix such as `c:`.
pub open spec fn spec_drive_prefixed(s: Seq<char>) -> bool {
    s.len() >= 2 && s[1] == ':' && ('a' as int <= s[0] as int && s[0] as int <= 'z' as int || 'A'
        as int <= s[0] as int && s[0] as int <= 'Z' as int)
}

/// Whether `s` is a relative path: not rooted and not drive-prefixed.
pub open spec fn spec_is_relative(s: Seq<char>) -> bool {
    !(s.len() > 0 && s[0] == '/') && !spec_drive_prefixed(s)
}

/// The components of a path: empty for the empty path, otherwise the pieces
/// between the separators.
pub open spec fn path_components(s: Seq<char>) -> Seq<Seq<char>> {
    if s.len() == 0 {
        Seq::<Seq<char>>::empty()
    } else {
        spec_split(s, '/')
    }
}

/// The violation a candidate repository path is rejected for, if any.
pub open spec fn spec_repo_path_check(s: Seq<char>) -> Result<(), RepoPathError> {
    if s.len() == 0 {
        Err(RepoPathError::Empty)
    } else if spec_drive_prefixed(s) {
        Err(RepoPathError::Prefixed)
    } else if s[0] == '/' {
        Err(RepoPathError::Rooted)
    } else if path_components(s)[0] == seq!['.'] {
        Err(RepoPathError::CurDirLeading)
    } else if path_components(s)[0] == seq!['.', '.'] {
        Err(RepoPathError::ParentDirLeading)
    } else {
        Ok(())
    }
}

/// Rejects a path that is empty, drive-prefixed, rooted, or whose first
/// component is `.` or `..`; accepts every other path.
pub fn check_path_to_repo_path_errors(path: &RepoPath) -> (r: Result<(), RepoPathError>)
    ensures
        r == spec_repo_path_check(path@),
{
    let cs = chars_of(self_str(path));
    if cs.len() == 0 {
        return Err(RepoPathError::Empty);
    }
    let c0 = cs[0];
    if cs.len() >= 2 && cs[1] == ':' && (c0 >= 'a' && c0 <= 'z' || c0 >= 'A' && c0 <= 'Z') {
        return Err(RepoPathError::Prefixed);
    }
    proof {
        assert(!spec_drive_prefixed(path@));
    }
    if c0 == '/' {
        return Err(RepoPathError::Rooted);
    }
    let pieces = split_chars(&cs, '/');
    let first = &pieces[0];
    proof {
        assert(pieces.deep_view()[0] == pieces@[0].deep_view());
        assert(pieces@[0].deep_view() =~= pieces@[0]@);
        assert(path_components(path@)[0] == pieces@[0]@);
    }
    if first.len() == 1 && first[0] == '.' {
        proof {
            assert(first@ =~= seq!['.']);
        }
        return Err(RepoPathError::CurDirLeading);
    }
    if first.len() == 2 && first[0] == '.' && first[1] == '.' {
        proof {
            assert(first@ =~= seq!['.', '.']);
        }
        return Err(RepoPathError::ParentDirLeading);
    }
    proof {
        assert(first@ != seq!['.']);
        assert(first@ != seq!['.', '.']);
    }
    Ok(())
}

/// Borrows the text of the path.
fn self_str(path: &RepoPath) -> (r: &str)
    ensures
        r@ == path@,
{
    path.0.as_str()
}

impl RepoPath {
    /// Wraps an owned relative path.
    pub fn new(path: String) -> (r: Self)
        requires
            spec_is_relative(path@),
        ensures
            r@ == path@,
    {
        RepoPath(path)
    }

    /// Wraps a borrowed relative path.
    pub fn from_str(path: &str) -> (r: Self)
        requires
            spec_is_relative(path@),
        ensures
            r@ == path@,
    {
        RepoPath(String::from_str(path))
    }

    /// The text of the path.
    pub fn as_str(&self) -> (r: &str)
        ensures
            r@ == self@,
    {
        self.0.as_str()
    }
}

impl Default for RepoPath {
    /// The empty path, which stands for the repository root.
    fn default() -> (r: Self)
        ensures
            r@.len() == 0,
    {
        RepoPath(String::new())
    }
}

/// Lexicographic comparison of two character sequences by code point.
pub open spec fn lex_cmp_chars(a: Seq<char>, b: Seq<char>) -> Ordering
    decreases a.len(),
{
    if a.len() == 0 && b.len() == 0 {
        Ordering::Equal
    } else if a.len() == 0 {
        Ordering::Less
    } else if b.len() == 0 {
        Ordering::Greater
    } else if (a[0] as int) < (b[0] as int) {
        Ordering::Less
    } else if (a[0] as int) > (b[0] as int) {
        Ordering::Greater
    } else {
        lex_cmp_chars(a.drop_first(), b.drop_first())
    }
}

/// Lexicographic comparison of two component sequences, components compared
/// by [`lex_cmp_chars`].
pub open spec fn lex_cmp_pieces(a: Seq<Seq<char>>, b: Seq<Seq<char>>) -> Ordering
    decreases a.len(),
{
    if a.len() == 0 && b.len() == 0 {
        Ordering::Equal
    } else if a.len() == 0 {
        Ordering::Less
    } else if b.len() == 0 {
        Ordering::Greater
    } else if lex_cmp_chars(a[0], b[0]) == Ordering::Equal {
        lex_cmp_pieces(a.drop_first(), b.drop_first())
    } else {
        lex_cmp_chars(a[0], b[0])
    }
}

/// Ordering of two paths: lexicographic over their components.
pub open spec fn path_cmp_spec(a: Seq<char>, b: Seq<char>) -> Ordering {
    lex_cmp_pieces(path_components(a), path_components(b))
}

/// Whether the components of `prefix` are an initial run of the components
/// of `key`; the empty prefix is an ancestor of every path.
pub open spec fn path_is_descendant(key: Seq<char>, prefix: Seq<char>) -> bool {
    path_components(prefix).is_prefix_of(path_components(key))
}

/// Compares two character vectors lexicographically by code point.
fn cmp_chars(a: &Vec<char>, b: &Vec<char>) -> (r: Ordering)
    ensures
        r == lex_cmp_chars(a@, b@),
{
    let mut i: usize = 0;
    proof {
        assert(a@.skip(0) =~= a@);
        assert(b@.skip(0) =~= b@);
    }
    while i < a.len() && i < b.len()
        invariant
            i <= a@.len(),
            i <= b@.len(),
            lex_cmp_chars(a@, b@) == lex_cmp_chars(a@.skip(i as int), b@.skip(i as int)),
        decreases a@.len() - i,
    {
        proof {
            assert(a@.skip(i as int)[0] == a@[i as int]);
            assert(b@.skip(i as int)[0] == b@[i as int]);
            assert(a@.skip(i as int).drop_first() =~= a@.skip(i + 1));
            assert(b@.skip(i as int).drop_first() =~= b@.skip(i + 1));
        }
        if a[i] < b[i] {
            return Ordering::Less;
        }
        if b[i] < a[i] {
            return Ordering::Greater;
        }
        i = i + 1;
    }
    if a.len() == b.len() {
        proof {
            assert(a@.skip(i as int).len() == 0);
            assert(b@.skip(i as int).len() == 0);
            assert(lex_cmp_chars(a@.skip(i as int), b@.skip(i as int)) == Ordering::Equal);
        }
        Ordering::Equal
    } else if a.len() < b.len() {
        proof {
            assert(a@.skip(i as int).len() == 0);
            assert(b@.skip(i as int).len() > 0);
            assert(lex_cmp_chars(a@.skip(i as int), b@.skip(i as int)) == Ordering::Less);
        }
        Ordering::Less
    } else {
        proof {
            assert(b@.skip(i as int).len() == 0);
            assert(a@.skip(i as int).len() > 0);
            assert(lex_cmp_chars(a@.skip(i as int), b@.skip(i as int)) == Ordering::Greater);
        }
        Ordering::Greater
    }
}

/// Compares two component vectors lexicographically.
fn cmp_pieces(a: &Vec<Vec<char>>, b: &Vec<Vec<char>>) -> (r: Ordering)
    ensures
        r == lex_cmp_pieces(a.deep_view(), b.deep_view()),
{
    let ghost av = a.deep_view();
    let ghost bv = b.deep_view();
    let mut i: usize = 0;
    proof {
        assert(av.skip(0) =~= av);
        assert(bv.skip(0) =~= bv);
    }
    while i < a.len() && i < b.len()
        invariant
            av == a.deep_view(),
            bv == b.deep_view(),
            i <= av.len(),
            i <= bv.len(),
            av.len() == a@.len(),
            bv.len() == b@.len(),
            lex_cmp_pieces(av, bv) == lex_cmp_pieces(av.skip(i as int), bv.skip(i as int)),
        decreases av.len() - i,
    {
        proof {
            assert(av.skip(i as int)[0] == av[i as int]);
            assert(bv.skip(i as int)[0] == bv[i as int]);
            assert(av.skip(i as int).drop_first() =~= av.skip(i + 1));
            assert(bv.skip(i as int).drop_first() =~= bv.skip(i + 1));
            assert(av[i as int] == a@[i as int].deep_view());
            assert(bv[i as int] == b@[i as int].deep_view());
            assert(a@[i as int].deep_view() =~= a@[i as int]@);
            assert(b@[i as int].deep_view() =~= b@[i as int]@);
        }
        let c = cmp_chars(&a[i], &b[i]);
        match c {
            Ordering::Equal => {
                i = i + 1;
            },
            _ => {
                return c;
            },
        }
    }
    if a.len() == b.len() {
        proof {
            assert(av.skip(i as int).len() == 0);
            assert(bv.skip(i as int).len() == 0);
            assert(lex_cmp_pieces(av.skip(i as int), bv.skip(i as int)) == Ordering::Equal);
        }
        Ordering::Equal
    } else if a.len() < b.len() {
        proof {
            assert(av.skip(i as int).len() == 0);
            assert(bv.skip(i as int).len() > 0);
            assert(lex_cmp_pieces(av.skip(i as int), bv.skip(i as int)) == Ordering::Less);
        }
        Ordering::Less
    } else {
        proof {
            assert(bv.skip(i as int).len() == 0);
            assert(av.skip(i as int).len() > 0);
            assert(lex_cmp_pieces(av.skip(i as int), bv.skip(i as int)) == Ordering::Greater);
        }
        Ordering::Greater
    }
}

/// The component vector of a path's text.
fn components_vec(path: &RepoPath) -> (r: Vec<Vec<char>>)
    ensures
        r.deep_view() == path_components(path@),
{
    let cs = chars_of(path.0.as_str());
    if cs.len() == 0 {
        let r: Vec<Vec<char>> = Vec::new();
        proof {
            assert(r.deep_view() =~~= path_components(path@));
        }
        return r;
    }
    split_chars(&cs, '/')
}

impl RepoPath {
    /// Compares two paths component by component.
    pub fn cmp_path(&self, other: &RepoPath) -> (r: Ordering)
        ensures
            r == path_cmp_spec(self@, other@),
    {
        let a = components_vec(self);
        let b = components_vec(other);
        cmp_pieces(&a, &b)
    }

    /// Whether every component of `prefix` is an initial component of this
    /// path.
    pub fn starts_with(&self, prefix: &RepoPath) -> (r: bool)
        ensures
            r == path_is_descendant(self@, prefix@),
    {
        let a = components_vec(prefix);
        let b = components_vec(self);
        let ghost av = a.deep_view();
        let ghost bv = b.deep_view();
        if a.len() > b.len() {
            proof {
                assert(!av.is_prefix_of(bv));
            }
            return false;
        }
        let mut i: usize = 0;
        while i < a.len()
            invariant
                av == a.deep_view(),
                bv == b.deep_view(),
                av == path_components(prefix@),
                bv == path_components(self@),
                av.len() == a@.len(),
                bv.len() == b@.len(),
                i <= av.len() <= bv.len(),
                forall|j: int| 0 <= j < i ==> av[j] == bv[j],
            decreases av.len() - i,
        {
            proof {
                assert(av[i as int] == a@[i as int].deep_view());
                assert(bv[i as int] == b@[i as int].deep_view());
                assert(a@[i as int].deep_view() =~= a@[i as int]@);
                assert(b@[i as int].deep_view() =~= b@[i as int]@);
            }
            if !chars_eq(&a[i], &b[i]) {
                proof {
                    assert(av[i as int] != bv[i as int]);
                    assert(!av.is_prefix_of(bv));
                }
                return false;
            }
            i = i + 1;
        }
        proof {
            assert(av =~= bv.take(av.len() as int));
        }
        true
    }
}

/// A seek target that places every descendant of a prefix after the prefix
/// itself, so that a search over a sorted run of paths lands at the first
/// descendant.
#[derive(Debug)]
pub struct RepoPathDescendants<'a>(pub &'a RepoPath);

impl<'a> RepoPathDescendants<'a> {
    /// Treats any key that descends from the target as greater than the
    /// target; otherwise compares the target against the key.
    pub fn cmp_cursor(&self, key: &RepoPath) -> (r: Ordering)
        ensures
            r == if path_is_descendant(key@, self.0@) {
                Ordering::Greater
            } else {
                path_cmp_spec(self.0@, key@)
            },
    {
        if key.starts_with(self.0) {
            Ordering::Greater
        } else {
            self.0.cmp_path(key)
        }
    }
}

/// Whether `a` sorts no later than `b`.
pub open spec fn path_le(a: Seq<char>, b: Seq<char>) -> bool {
    path_cmp_spec(a, b) != Ordering::Greater
}

/// Two character sequences compare equal exactly when they are equal.
pub proof fn lemma_lex_chars_eq(a: Seq<char>, b: Seq<char>)
    ensures
        (lex_cmp_chars(a, b) == Ordering::Equal) <==> (a == b),
    decreases a.len(),
{
    if a.len() == 0 && b.len() == 0 {
        assert(a =~= b);
    } else if a.len() > 0 && b.len() > 0 && a[0] == b[0] {
        lemma_lex_chars_eq(a.drop_first(), b.drop_first());
        if a.drop_first() == b.drop_first() {
            assert forall|i: int| 0 <= i < a.len() implies a[i] == b[i] by {
                if i > 0 {
                    assert(a.drop_first()[i - 1] == a[i]);
                    assert(b.drop_first()[i - 1] == b[i]);
                }
            }
            assert(a =~= b);
        }
        if a == b {
            assert(a.drop_first() =~= b.drop_first());
        }
    } else if a.len() > 0 && b.len() > 0 {
        assert(a != b);
    }
}

/// Swapping the operands of a comparison mirrors its result.
pub proof fn lemma_lex_chars_flip(a: Seq<char>, b: Seq<char>)
    ensures
        lex_cmp_chars(b, a) == (match lex_cmp_chars(a, b) {
            Ordering::Less => Ordering::Greater,
            Ordering::Equal => Ordering::Equal,
            Ordering::Greater => Ordering::Less,
        }),
    decreases a.len(),
{
    if a.len() > 0 && b.len() > 0 && a[0] == b[0] {
        lemma_lex_chars_flip(a.drop_first(), b.drop_first());
    }
}

/// The character comparison is transitive in its non-strict form.
pub proof fn lemma_lex_chars_trans_le(a: Seq<char>, b: Seq<char>, c: Seq<char>)
    requires
        lex_cmp_chars(a, b) != Ordering::Greater,
        lex_cmp_chars(b, c) != Ordering::Greater,
    ensures
        lex_cmp_chars(a, c) != Ordering::Greater,
    decreases a.len(),
{
    if a.len() == 0 {
    } else if b.len() == 0 {
    } else if c.len() == 0 {
    } else {
        if a[0] == b[0] && b[0] == c[0] {
            lemma_lex_chars_trans_le(a.drop_first(), b.drop_first(), c.drop_first());
        }
    }
}

/// Two component sequences compare equal exactly when they are equal.
pub proof fn lemma_lex_pieces_eq(a: Seq<Seq<char>>, b: Seq<Seq<char>>)
    ensures
        (lex_cmp_pieces(a, b) == Ordering::Equal) <==> (a == b),
    decreases a.len(),
{
    if a.len() == 0 && b.len() == 0 {
        assert(a =~= b);
    } else if a.len() > 0 && b.len() > 0 {
        lemma_lex_chars_eq(a[0], b[0]);
        if lex_cmp_chars(a[0], b[0]) == Ordering::Equal {
            lemma_lex_pieces_eq(a.drop_first(), b.drop_first());
            if a.drop_first() == b.drop_first() {
                assert forall|i: int| 0 <= i < a.len() implies a[i] == b[i] by {
                    if i > 0 {
                        assert(a.drop_first()[i - 1] == a[i]);
                        assert(b.drop_first()[i - 1] == b[i]);
                    }
                }
                assert(a =~= b);
            }
            if a == b {
                assert(a.drop_first() =~= b.drop_first());
            }
        } else {
            assert(a != b);
        }
    }
}

/// Swapping the operands of a component comparison mirrors its result.
pub proof fn lemma_lex_pieces_flip(a: Seq<Seq<char>>, b: Seq<Seq<char>>)
    ensures
        lex_cmp_pieces(b, a) == (match lex_cmp_pieces(a, b) {
            Ordering::Less => Ordering::Greater,
            Ordering::Equal => Ordering::Equal,
            Ordering::Greater => Ordering::Less,
        }),
    decreases a.len(),
{
    if a.len() > 0 && b.len() > 0 {
        lemma_lex_chars_flip(a[0], b[0]);
        lemma_lex_chars_eq(a[0], b[0]);
        if lex_cmp_chars(a[0], b[0]) == Ordering::Equal {
            lemma_lex_pieces_flip(a.drop_first(), b.drop_first());
        }
    }
}

/// The component comparison is transitive in its non-strict form.
pub proof fn lemma_lex_pieces_trans_le(a: Seq<Seq<char>>, b: Seq<Seq<char>>, c: Seq<Seq<char>>)
    requires
        lex_cmp_pieces(a, b) != Ordering::Greater,
        lex_cmp_pieces(b, c) != Ordering::Greater,
    ensures
        lex_cmp_pieces(a, c) != Ordering::Greater,
    decreases a.len(),
{
    if a.len() == 0 {
    } else if b.len() == 0 {
    } else if c.len() == 0 {
    } else {
        lemma_lex_chars_eq(a[0], b[0]);
        lemma_lex_chars_eq(b[0], c[0]);
        lemma_lex_chars_eq(a[0], c[0]);
        lemma_lex_chars_flip(a[0], b[0]);
        lemma_lex_chars_flip(b[0], c[0]);
        lemma_lex_chars_flip(a[0], c[0]);
        lemma_lex_chars_trans_le(a[0], b[0], c[0]);
        if a[0] == b[0] && b[0] == c[0] {
            lemma_lex_pieces_trans_le(a.drop_first(), b.drop_first(), c.drop_first());
        } else if a[0] == b[0] {
        } else if b[0] == c[0] {
        } else {
            if lex_cmp_chars(a[0], c[0]) == Ordering::Equal {
                lemma_lex_chars_trans_le(c[0], a[0], b[0]);
            }
        }
    }
}

/// The path ordering is transitive.
pub proof fn lemma_path_le_trans(a: Seq<char>, b: Seq<char>, c: Seq<char>)
    requires
        path_le(a, b),
        path_le(b, c),
    ensures
        path_le(a, c),
{
    lemma_lex_pieces_trans_le(path_components(a), path_components(b), path_components(c));
}

/// The path ordering is reflexive.
pub proof fn lemma_path_le_refl(a: Seq<char>)
    ensures
        path_le(a, a),
{
    lemma_lex_pieces_eq(path_components(a), path_components(a));
}

/// Swapping the operands of a path comparison mirrors its result.
pub proof fn lemma_path_cmp_flip(a: Seq<char>, b: Seq<char>)
    ensures
        path_cmp_spec(b, a) == (match path_cmp_spec(a, b) {
            Ordering::Less => Ordering::Greater,
            Ordering::Equal => Ordering::Equal,
            Ordering::Greater => Ordering::Less,
        }),
{
    lemma_lex_pieces_flip(path_components(a), path_components(b));
}

} // verus!
