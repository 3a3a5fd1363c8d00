//! A stack of gitignore matchers for a directory walk: entering a directory
//! pushes its gitignore, leaving it truncates the active set back, and a path
//! is ignored when any active matcher ignores it.
use vstd::prelude::*;
use ignore::gitignore::Gitignore;
use crate::path_text::{
    path_strip_prefix, path_has_root, path_eq, builds_for_windows, starts_with_slash,
    strip_path_prefix, path_text_has_root, path_texts_equal, target_is_windows, text_chars,
};

verus! {

#[verifier::external_type_specification]
#[verifier::external_body]
pub struct ExGitignore(Gitignore);

/// The directory a `Gitignore` matches relative to (`Gitignore::path`), as
/// text, or `None` where that path is not UTF-8.
pub uninterp spec fn gitignore_root_text(gitignore: Gitignore) -> Option<Seq<char>>;

/// Whether a `Gitignore` holds no glob (`Gitignore::is_empty`).
pub uninterp spec fn gitignore_is_empty(gitignore: Gitignore) -> bool;

/// What a `Gitignore` holds, seen through `Gitignore::matched`: the
/// `(path, is_dir)` queries it answers with `Match::Ignore`.
pub uninterp spec fn gitignore_matched_ignores(gitignore: Gitignore) -> Set<(Seq<char>, bool)>;

/// What a `Gitignore` holds, seen through `Gitignore::matched_path_or_any_parents`:
/// the `(path, is_dir)` queries it answers with `Match::Ignore`.
pub uninterp spec fn gitignore_parents_ignore(gitignore: Gitignore) -> Set<(Seq<char>, bool)>;

/// The text the ignore crate matches for the query `rel` under a matcher
/// rooted at `root` (its private `Gitignore::strip`, with the byte-wise prefix
/// test it uses on Unix): a leading `./` is dropped; then, unless the root is
/// `.` or the query is a bare file name, a leading copy of the root is dropped
/// together with one `/` after it.
pub open spec fn ignore_query_text(root: Seq<char>, root_is_current_dir: bool, rel: Seq<char>) -> Seq<char> {
    let p = if rel.len() >= 2 && rel[0] == '.' && rel[1] == '/' {
        rel.subrange(2, rel.len() as int)
    } else {
        rel
    };
    if !root_is_current_dir && p.contains('/') && root.is_prefix_of(p) {
        let q = p.subrange(root.len() as int, p.len() as int);
        if starts_with_slash(q) {
            q.subrange(1, q.len() as int)
        } else {
            q
        }
    } else {
        p
    }
}

/// `Gitignore::matched_path_or_any_parents` panics on the query `rel` to a
/// non-empty matcher rooted at `root`: on Windows when `rel` has a root, on
/// other platforms when the text the crate matches starts with `/`.
pub open spec fn parents_query_panics(root: Seq<char>, rel: Seq<char>) -> bool {
    if builds_for_windows() {
        path_has_root(rel)
    } else {
        starts_with_slash(ignore_query_text(root, path_eq(root, "."@), rel))
    }
}

/// Calls `Gitignore::path` and renders the root as text (`Path::to_str`).
/// Claims that the result is the root named by `gitignore_root_text`.
#[verifier::external_body]
fn gitignore_root(gitignore: &Gitignore) -> (root: Option<String>)
    ensures
        root is None <==> gitignore_root_text(*gitignore) is None,
        root matches Some(r) ==> gitignore_root_text(*gitignore) == Some(r@),
{
    match gitignore.path().to_str() {
        Some(text) => Some(text.to_string()),
        None => None,
    }
}

/// Calls `Gitignore::is_empty`; the result is the named property.
#[verifier::external_body]
fn gitignore_has_no_globs(gitignore: &Gitignore) -> (empty: bool)
    ensures
        empty == gitignore_is_empty(*gitignore),
{
    gitignore.is_empty()
}

/// Calls `Gitignore::matched` on `rel`. Claims only that the outcome "ignore"
/// is the membership of the query in `gitignore_matched_ignores`.
#[verifier::external_body]
fn gitignore_matched(gitignore: &Gitignore, rel: &str, is_dir: bool) -> (ignored: bool)
    ensures
        ignored == gitignore_matched_ignores(*gitignore).contains((rel@, is_dir)),
{
    match gitignore.matched(std::path::Path::new(rel), is_dir) {
        ignore::Match::Ignore(_) => true,
        ignore::Match::Whitelist(_) => false,
        ignore::Match::None => false,
    }
}

/// Calls `Gitignore::matched_path_or_any_parents` on `rel`; claims that
/// "ignore" is the membership of the query in `gitignore_parents_ignore`.
///
/// The crate first asks `matched_stripped` about the stripped query itself,
/// as `matched` does, and returns that answer when there is one; so a query
/// that `matched` ignores is ignored here too.
///
/// The crate returns at once for a matcher without globs; otherwise it strips
/// the query (`ignore_query_text` on Unix, `Path::strip_prefix` elsewhere) and
/// asserts that the rest has no root. The admitted inputs are exactly those on
/// which that assertion holds on Unix. Elsewhere the admitted inputs are safe
/// but fewer: on Windows any rooted query is left out (some, such as `\foo`
/// under the root `\`, would not panic), and on other targets, whose
/// stripping never leaves a root, the Unix condition is asked all the same.
#[verifier::external_body]
fn gitignore_matched_path_or_any_parents(gitignore: &Gitignore, rel: &str, is_dir: bool) -> (ignored: bool)
    requires
        gitignore_root_text(*gitignore) is Some,
        gitignore_is_empty(*gitignore) || !parents_query_panics(
            gitignore_root_text(*gitignore)->0,
            rel@,
        ),
    ensures
        ignored == gitignore_parents_ignore(*gitignore).contains((rel@, is_dir)),
        gitignore_matched_ignores(*gitignore).contains((rel@, is_dir)) ==> ignored,
{
    match gitignore.matched_path_or_any_parents(std::path::Path::new(rel), is_dir) {
        ignore::Match::Ignore(_) => true,
        ignore::Match::Whitelist(_) => false,
        ignore::Match::None => false,
    }
}

/// A rooted rest below the matcher's root is refused: on Windows always,
/// elsewhere unless the root is empty (a global gitignore).
pub open spec fn rooted_rest_refused(root: Seq<char>, rel: Seq<char>) -> bool {
    path_has_root(rel) && (builds_for_windows() || root.len() != 0)
}

/// Whether `gitignore` ignores `path`: the path must lie under the matcher's
/// root; a refused rooted rest is not ignored; otherwise the matcher answers
/// for the rest, checking the parent directories too when `check_ancestors`
/// is set.
pub open spec fn gitignore_matches_spec(
    gitignore: Gitignore,
    path: Seq<char>,
    is_dir: bool,
    check_ancestors: bool,
) -> bool {
    match gitignore_root_text(gitignore) {
        None => false,
        Some(root) => match path_strip_prefix(path, root) {
            None => false,
            Some(rel) => if rooted_rest_refused(root, rel) {
                false
            } else if check_ancestors {
                gitignore_parents_ignore(gitignore).contains((rel, is_dir))
            } else {
                gitignore_matched_ignores(gitignore).contains((rel, is_dir))
            },
        },
    }
}

/// Asking `gitignore` about `path` panics: ancestors are checked, the path lies
/// under the root with a rest that is not refused, and the ignore crate's
/// parent walk rejects that rest.
pub open spec fn gitignore_query_panics(gitignore: Gitignore, path: Seq<char>, check_ancestors: bool) -> bool {
    check_ancestors && match gitignore_root_text(gitignore) {
        None => false,
        Some(root) => match path_strip_prefix(path, root) {
            None => false,
            Some(rel) => !rooted_rest_refused(root, rel) && !gitignore_is_empty(gitignore)
                && parents_query_panics(root, rel),
        },
    }
}

/// Decides whether one gitignore ignores `path`.
pub fn gitignore_matches_path(gitignore: &Gitignore, path: &str, is_dir: bool, check_ancestors: bool) -> (ignored:
    bool)
    requires
        !gitignore_query_panics(*gitignore, path@, check_ancestors),
    ensures
        ignored == gitignore_matches_spec(*gitignore, path@, is_dir, check_ancestors),
        check_ancestors && gitignore_matches_spec(*gitignore, path@, is_dir, false) ==> ignored,
{
    let root = match gitignore_root(gitignore) {
        Some(root) => root,
        None => return false,
    };
    let relative_path = match strip_path_prefix(path, root.as_str()) {
        Some(rel) => rel,
        None => return false,
    };
    if path_text_has_root(relative_path.as_str()) && (target_is_windows() || !root.as_str().is_empty()) {
        return false;
    }
    proof {
        assert(root@.len() == 0 ==> root@ =~= Seq::<char>::empty());
    }
    if check_ancestors {
        gitignore_matched_path_or_any_parents(gitignore, relative_path.as_str(), is_dir)
    } else {
        gitignore_matched(gitignore, relative_path.as_str(), is_dir)
    }
}

/// Whether `gitignore` ignores `path`, or `None` where asking would panic.
pub fn checked_gitignore_matches_path(
    gitignore: &Gitignore,
    path: &str,
    is_dir: bool,
    check_ancestors: bool,
) -> (ignored: Option<bool>)
    ensures
        ignored is None <==> gitignore_query_panics(*gitignore, path@, check_ancestors),
        ignored matches Some(b) ==> b == gitignore_matches_spec(*gitignore, path@, is_dir, check_ancestors),
{
    if check_ancestors {
        if let Some(root) = gitignore_root(gitignore) {
            if let Some(rel) = strip_path_prefix(path, root.as_str()) {
                let windows = target_is_windows();
                let rooted = path_text_has_root(rel.as_str());
                let refused = rooted && (windows || !root.as_str().is_empty());
                if !refused && !gitignore_has_no_globs(gitignore) {
                    let panics = if windows {
                        rooted
                    } else {
                        let is_current_dir = path_texts_equal(root.as_str(), ".");
                        ignore_query_starts_with_slash(root.as_str(), is_current_dir, rel.as_str())
                    };
                    if panics {
                        return None;
                    }
                }
            }
        }
    }
    Some(gitignore_matches_path(gitignore, path, is_dir, check_ancestors))
}

/// Whether `ignore_query_text(root, root_is_current_dir, rel)` starts with `/`.
fn ignore_query_starts_with_slash(root: &str, root_is_current_dir: bool, rel: &str) -> (starts: bool)
    ensures
        starts == starts_with_slash(ignore_query_text(root@, root_is_current_dir, rel@)),
{
    let r = text_chars(rel);
    let o = text_chars(root);
    let n = r.len();
    let start: usize = if n >= 2 && r[0] == '.' && r[1] == '/' {
        2
    } else {
        0
    };
    let ghost p = r@.subrange(start as int, n as int);
    assert(p =~= (if r@.len() >= 2 && r@[0] == '.' && r@[1] == '/' {
        r@.subrange(2, r@.len() as int)
    } else {
        r@
    }));
    if !root_is_current_dir && contains_slash_from(&r, start) && is_prefix_at(&o, &r, start) {
        let q = start + o.len();
        let ghost qs = p.subrange(o@.len() as int, p.len() as int);
        assert(qs =~= r@.subrange(q as int, n as int));
        let s = if q < n && r[q] == '/' {
            q + 1
        } else {
            q
        };
        assert(starts_with_slash(qs) ==> qs.subrange(1, qs.len() as int) =~= r@.subrange(s as int, n as int));
        s < n && r[s] == '/'
    } else {
        start < n && r[start] == '/'
    }
}

/// Some character of `chars` from `start` on is `/`.
fn contains_slash_from(chars: &Vec<char>, start: usize) -> (found: bool)
    requires
        start <= chars@.len(),
    ensures
        found == chars@.subrange(start as int, chars@.len() as int).contains('/'),
{
    let ghost tail = chars@.subrange(start as int, chars@.len() as int);
    let n = chars.len();
    let mut i = start;
    while i < n
        invariant
            start <= i <= n,
            n == chars@.len(),
            tail == chars@.subrange(start as int, n as int),
            forall|j: int| start <= j < i ==> chars@[j] != '/',
        decreases n - i,
    {
        if chars[i] == '/' {
            assert(tail[i - start] == '/');
            return true;
        }
        i += 1;
    }
    assert forall|j: int| 0 <= j < tail.len() implies tail[j] != '/' by {
        assert(tail[j] == chars@[start + j]);
    }
    false
}

/// `prefix` is a prefix of `chars` from `start` on.
fn is_prefix_at(prefix: &Vec<char>, chars: &Vec<char>, start: usize) -> (found: bool)
    requires
        start <= chars@.len(),
    ensures
        found == prefix@.is_prefix_of(chars@.subrange(start as int, chars@.len() as int)),
{
    let ghost tail = chars@.subrange(start as int, chars@.len() as int);
    let m = prefix.len();
    if m > chars.len() - start {
        return false;
    }
    let mut i: usize = 0;
    while i < m
        invariant
            i <= m,
            m == prefix@.len(),
            m <= tail.len(),
            start + tail.len() == chars.len(),
            tail == chars@.subrange(start as int, chars@.len() as int),
            forall|j: int| 0 <= j < i ==> prefix@[j] == tail[j],
        decreases m - i,
    {
        if prefix[i] != chars[start + i] {
            assert(tail[i as int] == chars@[start + i]);
            return false;
        }
        i += 1;
    }
    assert(prefix@ =~= tail.subrange(0, m as int));
    true
}

/// The gitignores of a directory walk, with the indices of those that are
/// currently active (the ones of the directories entered and not yet left).
pub struct GitignoreStack {
    gitignores: Vec<Gitignore>,
    active_indices: Vec<usize>,
}

impl GitignoreStack {
    /// Every gitignore the stack was given, in order, active or not.
    pub closed spec fn gitignores(&self) -> Seq<Gitignore> {
        self.gitignores@
    }

    /// The indices of the active gitignores, in the order they became active.
    pub closed spec fn active(&self) -> Seq<usize> {
        self.active_indices@
    }

    /// Active indices rise strictly and point into the gitignores, whose count
    /// fits a `usize`.
    pub open spec fn wf(&self) -> bool {
        &&& self.gitignores().len() <= usize::MAX
        &&& forall|i: int, j: int|
            0 <= i < j < self.active().len() ==> #[trigger] self.active()[i] < #[trigger] self.active()[j]
        &&& forall|i: int|
            0 <= i < self.active().len() ==> #[trigger] self.active()[i] < self.gitignores().len()
    }

    /// The active gitignores themselves, in activation order.
    pub open spec fn active_gitignores(&self) -> Seq<Gitignore> {
        self.active().map_values(|i: usize| self.gitignores()[i as int])
    }

    /// Some active gitignore ignores `path`.
    pub open spec fn matches_spec(&self, path: Seq<char>, is_dir: bool, check_ancestors: bool) -> bool {
        exists|k: int|
            0 <= k < self.active_gitignores().len() && gitignore_matches_spec(
                #[trigger] self.active_gitignores()[k],
                path,
                is_dir,
                check_ancestors,
            )
    }

    /// Asking the stack about `path` panics: the active gitignores are asked in
    /// order until one ignores the path, and one asked before that panics.
    pub open spec fn query_panics(&self, path: Seq<char>, is_dir: bool, check_ancestors: bool) -> bool {
        exists|k: int|
            0 <= k < self.active_gitignores().len() && gitignore_query_panics(
                #[trigger] self.active_gitignores()[k],
                path,
                check_ancestors,
            ) && forall|j: int|
                0 <= j < k ==> !gitignore_matches_spec(
                    #[trigger] self.active_gitignores()[j],
                    path,
                    is_dir,
                    check_ancestors,
                )
    }

    /// `after` is `before` with `gitignore` added and made active.
    pub open spec fn pushes_active(before: Self, after: Self, gitignore: Gitignore) -> bool {
        &&& after.gitignores() == before.gitignores().push(gitignore)
        &&& after.active() == before.active().push(before.gitignores().len() as usize)
    }

    /// `after` is `before` with only the first `len` active gitignores kept.
    pub open spec fn truncates_active(before: Self, after: Self, len: usize) -> bool {
        &&& after.gitignores() == before.gitignores()
        &&& after.active() == if len <= before.active().len() {
            before.active().subrange(0, len as int)
        } else {
            before.active()
        }
    }

    /// A stack in which all of `gitignores` are active, in order.
    pub fn new(gitignores: Vec<Gitignore>) -> (stack: Self)
        ensures
            stack.wf(),
            stack.gitignores() == gitignores@,
            stack.active() == Seq::new(gitignores@.len(), |i: int| i as usize),
            stack.active_gitignores() == gitignores@,
            forall|path: Seq<char>, is_dir: bool, check_ancestors: bool|
                #[trigger] stack.matches_spec(path, is_dir, check_ancestors) == exists|k: int|
                    0 <= k < gitignores@.len() && gitignore_matches_spec(
                        #[trigger] gitignores@[k],
                        path,
                        is_dir,
                        check_ancestors,
                    ),
    {
        let count = gitignores.len();
        let mut active_indices: Vec<usize> = Vec::new();
        for index in 0..count
            invariant
                count == gitignores@.len(),
                active_indices@ == Seq::new(index as nat, |i: int| i as usize),
        {
            active_indices.push(index);
            assert(active_indices@ =~= Seq::new((index + 1) as nat, |i: int| i as usize));
        }
        let stack = GitignoreStack { gitignores, active_indices };
        assert(stack.gitignores@.len() == stack.gitignores.len());
        assert(stack.active_gitignores() =~= stack.gitignores());
        stack
    }

    /// Hands back every gitignore the stack was given, active or not.
    pub fn into_gitignores(self) -> (gitignores: Vec<Gitignore>)
        ensures
            gitignores@ == self.gitignores(),
    {
        self.gitignores
    }

    /// How many gitignores are active.
    pub fn active_len(&self) -> (len: usize)
        ensures
            len == self.active().len(),
    {
        self.active_indices.len()
    }

    /// Keeps only the first `active_len` active gitignores.
    pub fn truncate_active(&mut self, active_len: usize)
        requires
            old(self).wf(),
        ensures
            final(self).wf(),
            Self::truncates_active(*old(self), *final(self), active_len),
    {
        let ghost before = *self;
        self.active_indices.truncate(active_len);
        proof {
            assert forall|i: int| 0 <= i < self.active().len() implies #[trigger] self.active()[i]
                == before.active()[i] by {}
        }
    }

    /// Adds `gitignore` and makes it active.
    pub fn push_active(&mut self, gitignore: Gitignore)
        requires
            old(self).wf(),
        ensures
            final(self).wf(),
            Self::pushes_active(*old(self), *final(self), gitignore),
    {
        let ghost before = *self;
        let index = self.gitignores.len();
        self.gitignores.push(gitignore);
        self.active_indices.push(index);
        proof {
            assert(self.gitignores@.len() == self.gitignores.len());
            assert forall|i: int| 0 <= i < self.active().len() - 1 implies #[trigger] self.active()[i]
                == before.active()[i] && before.active()[i] < index by {}
        }
    }

    /// Whether some active gitignore ignores `path`; the active gitignores
    /// are asked in order and the first that ignores the path ends the search.
    pub fn matches(&self, path: &str, is_dir: bool, check_ancestors: bool) -> (ignored: bool)
        requires
            self.wf(),
            !self.query_panics(path@, is_dir, check_ancestors),
        ensures
            ignored == self.matches_spec(path@, is_dir, check_ancestors),
            check_ancestors && self.matches_spec(path@, is_dir, false) ==> ignored,
    {
        let count = self.active_indices.len();
        for k in 0..count
            invariant
                self.wf(),
                count == self.active().len(),
                !self.query_panics(path@, is_dir, check_ancestors),
                forall|j: int|
                    0 <= j < k && check_ancestors ==> !gitignore_matches_spec(
                        #[trigger] self.active_gitignores()[j],
                        path@,
                        is_dir,
                        false,
                    ),
                forall|j: int|
                    0 <= j < k ==> !gitignore_matches_spec(
                        #[trigger] self.active_gitignores()[j],
                        path@,
                        is_dir,
                        check_ancestors,
                    ),
        {
            let index = self.active_indices[k];
            assert(self.active_gitignores()[k as int] == self.gitignores()[index as int]);
            proof {
                if gitignore_query_panics(self.active_gitignores()[k as int], path@, check_ancestors) {
                    assert(self.query_panics(path@, is_dir, check_ancestors));
                }
            }
            if gitignore_matches_path(&self.gitignores[index], path, is_dir, check_ancestors) {
                return true;
            }
        }
        false
    }

    /// Whether some active gitignore ignores `path`, or `None` where asking
    /// would panic.
    pub fn try_matches(&self, path: &str, is_dir: bool, check_ancestors: bool) -> (ignored: Option<bool>)
        requires
            self.wf(),
        ensures
            ignored is None <==> self.query_panics(path@, is_dir, check_ancestors),
            ignored matches Some(b) ==> b == self.matches_spec(path@, is_dir, check_ancestors),
    {
        let count = self.active_indices.len();
        for k in 0..count
            invariant
                self.wf(),
                count == self.active().len(),
                forall|j: int|
                    0 <= j < k ==> !gitignore_matches_spec(
                        #[trigger] self.active_gitignores()[j],
                        path@,
                        is_dir,
                        check_ancestors,
                    ),
                forall|j: int|
                    0 <= j < k ==> !gitignore_query_panics(
                        #[trigger] self.active_gitignores()[j],
                        path@,
                        check_ancestors,
                    ),
        {
            let index = self.active_indices[k];
            assert(self.active_gitignores()[k as int] == self.gitignores()[index as int]);
            match checked_gitignore_matches_path(&self.gitignores[index], path, is_dir, check_ancestors) {
                None => {
                    assert(self.query_panics(path@, is_dir, check_ancestors));
                    return None;
                },
                Some(true) => {
                    proof {
                        assert forall|k2: int|
                            0 <= k2 < self.active_gitignores().len() && #[trigger] gitignore_query_panics(
                                self.active_gitignores()[k2],
                                path@,
                                check_ancestors,
                            ) implies !(forall|j: int|
                            0 <= j < k2 ==> !gitignore_matches_spec(
                                #[trigger] self.active_gitignores()[j],
                                path@,
                                is_dir,
                                check_ancestors,
                            )) by {
                            if k2 < k {
                            } else {
                                if k2 > k {
                                    assert(gitignore_matches_spec(self.active_gitignores()[k as int], path@, is_dir, check_ancestors));
                                }
                            }
                        }
                    }
                    return Some(true);
                },
                Some(false) => {},
            }
        }
        proof {
            assert forall|k2: int|
                0 <= k2 < self.active_gitignores().len() implies !#[trigger] gitignore_query_panics(
                    self.active_gitignores()[k2],
                    path@,
                    check_ancestors,
                ) by {}
        }
        Some(false)
    }
}

/// Pushing a gitignore appends it to the active gitignores and keeps those
/// active before, in their order.
pub proof fn lemma_push_extends_active(before: GitignoreStack, after: GitignoreStack, gitignore: Gitignore)
    requires
        before.wf(),
        GitignoreStack::pushes_active(before, after, gitignore),
    ensures
        after.active_gitignores() == before.active_gitignores().push(gitignore),
{
    assert forall|k: int| 0 <= k < before.active().len() implies #[trigger] after.active_gitignores()[k]
        == before.active_gitignores()[k] by {
        assert(after.active()[k] == before.active()[k]);
        assert(before.active()[k] < before.gitignores().len());
    }
    let n = before.active().len() as int;
    assert(after.active()[n] == before.gitignores().len());
    assert(after.active_gitignores()[n] == gitignore);
    assert(after.active_gitignores() =~= before.active_gitignores().push(gitignore));
}

/// After a push, a path is ignored exactly when it was ignored before or the
/// pushed gitignore ignores it.
pub proof fn lemma_push_adds_one_verdict(
    before: GitignoreStack,
    after: GitignoreStack,
    gitignore: Gitignore,
    path: Seq<char>,
    is_dir: bool,
    check_ancestors: bool,
)
    requires
        before.wf(),
        GitignoreStack::pushes_active(before, after, gitignore),
    ensures
        after.matches_spec(path, is_dir, check_ancestors) == (before.matches_spec(
            path,
            is_dir,
            check_ancestors,
        ) || gitignore_matches_spec(gitignore, path, is_dir, check_ancestors)),
{
    lemma_push_extends_active(before, after, gitignore);
    let n = before.active_gitignores().len();
    if after.matches_spec(path, is_dir, check_ancestors) {
        let k = choose|k: int|
            0 <= k < after.active_gitignores().len() && gitignore_matches_spec(
                #[trigger] after.active_gitignores()[k],
                path,
                is_dir,
                check_ancestors,
            );
        if k < n {
            assert(before.active_gitignores()[k] == after.active_gitignores()[k]);
        }
    }
    if before.matches_spec(path, is_dir, check_ancestors) {
        let k = choose|k: int|
            0 <= k < before.active_gitignores().len() && gitignore_matches_spec(
                #[trigger] before.active_gitignores()[k],
                path,
                is_dir,
                check_ancestors,
            );
        assert(after.active_gitignores()[k] == before.active_gitignores()[k]);
    }
    if gitignore_matches_spec(gitignore, path, is_dir, check_ancestors) {
        assert(after.active_gitignores()[n as int] == gitignore);
    }
}

/// Two stacks with the same active gitignores give the same verdict on every
/// path: inactive gitignores never count.
pub proof fn lemma_matches_depends_on_active_only(
    a: GitignoreStack,
    b: GitignoreStack,
    path: Seq<char>,
    is_dir: bool,
    check_ancestors: bool,
)
    requires
        a.active_gitignores() == b.active_gitignores(),
    ensures
        a.matches_spec(path, is_dir, check_ancestors) == b.matches_spec(
            path,
            is_dir,
            check_ancestors,
        ),
{
}

/// Entering a directory and leaving it again restores the walk's state:
/// pushing a gitignore and then truncating to the earlier active length gives
/// back the earlier active gitignores, and with them every verdict.
pub proof fn lemma_push_then_truncate_restores(
    before: GitignoreStack,
    pushed: GitignoreStack,
    after: GitignoreStack,
    gitignore: Gitignore,
    len: usize,
    path: Seq<char>,
    is_dir: bool,
    check_ancestors: bool,
)
    requires
        before.wf(),
        len == before.active().len(),
        GitignoreStack::pushes_active(before, pushed, gitignore),
        GitignoreStack::truncates_active(pushed, after, len),
    ensures
        after.active_gitignores() == before.active_gitignores(),
        after.matches_spec(path, is_dir, check_ancestors) == before.matches_spec(
            path,
            is_dir,
            check_ancestors,
        ),
{
    assert(after.active() =~= before.active());
    assert forall|k: int| 0 <= k < before.active().len() implies #[trigger] after.active_gitignores()[k]
        == before.active_gitignores()[k] by {
        assert(before.active()[k] < before.gitignores().len());
    }
    assert(after.active_gitignores() =~= before.active_gitignores());
    lemma_matches_depends_on_active_only(after, before, path, is_dir, check_ancestors);
}

/// A query made of the matcher's root, a `/` and a rest is matched as that
/// rest (the root is not `.`, and the query does not start with `./`); under
/// the empty root of a global gitignore, `/x` is matched as `x`.
pub proof fn lemma_query_below_root_drops_root_and_slash(root: Seq<char>, rest: Seq<char>)
    requires
        !((root + seq!['/'] + rest).len() >= 2 && (root + seq!['/'] + rest)[0] == '.' && (root + seq!['/']
            + rest)[1] == '/'),
    ensures
        ignore_query_text(root, false, root + seq!['/'] + rest) == rest,
{
    let rel = root + seq!['/'] + rest;
    assert(rel[root.len() as int] == '/');
    assert(rel.contains('/'));
    assert(rel.subrange(0, root.len() as int) =~= root);
    assert(root.is_prefix_of(rel));
    let q = rel.subrange(root.len() as int, rel.len() as int);
    assert(q =~= seq!['/'] + rest);
    assert(q.subrange(1, q.len() as int) =~= rest);
}

/// A leading `./` is dropped before the root: `./` + root + `/` + rest is
/// matched as the rest.
pub proof fn lemma_query_drops_leading_dot_slash(root: Seq<char>, rest: Seq<char>)
    ensures
        ignore_query_text(root, false, seq!['.', '/'] + root + seq!['/'] + rest) == rest,
{
    let rel = seq!['.', '/'] + root + seq!['/'] + rest;
    let p = root + seq!['/'] + rest;
    assert(rel.subrange(2, rel.len() as int) =~= p);
    assert(p[root.len() as int] == '/');
    assert(p.contains('/'));
    assert(p.subrange(0, root.len() as int) =~= root);
    let q = p.subrange(root.len() as int, p.len() as int);
    assert(q =~= seq!['/'] + rest);
    assert(q.subrange(1, q.len() as int) =~= rest);
}

/// A query made of the matcher's root and a rest that does not start with `/`
/// is matched as that rest, provided the query has a `/` at all.
pub proof fn lemma_query_below_root_without_slash(root: Seq<char>, rest: Seq<char>)
    requires
        !starts_with_slash(rest),
        (root + rest).contains('/'),
        !((root + rest).len() >= 2 && (root + rest)[0] == '.' && (root + rest)[1] == '/'),
    ensures
        ignore_query_text(root, false, root + rest) == rest,
{
    let rel = root + rest;
    assert(rel.subrange(0, root.len() as int) =~= root);
    assert(rel.subrange(root.len() as int, rel.len() as int) =~= rest);
}

/// A bare file name is matched as it is.
pub proof fn lemma_bare_file_name_is_matched_as_is(root: Seq<char>, root_is_current_dir: bool, name: Seq<char>)
    requires
        !name.contains('/'),
    ensures
        ignore_query_text(root, root_is_current_dir, name) == name,
{
    if name.len() >= 2 && name[0] == '.' && name[1] == '/' {
        assert(name.contains('/'));
    }
}

/// Under the root `.` only a leading `./` is dropped.
pub proof fn lemma_current_dir_root_only_drops_dot_slash(root: Seq<char>, rel: Seq<char>)
    ensures
        ignore_query_text(root, true, rel) == if rel.len() >= 2 && rel[0] == '.' && rel[1] == '/' {
            rel.subrange(2, rel.len() as int)
        } else {
            rel
        },
{
}

/// The verdict of one gitignore on a path: a path outside the root, or with
/// a refused rooted rest, is never ignored; a path whose rest is accepted is
/// ignored exactly as the matcher answers for the rest.
pub proof fn lemma_gitignore_verdict(gitignore: Gitignore, path: Seq<char>, is_dir: bool, check_ancestors: bool)
    ensures
        gitignore_root_text(gitignore) is None ==> !gitignore_matches_spec(gitignore, path, is_dir, check_ancestors),
        gitignore_root_text(gitignore) matches Some(root) && path_strip_prefix(path, root) is None
            ==> !gitignore_matches_spec(gitignore, path, is_dir, check_ancestors),
        gitignore_root_text(gitignore) matches Some(root) && path_strip_prefix(path, root) matches Some(rel)
            && path_has_root(rel) && (builds_for_windows() || root.len() > 0) ==> !gitignore_matches_spec(
            gitignore,
            path,
            is_dir,
            check_ancestors,
        ),
        gitignore_root_text(gitignore) is Some && path_strip_prefix(path, gitignore_root_text(gitignore)->0) is Some
            && !path_has_root(path_strip_prefix(path, gitignore_root_text(gitignore)->0)->0) ==> gitignore_matches_spec(
            gitignore,
            path,
            is_dir,
            check_ancestors,
        ) == if check_ancestors {
            gitignore_parents_ignore(gitignore).contains(
                (path_strip_prefix(path, gitignore_root_text(gitignore)->0)->0, is_dir),
            )
        } else {
            gitignore_matched_ignores(gitignore).contains(
                (path_strip_prefix(path, gitignore_root_text(gitignore)->0)->0, is_dir),
            )
        },
        !check_ancestors ==> !gitignore_query_panics(gitignore, path, check_ancestors),
{
}

/// A stack with no active gitignore ignores nothing and never panics.
pub proof fn lemma_empty_stack_ignores_nothing(stack: GitignoreStack, path: Seq<char>, is_dir: bool, check_ancestors: bool)
    requires
        stack.active().len() == 0,
    ensures
        !stack.matches_spec(path, is_dir, check_ancestors),
        !stack.query_panics(path, is_dir, check_ancestors),
{
}

/// Pushing a gitignore keeps the stack well-formed.
pub proof fn lemma_push_keeps_wf(before: GitignoreStack, after: GitignoreStack, gitignore: Gitignore)
    requires
        before.wf(),
        GitignoreStack::pushes_active(before, after, gitignore),
        before.gitignores().len() < usize::MAX,
    ensures
        after.wf(),
{
    let n = before.active().len() as int;
    assert forall|i: int| 0 <= i < n implies #[trigger] after.active()[i] == before.active()[i] by {}
    assert(after.active()[n] == before.gitignores().len());
    assert forall|i: int, j: int| 0 <= i < j < after.active().len() implies #[trigger] after.active()[i]
        < #[trigger] after.active()[j] by {
        if j < n {
            assert(before.active()[i] < before.active()[j]);
        } else {
            assert(before.active()[i] < before.gitignores().len());
        }
    }
}

/// Truncating keeps the first `len` active gitignores (all of them when
/// there are fewer) and the stack well-formed.
pub proof fn lemma_truncate_cuts_active(before: GitignoreStack, after: GitignoreStack, len: usize)
    requires
        before.wf(),
        GitignoreStack::truncates_active(before, after, len),
    ensures
        after.wf(),
        after.active_gitignores() == if len <= before.active().len() {
            before.active_gitignores().subrange(0, len as int)
        } else {
            before.active_gitignores()
        },
{
    if len <= before.active().len() {
        assert forall|i: int| 0 <= i < after.active().len() implies #[trigger] after.active()[i]
            == before.active()[i] by {}
        assert(after.active_gitignores() =~= before.active_gitignores().subrange(0, len as int));
    } else {
        assert(after.active_gitignores() =~= before.active_gitignores());
    }
}

/// Entering any number of nested directories and leaving them all again
/// restores the walk's state: after pushing `pushed[0]`, ..., `pushed[k - 1]`
/// (`stacks[i + 1]` is `stacks[i]` after pushing `pushed[i]`) and truncating
/// back to the first stack's active length, the active gitignores, and with
/// them every verdict, are those of the first stack.
pub proof fn lemma_pushes_then_truncate_restore(
    stacks: Seq<GitignoreStack>,
    pushed: Seq<Gitignore>,
    after: GitignoreStack,
    len: usize,
    path: Seq<char>,
    is_dir: bool,
    check_ancestors: bool,
)
    requires
        stacks.len() == pushed.len() + 1,
        stacks[0].wf(),
        stacks.last().gitignores().len() <= usize::MAX,
        forall|i: int| 0 <= i < pushed.len() ==> GitignoreStack::pushes_active(#[trigger] stacks[i], stacks[i + 1], pushed[i]),
        len == stacks[0].active().len(),
        GitignoreStack::truncates_active(stacks.last(), after, len),
    ensures
        after.active_gitignores() == stacks[0].active_gitignores(),
        after.active().len() == len,
        after.matches_spec(path, is_dir, check_ancestors) == stacks[0].matches_spec(path, is_dir, check_ancestors),
{
    lemma_pushes_keep_earlier_active(stacks, pushed, pushed.len() as int);
    let last = stacks.last();
    assert(last.active().subrange(0, len as int) =~= stacks[0].active());
    assert(after.active() =~= stacks[0].active());
    assert forall|k: int| 0 <= k < stacks[0].active().len() implies #[trigger] after.active_gitignores()[k]
        == stacks[0].active_gitignores()[k] by {
        assert(stacks[0].active()[k] < stacks[0].gitignores().len());
        assert(last.gitignores()[stacks[0].active()[k] as int] == stacks[0].gitignores()[stacks[0].active()[k] as int]);
    }
    assert(after.active_gitignores() =~= stacks[0].active_gitignores());
    lemma_matches_depends_on_active_only(after, stacks[0], path, is_dir, check_ancestors);
}

/// Along a sequence of pushes the earlier active indices stay in front, the
/// earlier gitignores stay in place, and the stacks stay well-formed.
proof fn lemma_pushes_keep_earlier_active(stacks: Seq<GitignoreStack>, pushed: Seq<Gitignore>, i: int)
    requires
        stacks.len() == pushed.len() + 1,
        stacks[0].wf(),
        stacks.last().gitignores().len() <= usize::MAX,
        forall|i: int| 0 <= i < pushed.len() ==> GitignoreStack::pushes_active(#[trigger] stacks[i], stacks[i + 1], pushed[i]),
        0 <= i < stacks.len(),
    ensures
        stacks[i].wf(),
        stacks[i].active().len() >= stacks[0].active().len(),
        stacks[i].active().subrange(0, stacks[0].active().len() as int) == stacks[0].active(),
        stacks[i].gitignores().len() == stacks[0].gitignores().len() + i,
        stacks[0].gitignores().is_prefix_of(stacks[i].gitignores()),
    decreases i,
{
    if i == 0 {
        assert(stacks[0].active().subrange(0, stacks[0].active().len() as int) =~= stacks[0].active());
    } else {
        lemma_pushes_keep_earlier_active(stacks, pushed, i - 1);
        let prev = stacks[i - 1];
        assert(GitignoreStack::pushes_active(prev, stacks[i], pushed[i - 1]));
        lemma_growth_bounds(stacks, pushed, i);
        lemma_push_keeps_wf(prev, stacks[i], pushed[i - 1]);
        let n0 = stacks[0].active().len() as int;
        assert(stacks[i].active().subrange(0, n0) =~= prev.active().subrange(0, n0));
        assert forall|k: int| 0 <= k < stacks[0].gitignores().len() implies stacks[i].gitignores()[k]
            == stacks[0].gitignores()[k] by {
            assert(prev.gitignores()[k] == stacks[0].gitignores()[k]);
        }
    }
}

/// Every push adds one gitignore, so a stack before the last has fewer than
/// `usize::MAX` gitignores.
proof fn lemma_growth_bounds(stacks: Seq<GitignoreStack>, pushed: Seq<Gitignore>, i: int)
    requires
        stacks.len() == pushed.len() + 1,
        stacks.last().gitignores().len() <= usize::MAX,
        forall|i: int| 0 <= i < pushed.len() ==> GitignoreStack::pushes_active(#[trigger] stacks[i], stacks[i + 1], pushed[i]),
        0 < i < stacks.len(),
    ensures
        stacks[i - 1].gitignores().len() < usize::MAX,
    decreases stacks.len() - i,
{
    assert(GitignoreStack::pushes_active(stacks[i - 1], stacks[i], pushed[i - 1]));
    if i + 1 < stacks.len() {
        lemma_growth_bounds(stacks, pushed, i + 1);
        assert(GitignoreStack::pushes_active(stacks[i], stacks[i + 1], pushed[i]));
    }
}

} // verus!
