//! Paths held as UTF-8 text, and the few `std::path` operations that the
//! gitignore logic needs on them.
use vstd::prelude::*;

verus! {

/// What `std::path::Path::strip_prefix` returns for `path` and `base`, as text,
/// with the path syntax of the platform the crate is built for.
pub uninterp spec fn path_strip_prefix(path: Seq<char>, base: Seq<char>) -> Option<Seq<char>>;

/// What `std::path::Path::has_root` returns for `path`, with the path syntax
/// of the platform the crate is built for.
pub uninterp spec fn path_has_root(path: Seq<char>) -> bool;

/// What `==` on `std::path::Path` (component-wise equality) returns for two
/// paths, with the path syntax of the platform the crate is built for.
pub uninterp spec fn path_eq(a: Seq<char>, b: Seq<char>) -> bool;

/// The crate is built for Windows path syntax, where a lone backslash is a
/// root (elsewhere it is an ordinary file name).
pub open spec fn builds_for_windows() -> bool {
    path_has_root("\\"@)
}

/// The text starts with a forward slash.
pub open spec fn starts_with_slash(path: Seq<char>) -> bool {
    path.len() > 0 && path[0] == '/'
}

/// Calls `std::path::Path::strip_prefix` on `path` with `base`; claims that the
/// result is the named function of the two texts. The rest is a slice of
/// `path` cut at component boundaries, so it converts back to text losslessly.
#[verifier::external_body]
pub(crate) fn strip_path_prefix(path: &str, base: &str) -> (rel: Option<String>)
    ensures
        rel is None <==> path_strip_prefix(path@, base@) is None,
        rel matches Some(r) ==> path_strip_prefix(path@, base@) == Some(r@),
{
    match std::path::Path::new(path).strip_prefix(base) {
        Ok(rel) => Some(rel.to_string_lossy().into_owned()),
        Err(_) => None,
    }
}

/// Calls `std::path::Path::has_root` on `path`; the result is the named
/// function of the text.
#[verifier::external_body]
pub(crate) fn path_text_has_root(path: &str) -> (rooted: bool)
    ensures
        rooted == path_has_root(path@),
{
    std::path::Path::new(path).has_root()
}

/// Compares two paths with `==` on `std::path::Path`; the result is the named
/// function of the two texts.
#[verifier::external_body]
pub(crate) fn path_texts_equal(a: &str, b: &str) -> (equal: bool)
    ensures
        equal == path_eq(a@, b@),
{
    std::path::Path::new(a) == std::path::Path::new(b)
}

/// Whether the build target uses Windows path syntax.
pub fn target_is_windows() -> (windows: bool)
    ensures
        windows == builds_for_windows(),
{
    path_text_has_root("\\")
}

/// The characters of a text.
pub fn text_chars(text: &str) -> (chars: Vec<char>)
    ensures
        chars@ == text@,
{
    broadcast use vstd::string::group_string_axioms;

    let mut chars: Vec<char> = Vec::new();
    for c in it: text.chars()
        invariant
            chars@ == it.seq().take(it.index()),
    {
        chars.push(c);
    }
    assert(chars@ =~= text@);
    chars
}

} // verus!
