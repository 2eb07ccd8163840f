//! Path handling. The components of a path are those of the target platform, as
//! `std::path` computes them; the rules that `std::path` documents in terms of the
//! final component (extension, stem) are computed and proved here.

use vstd::prelude::*;
use crate::text::chars_of;

verus! {

/// The final component of the path `p`, as `Path::file_name` gives it (`None` when the
/// path has none, e.g. it is empty, a root, or ends in `..`).
pub uninterp spec fn path_file_name(p: Seq<char>) -> Option<Seq<char>>;

/// The path that `PathBuf::push` makes of `base` extended with `name`.
pub uninterp spec fn path_joined(base: Seq<char>, name: Seq<char>) -> Seq<char>;

/// The path without its final component, as `Path::parent` gives it.
pub uninterp spec fn path_parent(p: Seq<char>) -> Option<Seq<char>>;

/// Whether `base` is a prefix of `p` by whole components, as `Path::starts_with` decides.
pub uninterp spec fn path_starts_with(p: Seq<char>, base: Seq<char>) -> bool;

/// Whether `a` and `b` name the same path component by component, as `==` on `Path` decides.
pub uninterp spec fn path_equal(a: Seq<char>, b: Seq<char>) -> bool;

/// Calls `Path::file_name` on `p` and gives the component back as text.
///
/// Trusted: the result is named `path_file_name(p)`. A component of a `&str` path is
/// valid UTF-8, so its conversion to `&str` never fails.
#[verifier::external_body]
pub(crate) fn file_name(p: &str) -> (res: Option<String>)
    ensures
        res matches Some(n) ==> path_file_name(p@) == Some(n@),
        res is None ==> path_file_name(p@) is None,
{
    match std::path::Path::new(p).file_name() {
        Some(n) => Some(n.to_string_lossy().into_owned()),
        None => None,
    }
}

/// Calls `PathBuf::push`, extending `base` with `name`, and gives the path back as text.
///
/// Trusted: the result is named `path_joined(base, name)`. Both inputs are valid UTF-8
/// and the separators that `push` inserts are ASCII, so the text conversion is exact.
#[verifier::external_body]
pub(crate) fn join(base: &str, name: &str) -> (res: String)
    ensures
        res@ == path_joined(base@, name@),
{
    let mut buf = std::path::PathBuf::from(base);
    buf.push(name);
    buf.to_string_lossy().into_owned()
}

/// Calls `Path::parent` on `p` and gives the parent back as text.
///
/// Trusted: the result is named `path_parent(p)`; the parent of a `&str` path is a
/// prefix of it and so valid UTF-8.
#[verifier::external_body]
pub(crate) fn parent(p: &str) -> (res: Option<String>)
    ensures
        res matches Some(q) ==> path_parent(p@) == Some(q@),
        res is None ==> path_parent(p@) is None,
{
    match std::path::Path::new(p).parent() {
        Some(q) => Some(q.to_string_lossy().into_owned()),
        None => None,
    }
}

/// Calls `Path::starts_with`.
///
/// Trusted: the result is named `path_starts_with(p, base)`.
#[verifier::external_body]
pub(crate) fn starts_with(p: &str, base: &str) -> (res: bool)
    ensures
        res == path_starts_with(p@, base@),
{
    std::path::Path::new(p).starts_with(base)
}

/// Compares two paths with `==` on `Path`.
///
/// Trusted: the result is named `path_equal(a, b)`; as `Path` is `Eq`, equal texts are
/// equal paths.
#[verifier::external_body]
pub(crate) fn same_path(a: &str, b: &str) -> (res: bool)
    ensures
        res == path_equal(a@, b@),
        a@ == b@ ==> res,
{
    std::path::Path::new(a) == std::path::Path::new(b)
}

/// Index of the final `'.'` in `name`, or `-1` when it has none.
pub open spec fn final_dot(name: Seq<char>) -> int
    decreases name.len(),
{
    if name.len() == 0 {
        -1
    } else if name.last() == '.' {
        name.len() - 1
    } else {
        final_dot(name.drop_last())
    }
}

/// The extension of a file name, by the rule that `Path::extension` documents: none when
/// the name has no `'.'` or its only `'.'` is the leading one, else the text after the
/// final `'.'`.
pub open spec fn name_extension(name: Seq<char>) -> Option<Seq<char>> {
    if final_dot(name) > 0 {
        Some(name.subrange(final_dot(name) + 1, name.len() as int))
    } else {
        None
    }
}

/// The stem of a file name, by the rule that `Path::file_stem` documents: the whole name
/// when it has no `'.'` or its only `'.'` is the leading one, else the text before the
/// final `'.'`.
pub open spec fn name_stem(name: Seq<char>) -> Seq<char> {
    if final_dot(name) > 0 {
        name.take(final_dot(name))
    } else {
        name
    }
}

/// The extension of the path `p`, as `Path::extension` gives it.
pub open spec fn path_extension(p: Seq<char>) -> Option<Seq<char>> {
    match path_file_name(p) {
        Some(n) => name_extension(n),
        None => None,
    }
}

/// The stem of the path `p`, as `Path::file_stem` gives it.
pub open spec fn path_stem(p: Seq<char>) -> Option<Seq<char>> {
    match path_file_name(p) {
        Some(n) => Some(name_stem(n)),
        None => None,
    }
}

pub(crate) proof fn lemma_final_dot_bounds(name: Seq<char>)
    ensures
        -1 <= final_dot(name) < name.len(),
        final_dot(name) >= 0 ==> name[final_dot(name)] == '.',
        forall|j: int| final_dot(name) < j < name.len() ==> name[j] != '.',
    decreases name.len(),
{
    if name.len() > 0 && name.last() != '.' {
        lemma_final_dot_bounds(name.drop_last());
        assert forall|j: int| final_dot(name) < j < name.len() implies name[j] != '.' by {
            if j < name.len() - 1 {
                assert(name[j] == name.drop_last()[j]);
            }
        }
    }
}

/// The final `'.'` of `name` is at `k` when `name[k]` is a `'.'` and none follows it.
pub(crate) proof fn lemma_final_dot_at(name: Seq<char>, k: int)
    requires
        0 <= k < name.len(),
        name[k] == '.',
        forall|j: int| k < j < name.len() ==> name[j] != '.',
    ensures
        final_dot(name) == k,
    decreases name.len(),
{
    if k < name.len() - 1 {
        let rest = name.drop_last();
        assert forall|j: int| k < j < rest.len() implies rest[j] != '.' by {
            assert(rest[j] == name[j]);
        }
        lemma_final_dot_at(rest, k);
    }
}

/// A file name is its stem, then, when it has an extension, a `'.'` and the extension.
pub proof fn stem_and_extension_rebuild_name(name: Seq<char>)
    ensures
        match name_extension(name) {
            Some(e) => name_stem(name) + seq!['.'] + e == name,
            None => name_stem(name) == name,
        },
{
    lemma_final_dot_bounds(name);
    if final_dot(name) > 0 {
        let d = final_dot(name);
        assert(name.take(d) + seq!['.'] + name.subrange(d + 1, name.len() as int) =~= name);
    }
}

/// Finds the index of the final `'.'` of `name`.
fn find_final_dot(name: &Vec<char>) -> (res: Option<usize>)
    ensures
        match res {
            Some(d) => d == final_dot(name@),
            None => final_dot(name@) == -1,
        },
{
    let mut i: usize = name.len();
    assert(name@.take(i as int) =~= name@);
    while i > 0
        invariant
            i <= name@.len(),
            final_dot(name@) == final_dot(name@.take(i as int)),
        decreases i,
    {
        assert(name@.take(i as int).drop_last() =~= name@.take(i - 1));
        if name[i - 1] == '.' {
            return Some(i - 1);
        }
        i = i - 1;
    }
    None
}

/// The extension of the file name `name` (see `name_extension`).
pub fn extension_of(name: &str) -> (res: Option<String>)
    ensures
        res matches Some(e) ==> name_extension(name@) == Some(e@),
        res is None ==> name_extension(name@) is None,
{
    let cs = chars_of(name);
    proof {
        lemma_final_dot_bounds(name@);
    }
    match find_final_dot(&cs) {
        Some(d) if d > 0 => Some(String::from_str(name.substring_char(d + 1, cs.len()))),
        _ => None,
    }
}

/// The stem of the file name `name` (see `name_stem`).
pub fn stem_of(name: &str) -> (res: String)
    ensures
        res@ == name_stem(name@),
{
    let cs = chars_of(name);
    proof {
        lemma_final_dot_bounds(name@);
    }
    match find_final_dot(&cs) {
        Some(d) if d > 0 => String::from_str(name.substring_char(0, d)),
        _ => String::from_str(name),
    }
}

} // verus!
