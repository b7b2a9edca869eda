//! Recognising a program by the name of its executable.

use std::path::Path;
use vstd::prelude::*;
use crate::text::{ascii_lower, chars_of, eq_ignore_ascii_case, same_chars_ignoring_ascii_case};

verus! {

/// The file stem of `path` as `std::path::Path::file_stem` gives it for the
/// platform the library is built for: the last component of the path without
/// its extension, if the path has a last component.
pub uninterp spec fn path_file_stem(path: Seq<char>) -> Option<Seq<char>>;

/// The stem `git`, in any mix of upper and lower case.
pub open spec fn is_git_name(stem: Seq<char>) -> bool {
    eq_ignore_ascii_case(stem, seq!['g', 'i', 't'])
}

/// The stem of another grep tool: `rg`, `ack` or `sift`, in any mix of upper
/// and lower case.
pub open spec fn is_other_grep_name(stem: Seq<char>) -> bool {
    ||| eq_ignore_ascii_case(stem, seq!['r', 'g'])
    ||| eq_ignore_ascii_case(stem, seq!['a', 'c', 'k'])
    ||| eq_ignore_ascii_case(stem, seq!['s', 'i', 'f', 't'])
}

/// A path whose file stem is `git`, in any mix of upper and lower case.
pub open spec fn names_git(path: Seq<char>) -> bool {
    match path_file_stem(path) {
        Some(stem) => is_git_name(stem),
        None => false,
    }
}

/// Calls `std::path::Path::file_stem` on `path` and hands the stem back as text.
///
/// Nothing is claimed of the stem but that it is the one `path_file_stem` stands
/// for, and that there is none exactly when `file_stem` finds none. The path
/// comes from a `str`, so the stem is valid UTF-8 whenever there is one.
#[verifier::external_body]
pub(crate) fn file_stem<'a>(path: &'a str) -> (stem: Option<&'a str>)
    ensures
        match stem {
            Some(s) => path_file_stem(path@) == Some(s@),
            None => path_file_stem(path@) is None,
        },
{
    match Path::new(path).file_stem() {
        Some(stem) => stem.to_str(),
        None => None,
    }
}

/// Whether `stem` reads `name` up to the case of its ASCII letters.
pub fn stem_is(stem: &str, name: &str) -> (r: bool)
    ensures
        r == eq_ignore_ascii_case(stem@, name@),
{
    let a = chars_of(stem);
    let b = chars_of(name);
    same_chars_ignoring_ascii_case(&a, &b)
}

/// Whether `git` is the path of a git executable: its file stem reads `git`,
/// whatever the case of the letters.
pub fn is_git_binary(git: &str) -> (r: bool)
    ensures
        r == names_git(git@),
{
    match file_stem(git) {
        Some(stem) => {
            proof {
                reveal_strlit("git");
            }
            assert("git"@ =~= seq!['g', 'i', 't']);
            stem_is(stem, "git")
        },
        None => false,
    }
}

/// Whether `stem` is the name of one of the other grep tools.
pub fn is_other_grep(stem: &str) -> (r: bool)
    ensures
        r == is_other_grep_name(stem@),
{
    proof {
        reveal_strlit("rg");
        reveal_strlit("ack");
        reveal_strlit("sift");
    }
    assert("rg"@ =~= seq!['r', 'g']);
    assert("ack"@ =~= seq!['a', 'c', 'k']);
    assert("sift"@ =~= seq!['s', 'i', 'f', 't']);
    stem_is(stem, "rg") || stem_is(stem, "ack") || stem_is(stem, "sift")
}

/// A stem is taken for `git` exactly when its three characters are `g`, `i`
/// and `t`, each in upper or lower case.
pub proof fn lemma_git_name_any_case(stem: Seq<char>)
    ensures
        is_git_name(stem) <==> {
            &&& stem.len() == 3
            &&& (stem[0] == 'g' || stem[0] == 'G')
            &&& (stem[1] == 'i' || stem[1] == 'I')
            &&& (stem[2] == 't' || stem[2] == 'T')
        },
{
    let git = seq!['g', 'i', 't'];
    if is_git_name(stem) {
        assert(ascii_lower(stem[0]) == ascii_lower(git[0]));
        assert(ascii_lower(stem[1]) == ascii_lower(git[1]));
        assert(ascii_lower(stem[2]) == ascii_lower(git[2]));
    }
}

/// The case of the letters of a stem decides nothing: two stems that differ in
/// the case of ASCII letters alone are both taken for git or both not, and both
/// for another grep tool or both not.
pub proof fn lemma_names_ignore_case(a: Seq<char>, b: Seq<char>)
    requires
        eq_ignore_ascii_case(a, b),
    ensures
        is_git_name(a) == is_git_name(b),
        is_other_grep_name(a) == is_other_grep_name(b),
{
    lemma_same_up_to_case(a, b, seq!['g', 'i', 't']);
    lemma_same_up_to_case(a, b, seq!['r', 'g']);
    lemma_same_up_to_case(a, b, seq!['a', 'c', 'k']);
    lemma_same_up_to_case(a, b, seq!['s', 'i', 'f', 't']);
}

/// Two texts that are equal up to case are equal up to case to the same texts.
pub proof fn lemma_same_up_to_case(a: Seq<char>, b: Seq<char>, name: Seq<char>)
    requires
        eq_ignore_ascii_case(a, b),
    ensures
        eq_ignore_ascii_case(a, name) == eq_ignore_ascii_case(b, name),
{
    if eq_ignore_ascii_case(a, name) {
        assert forall|i: int| 0 <= i < b.len() implies ascii_lower(#[trigger] b[i]) == ascii_lower(
            name[i],
        ) by {
            assert(ascii_lower(a[i]) == ascii_lower(b[i]));
            assert(ascii_lower(a[i]) == ascii_lower(name[i]));
        }
    }
    if eq_ignore_ascii_case(b, name) {
        assert forall|i: int| 0 <= i < a.len() implies ascii_lower(#[trigger] a[i]) == ascii_lower(
            name[i],
        ) by {
            assert(ascii_lower(a[i]) == ascii_lower(b[i]));
            assert(ascii_lower(b[i]) == ascii_lower(name[i]));
        }
    }
}

} // verus!
