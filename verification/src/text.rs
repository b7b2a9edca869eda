//! Character-level helpers shared by the command-line classifiers.

use vstd::prelude::*;
use vstd::string::*;

verus! {

/// The texts of a list of owned arguments.
pub open spec fn argv_view(args: Seq<String>) -> Seq<Seq<char>> {
    Seq::new(args.len(), |i: int| args[i]@)
}

/// The texts of a list of borrowed arguments.
pub open spec fn strs_view(args: Seq<&str>) -> Seq<Seq<char>> {
    Seq::new(args.len(), |i: int| args[i]@)
}

/// What is left of `s` behind the last `c`; all of `s` where `c` does not occur.
pub open spec fn after_last(s: Seq<char>, c: char) -> Seq<char> {
    match s.index_of_last(c) {
        Some(i) => s.skip(i + 1),
        None => s,
    }
}

/// What stands in `s` before the first `c`; all of `s` where `c` does not occur.
pub open spec fn before_first(s: Seq<char>, c: char) -> Seq<char> {
    match s.index_of_first(c) {
        Some(i) => s.take(i),
        None => s,
    }
}

/// What is left of `s` behind the first `c`, if `c` occurs at all.
pub open spec fn after_first(s: Seq<char>, c: char) -> Option<Seq<char>> {
    match s.index_of_first(c) {
        Some(i) => Some(s.skip(i + 1)),
        None => None,
    }
}

/// The lower-case form of an ASCII upper-case letter; any other character unchanged.
pub open spec fn ascii_lower(c: char) -> char {
    if 'A' <= c && c <= 'Z' {
        ((c as u8) + 32) as char
    } else {
        c
    }
}

/// Equality of two texts up to the case of their ASCII letters.
pub open spec fn eq_ignore_ascii_case(a: Seq<char>, b: Seq<char>) -> bool {
    &&& a.len() == b.len()
    &&& forall|i: int| 0 <= i < a.len() ==> ascii_lower(#[trigger] a[i]) == ascii_lower(b[i])
}

/// The pieces into which the occurrences of `c` cut `s`: one more than there are
/// occurrences, each piece free of `c`, some of them empty where two `c` meet or
/// `s` begins or ends with one.
pub open spec fn split_on(s: Seq<char>, c: char) -> Seq<Seq<char>>
    decreases s.len(),
{
    if s.len() == 0 {
        seq![Seq::empty()]
    } else {
        let before = split_on(s.drop_last(), c);
        if s.last() == c {
            before.push(Seq::empty())
        } else {
            before.drop_last().push(before.last().push(s.last()))
        }
    }
}

/// The characters of `s`, in order.
pub fn chars_of(s: &str) -> (v: Vec<char>)
    ensures
        v@ == s@,
{
    let mut v: Vec<char> = Vec::new();
    for c in it: s.chars()
        invariant
            v@ == it.seq().take(it.index() as int),
            it.seq() == s@,
    {
        v.push(c);
    }
    v
}

/// The place of the first `c` in `v`.
pub fn first_index_of(v: &Vec<char>, c: char) -> (r: Option<usize>)
    ensures
        match r {
            Some(i) => i < v.len() && v@.index_of_first(c) == Some(i as int),
            None => v@.index_of_first(c) is None,
        },
{
    let mut i: usize = 0;
    while i < v.len()
        invariant
            i <= v.len(),
            forall|j: int| 0 <= j < i ==> v@[j] != c,
        decreases v.len() - i,
    {
        if v[i] == c {
            proof {
                lemma_first_index(v@, c, i as int);
            }
            return Some(i);
        }
        i += 1;
    }
    proof {
        lemma_no_index(v@, c);
    }
    None
}

/// The place of the last `c` in `v`.
pub fn last_index_of(v: &Vec<char>, c: char) -> (r: Option<usize>)
    ensures
        match r {
            Some(i) => i < v.len() && v@.index_of_last(c) == Some(i as int),
            None => v@.index_of_last(c) is None,
        },
{
    let mut i: usize = v.len();
    while i > 0
        invariant
            i <= v.len(),
            forall|j: int| i <= j < v.len() ==> v@[j] != c,
        decreases i,
    {
        i -= 1;
        if v[i] == c {
            proof {
                lemma_last_index(v@, c, i as int);
            }
            return Some(i);
        }
    }
    proof {
        lemma_no_index(v@, c);
    }
    None
}

/// Whether `a` and `b` hold the same characters.
pub fn same_chars(a: &Vec<char>, b: &Vec<char>) -> (r: bool)
    ensures
        r == (a@ == b@),
{
    if a.len() != b.len() {
        return false;
    }
    let mut i: usize = 0;
    while i < a.len()
        invariant
            i <= a.len(),
            a.len() == b.len(),
            forall|j: int| 0 <= j < i ==> a@[j] == b@[j],
        decreases a.len() - i,
    {
        if a[i] != b[i] {
            return false;
        }
        i += 1;
    }
    assert(a@ =~= b@);
    true
}

/// Whether `a` reads `b`, character for character.
pub fn same_text(a: &str, b: &str) -> (r: bool)
    ensures
        r == (a@ == b@),
{
    let x = chars_of(a);
    let y = chars_of(b);
    same_chars(&x, &y)
}

/// The lower-case form of `c` as `ascii_lower` defines it.
pub fn to_ascii_lower(c: char) -> (r: char)
    ensures
        r == ascii_lower(c),
{
    if 'A' <= c && c <= 'Z' {
        ((c as u8) + 32) as char
    } else {
        c
    }
}

/// Whether `a` and `b` agree up to the case of their ASCII letters.
pub fn same_chars_ignoring_ascii_case(a: &Vec<char>, b: &Vec<char>) -> (r: bool)
    ensures
        r == eq_ignore_ascii_case(a@, b@),
{
    if a.len() != b.len() {
        return false;
    }
    let mut i: usize = 0;
    while i < a.len()
        invariant
            i <= a.len(),
            a.len() == b.len(),
            forall|j: int| 0 <= j < i ==> ascii_lower(#[trigger] a@[j]) == ascii_lower(b@[j]),
        decreases a.len() - i,
    {
        if to_ascii_lower(a[i]) != to_ascii_lower(b[i]) {
            return false;
        }
        i += 1;
    }
    true
}

/// The part of `s` behind its last `c`; all of `s` where `c` does not occur.
pub fn text_after_last<'a>(s: &'a str, c: char) -> (r: &'a str)
    ensures
        r@ == after_last(s@, c),
{
    let chars = chars_of(s);
    match last_index_of(&chars, c) {
        Some(i) => s.substring_char(i + 1, chars.len()),
        None => s,
    }
}

/// The part of `s` before its first `c`; all of `s` where `c` does not occur.
pub fn text_before_first<'a>(s: &'a str, c: char) -> (r: &'a str)
    ensures
        r@ == before_first(s@, c),
{
    let chars = chars_of(s);
    match first_index_of(&chars, c) {
        Some(i) => s.substring_char(0, i),
        None => s,
    }
}

/// The part of `s` behind its first `c`, if `c` occurs in `s`.
pub fn text_after_first<'a>(s: &'a str, c: char) -> (r: Option<&'a str>)
    ensures
        match r {
            Some(t) => after_first(s@, c) == Some(t@),
            None => after_first(s@, c) is None,
        },
{
    let chars = chars_of(s);
    match first_index_of(&chars, c) {
        Some(i) => Some(s.substring_char(i + 1, chars.len())),
        None => None,
    }
}

/// Cuts `s` at every `c` and gives the pieces in order.
pub fn split_text(s: &str, c: char) -> (pieces: Vec<String>)
    ensures
        argv_view(pieces@) == split_on(s@, c),
{
    let chars = chars_of(s);
    let mut pieces: Vec<String> = Vec::new();
    let mut start: usize = 0;
    let mut i: usize = 0;
    assert(chars@.take(0) =~= Seq::empty());
    assert(argv_view(pieces@).push(chars@.subrange(0, 0)) =~= seq![Seq::empty()]);
    while i < chars.len()
        invariant
            start <= i <= chars.len(),
            chars@ == s@,
            split_on(chars@.take(i as int), c) == argv_view(pieces@).push(
                chars@.subrange(start as int, i as int),
            ),
        decreases chars.len() - i,
    {
        let ghost done = argv_view(pieces@);
        let ghost prefix = chars@.take(i + 1);
        assert(prefix.drop_last() =~= chars@.take(i as int));
        assert(prefix.last() == chars@[i as int]);
        if chars[i] == c {
            pieces.push(String::from_str(s.substring_char(start, i)));
            assert(argv_view(pieces@) =~= done.push(
                chars@.subrange(start as int, i as int),
            ));
            start = i + 1;
            assert(chars@.subrange(start as int, i + 1) =~= Seq::empty());
        } else {
            assert(done.push(chars@.subrange(start as int, i as int)).drop_last() =~= done);
            assert(chars@.subrange(start as int, i + 1) =~= chars@.subrange(
                start as int,
                i as int,
            ).push(chars@[i as int]));
        }
        i += 1;
    }
    let ghost done = argv_view(pieces@);
    pieces.push(String::from_str(s.substring_char(start, chars.len())));
    assert(argv_view(pieces@) =~= done.push(
        chars@.subrange(start as int, chars.len() as int),
    ));
    assert(chars@.take(chars.len() as int) =~= chars@);
    pieces
}

/// A copy of `texts`.
pub fn clone_texts(texts: &Vec<String>) -> (r: Vec<String>)
    ensures
        argv_view(r@) == argv_view(texts@),
{
    let mut r: Vec<String> = Vec::new();
    let mut i: usize = 0;
    while i < texts.len()
        invariant
            i <= texts.len(),
            argv_view(r@) == argv_view(texts@).take(i as int),
        decreases texts.len() - i,
    {
        let ghost before = argv_view(r@);
        r.push(texts[i].clone());
        assert(argv_view(r@) =~= before.push(texts@[i as int]@));
        assert(argv_view(texts@).take(i + 1) =~= argv_view(texts@).take(i as int).push(
            texts@[i as int]@,
        ));
        i += 1;
    }
    assert(argv_view(texts@).take(i as int) =~= argv_view(texts@));
    r
}

/// `i` is the first place at which `c` stands in `s`.
pub proof fn lemma_first_index<A>(s: Seq<A>, c: A, i: int)
    requires
        0 <= i < s.len(),
        s[i] == c,
        forall|j: int| 0 <= j < i ==> s[j] != c,
    ensures
        s.index_of_first(c) == Some(i),
{
    s.index_of_first_ensures(c);
}

/// `i` is the last place at which `c` stands in `s`.
pub proof fn lemma_last_index<A>(s: Seq<A>, c: A, i: int)
    requires
        0 <= i < s.len(),
        s[i] == c,
        forall|j: int| i < j < s.len() ==> s[j] != c,
    ensures
        s.index_of_last(c) == Some(i),
{
    s.index_of_last_ensures(c);
}

/// Where `c` stands nowhere in `s`, neither search finds a place.
pub proof fn lemma_no_index<A>(s: Seq<A>, c: A)
    requires
        forall|j: int| 0 <= j < s.len() ==> s[j] != c,
    ensures
        s.index_of_first(c) is None,
        s.index_of_last(c) is None,
{
    s.index_of_first_ensures(c);
    s.index_of_last_ensures(c);
}

/// `after_last` cuts behind the last `c`: what it gives holds no `c`, it is all
/// of `s` where `s` holds none, and otherwise it is what follows one `c` of `s`.
pub proof fn lemma_after_last(s: Seq<char>, c: char)
    ensures
        !after_last(s, c).contains(c),
        !s.contains(c) ==> after_last(s, c) == s,
        s.contains(c) ==> exists|i: int|
            0 <= i < s.len() && s[i] == c && after_last(s, c) == #[trigger] s.skip(i + 1),
{
    s.index_of_last_ensures(c);
    match s.index_of_last(c) {
        Some(i) => {
            let tail = s.skip(i + 1);
            assert forall|j: int| 0 <= j < tail.len() implies tail[j] != c by {
                assert(tail[j] == s[i + 1 + j]);
            }
        },
        None => {},
    }
}

} // verus!
