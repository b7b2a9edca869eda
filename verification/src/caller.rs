//! Describing the program at the other end of the pipe: `git grep`, `git show`,
//! or another grep tool.

use vstd::prelude::*;
use vstd::slice::slice_subrange;
use vstd::string::*;
use crate::args::{
    begins_with_dash,
    is_double_dash,
    is_option,
    is_terminator,
    positional_args,
    skip_uninteresting_args,
};
use crate::binary::{
    file_stem,
    is_git_binary,
    is_other_grep,
    is_other_grep_name,
    names_git,
    path_file_stem,
};
use crate::keys::OptionKeys;
use crate::outcome::ProcessArgs;
use crate::text::{
    after_first,
    after_last,
    argv_view,
    before_first,
    chars_of,
    lemma_first_index,
    lemma_no_index,
    same_text,
    strs_view,
    text_after_first,
    text_after_last,
    text_before_first,
};

verus! {

/// The program that started the current process or feeds its input.
#[derive(Debug, PartialEq)]
pub enum CallingProcess {
    /// `git show`, with the extension of the file shown.
    GitShow(String),
    /// `git grep`, with the keys of its long and of its short options.
    GitGrep((OptionKeys, OptionKeys)),
    /// Another grep tool, of which nothing more is read.
    OtherGrep,
}

/// What a `CallingProcess` stands for.
pub enum CallingProcessView {
    GitShow(Seq<char>),
    GitGrep(Set<Seq<char>>, Set<Seq<char>>),
    OtherGrep,
}

impl View for CallingProcess {
    type V = CallingProcessView;

    open spec fn view(&self) -> CallingProcessView {
        match *self {
            CallingProcess::GitShow(extension) => CallingProcessView::GitShow(extension@),
            CallingProcess::GitGrep((longs, shorts)) => CallingProcessView::GitGrep(
                longs@,
                shorts@,
            ),
            CallingProcess::OtherGrep => CallingProcessView::OtherGrep,
        }
    }
}

impl Clone for CallingProcess {
    fn clone(&self) -> (r: Self)
        ensures
            r@ == self@,
    {
        match self {
            CallingProcess::GitShow(extension) => CallingProcess::GitShow(extension.clone()),
            CallingProcess::GitGrep((longs, shorts)) => CallingProcess::GitGrep(
                (longs.clone(), shorts.clone()),
            ),
            CallingProcess::OtherGrep => CallingProcess::OtherGrep,
        }
    }
}

/// A token that begins with `--`.
pub open spec fn is_long_option(token: Seq<char>) -> bool {
    token.len() >= 2 && token[0] == '-' && token[1] == '-'
}

/// A token that begins with one `-` and not with two.
pub open spec fn is_short_option(token: Seq<char>) -> bool {
    is_option(token) && !is_long_option(token)
}

/// The tokens that stand before the first `--`; all of them where there is none.
pub open spec fn before_terminator(args: Seq<Seq<char>>) -> Seq<Seq<char>> {
    match args.index_of_first(seq!['-', '-']) {
        Some(n) => args.take(n),
        None => args,
    }
}

/// The keys that the first `n` characters of a short option name: one for each
/// character behind the leading `-`.
pub open spec fn short_keys_in(token: Seq<char>, n: int) -> Set<Seq<char>> {
    Set::new(|key: Seq<char>| exists|j: int| 1 <= j < n && key == seq!['-', #[trigger] token[j]])
}

/// The keys of the long options among `tokens`: what stands before their first `=`.
pub open spec fn long_keys_of(tokens: Seq<Seq<char>>) -> Set<Seq<char>> {
    Set::new(
        |key: Seq<char>|
            exists|i: int|
                0 <= i < tokens.len() && is_long_option(#[trigger] tokens[i]) && key
                    == before_first(tokens[i], '='),
    )
}

/// The keys of the short options among `tokens`.
pub open spec fn short_keys_of(tokens: Seq<Seq<char>>) -> Set<Seq<char>> {
    Set::new(
        |key: Seq<char>|
            exists|i: int|
                0 <= i < tokens.len() && is_short_option(#[trigger] tokens[i]) && short_keys_in(
                    tokens[i],
                    tokens[i].len() as int,
                ).contains(key),
    )
}

/// The long option keys of a command line, up to its first `--`.
pub open spec fn long_option_keys(args: Seq<Seq<char>>) -> Set<Seq<char>> {
    long_keys_of(before_terminator(args))
}

/// The short option keys of a command line, up to its first `--`.
pub open spec fn short_option_keys(args: Seq<Seq<char>>) -> Set<Seq<char>> {
    short_keys_of(before_terminator(args))
}

/// The extension of the file that `git show <revision>:<path>` names, read from
/// what follows `show`: the last positional argument is cut at its first `:`,
/// and the extension is what follows the last `.` behind it, or all that is
/// behind the `:` where there is no `.`.
pub open spec fn show_extension(args: Seq<Seq<char>>) -> Option<Seq<char>> {
    let positional = positional_args(args, Set::empty());
    if positional.len() == 0 {
        None
    } else {
        match after_first(positional.last(), ':') {
            Some(path) => Some(after_last(path, '.')),
            None => None,
        }
    }
}

/// One of the two subcommands of git that are understood.
pub open spec fn is_subcommand(token: Seq<char>) -> bool {
    token == "grep"@ || token == "show"@
}

/// `k` is the place of the first subcommand among `args`.
pub open spec fn first_subcommand(args: Seq<Seq<char>>, k: int) -> bool {
    &&& 0 <= k < args.len()
    &&& is_subcommand(args[k])
    &&& forall|j: int| 0 <= j < k ==> !is_subcommand(#[trigger] args[j])
}

/// What the arguments of a git call say of it: `args` is what stands behind the
/// name of the git executable.
///
/// The first `grep` or `show` among them decides, whatever stands before it:
/// `grep` gives the option keys found behind it, `show` the extension read
/// behind it, or a malformed call where none can be read. Without either of the
/// two the call is malformed.
pub open spec fn describe_git(args: Seq<Seq<char>>) -> ProcessArgs<CallingProcessView> {
    if exists|k: int| first_subcommand(args, k) {
        let k = choose|k: int| first_subcommand(args, k);
        let rest = args.skip(k + 1);
        if args[k] == "grep"@ {
            ProcessArgs::Args(
                CallingProcessView::GitGrep(long_option_keys(rest), short_option_keys(rest)),
            )
        } else {
            match show_extension(rest) {
                Some(extension) => ProcessArgs::Args(CallingProcessView::GitShow(extension)),
                None => ProcessArgs::ArgError,
            }
        }
    } else {
        ProcessArgs::ArgError
    }
}

/// What the command line `argv` says of the program it started.
///
/// The file stem of the first token decides: a git executable is described by
/// what follows its name, as `describe_git` tells; `rg`, `ack` and `sift` are
/// other grep tools; anything else is another process.
pub open spec fn describe(argv: Seq<Seq<char>>) -> ProcessArgs<CallingProcessView> {
    if argv.len() == 0 {
        ProcessArgs::OtherProcess
    } else {
        match path_file_stem(argv[0]) {
            None => ProcessArgs::OtherProcess,
            Some(stem) => {
                if names_git(stem) {
                    describe_git(argv.skip(1))
                } else if is_other_grep_name(stem) {
                    ProcessArgs::Args(CallingProcessView::OtherGrep)
                } else {
                    ProcessArgs::OtherProcess
                }
            },
        }
    }
}

/// Whether `token` begins with `--`.
pub fn begins_with_double_dash(token: &Vec<char>) -> (r: bool)
    ensures
        r == is_long_option(token@),
{
    token.len() >= 2 && token[0] == '-' && token[1] == '-'
}

/// Reads the option keys of a command line, up to its first `--`.
///
/// A token that begins with `--` gives the long key that stands before its first
/// `=`. A token that begins with one `-` gives a short key for each of its
/// characters: `-bc` gives `-b` and `-c`.
pub fn parse_command_option_keys(args: &[String]) -> (r: (OptionKeys, OptionKeys))
    ensures
        r.0@ == long_option_keys(argv_view(args@)),
        r.1@ == short_option_keys(argv_view(args@)),
{
    let ghost argv = argv_view(args@);
    let mut longs = OptionKeys::new();
    let mut shorts = OptionKeys::new();
    let mut i: usize = 0;
    assert(argv.take(0) =~= Seq::empty());
    assert(long_keys_of(Seq::empty()) =~= Set::empty());
    assert(short_keys_of(Seq::empty()) =~= Set::empty());
    while i < args.len()
        invariant
            i <= args.len(),
            argv == argv_view(args@),
            forall|j: int| 0 <= j < i ==> !is_terminator(#[trigger] argv[j]),
            longs@ == long_keys_of(argv.take(i as int)),
            shorts@ == short_keys_of(argv.take(i as int)),
        decreases args.len() - i,
    {
        let arg = args[i].as_str();
        let token = chars_of(arg);
        assert(argv[i as int] == token@);
        if is_double_dash(&token) {
            proof {
                lemma_first_index(argv, seq!['-', '-'], i as int);
            }
            return (longs, shorts);
        }
        proof {
            assert(argv.take(i + 1) =~= argv.take(i as int).push(token@));
            lemma_long_keys_push(argv.take(i as int), token@);
            lemma_short_keys_push(argv.take(i as int), token@);
        }
        if begins_with_double_dash(&token) {
            let key = text_before_first(arg, '=');
            longs.insert(String::from_str(key));
        } else if begins_with_dash(&token) {
            let ghost seen = shorts@;
            let mut j: usize = 1;
            assert(short_keys_in(token@, 1) =~= Set::empty());
            assert(seen.union(Set::empty()) =~= seen);
            while j < token.len()
                invariant
                    1 <= j <= token.len(),
                    token@ == arg@,
                    shorts@ == seen.union(short_keys_in(token@, j as int)),
                decreases token.len() - j,
            {
                proof {
                    reveal_strlit("-");
                }
                let key = String::from_str("-").concat(arg.substring_char(j, j + 1));
                assert(key@ =~= seq!['-', token@[j as int]]);
                shorts.insert(key);
                assert(short_keys_in(token@, j + 1) =~= short_keys_in(token@, j as int).insert(
                    key@,
                ));
                assert(seen.union(short_keys_in(token@, j as int)).insert(key@) =~= seen.union(
                    short_keys_in(token@, j + 1),
                ));
                j += 1;
            }
        }
        i += 1;
    }
    proof {
        lemma_no_index(argv, seq!['-', '-']);
        assert(argv.take(i as int) =~= argv);
    }
    (longs, shorts)
}

/// Reads the extension of the file that `git show` was asked for from the
/// arguments behind `show`.
///
/// There is none where no positional argument is left, or where the last one
/// holds no `:`.
pub fn get_git_show_file_extension<'a>(args: &'a [String]) -> (r: Option<&'a str>)
    ensures
        match r {
            Some(extension) => show_extension(argv_view(args@)) == Some(extension@),
            None => show_extension(argv_view(args@)) is None,
        },
{
    let no_options: Vec<&str> = Vec::new();
    assert(strs_view(no_options@).to_set() =~= Set::empty());
    let positional = skip_uninteresting_args(args, no_options.as_slice());
    if positional.len() == 0 {
        return None;
    }
    let last_arg: &'a str = positional[positional.len() - 1];
    assert(strs_view(positional@).last() == last_arg@);
    match text_after_first(last_arg, ':') {
        Some(path) => Some(text_after_last(path, '.')),
        None => None,
    }
}

/// Says what the arguments of a git call tell of it, `args` being what stands
/// behind the name of the git executable.
///
/// The first `grep` or `show` among them decides: the answer is the option keys
/// of `git grep`, or the file extension of `git show`, and `ArgError` where
/// there is neither subcommand or no extension can be read.
pub fn describe_git_arguments(args: &[String]) -> (r: ProcessArgs<CallingProcess>)
    ensures
        r@ == describe_git(argv_view(args@)),
{
    let ghost argv = argv_view(args@);
    let mut k: usize = 0;
    while k < args.len()
        invariant
            k <= args.len(),
            argv == argv_view(args@),
            forall|j: int| 0 <= j < k ==> !is_subcommand(#[trigger] argv[j]),
        decreases args.len() - k,
    {
        let token = args[k].as_str();
        assert(argv[k as int] == token@);
        let is_grep = same_text(token, "grep");
        if is_grep || same_text(token, "show") {
            assert(first_subcommand(argv, k as int));
            assert forall|other: int| first_subcommand(argv, other) implies other == k by {
                if other < k {
                    assert(!is_subcommand(argv[other]));
                } else if other > k {
                    assert(!is_subcommand(argv[k as int]));
                }
            }
            let rest = slice_subrange(args, k + 1, args.len());
            assert(argv_view(rest@) =~= argv.skip(k + 1));
            if is_grep {
                return ProcessArgs::Args(CallingProcess::GitGrep(parse_command_option_keys(rest)));
            } else {
                return match get_git_show_file_extension(rest) {
                    Some(extension) => ProcessArgs::Args(
                        CallingProcess::GitShow(String::from_str(extension)),
                    ),
                    None => ProcessArgs::ArgError,
                };
            }
        }
        k += 1;
    }
    assert forall|other: int| !first_subcommand(argv, other) by {
        if 0 <= other < argv.len() {
            assert(!is_subcommand(argv[other]));
        }
    }
    ProcessArgs::ArgError
}

/// Says what the command line `args` tells of the program it started.
///
/// The answer is `OtherProcess` where there is no first token or its file stem
/// names neither git nor another grep tool, `Args(OtherGrep)` for `rg`, `ack`
/// and `sift`, and for git what `describe_git_arguments` reads from the tokens
/// behind the first.
pub fn describe_calling_process(args: &[String]) -> (r: ProcessArgs<CallingProcess>)
    ensures
        r@ == describe(argv_view(args@)),
{
    let ghost argv = argv_view(args@);
    if args.len() == 0 {
        return ProcessArgs::OtherProcess;
    }
    assert(argv[0] == args@[0]@);
    let stem = match file_stem(args[0].as_str()) {
        Some(stem) => stem,
        None => {
            return ProcessArgs::OtherProcess;
        },
    };
    if is_git_binary(stem) {
        let rest = slice_subrange(args, 1, args.len());
        assert(argv_view(rest@) =~= argv.skip(1));
        describe_git_arguments(rest)
    } else if is_other_grep(stem) {
        ProcessArgs::Args(CallingProcess::OtherGrep)
    } else {
        ProcessArgs::OtherProcess
    }
}

/// One more token adds its key to the long keys if it is a long option, and
/// nothing otherwise.
proof fn lemma_long_keys_push(tokens: Seq<Seq<char>>, token: Seq<char>)
    ensures
        long_keys_of(tokens.push(token)) == if is_long_option(token) {
            long_keys_of(tokens).insert(before_first(token, '='))
        } else {
            long_keys_of(tokens)
        },
{
    let more = tokens.push(token);
    let expected = if is_long_option(token) {
        long_keys_of(tokens).insert(before_first(token, '='))
    } else {
        long_keys_of(tokens)
    };
    assert forall|key: Seq<char>| long_keys_of(more).contains(key) <==> expected.contains(key) by {
        if long_keys_of(more).contains(key) {
            let i = choose|i: int|
                0 <= i < more.len() && is_long_option(#[trigger] more[i]) && key == before_first(
                    more[i],
                    '=',
                );
            if i < tokens.len() {
                assert(tokens[i] == more[i]);
            }
        }
        if expected.contains(key) {
            if long_keys_of(tokens).contains(key) {
                let i = choose|i: int|
                    0 <= i < tokens.len() && is_long_option(#[trigger] tokens[i]) && key
                        == before_first(tokens[i], '=');
                assert(more[i] == tokens[i]);
            } else {
                assert(more[tokens.len() as int] == token);
            }
        }
    }
    assert(long_keys_of(more) =~= expected);
}

/// One more token adds the keys of its characters to the short keys if it is a
/// short option, and nothing otherwise.
proof fn lemma_short_keys_push(tokens: Seq<Seq<char>>, token: Seq<char>)
    ensures
        short_keys_of(tokens.push(token)) == if is_short_option(token) {
            short_keys_of(tokens).union(short_keys_in(token, token.len() as int))
        } else {
            short_keys_of(tokens)
        },
{
    let more = tokens.push(token);
    let expected = if is_short_option(token) {
        short_keys_of(tokens).union(short_keys_in(token, token.len() as int))
    } else {
        short_keys_of(tokens)
    };
    assert forall|key: Seq<char>| short_keys_of(more).contains(key) <==> expected.contains(
        key,
    ) by {
        if short_keys_of(more).contains(key) {
            let i = choose|i: int|
                0 <= i < more.len() && is_short_option(#[trigger] more[i]) && short_keys_in(
                    more[i],
                    more[i].len() as int,
                ).contains(key);
            if i < tokens.len() {
                assert(tokens[i] == more[i]);
            }
        }
        if expected.contains(key) {
            if short_keys_of(tokens).contains(key) {
                let i = choose|i: int|
                    0 <= i < tokens.len() && is_short_option(#[trigger] tokens[i])
                        && short_keys_in(tokens[i], tokens[i].len() as int).contains(key);
                assert(more[i] == tokens[i]);
            } else {
                assert(more[tokens.len() as int] == token);
            }
        }
    }
    assert(short_keys_of(more) =~= expected);
}

/// A command line whose first token names neither a git executable nor another
/// grep tool is another process to the describer, and so is the empty command
/// line.
pub proof fn lemma_describe_needs_git_or_grep(argv: Seq<Seq<char>>)
    requires
        argv.len() > 0 ==> match path_file_stem(argv[0]) {
            Some(stem) => !names_git(stem) && !is_other_grep_name(stem),
            None => true,
        },
    ensures
        describe(argv) == ProcessArgs::<CallingProcessView>::OtherProcess,
{
}

/// Another grep tool is described as such whatever follows its name.
pub proof fn lemma_describe_other_grep(argv: Seq<Seq<char>>)
    requires
        argv.len() > 0,
        path_file_stem(argv[0]) matches Some(stem) && !names_git(stem) && is_other_grep_name(stem),
    ensures
        describe(argv) == ProcessArgs::Args(CallingProcessView::OtherGrep),
{
}

/// A git command line without `grep` or `show` is malformed, and not another
/// process.
pub proof fn lemma_describe_git_without_subcommand(argv: Seq<Seq<char>>)
    requires
        argv.len() > 0,
        path_file_stem(argv[0]) matches Some(stem) && names_git(stem),
        forall|k: int| 1 <= k < argv.len() ==> !is_subcommand(#[trigger] argv[k]),
    ensures
        describe(argv) == ProcessArgs::<CallingProcessView>::ArgError,
{
    let args = argv.skip(1);
    assert forall|k: int| !first_subcommand(args, k) by {
        if 0 <= k < args.len() {
            assert(args[k] == argv[k + 1]);
        }
    }
}

} // verus!
