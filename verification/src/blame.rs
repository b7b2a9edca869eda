//! Guessing the extension of the file that `git blame` was asked for.

use vstd::prelude::*;
use vstd::slice::slice_subrange;
use vstd::string::*;
use crate::args::{
    is_option,
    is_plain_option,
    is_terminator,
    lemma_option_with_joined_parameter,
    lemma_option_with_parameter,
    lemma_plain_options_skipped,
    lemma_positional_kept,
    positional_args,
    skip_uninteresting_args,
};
use crate::binary::{is_git_binary, names_git};
use crate::outcome::ProcessArgs;
use crate::process::ProcessInterface;
use crate::search::{
    is_classifier, lemma_answer_was_read, may_classify, searched, search_process_table,
};
use crate::text::{
    after_last, argv_view, lemma_after_last, same_text, strs_view, text_after_last,
};

verus! {

/// The options of `git blame` that take their parameter as the next token.
pub open spec fn blame_option_names() -> Seq<&'static str> {
    seq![
        "-C",
        "-c",
        "-L",
        "--since",
        "--ignore-rev",
        "--ignore-revs-file",
        "--contents",
        "--reverse",
        "--date",
    ]
}

/// The same options, as a set of texts.
pub open spec fn blame_options_with_parameter() -> Set<Seq<char>> {
    strs_view(blame_option_names()).to_set()
}

/// What the arguments of a git call say of `git blame`: `args` is what stands
/// behind the name of the git executable.
///
/// The first positional argument has to be `blame`. The extension is then read
/// from the last positional argument: what follows its last `.`, or all of it
/// where it holds none. Without any argument behind `blame` the call is
/// malformed.
pub open spec fn blame_arguments(args: Seq<Seq<char>>) -> ProcessArgs<Seq<char>> {
    let positional = positional_args(args, blame_options_with_parameter());
    if positional.len() == 0 || positional[0] != "blame"@ {
        ProcessArgs::OtherProcess
    } else if positional.len() == 1 {
        ProcessArgs::ArgError
    } else {
        ProcessArgs::Args(after_last(positional.last(), '.'))
    }
}

/// What the command line `argv` says of a `git blame` call: another process
/// unless its first token names a git executable, and else what
/// `blame_arguments` reads from the tokens behind the first.
pub open spec fn blame_extension(argv: Seq<Seq<char>>) -> ProcessArgs<Seq<char>> {
    if argv.len() == 0 || !names_git(argv[0]) {
        ProcessArgs::OtherProcess
    } else {
        blame_arguments(argv.skip(1))
    }
}

/// The command line `<git> blame <options> <file>`.
pub open spec fn blame_call(git: Seq<char>, options: Seq<Seq<char>>, file: Seq<char>) -> Seq<
    Seq<char>,
> {
    seq![git, "blame"@] + options + seq![file]
}

/// The options of `git blame` that take a parameter, for `skip_uninteresting_args`.
pub fn git_blame_options_with_parameter() -> (r: Vec<&'static str>)
    ensures
        r@ == blame_option_names(),
{
    let r = vec![
        "-C",
        "-c",
        "-L",
        "--since",
        "--ignore-rev",
        "--ignore-revs-file",
        "--contents",
        "--reverse",
        "--date",
    ];
    assert(r@ =~= blame_option_names());
    r
}

/// Reads the extension of the file that `git blame` was asked for from the
/// arguments of a git call, `args` being what stands behind the name of the git
/// executable.
///
/// The answer is `OtherProcess` unless `blame` is the first positional
/// argument, `ArgError` where nothing follows `blame` but options, and
/// otherwise the part of the last positional argument behind its last `.`:
/// `txt` for `notes.txt`, and `README` for `README`.
pub fn guess_extension_from_git_arguments(args: &[String]) -> (r: ProcessArgs<String>)
    ensures
        r@ == blame_arguments(argv_view(args@)),
{
    let options = git_blame_options_with_parameter();
    let selected_args = skip_uninteresting_args(args, options.as_slice());
    if selected_args.len() == 0 {
        return ProcessArgs::OtherProcess;
    }
    assert(strs_view(selected_args@)[0] == selected_args@[0]@);
    if !same_text(selected_args[0], "blame") {
        return ProcessArgs::OtherProcess;
    }
    if selected_args.len() == 1 {
        return ProcessArgs::ArgError;
    }
    let last_arg = selected_args[selected_args.len() - 1];
    assert(strs_view(selected_args@).last() == last_arg@);
    ProcessArgs::Args(String::from_str(text_after_last(last_arg, '.')))
}

/// Reads the extension of the file that `git blame` was asked for from the
/// command line `args`.
///
/// The answer is `OtherProcess` unless the first token names a git executable,
/// and else what `guess_extension_from_git_arguments` reads from the tokens
/// behind it.
pub fn guess_git_blame_filename_extension(args: &[String]) -> (r: ProcessArgs<String>)
    ensures
        r@ == blame_extension(argv_view(args@)),
{
    let ghost argv = argv_view(args@);
    if args.len() == 0 {
        return ProcessArgs::OtherProcess;
    }
    assert(argv[0] == args@[0]@);
    if !is_git_binary(args[0].as_str()) {
        return ProcessArgs::OtherProcess;
    }
    let rest = slice_subrange(args, 1, args.len());
    assert(argv_view(rest@) =~= argv.skip(1));
    guess_extension_from_git_arguments(rest)
}

/// Looks for a `git blame` call among the processes round the one that `info`
/// is asked by, and reads the extension of the file it was asked for.
///
/// The search goes as `search_process_table` tells, and what is found is the
/// extension that `blame_extension` reads from some command line.
pub fn git_blame_filename_extension<P: ProcessInterface>(info: &mut P) -> (r: Option<String>)
    ensures
        searched(*old(info), *final(info), guess_git_blame_filename_extension, r),
        r matches Some(extension) ==> exists|argv: Seq<Seq<char>>|
            blame_extension(argv) == ProcessArgs::Args(extension@),
{
    proof {
        lemma_blame_is_classifier();
    }
    let r = search_process_table(info, guess_git_blame_filename_extension);
    proof {
        lemma_answer_was_read(info.table(), info.current(), guess_git_blame_filename_extension, r);
        if r is Some {
            let found = r->0;
            let argv = choose|argv: Seq<Seq<char>>|
                may_classify(guess_git_blame_filename_extension, argv, ProcessArgs::Args(found));
            assert(ProcessArgs::Args(found)@ == blame_extension(argv));
        }
    }
    r
}

/// `guess_git_blame_filename_extension` is a classifier, and all it may answer
/// on a command line is what `blame_extension` says of that command line.
pub proof fn lemma_blame_is_classifier()
    ensures
        is_classifier(guess_git_blame_filename_extension),
        forall|argv: Seq<Seq<char>>, outcome: ProcessArgs<String>| #[trigger]
            may_classify(guess_git_blame_filename_extension, argv, outcome) ==> outcome@
                == blame_extension(argv),
{
}

/// Every option of `git blame` that takes a parameter begins with `-`, is not
/// `--`, and holds no `=`.
pub proof fn lemma_blame_options(option: Seq<char>)
    requires
        blame_options_with_parameter().contains(option),
    ensures
        is_option(option),
        !is_terminator(option),
        !option.contains('='),
{
    reveal_strlit("-C");
    reveal_strlit("-c");
    reveal_strlit("-L");
    reveal_strlit("--since");
    reveal_strlit("--ignore-rev");
    reveal_strlit("--ignore-revs-file");
    reveal_strlit("--contents");
    reveal_strlit("--reverse");
    reveal_strlit("--date");
    let names = strs_view(blame_option_names());
    let i = choose|i: int| 0 <= i < names.len() && names[i] == option;
    assert(names[i] == blame_option_names()[i]@);
    assert(seq!['-', '-'].len() == 2);
    assert(seq!['-', '-'][1] == '-');
}

/// `blame` is neither an option nor one that takes a parameter.
proof fn lemma_blame_is_positional()
    ensures
        !is_option("blame"@),
        !blame_options_with_parameter().contains("blame"@),
{
    reveal_strlit("blame");
    if blame_options_with_parameter().contains("blame"@) {
        lemma_blame_options("blame"@);
    }
}

/// From the arguments `blame <options> <file>` the extension of `<file>` is read.
pub proof fn lemma_blame_arguments_extension(options: Seq<Seq<char>>, file: Seq<char>)
    requires
        forall|i: int|
            0 <= i < options.len() ==> is_plain_option(
                #[trigger] options[i],
                blame_options_with_parameter(),
            ),
        !is_option(file),
    ensures
        blame_arguments(seq!["blame"@] + options + seq![file]) == ProcessArgs::Args(
            after_last(file, '.'),
        ),
{
    let set = blame_options_with_parameter();
    let args = seq!["blame"@] + options + seq![file];
    lemma_blame_is_positional();
    if set.contains(file) {
        lemma_blame_options(file);
    }
    assert(args =~= seq!["blame"@] + (options + seq![file]));
    lemma_positional_kept("blame"@, options + seq![file], set);
    lemma_plain_options_skipped(options, seq![file], set);
    lemma_positional_kept(file, Seq::empty(), set);
    assert(seq![file] + Seq::<Seq<char>>::empty() =~= seq![file]);
    let positional = positional_args(args, set);
    assert(positional =~= seq!["blame"@, file]);
    assert(positional.last() == file);
}

/// From `<git> blame <options> <file>` the guesser reads what follows the last
/// `.` of `<file>`, and all of `<file>` where it holds none.
pub proof fn lemma_blame_reads_extension(
    git: Seq<char>,
    options: Seq<Seq<char>>,
    file: Seq<char>,
)
    requires
        names_git(git),
        forall|i: int|
            0 <= i < options.len() ==> is_plain_option(
                #[trigger] options[i],
                blame_options_with_parameter(),
            ),
        !is_option(file),
    ensures
        blame_extension(blame_call(git, options, file)) == ProcessArgs::Args(after_last(file, '.')),
        !after_last(file, '.').contains('.'),
        !file.contains('.') ==> after_last(file, '.') == file,
        file.contains('.') ==> exists|i: int|
            0 <= i < file.len() && file[i] == '.' && after_last(file, '.') == #[trigger] file.skip(
                i + 1,
            ),
{
    let argv = blame_call(git, options, file);
    lemma_after_last(file, '.');
    assert(argv[0] == git);
    assert(argv.skip(1) =~= seq!["blame"@] + options + seq![file]);
    lemma_blame_arguments_extension(options, file);
}

/// An option of `git blame` that takes a parameter contributes no positional
/// argument, whether the parameter follows as the next token or is joined on
/// by `=`.
pub proof fn lemma_blame_parameter_skipped(
    option: Seq<char>,
    value: Seq<char>,
    rest: Seq<Seq<char>>,
)
    requires
        blame_options_with_parameter().contains(option),
    ensures
        positional_args(seq![option, value] + rest, blame_options_with_parameter())
            == positional_args(rest, blame_options_with_parameter()),
        positional_args(seq![option + seq!['='] + value] + rest, blame_options_with_parameter())
            == positional_args(rest, blame_options_with_parameter()),
{
    let set = blame_options_with_parameter();
    let joined = option + seq!['='] + value;
    lemma_blame_options(option);
    lemma_option_with_parameter(option, value, rest, set);
    if set.contains(joined) {
        lemma_blame_options(joined);
        assert(joined[option.len() as int] == '=');
    }
    lemma_option_with_joined_parameter(option, value, rest, set);
}

/// The arguments `blame <options>` are malformed: no file is named.
pub proof fn lemma_blame_arguments_without_file(options: Seq<Seq<char>>)
    requires
        forall|i: int|
            0 <= i < options.len() ==> is_plain_option(
                #[trigger] options[i],
                blame_options_with_parameter(),
            ),
    ensures
        blame_arguments(seq!["blame"@] + options) == ProcessArgs::<Seq<char>>::ArgError,
{
    let set = blame_options_with_parameter();
    lemma_blame_is_positional();
    lemma_positional_kept("blame"@, options, set);
    assert(options + Seq::<Seq<char>>::empty() =~= options);
    lemma_plain_options_skipped(options, Seq::empty(), set);
    assert(seq!["blame"@] + Seq::<Seq<char>>::empty() =~= seq!["blame"@]);
}

/// A git call whose only positional argument is `blame` is malformed, and not
/// another process.
pub proof fn lemma_blame_without_file(argv: Seq<Seq<char>>)
    requires
        argv.len() > 0,
        names_git(argv[0]),
        positional_args(argv.skip(1), blame_options_with_parameter()) == seq!["blame"@],
    ensures
        blame_extension(argv) == ProcessArgs::<Seq<char>>::ArgError,
{
}

/// A command line whose first token does not name a git executable is another
/// process to the guesser, and so is the empty command line.
pub proof fn lemma_blame_needs_git(argv: Seq<Seq<char>>)
    requires
        argv.len() == 0 || !names_git(argv[0]),
    ensures
        blame_extension(argv) == ProcessArgs::<Seq<char>>::OtherProcess,
{
}

} // verus!
