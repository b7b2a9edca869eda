//! Telling the positional arguments of a command line from its options.

use vstd::prelude::*;
use crate::text::{argv_view, chars_of, same_chars, strs_view};

verus! {

/// The token `--`, behind which nothing is taken for an option.
pub open spec fn is_terminator(token: Seq<char>) -> bool {
    token == seq!['-', '-']
}

/// A token that begins with `-`.
pub open spec fn is_option(token: Seq<char>) -> bool {
    token.len() > 0 && token[0] == '-'
}

/// An option that takes no parameter: it begins with `-`, and it is neither `--`
/// nor one of `with_parameter`.
pub open spec fn is_plain_option(token: Seq<char>, with_parameter: Set<Seq<char>>) -> bool {
    is_option(token) && !is_terminator(token) && !with_parameter.contains(token)
}

/// The positional arguments among `args`, in order.
///
/// A token that begins with `-` is dropped, and a token of `with_parameter` is
/// dropped together with the token behind it. The token `--` is dropped too, and
/// all that follows it is kept as it stands.
pub open spec fn positional_args(args: Seq<Seq<char>>, with_parameter: Set<Seq<char>>) -> Seq<
    Seq<char>,
>
    decreases args.len(),
{
    if args.len() == 0 {
        Seq::empty()
    } else if is_terminator(args[0]) {
        args.skip(1)
    } else if with_parameter.contains(args[0]) {
        if args.len() == 1 {
            Seq::empty()
        } else {
            positional_args(args.skip(2), with_parameter)
        }
    } else if is_option(args[0]) {
        positional_args(args.skip(1), with_parameter)
    } else {
        seq![args[0]] + positional_args(args.skip(1), with_parameter)
    }
}

/// The place of the `--` at which option skipping ends, if it meets one.
pub open spec fn terminator_at(args: Seq<Seq<char>>, with_parameter: Set<Seq<char>>) -> Option<int>
    decreases args.len(),
{
    if args.len() == 0 {
        None
    } else if is_terminator(args[0]) {
        Some(0)
    } else if with_parameter.contains(args[0]) {
        if args.len() == 1 {
            None
        } else {
            match terminator_at(args.skip(2), with_parameter) {
                Some(n) => Some(n + 2),
                None => None,
            }
        }
    } else {
        match terminator_at(args.skip(1), with_parameter) {
            Some(n) => Some(n + 1),
            None => None,
        }
    }
}

/// Whether `token` reads `--`.
pub fn is_double_dash(token: &Vec<char>) -> (r: bool)
    ensures
        r == is_terminator(token@),
{
    let r = token.len() == 2 && token[0] == '-' && token[1] == '-';
    assert(r ==> token@ =~= seq!['-', '-']);
    r
}

/// Whether `token` begins with `-`.
pub fn begins_with_dash(token: &Vec<char>) -> (r: bool)
    ensures
        r == is_option(token@),
{
    token.len() > 0 && token[0] == '-'
}

/// Whether `token` is one of `list`.
pub fn is_listed(token: &Vec<char>, list: &[&str]) -> (r: bool)
    ensures
        r == strs_view(list@).to_set().contains(token@),
{
    let mut i: usize = 0;
    while i < list.len()
        invariant
            i <= list.len(),
            forall|j: int| 0 <= j < i ==> strs_view(list@)[j] != token@,
        decreases list.len() - i,
    {
        let entry = chars_of(list[i]);
        if same_chars(&entry, token) {
            assert(strs_view(list@)[i as int] == token@);
            return true;
        }
        i += 1;
    }
    false
}

/// Picks the positional arguments out of `args`.
///
/// Every token that begins with `-` is left out, and so is the token behind one
/// of `skip_this_plus_parameter`. Once `--` is met, all that follows is kept.
pub fn skip_uninteresting_args<'a>(args: &'a [String], skip_this_plus_parameter: &[&str]) -> (r:
    Vec<&'a str>)
    ensures
        strs_view(r@) == positional_args(
            argv_view(args@),
            strs_view(skip_this_plus_parameter@).to_set(),
        ),
{
    let ghost argv = argv_view(args@);
    let ghost set = strs_view(skip_this_plus_parameter@).to_set();
    let mut result: Vec<&'a str> = Vec::new();
    let mut i: usize = 0;
    assert(argv.skip(0) =~= argv);
    assert(strs_view(result@) =~= Seq::empty());
    while i < args.len()
        invariant
            i <= args.len(),
            argv == argv_view(args@),
            set == strs_view(skip_this_plus_parameter@).to_set(),
            positional_args(argv, set) == strs_view(result@) + positional_args(
                argv.skip(i as int),
                set,
            ),
        decreases args.len() - i,
    {
        let arg: &'a str = args[i].as_str();
        let token = chars_of(arg);
        let ghost rest = argv.skip(i as int);
        assert(rest.len() > 0 && rest[0] == token@);
        assert(rest.skip(1) =~= argv.skip(i + 1));
        if is_double_dash(&token) {
            let ghost kept = strs_view(result@);
            let mut j: usize = i + 1;
            assert(argv.subrange(i + 1, j as int) =~= Seq::empty());
            while j < args.len()
                invariant
                    i < j <= args.len(),
                    argv == argv_view(args@),
                    strs_view(result@) == kept + argv.subrange(i + 1, j as int),
                decreases args.len() - j,
            {
                let ghost before = strs_view(result@);
                result.push(args[j].as_str());
                assert(strs_view(result@) =~= before.push(argv[j as int]));
                assert(argv.subrange(i + 1, j + 1) =~= argv.subrange(i + 1, j as int).push(
                    argv[j as int],
                ));
                j += 1;
            }
            assert(argv.subrange(i + 1, args.len() as int) =~= argv.skip(i + 1));
            return result;
        } else if is_listed(&token, skip_this_plus_parameter) {
            if args.len() - i == 1 {
                assert(rest.len() == 1);
                assert(positional_args(argv.skip(i + 1), set) =~= Seq::empty());
                i += 1;
            } else {
                assert(rest.skip(2) =~= argv.skip(i + 2));
                i += 2;
            }
        } else if !begins_with_dash(&token) {
            let ghost before = strs_view(result@);
            result.push(arg);
            assert(strs_view(result@) =~= before.push(token@));
            assert(before.push(token@) + positional_args(argv.skip(i + 1), set) =~= before + (
            seq![token@] + positional_args(argv.skip(i + 1), set)));
            i += 1;
        } else {
            i += 1;
        }
    }
    assert(positional_args(argv.skip(i as int), set) =~= Seq::empty());
    assert(strs_view(result@) + Seq::<Seq<char>>::empty() =~= strs_view(result@));
    result
}

/// `--` ends option skipping: the positional arguments are those found before it,
/// followed by every token behind it, whether or not it begins with `-`.
pub proof fn lemma_terminator_keeps_rest(
    args: Seq<Seq<char>>,
    with_parameter: Set<Seq<char>>,
    n: int,
)
    requires
        terminator_at(args, with_parameter) == Some(n),
    ensures
        0 <= n < args.len(),
        is_terminator(args[n]),
        positional_args(args, with_parameter) == positional_args(args.take(n), with_parameter)
            + args.skip(n + 1),
    decreases args.len(),
{
    if is_terminator(args[0]) {
        assert(args.take(0) =~= Seq::empty());
        assert(Seq::<Seq<char>>::empty() + args.skip(1) =~= args.skip(1));
    } else if with_parameter.contains(args[0]) {
        let rest = args.skip(2);
        lemma_terminator_keeps_rest(rest, with_parameter, n - 2);
        assert(args.take(n).skip(2) =~= rest.take(n - 2));
        assert(rest.skip(n - 2 + 1) =~= args.skip(n + 1));
        assert(args.take(n)[0] == args[0]);
    } else {
        let rest = args.skip(1);
        lemma_terminator_keeps_rest(rest, with_parameter, n - 1);
        assert(args.take(n).skip(1) =~= rest.take(n - 1));
        assert(rest.skip(n - 1 + 1) =~= args.skip(n + 1));
        assert(args.take(n)[0] == args[0]);
        if !is_option(args[0]) {
            assert((seq![args[0]] + positional_args(rest.take(n - 1), with_parameter)) + args.skip(
                n + 1,
            ) =~= seq![args[0]] + (positional_args(rest.take(n - 1), with_parameter) + args.skip(
                n + 1,
            )));
        }
    }
}

/// Option skipping ends at the first `--` when no token before it takes a parameter.
pub proof fn lemma_first_terminator(args: Seq<Seq<char>>, with_parameter: Set<Seq<char>>, n: int)
    requires
        0 <= n < args.len(),
        is_terminator(args[n]),
        forall|j: int|
            0 <= j < n ==> !is_terminator(#[trigger] args[j]) && !with_parameter.contains(args[j]),
    ensures
        terminator_at(args, with_parameter) == Some(n),
    decreases n,
{
    if n > 0 {
        let rest = args.skip(1);
        assert forall|j: int| 0 <= j < n - 1 implies !is_terminator(#[trigger] rest[j])
            && !with_parameter.contains(rest[j]) by {
            assert(rest[j] == args[j + 1]);
        }
        lemma_first_terminator(rest, with_parameter, n - 1);
    }
}

/// Options that take no parameter contribute no positional argument.
pub proof fn lemma_plain_options_skipped(
    options: Seq<Seq<char>>,
    rest: Seq<Seq<char>>,
    with_parameter: Set<Seq<char>>,
)
    requires
        forall|i: int|
            0 <= i < options.len() ==> is_plain_option(#[trigger] options[i], with_parameter),
    ensures
        positional_args(options + rest, with_parameter) == positional_args(rest, with_parameter),
    decreases options.len(),
{
    if options.len() == 0 {
        assert(options + rest =~= rest);
    } else {
        let args = options + rest;
        assert(args[0] == options[0]);
        assert(is_plain_option(options[0], with_parameter));
        assert(args.skip(1) =~= options.skip(1) + rest);
        assert forall|i: int| 0 <= i < options.skip(1).len() implies is_plain_option(
            #[trigger] options.skip(1)[i],
            with_parameter,
        ) by {
            assert(options.skip(1)[i] == options[i + 1]);
        }
        lemma_plain_options_skipped(options.skip(1), rest, with_parameter);
    }
}

/// A token that is no option and takes no parameter is a positional argument.
pub proof fn lemma_positional_kept(
    token: Seq<char>,
    rest: Seq<Seq<char>>,
    with_parameter: Set<Seq<char>>,
)
    requires
        !is_option(token),
        !with_parameter.contains(token),
    ensures
        positional_args(seq![token] + rest, with_parameter) == seq![token] + positional_args(
            rest,
            with_parameter,
        ),
{
    let args = seq![token] + rest;
    assert(args[0] == token);
    assert(args.skip(1) =~= rest);
    assert(seq!['-', '-'][0] == '-');
}

/// An option that takes a parameter contributes no positional argument, and
/// neither does the token behind it.
pub proof fn lemma_option_with_parameter(
    option: Seq<char>,
    value: Seq<char>,
    rest: Seq<Seq<char>>,
    with_parameter: Set<Seq<char>>,
)
    requires
        with_parameter.contains(option),
        !is_terminator(option),
    ensures
        positional_args(seq![option, value] + rest, with_parameter) == positional_args(
            rest,
            with_parameter,
        ),
{
    let args = seq![option, value] + rest;
    assert(args[0] == option);
    assert(args.skip(2) =~= rest);
}

/// An option with its parameter joined on by `=` contributes no positional argument.
pub proof fn lemma_option_with_joined_parameter(
    option: Seq<char>,
    value: Seq<char>,
    rest: Seq<Seq<char>>,
    with_parameter: Set<Seq<char>>,
)
    requires
        is_option(option),
        !with_parameter.contains(option + seq!['='] + value),
    ensures
        positional_args(seq![option + seq!['='] + value] + rest, with_parameter)
            == positional_args(rest, with_parameter),
{
    let token = option + seq!['='] + value;
    let args = seq![token] + rest;
    assert(args[0] == token);
    assert(args.skip(1) =~= rest);
    assert(token[0] == option[0]);
    assert(token[option.len() as int] == '=');
    if is_terminator(token) {
        assert(token.len() == 2);
        assert(option.len() == 1 && value.len() == 0) by {
            assert(token.len() == option.len() + 1 + value.len());
        }
        assert(token[1] == '=');
        assert(seq!['-', '-'][1] == '-');
    }
}

} // verus!
