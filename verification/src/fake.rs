//! Command lines to play the parent with, for trying out classifiers and the
//! code round them without a process table.

use vstd::prelude::*;
use crate::outcome::ProcessArgs;
use crate::search::may_classify;
use crate::text::{argv_view, clone_texts, split_on, split_text};

verus! {

/// What a `FakeParentArgs` has to show, and how often.
pub enum FakeArgs {
    /// One command line, to be shown exactly once.
    Once(Seq<Seq<char>>),
    /// One command line, to be shown as often as it is asked for, or never.
    Scope(Seq<Seq<char>>),
    /// Command lines to be shown one after the other, each exactly once; the
    /// number tells how many have been shown.
    With(nat, Seq<Seq<Seq<char>>>),
    /// The one command line of `Once`, after it has been shown.
    Used,
}

impl FakeArgs {
    /// There is a command line left to show.
    pub open spec fn has_next(self) -> bool {
        match self {
            FakeArgs::Once(_) => true,
            FakeArgs::Scope(_) => true,
            FakeArgs::With(shown, all) => shown < all.len(),
            FakeArgs::Used => false,
        }
    }

    /// The command line that is shown next.
    pub open spec fn next(self) -> Seq<Seq<char>> {
        match self {
            FakeArgs::Once(args) => args,
            FakeArgs::Scope(args) => args,
            FakeArgs::With(shown, all) => all[shown as int],
            FakeArgs::Used => Seq::empty(),
        }
    }

    /// What is left once the next command line has been shown.
    pub open spec fn after_next(self) -> FakeArgs {
        match self {
            FakeArgs::Once(_) => FakeArgs::Used,
            FakeArgs::Scope(args) => FakeArgs::Scope(args),
            FakeArgs::With(shown, all) => FakeArgs::With(shown + 1, all),
            FakeArgs::Used => FakeArgs::Used,
        }
    }

    /// All has been shown that had to be shown.
    pub open spec fn is_used_up(self) -> bool {
        match self {
            FakeArgs::Once(_) => false,
            FakeArgs::Scope(_) => true,
            FakeArgs::With(shown, all) => shown == all.len(),
            FakeArgs::Used => true,
        }
    }
}

enum State {
    Once(Vec<String>),
    Scope(Vec<String>),
    With(usize, Vec<Vec<String>>),
    Used,
}

/// Command lines that stand in for the one of the parent process.
///
/// A test makes one, hands it to the code it tries out, and checks with
/// `is_used_up` in the end that every command line it meant to show was asked
/// for.
pub struct FakeParentArgs {
    state: State,
}

/// The texts of a list of command lines.
pub open spec fn command_lines_view(all: Seq<Vec<String>>) -> Seq<Seq<Seq<char>>> {
    Seq::new(all.len(), |i: int| argv_view(all[i]@))
}

/// The command lines that `lines` give when each is cut at its blanks.
pub open spec fn split_lines(lines: Seq<&str>) -> Seq<Seq<Seq<char>>> {
    Seq::new(lines.len(), |i: int| split_on(lines[i]@, ' '))
}

impl View for FakeParentArgs {
    type V = FakeArgs;

    closed spec fn view(&self) -> FakeArgs {
        match self.state {
            State::Once(args) => FakeArgs::Once(argv_view(args@)),
            State::Scope(args) => FakeArgs::Scope(argv_view(args@)),
            State::With(shown, all) => FakeArgs::With(shown as nat, command_lines_view(all@)),
            State::Used => FakeArgs::Used,
        }
    }
}

impl FakeParentArgs {
    /// The command line `args`, cut at its blanks, to be shown exactly once.
    pub fn once(args: &str) -> (r: Self)
        ensures
            r@ == FakeArgs::Once(split_on(args@, ' ')),
    {
        FakeParentArgs { state: State::Once(split_text(args, ' ')) }
    }

    /// The command line `args`, cut at its blanks, to be shown any number of times.
    pub fn for_scope(args: &str) -> (r: Self)
        ensures
            r@ == FakeArgs::Scope(split_on(args@, ' ')),
    {
        FakeParentArgs { state: State::Scope(split_text(args, ' ')) }
    }

    /// The command lines `args`, each cut at its blanks, to be shown one after
    /// the other.
    pub fn with(args: &[&str]) -> (r: Self)
        requires
            args.len() > 0,
        ensures
            r@ == FakeArgs::With(0, split_lines(args@)),
    {
        let mut all: Vec<Vec<String>> = Vec::new();
        let mut i: usize = 0;
        while i < args.len()
            invariant
                i <= args.len(),
                command_lines_view(all@) == split_lines(args@).take(i as int),
            decreases args.len() - i,
        {
            let ghost before = command_lines_view(all@);
            let line = split_text(args[i], ' ');
            let ghost text = argv_view(line@);
            all.push(line);
            assert(command_lines_view(all@) =~= before.push(text));
            assert(split_lines(args@).take(i + 1) =~= split_lines(args@).take(i as int).push(text));
            i += 1;
        }
        assert(split_lines(args@).take(i as int) =~= split_lines(args@));
        FakeParentArgs { state: State::With(0, all) }
    }

    /// Whether there is a command line left to show.
    pub fn has_next(&self) -> (r: bool)
        ensures
            r == self@.has_next(),
    {
        match &self.state {
            State::Once(_) => true,
            State::Scope(_) => true,
            State::With(shown, all) => *shown < all.len(),
            State::Used => false,
        }
    }

    /// Shows the next command line.
    pub fn get(&mut self) -> (r: Vec<String>)
        requires
            old(self)@.has_next(),
        ensures
            argv_view(r@) == old(self)@.next(),
            final(self)@ == old(self)@.after_next(),
    {
        let mut state = State::Used;
        std::mem::swap(&mut self.state, &mut state);
        match state {
            State::Once(args) => args,
            State::Scope(args) => {
                let r = clone_texts(&args);
                self.state = State::Scope(args);
                r
            },
            State::With(shown, all) => {
                assert(old(self)@ == FakeArgs::With(shown as nat, command_lines_view(all@)));
                assert(shown < all.len());
                let r = clone_texts(&all[shown]);
                self.state = State::With(shown + 1, all);
                r
            },
            State::Used => Vec::new(),
        }
    }

    /// Whether all has been shown that had to be shown: the one command line of
    /// `once`, and each of those of `with`. That of `for_scope` need not have
    /// been shown.
    pub fn is_used_up(&self) -> (r: bool)
        ensures
            r == self@.is_used_up(),
    {
        match &self.state {
            State::Once(_) => false,
            State::Scope(_) => true,
            State::With(shown, all) => *shown == all.len(),
            State::Used => true,
        }
    }
}

/// Gives what `extract_args` reads from the next command line of `fake`, as if
/// it were the one of the parent process: the answer of a match, and nothing for
/// a malformed command line or another process.
pub fn calling_process_cmdline_faked<F, T>(fake: &mut FakeParentArgs, extract_args: F) -> (r:
    Option<T>) where F: Fn(&[String]) -> ProcessArgs<T>
    requires
        old(fake)@.has_next(),
        forall|args: &[String]| call_requires(extract_args, (args,)),
    ensures
        final(fake)@ == old(fake)@.after_next(),
        match r {
            Some(found) => may_classify(extract_args, old(fake)@.next(), ProcessArgs::Args(found)),
            None => may_classify(extract_args, old(fake)@.next(), ProcessArgs::ArgError)
                || may_classify(extract_args, old(fake)@.next(), ProcessArgs::OtherProcess),
        },
{
    let args = fake.get();
    let outcome = extract_args(args.as_slice());
    assert(may_classify(extract_args, argv_view(args@), outcome));
    match outcome {
        ProcessArgs::Args(found) => Some(found),
        ProcessArgs::ArgError => None,
        ProcessArgs::OtherProcess => None,
    }
}

} // verus!
