//! Asking for the calling process once, and remembering the answer.

use vstd::prelude::*;
use crate::caller::{describe, describe_calling_process, CallingProcess, CallingProcessView};
use crate::outcome::ProcessArgs;
use crate::process::ProcessInterface;
use crate::search::{
    is_classifier, lemma_answer_was_read, may_classify, searched, search_process_table,
};

verus! {

/// `describe_calling_process` is a classifier, and all it may answer on a command
/// line is what `describe` says of that command line.
pub proof fn lemma_describe_is_classifier()
    ensures
        is_classifier(describe_calling_process),
        forall|argv: Seq<Seq<char>>, outcome: ProcessArgs<CallingProcess>| #[trigger]
            may_classify(describe_calling_process, argv, outcome) ==> outcome@ == describe(argv),
{
}

/// Looks for the calling process in the table `info` and describes it.
///
/// The search goes as `search_process_table` tells, and what is found is what
/// `describe` reads from some command line.
pub fn determine_calling_process<P: ProcessInterface>(info: &mut P) -> (r: Option<CallingProcess>)
    ensures
        searched(*old(info), *final(info), describe_calling_process, r),
        r matches Some(found) ==> exists|argv: Seq<Seq<char>>|
            describe(argv) == ProcessArgs::Args(found@),
{
    proof {
        lemma_describe_is_classifier();
    }
    let r = search_process_table(info, describe_calling_process);
    proof {
        lemma_answer_was_read(info.table(), info.current(), describe_calling_process, r);
        if r is Some {
            let found = r->0;
            let argv = choose|argv: Seq<Seq<char>>|
                may_classify(describe_calling_process, argv, ProcessArgs::Args(found));
            assert(ProcessArgs::Args(found)@ == describe(argv));
        }
    }
    r
}

/// What one run knows of its calling process: nothing yet, or the answer of the
/// one search that was made.
pub struct CachedCallingProcess {
    state: Option<Option<CallingProcess>>,
}

impl CachedCallingProcess {
    #[verifier::type_invariant]
    spec fn holds_a_description(self) -> bool {
        self.state matches Some(Some(found)) ==> exists|argv: Seq<Seq<char>>|
            describe(argv) == ProcessArgs::Args(found@)
    }

    /// Whether the search has been made.
    pub closed spec fn is_determined(&self) -> bool {
        self.state is Some
    }

    /// The answer of the search, once it has been made.
    pub closed spec fn answer(&self) -> Option<CallingProcessView> {
        match self.state {
            Some(Some(found)) => Some(found@),
            _ => None,
        }
    }

    /// A cache for which the search has not been made yet.
    pub fn new() -> (r: Self)
        ensures
            !r.is_determined(),
    {
        CachedCallingProcess { state: None }
    }
}

/// The view of an answer.
pub open spec fn answer_view(answer: Option<CallingProcess>) -> Option<CallingProcessView> {
    match answer {
        Some(found) => Some(found@),
        None => None,
    }
}

/// The calling process of this run.
///
/// The first call searches the table `info`, as `determine_calling_process`
/// tells, and remembers what it found, be it nothing. Every later call gives
/// that answer again and leaves `info` alone.
pub fn calling_process<P: ProcessInterface>(cache: &mut CachedCallingProcess, info: &mut P) -> (r:
    Option<CallingProcess>)
    ensures
        final(cache).is_determined(),
        final(cache).answer() == answer_view(r),
        r matches Some(found) ==> exists|argv: Seq<Seq<char>>|
            describe(argv) == ProcessArgs::Args(found@),
        old(cache).is_determined() ==> {
            &&& answer_view(r) == old(cache).answer()
            &&& *final(info) == *old(info)
        },
        !old(cache).is_determined() ==> searched(
            *old(info),
            *final(info),
            describe_calling_process,
            r,
        ),
{
    proof {
        use_type_invariant(&*cache);
    }
    if cache.state.is_none() {
        let found = determine_calling_process(info);
        let remembered = match &found {
            Some(found) => Some(found.clone()),
            None => None,
        };
        cache.state = Some(remembered);
        found
    } else {
        match &cache.state {
            Some(Some(found)) => Some(found.clone()),
            _ => None,
        }
    }
}

} // verus!
