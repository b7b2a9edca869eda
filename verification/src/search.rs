//! Looking for the calling process: the parent first, then the process numbered
//! one below, then the nearest relative in the whole table.

use vstd::prelude::*;
use crate::outcome::ProcessArgs;
use crate::process::{
    ancestor,
    is_way_up,
    iter_parents,
    known_parent,
    known_sibling,
    parent_of,
    Pid,
    ProcessInterface,
    Table,
    MAX_DISTANCE,
    NO_CHAIN,
};
use crate::text::argv_view;

verus! {

/// `classify` may answer `outcome` when it is given the command line `argv`.
pub open spec fn may_classify<T, F: Fn(&[String]) -> ProcessArgs<T>>(
    classify: F,
    argv: Seq<Seq<char>>,
    outcome: ProcessArgs<T>,
) -> bool {
    exists|args: &[String]| argv_view(args@) == argv && call_ensures(classify, (args,), outcome)
}

/// `classify` may take the command line `argv` for a match.
pub open spec fn accepts<T, F: Fn(&[String]) -> ProcessArgs<T>>(
    classify: F,
    argv: Seq<Seq<char>>,
) -> bool {
    exists|found: T| may_classify(classify, argv, ProcessArgs::Args(found))
}

/// `found` is what `classify` may read from some command line.
pub open spec fn accepts_some<T, F: Fn(&[String]) -> ProcessArgs<T>>(
    classify: F,
    found: T,
) -> bool {
    exists|argv: Seq<Seq<char>>| may_classify(classify, argv, ProcessArgs::Args(found))
}

/// Both answers are matches, both are malformed, or both are another process.
pub open spec fn same_kind<T>(a: ProcessArgs<T>, b: ProcessArgs<T>) -> bool {
    (a is Args <==> b is Args) && (a is ArgError <==> b is ArgError)
}

/// `classify` can be called on every command line, and the kind of its answer
/// depends on the text of the command line alone.
pub open spec fn is_classifier<T, F: Fn(&[String]) -> ProcessArgs<T>>(classify: F) -> bool {
    &&& forall|args: &[String]| call_requires(classify, (args,))
    &&& forall|a: &[String], b: &[String], x: ProcessArgs<T>, y: ProcessArgs<T>|
        argv_view(a@) == argv_view(b@) && #[trigger] call_ensures(classify, (a,), x)
            && #[trigger] call_ensures(classify, (b,), y) ==> same_kind(x, y)
}

/// The greatest distance up to `bound` at which `of` is met on the way up from
/// `pid`, if it is met at all. (On a way that runs in a circle a process is met
/// more than once.)
pub open spec fn distance_up_to(table: Table, pid: Pid, of: Pid, bound: nat) -> Option<nat>
    decreases bound,
{
    if bound == 0 {
        None
    } else if ancestor(table, pid, bound) == Some(of) {
        Some(bound)
    } else {
        distance_up_to(table, pid, of, (bound - 1) as nat)
    }
}

/// The distance from `pid` up to its ancestor `of`, as far as the walk goes.
pub open spec fn distance_from(table: Table, pid: Pid, of: Pid) -> Option<nat> {
    distance_up_to(table, pid, of, MAX_DISTANCE as nat)
}

/// The length of the chain that leads from `me` up to the first ancestor of
/// `candidate`, from its `k`-th on, that is also an ancestor of `me`, and down to
/// `candidate`; `NO_CHAIN` where the walk up from `candidate` meets none.
pub open spec fn chain_length_from(table: Table, me: Pid, candidate: Pid, k: nat) -> int
    decreases MAX_DISTANCE + 1 - k,
{
    if k > MAX_DISTANCE {
        NO_CHAIN as int
    } else {
        match ancestor(table, candidate, k) {
            None => NO_CHAIN as int,
            Some(shared) => match distance_from(table, me, shared) {
                Some(distance) => (distance + k) as int,
                None => chain_length_from(table, me, candidate, k + 1),
            },
        }
    }
}

/// The length of the chain of processes between `me` and `candidate` through
/// their nearest common ancestor.
pub open spec fn chain_length(table: Table, me: Pid, candidate: Pid) -> int {
    chain_length_from(table, me, candidate, 1)
}

/// Two processes that started fewer than three ticks apart.
pub open spec fn started_together(a: u64, b: u64) -> bool {
    a - b < 3 && b - a < 3
}

/// Another process of the table that started together with `me`.
pub open spec fn is_candidate(table: Table, me: Pid, pid: Pid) -> bool {
    &&& table.dom().contains(me)
    &&& table.dom().contains(pid)
    &&& pid != me
    &&& started_together(table[me].start_time, table[pid].start_time)
}

/// A candidate whose command line `classify` takes for a match.
pub open spec fn is_match<T, F: Fn(&[String]) -> ProcessArgs<T>>(
    table: Table,
    me: Pid,
    classify: F,
    pid: Pid,
) -> bool {
    is_candidate(table, me, pid) && accepts(classify, table[pid].argv)
}

/// `answer` is what the search of the whole table gives: what `classify` read
/// from a matching candidate with the shortest chain to `me`, and nothing where
/// no candidate matches.
pub open spec fn closest_match<T, F: Fn(&[String]) -> ProcessArgs<T>>(
    table: Table,
    me: Pid,
    classify: F,
    answer: Option<T>,
) -> bool {
    match answer {
        Some(found) => exists|pid: Pid|
            {
                &&& #[trigger] is_match(table, me, classify, pid)
                &&& may_classify(classify, table[pid].argv, ProcessArgs::Args(found))
                &&& forall|other: Pid| #[trigger]
                    is_match(table, me, classify, other) ==> chain_length(table, me, pid)
                        <= chain_length(table, me, other)
            },
        None => forall|pid: Pid| !#[trigger] is_match(table, me, classify, pid),
    }
}

/// The search is answered by the parent or by the process numbered one below,
/// so that the whole table need not be read: the parent is known and matches or
/// is malformed, or else the other process is known and matches.
pub open spec fn answered_nearby<T, F: Fn(&[String]) -> ProcessArgs<T>>(
    table: Table,
    me: Pid,
    classify: F,
) -> bool {
    ||| known_parent(table, me) matches Some(parent) && (accepts(classify, table[parent].argv)
        || may_classify(classify, table[parent].argv, ProcessArgs::ArgError))
    ||| known_sibling(table, me) matches Some(sibling) && accepts(
        classify,
        table[sibling].argv,
    )
}

/// `answer` is what the search for the calling process of `me` gives on `table`.
///
/// A parent that matches gives the answer. A parent that is malformed ends the
/// search without one. Otherwise the process numbered one below `me` gives the
/// answer if it matches, and if it does not, the search of the whole table does.
pub open spec fn search_result<T, F: Fn(&[String]) -> ProcessArgs<T>>(
    table: Table,
    me: Pid,
    classify: F,
    answer: Option<T>,
) -> bool {
    let parent = known_parent(table, me);
    let sibling = known_sibling(table, me);
    if parent is Some && accepts(classify, table[parent->0].argv) {
        answer matches Some(found) && may_classify(
            classify,
            table[parent->0].argv,
            ProcessArgs::Args(found),
        )
    } else if parent is Some && may_classify(
        classify,
        table[parent->0].argv,
        ProcessArgs::ArgError,
    ) {
        answer is None
    } else if sibling is Some && accepts(classify, table[sibling->0].argv) {
        answer matches Some(found) && may_classify(
            classify,
            table[sibling->0].argv,
            ProcessArgs::Args(found),
        )
    } else {
        closest_match(table, me, classify, answer)
    }
}

/// What a search for the calling process leaves behind: `before` is the table
/// as the search found it, `after` the table as the search left it, and `answer`
/// what the search gave.
///
/// The whole table is read at most once. Where it was not read, the parent or
/// the process numbered one below answered, and the answer is the one that
/// `search_result` describes for the table as it stands in the end. Where it
/// was read, the answer is the nearest match of the table as it stands in the
/// end. A frozen table stands as it stood, the answer is the one that
/// `search_result` describes for it, and it was read as a whole exactly when
/// neither the parent nor the process numbered one below answered.
pub open spec fn searched<P: ProcessInterface, T, F: Fn(&[String]) -> ProcessArgs<T>>(
    before: P,
    after: P,
    classify: F,
    answer: Option<T>,
) -> bool {
    let me = before.current();
    &&& after.current() == me
    &&& after.frozen() == before.frozen()
    &&& after.scans() == before.scans() || after.scans() == before.scans() + 1
    &&& after.scans() == before.scans() ==> {
        &&& answered_nearby(after.table(), me, classify)
        &&& search_result(after.table(), me, classify, answer)
    }
    &&& after.scans() == before.scans() + 1 ==> closest_match(after.table(), me, classify, answer)
    &&& before.frozen() ==> {
        &&& after.table() == before.table()
        &&& search_result(before.table(), me, classify, answer)
        &&& after.scans() == before.scans() <==> answered_nearby(before.table(), me, classify)
    }
}

/// The distance at which `chain`, the way up from `pid`, last meets `of`.
pub fn distance_in_chain<P: ProcessInterface>(
    info: &P,
    pid: Pid,
    chain: &Vec<Pid>,
    of: Pid,
) -> (r: Option<usize>)
    requires
        is_way_up(info.table(), pid, chain@),
    ensures
        match r {
            Some(d) => distance_from(info.table(), pid, of) == Some(d as nat) && d <= MAX_DISTANCE,
            None => distance_from(info.table(), pid, of) is None,
        },
{
    let ghost table = info.table();
    proof {
        assert forall|e: nat| chain.len() < e <= MAX_DISTANCE implies ancestor(table, pid, e)
            != Some(of) by {
            lemma_ancestors_end(table, pid, (chain.len() + 1) as nat, e);
        }
    }
    let mut d: usize = chain.len();
    while d > 0
        invariant
            d <= chain.len(),
            table == info.table(),
            is_way_up(table, pid, chain@),
            forall|e: nat| d < e <= MAX_DISTANCE ==> ancestor(table, pid, e) != Some(of),
        decreases d,
    {
        if chain[d - 1] == of {
            proof {
                assert(ancestor(table, pid, d as nat) == Some(chain[d - 1]));
                lemma_distance_is_last(table, pid, of, d as nat, MAX_DISTANCE as nat);
            }
            return Some(d);
        }
        assert(ancestor(table, pid, d as nat) == Some(chain[d - 1]));
        d -= 1;
    }
    proof {
        lemma_distance_is_none(table, pid, of, MAX_DISTANCE as nat);
    }
    None
}

/// The length of the chain of processes between the process whose way up is
/// `my_chain` and `candidate`, through their nearest common ancestor.
pub fn chain_length_to<P: ProcessInterface>(
    info: &P,
    me: Pid,
    my_chain: &Vec<Pid>,
    candidate: Pid,
) -> (r: usize)
    requires
        is_way_up(info.table(), me, my_chain@),
    ensures
        r == chain_length(info.table(), me, candidate),
{
    let ghost table = info.table();
    let chain = iter_parents(info, candidate);
    let mut k: usize = 1;
    while k <= chain.len()
        invariant
            1 <= k <= chain.len() + 1,
            table == info.table(),
            is_way_up(table, me, my_chain@),
            is_way_up(table, candidate, chain@),
            chain_length(table, me, candidate) == chain_length_from(table, me, candidate, k as nat),
        decreases chain.len() + 1 - k,
    {
        let shared: Pid = chain[k - 1];
        assert(ancestor(table, candidate, k as nat) == Some(shared));
        match distance_in_chain(info, me, my_chain, shared) {
            Some(distance) => {
                return distance + k;
            },
            None => {},
        }
        k += 1;
    }
    NO_CHAIN
}

/// Whether two processes started fewer than three ticks apart.
pub fn process_start_time_difference_less_than_3s(a: u64, b: u64) -> (r: bool)
    ensures
        r == started_together(a, b),
{
    if a >= b {
        a - b < 3
    } else {
        b - a < 3
    }
}

/// Searches the table as it stands for the process nearest to `pid` among those
/// that started together with it and whose command line `extract_args` takes
/// for a match, and gives what `extract_args` read from it.
pub fn closest_matching_process<P, F, T>(info: &P, pid: Pid, extract_args: F) -> (r: Option<T>)
    where
        P: ProcessInterface,
        F: Fn(&[String]) -> ProcessArgs<T>,
    requires
        is_classifier(extract_args),
    ensures
        closest_match(info.table(), pid, extract_args, r),
{
    let ghost table = info.table();
    let this_start_time = match info.process(pid) {
        Some(record) => record.start_time,
        None => {
            return None;
        },
    };
    let my_chain = iter_parents(info, pid);
    let pids = info.processes();
    let mut best: Option<(usize, T)> = None;
    let ghost mut best_pid: Pid = 0;
    let mut i: usize = 0;
    while i < pids.len()
        invariant
            i <= pids.len(),
            table == info.table(),
            is_classifier(extract_args),
            table.dom().contains(pid),
            this_start_time == table[pid].start_time,
            forall|p: Pid| pids@.contains(p) <==> table.dom().contains(p),
            is_way_up(table, pid, my_chain@),
            match best {
                Some((length, found)) => {
                    &&& is_match(table, pid, extract_args, best_pid)
                    &&& may_classify(extract_args, table[best_pid].argv, ProcessArgs::Args(found))
                    &&& length == chain_length(table, pid, best_pid)
                    &&& forall|j: int|
                        0 <= j < i && is_match(table, pid, extract_args, #[trigger] pids[j])
                            ==> length <= chain_length(table, pid, pids[j])
                },
                None => forall|j: int|
                    0 <= j < i ==> !is_match(table, pid, extract_args, #[trigger] pids[j]),
            },
        decreases pids.len() - i,
    {
        let candidate: Pid = pids[i];
        assert(pids@.contains(candidate));
        if candidate != pid {
            match info.process(candidate) {
                Some(record) => {
                    if process_start_time_difference_less_than_3s(
                        this_start_time,
                        record.start_time,
                    ) {
                        let args = record.argv.as_slice();
                        let outcome = extract_args(args);
                        assert(may_classify(extract_args, table[candidate].argv, outcome));
                        match outcome {
                            ProcessArgs::Args(found) => {
                                assert(is_match(table, pid, extract_args, candidate));
                                let length = chain_length_to(info, pid, &my_chain, candidate);
                                let better = match &best {
                                    Some((shortest, _)) => length < *shortest,
                                    None => true,
                                };
                                if better {
                                    best = Some((length, found));
                                    proof {
                                        best_pid = candidate;
                                    }
                                }
                            },
                            _ => {
                                proof {
                                    lemma_outcome_decides(
                                        extract_args,
                                        table[candidate].argv,
                                        outcome,
                                    );
                                }
                            },
                        }
                    }
                },
                None => {},
            }
        }
        i += 1;
    }
    match best {
        Some((_, found)) => {
            assert forall|other: Pid| #[trigger]
                is_match(table, pid, extract_args, other) implies chain_length(
                table,
                pid,
                best_pid,
            ) <= chain_length(table, pid, other) by {
                assert(pids@.contains(other));
                let j = choose|j: int| 0 <= j < pids@.len() && pids@[j] == other;
                assert(is_match(table, pid, extract_args, pids[j]));
            }
            Some(found)
        },
        None => {
            assert forall|other: Pid| !#[trigger] is_match(table, pid, extract_args, other) by {
                if is_match(table, pid, extract_args, other) {
                    assert(pids@.contains(other));
                    let j = choose|j: int| 0 <= j < pids@.len() && pids@[j] == other;
                    assert(!is_match(table, pid, extract_args, pids[j]));
                }
            }
            None
        },
    }
}

/// Reads the whole table anew and searches it for the process nearest to `pid`
/// among those that started together with it and whose command line
/// `extract_args` takes for a match.
pub fn find_sibling_process<P, F, T>(info: &mut P, pid: Pid, extract_args: F) -> (r: Option<
    T,
>) where
    P: ProcessInterface,
    F: Fn(&[String]) -> ProcessArgs<T>,

    requires
        is_classifier(extract_args),
    ensures
        final(info).current() == old(info).current(),
        final(info).scans() == old(info).scans() + 1,
        final(info).frozen() == old(info).frozen(),
        old(info).frozen() ==> final(info).table() == old(info).table(),
        closest_match(final(info).table(), pid, extract_args, r),
{
    info.refresh_processes();
    closest_matching_process(&*info, pid, extract_args)
}

/// Looks for the calling process of the process that `info` is asked by.
///
/// The parent is read first, and its answer stands if it matches or is
/// malformed. Else the process numbered one below is read and gives the answer
/// if it matches. Only then the whole table is read and searched for the
/// nearest match.
pub fn search_process_table<P, F, T>(info: &mut P, extract_args: F) -> (r: Option<T>) where
    P: ProcessInterface,
    F: Fn(&[String]) -> ProcessArgs<T>,

    requires
        is_classifier(extract_args),
    ensures
        searched(*old(info), *final(info), extract_args, r),
{
    let my_pid = info.my_pid();

    // 1) The parent: where this process is the pager of git, git is the parent.
    let parent = info.parent_process(my_pid);
    if let Some(parent_pid) = parent {
        if let Some(record) = info.process(parent_pid) {
            let outcome = extract_args(record.argv.as_slice());
            proof {
                assert(may_classify(extract_args, info.table()[parent_pid].argv, outcome));
                lemma_outcome_decides(extract_args, info.table()[parent_pid].argv, outcome);
            }
            match outcome {
                ProcessArgs::Args(result) => {
                    assert(info.table().dom().contains(parent_pid));
                    return Some(result);
                },
                ProcessArgs::ArgError => {
                    return None;
                },
                ProcessArgs::OtherProcess => {},
            }
        }
    }
    // 2) The other end of a pipe: a shell that sets up `git blame foo.txt | pager`
    // starts the two processes one after the other, so that their numbers mostly
    // follow each other.

    let ghost before = info.table();
    let sibling = info.naive_sibling_process(my_pid);
    if let Some(sibling_pid) = sibling {
        if let Some(record) = info.process(sibling_pid) {
            let outcome = extract_args(record.argv.as_slice());
            proof {
                let table = info.table();
                assert(may_classify(extract_args, table[sibling_pid].argv, outcome));
                lemma_outcome_decides(extract_args, table[sibling_pid].argv, outcome);
                // What was known of the asking process and of a parent other
                // than the process just read is known as before.
                assert(table.remove(sibling_pid).dom().contains(my_pid)
                    == before.remove(sibling_pid).dom().contains(my_pid));
                if before.dom().contains(my_pid) {
                    assert(table.remove(sibling_pid)[my_pid] == before.remove(sibling_pid)[my_pid]);
                }
                if let Some(parent_pid) = parent {
                    if parent_pid != sibling_pid {
                        assert(table.remove(sibling_pid).dom().contains(parent_pid));
                        assert(table.remove(sibling_pid)[parent_pid] == before.remove(
                            sibling_pid,
                        )[parent_pid]);
                    }
                } else if let Some(named) = parent_of(before, my_pid) {
                    if named != sibling_pid {
                        assert(table.remove(sibling_pid).dom().contains(named)
                            == before.remove(sibling_pid).dom().contains(named));
                    }
                }
            }
            if let ProcessArgs::Args(result) = outcome {
                assert(info.table().dom().contains(sibling_pid));
                return Some(result);
            }
        }
    }
    // 3) Neither of the two: there may be scripts in between, or a gap between the
    // numbers, so every process is looked at and the nearest match is taken.

    find_sibling_process(info, my_pid, extract_args)
}

/// Looks for the calling process of the process that `info` is asked by, and
/// gives what `extract_args` read from its command line.
///
/// The parent is asked first, then the process numbered one below, then the
/// whole table, as `search_process_table` tells. An answer was read by
/// `extract_args` from some command line; of a frozen table it is the one that
/// `search_result` describes.
pub fn calling_process_cmdline<P, F, T>(info: P, extract_args: F) -> (r: Option<T>) where
    P: ProcessInterface,
    F: Fn(&[String]) -> ProcessArgs<T>,

    requires
        is_classifier(extract_args),
    ensures
        r matches Some(found) ==> accepts_some(extract_args, found),
        info.frozen() ==> search_result(info.table(), info.current(), extract_args, r),
{
    let mut info = info;
    let r = search_process_table(&mut info, extract_args);
    proof {
        lemma_answer_was_read(info.table(), info.current(), extract_args, r);
    }
    r
}

/// Once a classifier has given one answer on a command line, the kind of every
/// answer it may give on that command line is known.
pub proof fn lemma_outcome_decides<T, F: Fn(&[String]) -> ProcessArgs<T>>(
    classify: F,
    argv: Seq<Seq<char>>,
    outcome: ProcessArgs<T>,
)
    requires
        is_classifier(classify),
        may_classify(classify, argv, outcome),
    ensures
        accepts(classify, argv) <==> outcome is Args,
        may_classify(classify, argv, ProcessArgs::ArgError) <==> outcome is ArgError,
        may_classify(classify, argv, ProcessArgs::OtherProcess) <==> outcome is OtherProcess,
{
    let seen = choose|seen: &[String]|
        argv_view(seen@) == argv && call_ensures(classify, (seen,), outcome);
    match outcome {
        ProcessArgs::Args(found) => {
            assert(may_classify(classify, argv, ProcessArgs::Args(found)));
        },
        ProcessArgs::ArgError => {},
        ProcessArgs::OtherProcess => {},
    }
    if accepts(classify, argv) {
        let found = choose|found: T| may_classify(classify, argv, ProcessArgs::Args(found));
        let other = choose|other: &[String]|
            argv_view(other@) == argv && call_ensures(classify, (other,), ProcessArgs::Args(found));
        assert(same_kind(ProcessArgs::Args(found), outcome));
    }
    if may_classify(classify, argv, ProcessArgs::ArgError) {
        let other = choose|other: &[String]|
            argv_view(other@) == argv && call_ensures(classify, (other,), ProcessArgs::ArgError);
        assert(same_kind(ProcessArgs::<T>::ArgError, outcome));
    }
    if may_classify(classify, argv, ProcessArgs::OtherProcess) {
        let other = choose|other: &[String]|
            argv_view(other@) == argv && call_ensures(
                classify,
                (other,),
                ProcessArgs::OtherProcess,
            );
        assert(same_kind(ProcessArgs::<T>::OtherProcess, outcome));
    }
}

/// An answer of the search was read by the classifier from the command line of
/// a process of the table.
pub proof fn lemma_answer_was_read<T, F: Fn(&[String]) -> ProcessArgs<T>>(
    table: Table,
    me: Pid,
    classify: F,
    answer: Option<T>,
)
    requires
        search_result(table, me, classify, answer) || closest_match(table, me, classify, answer),
    ensures
        answer matches Some(found) ==> exists|pid: Pid| #[trigger]
            table.dom().contains(pid) && may_classify(
                classify,
                table[pid].argv,
                ProcessArgs::Args(found),
            ),
        answer matches Some(found) ==> accepts_some(classify, found),
{
    if answer is Some {
        let found = answer->0;
        let parent = known_parent(table, me);
        let sibling = known_sibling(table, me);
        if search_result(table, me, classify, answer) && parent is Some && accepts(
            classify,
            table[parent->0].argv,
        ) {
            assert(table.dom().contains(parent->0));
            assert(may_classify(classify, table[parent->0].argv, ProcessArgs::Args(found)));
        } else if search_result(table, me, classify, answer) && parent is Some && may_classify(
            classify,
            table[parent->0].argv,
            ProcessArgs::ArgError,
        ) {
        } else if search_result(table, me, classify, answer) && sibling is Some && accepts(
            classify,
            table[sibling->0].argv,
        ) {
            assert(table.dom().contains(sibling->0));
            assert(may_classify(classify, table[sibling->0].argv, ProcessArgs::Args(found)));
        } else {
            let pid = choose|pid: Pid|
                {
                    &&& #[trigger] is_match(table, me, classify, pid)
                    &&& may_classify(classify, table[pid].argv, ProcessArgs::Args(found))
                };
            assert(table.dom().contains(pid));
            assert(may_classify(classify, table[pid].argv, ProcessArgs::Args(found)));
        }
    }
}

/// Where the way up from `pid` has ended, it does not go on.
pub proof fn lemma_ancestors_end(table: Table, pid: Pid, d: nat, e: nat)
    requires
        ancestor(table, pid, d) is None,
        d <= e,
    ensures
        ancestor(table, pid, e) is None,
    decreases e,
{
    if d < e {
        lemma_ancestors_end(table, pid, d, (e - 1) as nat);
    }
}

/// The distance to `of` is the last place at which the way up meets it.
pub proof fn lemma_distance_is_last(table: Table, pid: Pid, of: Pid, d: nat, bound: nat)
    requires
        1 <= d <= bound,
        ancestor(table, pid, d) == Some(of),
        forall|e: nat| d < e <= bound ==> ancestor(table, pid, e) != Some(of),
    ensures
        distance_up_to(table, pid, of, bound) == Some(d),
    decreases bound,
{
    if d < bound {
        lemma_distance_is_last(table, pid, of, d, (bound - 1) as nat);
    }
}

/// There is no distance to a process that the way up does not meet.
pub proof fn lemma_distance_is_none(table: Table, pid: Pid, of: Pid, bound: nat)
    requires
        forall|e: nat| 1 <= e <= bound ==> ancestor(table, pid, e) != Some(of),
    ensures
        distance_up_to(table, pid, of, bound) is None,
    decreases bound,
{
    if bound > 0 {
        lemma_distance_is_none(table, pid, of, (bound - 1) as nat);
    }
}

/// A parent that matches gives the answer, whatever else the table holds, and
/// the whole table is not read for it.
pub proof fn lemma_matching_parent_wins<T, F: Fn(&[String]) -> ProcessArgs<T>>(
    table: Table,
    me: Pid,
    classify: F,
    answer: Option<T>,
    parent: Pid,
)
    requires
        search_result(table, me, classify, answer),
        known_parent(table, me) == Some(parent),
        accepts(classify, table[parent].argv),
    ensures
        answer matches Some(found) && may_classify(
            classify,
            table[parent].argv,
            ProcessArgs::Args(found),
        ),
        answered_nearby(table, me, classify),
{
}

/// A parent that is malformed ends the search without an answer, and the whole
/// table is not read for it.
pub proof fn lemma_malformed_parent_ends_search<T, F: Fn(&[String]) -> ProcessArgs<T>>(
    table: Table,
    me: Pid,
    classify: F,
    answer: Option<T>,
    parent: Pid,
)
    requires
        search_result(table, me, classify, answer),
        known_parent(table, me) == Some(parent),
        !accepts(classify, table[parent].argv),
        may_classify(classify, table[parent].argv, ProcessArgs::ArgError),
    ensures
        answer is None,
        answered_nearby(table, me, classify),
{
}

/// Where the parent is not known or is another process, the process numbered
/// one below gives the answer if it matches, and the whole table is not read
/// for it.
pub proof fn lemma_matching_sibling_wins<T, F: Fn(&[String]) -> ProcessArgs<T>>(
    table: Table,
    me: Pid,
    classify: F,
    answer: Option<T>,
    sibling: Pid,
)
    requires
        search_result(table, me, classify, answer),
        known_parent(table, me) matches Some(parent) ==> !accepts(classify, table[parent].argv)
            && !may_classify(classify, table[parent].argv, ProcessArgs::ArgError),
        known_sibling(table, me) == Some(sibling),
        accepts(classify, table[sibling].argv),
    ensures
        answer matches Some(found) && may_classify(
            classify,
            table[sibling].argv,
            ProcessArgs::Args(found),
        ),
        answered_nearby(table, me, classify),
{
}

/// Where neither the parent nor the process numbered one below answers, the
/// answer is read from a matching process with the shortest chain to `me` among
/// all that started together with it, and there is none only where no such
/// process matches.
pub proof fn lemma_nearest_match_is_last_resort<T, F: Fn(&[String]) -> ProcessArgs<T>>(
    table: Table,
    me: Pid,
    classify: F,
    answer: Option<T>,
)
    requires
        search_result(table, me, classify, answer),
        !answered_nearby(table, me, classify),
    ensures
        closest_match(table, me, classify, answer),
        answer is None <==> forall|pid: Pid| !#[trigger] is_match(table, me, classify, pid),
        answer matches Some(found) ==> exists|pid: Pid|
            {
                &&& #[trigger] is_match(table, me, classify, pid)
                &&& may_classify(classify, table[pid].argv, ProcessArgs::Args(found))
                &&& forall|other: Pid| #[trigger]
                    is_match(table, me, classify, other) ==> chain_length(table, me, pid)
                        <= chain_length(table, me, other)
            },
{
}

/// The chain between two processes with the same parent has length 2, and the
/// chain to a process started by a brother has length 3.
pub proof fn lemma_chain_of_near_relatives(
    table: Table,
    me: Pid,
    brother: Pid,
    nephew: Pid,
    parent: Pid,
)
    requires
        table.dom().contains(me),
        table.dom().contains(brother),
        table.dom().contains(nephew),
        table[me].parent == Some(parent),
        table[brother].parent == Some(parent),
        table[nephew].parent == Some(brother),
        forall|d: nat|
            1 <= d <= MAX_DISTANCE ==> #[trigger] ancestor(table, me, d) != Some(brother),
        forall|d: nat| 2 <= d <= MAX_DISTANCE ==> #[trigger] ancestor(table, me, d) != Some(parent),
    ensures
        chain_length(table, me, brother) == 2,
        chain_length(table, me, nephew) == 3,
{
    reveal_with_fuel(ancestor, 3);
    assert(ancestor(table, me, 1) == Some(parent));
    lemma_distance_is_last(table, me, parent, 1, MAX_DISTANCE as nat);
    lemma_distance_is_none(table, me, brother, MAX_DISTANCE as nat);
    assert(ancestor(table, brother, 1) == Some(parent));
    assert(ancestor(table, nephew, 1) == Some(brother));
    assert(ancestor(table, nephew, 2) == Some(parent));
    reveal_with_fuel(chain_length_from, 3);
}

/// An empty table gives no answer: it knows no parent and no process numbered
/// one below, and the search of the whole table finds nothing in it.
pub proof fn lemma_empty_table_gives_nothing<T, F: Fn(&[String]) -> ProcessArgs<T>>(
    table: Table,
    me: Pid,
    classify: F,
    answer: Option<T>,
)
    requires
        table.dom() == Set::<Pid>::empty(),
    ensures
        known_parent(table, me) is None,
        known_sibling(table, me) is None,
        !answered_nearby(table, me, classify),
        closest_match(table, me, classify, answer) ==> answer is None,
        search_result(table, me, classify, answer) ==> answer is None,
{
    if answer is Some && closest_match(table, me, classify, answer) {
        let pid = choose|pid: Pid| #[trigger] is_match(table, me, classify, pid);
        assert(table.dom().contains(pid));
    }
}

} // verus!
