//! The process table as the search sees it.

use vstd::prelude::*;
use crate::text::{argv_view, clone_texts};

verus! {

/// The number by which the operating system knows a process.
pub type Pid = i32;

/// The longest way up the process tree that is ever walked.
pub const MAX_DISTANCE: usize = 2000;

/// The length of a chain of processes that could not be found.
pub const NO_CHAIN: usize = usize::MAX;

/// What is known of one process at the time it was last read.
#[derive(Debug)]
pub struct ProcessRecord {
    /// The process itself.
    pub pid: Pid,
    /// The process that started it, if it is known.
    pub parent: Option<Pid>,
    /// When the process started, in ticks of the system's clock.
    pub start_time: u64,
    /// Its command line; empty where the system does not tell.
    pub argv: Vec<String>,
}

/// What a `ProcessRecord` stands for.
pub struct ProcessRecordView {
    pub pid: Pid,
    pub parent: Option<Pid>,
    pub start_time: u64,
    pub argv: Seq<Seq<char>>,
}

impl View for ProcessRecord {
    type V = ProcessRecordView;

    open spec fn view(&self) -> ProcessRecordView {
        ProcessRecordView {
            pid: self.pid,
            parent: self.parent,
            start_time: self.start_time,
            argv: argv_view(self.argv@),
        }
    }
}

impl Clone for ProcessRecord {
    fn clone(&self) -> (r: Self)
        ensures
            r@ == self@,
    {
        let argv = clone_texts(&self.argv);
        ProcessRecord { pid: self.pid, parent: self.parent, start_time: self.start_time, argv }
    }
}

/// The process table, as a map from each process to what is known of it.
pub type Table = Map<Pid, ProcessRecordView>;

/// The parent that `table` names for `pid`.
pub open spec fn parent_of(table: Table, pid: Pid) -> Option<Pid> {
    if table.dom().contains(pid) {
        table[pid].parent
    } else {
        None
    }
}

/// The process found `distance` steps up the tree from `pid`: `pid` itself at
/// distance 0, its parent at distance 1, and so on while the table names a parent.
pub open spec fn ancestor(table: Table, pid: Pid, distance: nat) -> Option<Pid>
    decreases distance,
{
    if distance == 0 {
        Some(pid)
    } else {
        match ancestor(table, pid, (distance - 1) as nat) {
            Some(below) => parent_of(table, below),
            None => None,
        }
    }
}

/// `chain` is the way up the tree from `pid`: its parent, the parent of that
/// one, and so on, until the table names no further parent or `MAX_DISTANCE`
/// processes are listed.
pub open spec fn is_way_up(table: Table, pid: Pid, chain: Seq<Pid>) -> bool {
    &&& chain.len() <= MAX_DISTANCE
    &&& forall|i: int|
        0 <= i < chain.len() ==> ancestor(table, pid, (i + 1) as nat) == Some(#[trigger] chain[i])
    &&& chain.len() < MAX_DISTANCE ==> ancestor(table, pid, (chain.len() + 1) as nat) is None
}

/// The parent of `pid`, where the table holds both `pid` and that parent.
pub open spec fn known_parent(table: Table, pid: Pid) -> Option<Pid> {
    match parent_of(table, pid) {
        Some(parent) => if table.dom().contains(parent) {
            Some(parent)
        } else {
            None
        },
        None => None,
    }
}

/// The process numbered one below `pid`, where the table holds it.
pub open spec fn known_sibling(table: Table, pid: Pid) -> Option<Pid> {
    if pid > i32::MIN && table.dom().contains((pid - 1) as Pid) {
        Some((pid - 1) as Pid)
    } else {
        None
    }
}

/// A view of the process table that can be read anew, process by process or as
/// a whole.
///
/// Nothing is read behind the caller's back: what `process` and `processes`
/// give stays as it is until the next call of a `refresh` method.
pub trait ProcessInterface {
    /// The process that is asking.
    spec fn current(&self) -> Pid;

    /// The table as it was last read.
    spec fn table(&self) -> Table;

    /// Whether reading anew changes nothing, as with a table that was written
    /// down once and for all.
    spec fn frozen(&self) -> bool;

    /// How often the whole table has been read anew.
    spec fn scans(&self) -> nat;

    /// The process that is asking.
    fn my_pid(&self) -> (pid: Pid)
        ensures
            pid == self.current(),
    ;

    /// What the table holds for `pid`.
    fn process(&self, pid: Pid) -> (r: Option<&ProcessRecord>)
        ensures
            match r {
                Some(record) => self.table().dom().contains(pid) && record@ == self.table()[pid]
                    && record.pid == pid,
                None => !self.table().dom().contains(pid),
            },
    ;

    /// The processes that the table holds, each of them once.
    fn processes(&self) -> (r: Vec<Pid>)
        ensures
            r@.no_duplicates(),
            forall|pid: Pid| r@.contains(pid) <==> self.table().dom().contains(pid),
    ;

    /// Reads `pid` anew and says whether the process is there. What the table
    /// holds for other processes stays as it is, and of a frozen table nothing
    /// changes.
    fn refresh_process(&mut self, pid: Pid) -> (found: bool)
        ensures
            final(self).current() == old(self).current(),
            final(self).scans() == old(self).scans(),
            final(self).frozen() == old(self).frozen(),
            found == final(self).table().dom().contains(pid),
            final(self).table().remove(pid) == old(self).table().remove(pid),
            old(self).frozen() ==> final(self).table() == old(self).table(),
    ;

    /// Reads the whole table anew. Of a frozen table nothing changes.
    fn refresh_processes(&mut self)
        ensures
            final(self).current() == old(self).current(),
            final(self).scans() == old(self).scans() + 1,
            final(self).frozen() == old(self).frozen(),
            old(self).frozen() ==> final(self).table() == old(self).table(),
    ;

    /// Reads `pid` anew, then the parent that it names, and gives that parent if
    /// both are there. (A process that names itself as its parent is read once.)
    fn parent_process(&mut self, pid: Pid) -> (r: Option<Pid>)
        ensures
            final(self).current() == old(self).current(),
            final(self).scans() == old(self).scans(),
            final(self).frozen() == old(self).frozen(),
            r == known_parent(final(self).table(), pid),
            old(self).frozen() ==> final(self).table() == old(self).table(),
    {
        if !self.refresh_process(pid) {
            return None;
        }
        let parent_pid = match self.process(pid) {
            Some(record) => match record.parent {
                Some(parent_pid) => parent_pid,
                None => {
                    return None;
                },
            },
            None => {
                return None;
            },
        };
        if parent_pid != pid {
            let ghost before = self.table();
            let found = self.refresh_process(parent_pid);
            proof {
                assert(before.remove(parent_pid).dom().contains(pid));
                assert(self.table().remove(parent_pid)[pid] == before.remove(parent_pid)[pid]);
            }
            if !found {
                return None;
            }
        }
        Some(parent_pid)
    }

    /// Reads the process numbered one below `pid` anew and gives it if it is there.
    fn naive_sibling_process(&mut self, pid: Pid) -> (r: Option<Pid>)
        ensures
            final(self).current() == old(self).current(),
            final(self).scans() == old(self).scans(),
            final(self).frozen() == old(self).frozen(),
            r == known_sibling(final(self).table(), pid),
            pid == i32::MIN ==> final(self).table() == old(self).table(),
            pid > i32::MIN ==> final(self).table().remove((pid - 1) as Pid) == old(
                self,
            ).table().remove((pid - 1) as Pid),
            old(self).frozen() ==> final(self).table() == old(self).table(),
    {
        if pid == i32::MIN {
            return None;
        }
        let sibling_pid: Pid = pid - 1;
        if self.refresh_process(sibling_pid) {
            Some(sibling_pid)
        } else {
            None
        }
    }
}

/// Walks up the process tree from `starting_pid` and lists the processes met:
/// the parent first, then its parent, and so on, until the table names no
/// further parent or `MAX_DISTANCE` processes are listed.
pub fn iter_parents<P: ProcessInterface>(info: &P, starting_pid: Pid) -> (chain: Vec<Pid>)
    ensures
        is_way_up(info.table(), starting_pid, chain@),
{
    let mut chain: Vec<Pid> = Vec::new();
    let mut pid: Pid = starting_pid;
    while chain.len() < MAX_DISTANCE
        invariant
            chain.len() <= MAX_DISTANCE,
            ancestor(info.table(), starting_pid, chain.len() as nat) == Some(pid),
            forall|i: int|
                0 <= i < chain.len() ==> ancestor(info.table(), starting_pid, (i + 1) as nat)
                    == Some(#[trigger] chain[i]),
        decreases MAX_DISTANCE - chain.len(),
    {
        let parent = match info.process(pid) {
            Some(record) => record.parent,
            None => None,
        };
        assert(parent == parent_of(info.table(), pid));
        match parent {
            Some(parent_pid) => {
                chain.push(parent_pid);
                pid = parent_pid;
            },
            None => {
                return chain;
            },
        }
    }
    chain
}

} // verus!
