//! A process table that is read from the operating system.

use vstd::prelude::*;
use crate::process::{Pid, ProcessInterface, ProcessRecord, ProcessRecordView, Table};
use crate::table::ProcessTable;

verus! {

/// The operating system's side of the process table: what can be asked of it.
///
/// Nothing is taken for granted of the answers. A process may be gone between
/// two calls, and its number may be given to another one.
pub trait ProcessSource {
    /// The process that is asking.
    fn current_pid(&self) -> Pid;

    /// What the system knows of `pid` now, if there is such a process.
    fn read_process(&mut self, pid: Pid) -> Option<ProcessRecord>;

    /// What the system knows of each of its processes now.
    fn read_processes(&mut self) -> Vec<ProcessRecord>;
}

/// The process table of a `ProcessSource`, as far as it has been read.
///
/// It holds what the last `refresh` calls brought, and nothing else: a process
/// that could not be read is struck from it.
pub struct LiveProcesses<S: ProcessSource> {
    source: S,
    seen: ProcessTable,
}

impl<S: ProcessSource> LiveProcesses<S> {
    /// A table of `source` of which nothing has been read yet.
    pub fn new(source: S) -> (r: Self)
        ensures
            r.table() == Map::<Pid, ProcessRecordView>::empty(),
            r.scans() == 0,
            !r.frozen(),
    {
        let current = source.current_pid();
        LiveProcesses { source, seen: ProcessTable::new(current) }
    }
}

impl<S: ProcessSource> ProcessInterface for LiveProcesses<S> {
    closed spec fn current(&self) -> Pid {
        self.seen.current()
    }

    closed spec fn table(&self) -> Table {
        self.seen.table()
    }

    open spec fn frozen(&self) -> bool {
        false
    }

    closed spec fn scans(&self) -> nat {
        self.seen.scans()
    }

    fn my_pid(&self) -> (pid: Pid) {
        self.seen.my_pid()
    }

    fn process(&self, pid: Pid) -> (r: Option<&ProcessRecord>) {
        self.seen.process(pid)
    }

    fn processes(&self) -> (r: Vec<Pid>) {
        self.seen.processes()
    }

    /// Asks the source for `pid` and writes down what it answers: the process as
    /// it is now, or that there is none. What is known of other processes stays.
    fn refresh_process(&mut self, pid: Pid) -> (found: bool) {
        let answer = self.source.read_process(pid);
        let ghost before = self.seen.table();
        let found = self.seen.set_process(pid, answer);
        assert(self.seen.table().remove(pid) =~= before.remove(pid));
        found
    }

    /// Asks the source for all its processes and writes them down in place of
    /// what was known. Of two answers for one process the later one stays.
    fn refresh_processes(&mut self) {
        let processes = self.source.read_processes();
        self.seen.refresh_processes();
        self.seen.replace_all(processes);
    }
}

} // verus!
