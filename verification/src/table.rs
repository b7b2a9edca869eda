//! A process table held in memory.

use vstd::prelude::*;
use crate::process::{Pid, ProcessInterface, ProcessRecord, ProcessRecordView, Table};

verus! {

/// `records` hold `pid` at the place `i`.
pub open spec fn holds_at(records: Seq<ProcessRecord>, pid: Pid, i: int) -> bool {
    0 <= i < records.len() && records[i].pid == pid
}

/// `i` is the last place at which `records` hold `pid`.
pub open spec fn holds_last_at(records: Seq<ProcessRecord>, pid: Pid, i: int) -> bool {
    holds_at(records, pid, i) && forall|j: int| i < j < records.len() ==> records[j].pid != pid
}

/// The table that `records` make up: it holds every process of which there is
/// a record, with what the last record of that process tells.
pub open spec fn table_of(records: Seq<ProcessRecord>) -> Table {
    Map::new(
        |pid: Pid| exists|i: int| holds_at(records, pid, i),
        |pid: Pid| records[choose|i: int| holds_last_at(records, pid, i)]@,
    )
}

/// No two of `records` are of the same process.
pub open spec fn each_process_once(records: Seq<ProcessRecord>) -> bool {
    forall|i: int, j: int| 0 <= i < j < records.len() ==> records[i].pid != records[j].pid
}

/// A process table that was written down once: reading it anew changes nothing.
///
/// It serves where the processes are known beforehand, and as the store behind
/// a table that is read from the operating system.
pub struct ProcessTable {
    current: Pid,
    records: Vec<ProcessRecord>,
    scans: Ghost<nat>,
}

impl ProcessTable {
    #[verifier::type_invariant]
    spec fn well_formed(self) -> bool {
        each_process_once(self.records@)
    }

    /// An empty table that `current` asks.
    pub fn new(current: Pid) -> (r: Self)
        ensures
            r.current() == current,
            r.table() == Map::<Pid, ProcessRecordView>::empty(),
            r.scans() == 0,
    {
        let r = ProcessTable { current, records: Vec::new(), scans: Ghost(0) };
        assert(r.table() =~= Map::<Pid, ProcessRecordView>::empty());
        r
    }

    /// The table of `processes`, asked by the last of them, or by process 1 where
    /// there is none. Of two records of one process the later one counts.
    pub fn with(processes: Vec<ProcessRecord>) -> (r: Self)
        ensures
            r.current() == if processes.len() == 0 {
                1
            } else {
                processes@.last().pid
            },
            r.table() == table_of(processes@),
            r.scans() == 0,
    {
        let current: Pid = if processes.len() == 0 {
            1
        } else {
            processes[processes.len() - 1].pid
        };
        let mut table = ProcessTable::new(current);
        table.replace_all(processes);
        table
    }

    /// Writes `record` down, in place of what the table held for its process.
    pub fn insert(&mut self, record: ProcessRecord)
        ensures
            final(self).current() == old(self).current(),
            final(self).scans() == old(self).scans(),
            final(self).table() == old(self).table().insert(record.pid, record@),
    {
        proof {
            use_type_invariant(&*self);
        }
        let mut taken = ProcessTable::new(self.current);
        std::mem::swap(self, &mut taken);
        let ProcessTable { current, records, scans } = taken;
        let mut records = records;
        match find(&records, record.pid) {
            Some(i) => {
                proof {
                    lemma_table_update(records@, i as int, record);
                }
                records.set(i, record);
            },
            None => {
                proof {
                    lemma_table_push(records@, record);
                    assert forall|i: int, j: int|
                        0 <= i < j < records@.push(record).len() implies records@.push(
                        record,
                    )[i].pid != records@.push(record)[j].pid by {
                        assert(!holds_at(records@, record.pid, i));
                    }
                }
                records.push(record);
            },
        }
        *self = ProcessTable { current, records, scans };
    }

    /// Strikes `pid` from the table; says whether the table held it.
    pub fn remove(&mut self, pid: Pid) -> (r: bool)
        ensures
            final(self).current() == old(self).current(),
            final(self).scans() == old(self).scans(),
            final(self).table() == old(self).table().remove(pid),
            r == old(self).table().dom().contains(pid),
    {
        proof {
            use_type_invariant(&*self);
        }
        let mut taken = ProcessTable::new(self.current);
        std::mem::swap(self, &mut taken);
        let ProcessTable { current, records, scans } = taken;
        let mut records = records;
        let r = match find(&records, pid) {
            Some(i) => {
                proof {
                    lemma_table_remove(records@, i as int);
                }
                let _ = records.remove(i);
                true
            },
            None => {
                assert(table_of(records@).remove(pid) =~= table_of(records@));
                false
            },
        };
        *self = ProcessTable { current, records, scans };
        r
    }

    /// Strikes every process from the table.
    pub fn clear(&mut self)
        ensures
            final(self).current() == old(self).current(),
            final(self).scans() == old(self).scans(),
            final(self).table() == Map::<Pid, ProcessRecordView>::empty(),
    {
        let cleared = ProcessTable {
            current: self.current,
            records: Vec::new(),
            scans: Ghost(self.scans@),
        };
        assert(cleared.table() =~= Map::<Pid, ProcessRecordView>::empty());
        *self = cleared;
    }

    /// Writes down `processes` in place of all that the table held. Of two
    /// records of one process the later one counts.
    pub fn replace_all(&mut self, processes: Vec<ProcessRecord>)
        ensures
            final(self).current() == old(self).current(),
            final(self).scans() == old(self).scans(),
            final(self).table() == table_of(processes@),
    {
        self.clear();
        let ghost all = processes@;
        assert(all.take(0) =~= Seq::empty());
        assert(table_of(Seq::empty()) =~= Map::<Pid, ProcessRecordView>::empty());
        for record in it: processes
            invariant
                it.seq() == all,
                self.current() == old(self).current(),
                self.scans() == old(self).scans(),
                self.table() == table_of(all.take(it.index() as int)),
        {
            proof {
                lemma_table_push(all.take(it.index() as int), record);
                assert(all.take(it.index() + 1) =~= all.take(it.index() as int).push(record));
            }
            self.insert(record);
        }
        assert(all.take(all.len() as int) =~= all);
    }

    /// Writes down what was found out of `pid`: the process as `answer` tells of
    /// it, or that there is no such process. Says whether there is one.
    pub fn set_process(&mut self, pid: Pid, answer: Option<ProcessRecord>) -> (found: bool)
        ensures
            final(self).current() == old(self).current(),
            final(self).scans() == old(self).scans(),
            found == answer is Some,
            final(self).table() == match answer {
                Some(record) => old(self).table().insert(
                    pid,
                    ProcessRecordView {
                        pid,
                        parent: record.parent,
                        start_time: record.start_time,
                        argv: record@.argv,
                    },
                ),
                None => old(self).table().remove(pid),
            },
    {
        match answer {
            Some(record) => {
                self.insert(
                    ProcessRecord {
                        pid,
                        parent: record.parent,
                        start_time: record.start_time,
                        argv: record.argv,
                    },
                );
                true
            },
            None => {
                let _ = self.remove(pid);
                false
            },
        }
    }

    /// The number of processes that the table holds.
    pub fn len(&self) -> (r: usize)
        ensures
            r == self.table().dom().len(),
            self.table().dom().finite(),
    {
        proof {
            use_type_invariant(self);
            lemma_table_size(self.records@);
        }
        self.records.len()
    }
}

impl ProcessInterface for ProcessTable {
    closed spec fn current(&self) -> Pid {
        self.current
    }

    closed spec fn table(&self) -> Table {
        table_of(self.records@)
    }

    open spec fn frozen(&self) -> bool {
        true
    }

    closed spec fn scans(&self) -> nat {
        self.scans@
    }

    fn my_pid(&self) -> (pid: Pid) {
        self.current
    }

    fn process(&self, pid: Pid) -> (r: Option<&ProcessRecord>) {
        proof {
            use_type_invariant(self);
        }
        match find(&self.records, pid) {
            Some(i) => {
                proof {
                    assert(holds_last_at(self.records@, pid, i as int)) by {
                        assert forall|j: int|
                            i < j < self.records@.len() implies self.records@[j].pid != pid by {
                            assert(self.records@[i as int].pid != self.records@[j].pid);
                        }
                    }
                    lemma_table_at(self.records@, pid, i as int);
                }
                Some(&self.records[i])
            },
            None => None,
        }
    }

    fn processes(&self) -> (r: Vec<Pid>) {
        proof {
            use_type_invariant(self);
        }
        let mut r: Vec<Pid> = Vec::new();
        let mut i: usize = 0;
        while i < self.records.len()
            invariant
                i <= self.records.len(),
                r.len() == i,
                forall|j: int| 0 <= j < i ==> r@[j] == self.records@[j].pid,
            decreases self.records.len() - i,
        {
            r.push(self.records[i].pid);
            i += 1;
        }
        proof {
            assert forall|a: int, b: int|
                0 <= a < r@.len() && 0 <= b < r@.len() && a != b implies r@[a] != r@[b] by {
                if a < b {
                    assert(self.records@[a].pid != self.records@[b].pid);
                } else {
                    assert(self.records@[b].pid != self.records@[a].pid);
                }
            }
            assert forall|pid: Pid| r@.contains(pid) <==> self.table().dom().contains(pid) by {
                if r@.contains(pid) {
                    let j = choose|j: int| 0 <= j < r@.len() && r@[j] == pid;
                    assert(holds_at(self.records@, pid, j));
                }
                if self.table().dom().contains(pid) {
                    let j = choose|j: int| holds_at(self.records@, pid, j);
                    assert(r@[j] == pid);
                }
            }
        }
        r
    }

    fn refresh_process(&mut self, pid: Pid) -> (found: bool) {
        proof {
            use_type_invariant(&*self);
        }
        find(&self.records, pid).is_some()
    }

    fn refresh_processes(&mut self) {
        proof {
            use_type_invariant(&*self);
        }
        self.scans = Ghost((self.scans@ + 1) as nat);
    }
}

/// The place of `pid` among `records`.
fn find(records: &Vec<ProcessRecord>, pid: Pid) -> (r: Option<usize>)
    ensures
        match r {
            Some(i) => holds_at(records@, pid, i as int),
            None => forall|i: int| !holds_at(records@, pid, i),
        },
{
    let mut i: usize = 0;
    while i < records.len()
        invariant
            i <= records.len(),
            forall|j: int| 0 <= j < i ==> records@[j].pid != pid,
        decreases records.len() - i,
    {
        if records[i].pid == pid {
            return Some(i);
        }
        i += 1;
    }
    None
}

/// A process of which there is a record has a last record.
proof fn lemma_last_record(records: Seq<ProcessRecord>, pid: Pid)
    requires
        exists|i: int| holds_at(records, pid, i),
    ensures
        exists|i: int| holds_last_at(records, pid, i),
    decreases records.len(),
{
    let last = records.len() - 1;
    if records[last].pid == pid {
        assert(holds_last_at(records, pid, last));
    } else {
        let fewer = records.drop_last();
        let i = choose|i: int| holds_at(records, pid, i);
        assert(holds_at(fewer, pid, i));
        lemma_last_record(fewer, pid);
        let k = choose|k: int| holds_last_at(fewer, pid, k);
        assert(holds_last_at(records, pid, k)) by {
            assert forall|j: int| k < j < records.len() implies records[j].pid != pid by {
                if j < last {
                    assert(fewer[j] == records[j]);
                }
            }
        }
    }
}

/// The table holds for a process what its last record tells.
proof fn lemma_table_at(records: Seq<ProcessRecord>, pid: Pid, i: int)
    requires
        holds_last_at(records, pid, i),
    ensures
        table_of(records).dom().contains(pid),
        table_of(records)[pid] == records[i]@,
{
    let k = choose|k: int| holds_last_at(records, pid, k);
    assert(holds_at(records, pid, i));
    if k < i {
        assert(records[i].pid != pid);
    } else if i < k {
        assert(records[k].pid != pid);
    }
}

/// One more record puts its process into the table, in place of what the table
/// held for it.
pub proof fn lemma_table_push(records: Seq<ProcessRecord>, record: ProcessRecord)
    ensures
        table_of(records.push(record)) == table_of(records).insert(record.pid, record@),
{
    let more = records.push(record);
    let expected = table_of(records).insert(record.pid, record@);
    assert forall|pid: Pid| #[trigger]
        table_of(more).dom().contains(pid) <==> expected.dom().contains(pid) by {
        if table_of(more).dom().contains(pid) {
            let i = choose|i: int| holds_at(more, pid, i);
            if i < records.len() {
                assert(holds_at(records, pid, i));
            }
        }
        if table_of(records).dom().contains(pid) {
            let i = choose|i: int| holds_at(records, pid, i);
            assert(holds_at(more, pid, i));
        }
        if pid == record.pid {
            assert(holds_at(more, pid, records.len() as int));
        }
    }
    assert forall|pid: Pid| #[trigger] table_of(more).dom().contains(pid) implies table_of(
        more,
    )[pid] == expected[pid] by {
        if pid == record.pid {
            assert(holds_last_at(more, pid, records.len() as int));
            lemma_table_at(more, pid, records.len() as int);
        } else {
            let i = choose|i: int| holds_at(more, pid, i);
            assert(holds_at(records, pid, i));
            lemma_last_record(records, pid);
            let k = choose|k: int| holds_last_at(records, pid, k);
            lemma_table_at(records, pid, k);
            assert(holds_last_at(more, pid, k)) by {
                assert(more[k] == records[k]);
                assert forall|j: int| k < j < more.len() implies more[j].pid != pid by {
                    if j < records.len() {
                        assert(more[j] == records[j]);
                    }
                }
            }
            lemma_table_at(more, pid, k);
        }
    }
    assert(table_of(more) =~= expected);
}

/// A record put in the place of another of the same process replaces it in the
/// table.
proof fn lemma_table_update(records: Seq<ProcessRecord>, at: int, record: ProcessRecord)
    requires
        each_process_once(records),
        holds_at(records, record.pid, at),
    ensures
        each_process_once(records.update(at, record)),
        table_of(records.update(at, record)) == table_of(records).insert(record.pid, record@),
{
    let changed = records.update(at, record);
    let expected = table_of(records).insert(record.pid, record@);
    assert forall|i: int, j: int| 0 <= i < j < changed.len() implies changed[i].pid
        != changed[j].pid by {
        assert(changed[i].pid == records[i].pid);
        assert(changed[j].pid == records[j].pid);
    }
    assert forall|pid: Pid| #[trigger]
        table_of(changed).dom().contains(pid) <==> expected.dom().contains(pid) by {
        if table_of(changed).dom().contains(pid) {
            let i = choose|i: int| holds_at(changed, pid, i);
            assert(holds_at(records, pid, i));
        }
        if table_of(records).dom().contains(pid) {
            let i = choose|i: int| holds_at(records, pid, i);
            assert(holds_at(changed, pid, i));
        }
        if pid == record.pid {
            assert(holds_at(changed, pid, at));
        }
    }
    assert forall|pid: Pid| #[trigger] table_of(changed).dom().contains(pid) implies table_of(
        changed,
    )[pid] == expected[pid] by {
        let i = choose|i: int| holds_at(changed, pid, i);
        assert(changed[i].pid == records[i].pid);
        assert(holds_last_at(changed, pid, i)) by {
            assert forall|j: int| i < j < changed.len() implies changed[j].pid != pid by {
                assert(changed[j].pid == records[j].pid);
            }
        }
        lemma_table_at(changed, pid, i);
        if pid == record.pid {
            if i < at {
                assert(records[i].pid != records[at].pid);
            } else if at < i {
                assert(records[at].pid != records[i].pid);
            }
        } else {
            assert(holds_last_at(records, pid, i));
            lemma_table_at(records, pid, i);
        }
    }
    assert(table_of(changed) =~= expected);
}

/// Taking a record away takes its process out of the table.
proof fn lemma_table_remove(records: Seq<ProcessRecord>, at: int)
    requires
        each_process_once(records),
        0 <= at < records.len(),
    ensures
        each_process_once(records.remove(at)),
        table_of(records.remove(at)) == table_of(records).remove(records[at].pid),
{
    let fewer = records.remove(at);
    let gone = records[at].pid;
    let expected = table_of(records).remove(gone);
    assert forall|i: int, j: int| 0 <= i < j < fewer.len() implies fewer[i].pid
        != fewer[j].pid by {
        let a = if i < at {
            i
        } else {
            i + 1
        };
        let b = if j < at {
            j
        } else {
            j + 1
        };
        assert(fewer[i] == records[a]);
        assert(fewer[j] == records[b]);
        assert(records[a].pid != records[b].pid);
    }
    assert forall|pid: Pid| #[trigger]
        table_of(fewer).dom().contains(pid) <==> expected.dom().contains(pid) by {
        if table_of(fewer).dom().contains(pid) {
            let i = choose|i: int| holds_at(fewer, pid, i);
            let a = if i < at {
                i
            } else {
                i + 1
            };
            assert(fewer[i] == records[a]);
            assert(holds_at(records, pid, a));
            if pid == gone {
                if a < at {
                    assert(records[a].pid != records[at].pid);
                } else {
                    assert(records[at].pid != records[a].pid);
                }
            }
        }
        if expected.dom().contains(pid) {
            let a = choose|a: int| holds_at(records, pid, a);
            let i = if a < at {
                a
            } else {
                a - 1
            };
            assert(fewer[i] == records[a]);
            assert(holds_at(fewer, pid, i));
        }
    }
    assert forall|pid: Pid| #[trigger] table_of(fewer).dom().contains(pid) implies table_of(
        fewer,
    )[pid] == expected[pid] by {
        let i = choose|i: int| holds_at(fewer, pid, i);
        let a = if i < at {
            i
        } else {
            i + 1
        };
        assert(fewer[i] == records[a]);
        assert(holds_last_at(fewer, pid, i)) by {
            assert forall|j: int| i < j < fewer.len() implies fewer[j].pid != pid by {
                assert(fewer[i].pid != fewer[j].pid);
            }
        }
        assert(holds_last_at(records, pid, a)) by {
            assert forall|j: int| a < j < records.len() implies records[j].pid != pid by {
                assert(records[a].pid != records[j].pid);
            }
        }
        lemma_table_at(fewer, pid, i);
        lemma_table_at(records, pid, a);
    }
    assert(table_of(fewer) =~= expected);
}

/// A table holds as many processes as there are records, where there is one
/// record of each.
proof fn lemma_table_size(records: Seq<ProcessRecord>)
    requires
        each_process_once(records),
    ensures
        table_of(records).dom().finite(),
        table_of(records).dom().len() == records.len(),
    decreases records.len(),
{
    if records.len() == 0 {
        assert(table_of(records).dom() =~= Set::<Pid>::empty());
    } else {
        let fewer = records.drop_last();
        let last = records.last();
        assert forall|i: int, j: int| 0 <= i < j < fewer.len() implies fewer[i].pid
            != fewer[j].pid by {
            assert(fewer[i] == records[i]);
            assert(fewer[j] == records[j]);
        }
        lemma_table_size(fewer);
        lemma_table_push(fewer, last);
        assert(fewer.push(last) =~= records);
        assert(!table_of(fewer).dom().contains(last.pid)) by {
            if table_of(fewer).dom().contains(last.pid) {
                let i = choose|i: int| holds_at(fewer, last.pid, i);
                assert(records[i].pid != records[records.len() - 1].pid);
            }
        }
        assert(table_of(records).dom() =~= table_of(fewer).dom().insert(last.pid));
    }
}

} // verus!
