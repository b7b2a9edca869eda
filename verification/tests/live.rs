use calling_process::{
    calling_process, calling_process_cmdline, describe_calling_process,
    determine_calling_process, git_blame_filename_extension,
    guess_git_blame_filename_extension, search_process_table, CachedCallingProcess,
    CallingProcess, LiveProcesses, Pid, ProcessInterface, ProcessRecord, ProcessSource,
    ProcessTable,
};

fn record(pid: Pid, start_time: u64, cmd: &str, ppid: Option<Pid>) -> ProcessRecord {
    ProcessRecord {
        pid,
        parent: ppid,
        start_time,
        argv: cmd.split(' ').map(str::to_owned).collect(),
    }
}

// A system that knows of `processes`, and counts what it is asked.
struct Scripted {
    me: Pid,
    processes: Vec<ProcessRecord>,
    asked_for: Vec<Pid>,
    asked_for_all: usize,
}

impl Scripted {
    fn new(me: Pid, processes: &[(Pid, u64, &str, Option<Pid>)]) -> Self {
        Scripted {
            me,
            processes: processes
                .iter()
                .map(|(pid, start_time, cmd, ppid)| record(*pid, *start_time, cmd, *ppid))
                .collect(),
            asked_for: Vec::new(),
            asked_for_all: 0,
        }
    }
}

impl ProcessSource for &mut Scripted {
    fn current_pid(&self) -> Pid {
        self.me
    }

    fn read_process(&mut self, pid: Pid) -> Option<ProcessRecord> {
        self.asked_for.push(pid);
        self.processes.iter().find(|p| p.pid == pid).cloned()
    }

    fn read_processes(&mut self) -> Vec<ProcessRecord> {
        self.asked_for_all += 1;
        self.processes.clone()
    }
}

const PIPE: [(Pid, u64, &str, Option<Pid>); 5] = [
    (2, 100, "-shell", None),
    (30, 100, "git grep -n pattern", Some(2)),
    (31, 100, "delta", Some(2)),
    (40, 100, "git show HEAD:a.rs", Some(2)),
    (50, 5, "git show HEAD:b.py", Some(2)),
];

#[test]
fn live_table_holds_what_was_read() {
    let mut system = Scripted::new(31, &PIPE);
    let mut table = LiveProcesses::new(&mut system);
    assert_eq!(table.my_pid(), 31);
    assert!(table.processes().is_empty());
    assert!(table.process(31).is_none());
    assert!(table.refresh_process(31));
    assert_eq!(table.processes(), vec![31]);
    assert_eq!(table.process(31).unwrap().parent, Some(2));
    assert!(!table.refresh_process(32));
    assert!(table.process(32).is_none());
    table.refresh_processes();
    let mut pids = table.processes();
    pids.sort();
    assert_eq!(pids, vec![2, 30, 31, 40, 50]);
    assert_eq!(table.process(40).unwrap().argv, vec!["git", "show", "HEAD:a.rs"]);
    assert_eq!(table.process(50).unwrap().start_time, 5);
}

#[test]
fn live_table_forgets_a_process_that_is_gone() {
    let mut system = Scripted::new(31, &PIPE);
    {
        let mut table = LiveProcesses::new(&mut system);
        assert!(table.refresh_process(30));
        assert!(table.process(30).is_some());
    }
    system.processes.retain(|p| p.pid != 30);
    let mut table = LiveProcesses::new(&mut system);
    table.refresh_processes();
    assert!(table.process(30).is_none());
    assert!(!table.refresh_process(30));
    assert!(table.process(30).is_none());
    assert_eq!(table.processes().len(), 4);
}

#[test]
fn matching_parent_is_found_without_reading_the_table() {
    let mut system = Scripted::new(
        4,
        &[
            (2, 100, "-shell", None),
            (3, 100, "git blame hello.txt", Some(2)),
            (4, 100, "delta", Some(3)),
            (5, 100, "git blame other.rs", Some(2)),
        ],
    );
    assert_eq!(
        calling_process_cmdline(
            LiveProcesses::new(&mut system),
            guess_git_blame_filename_extension
        ),
        Some("txt".to_string())
    );
    assert_eq!(system.asked_for, vec![4, 3]);
    assert_eq!(system.asked_for_all, 0);
}

#[test]
fn malformed_parent_is_found_without_reading_the_table() {
    let mut system = Scripted::new(
        4,
        &[
            (3, 100, "git blame", None),
            (4, 100, "delta", Some(3)),
            (5, 100, "git blame other.rs", Some(3)),
        ],
    );
    assert_eq!(
        git_blame_filename_extension(&mut LiveProcesses::new(&mut system)),
        None
    );
    assert_eq!(system.asked_for, vec![4, 3]);
    assert_eq!(system.asked_for_all, 0);
}

#[test]
fn process_one_below_is_found_without_reading_the_table() {
    let mut system = Scripted::new(31, &PIPE);
    assert_eq!(
        determine_calling_process(&mut LiveProcesses::new(&mut system)),
        Some(CallingProcess::GitGrep((
            calling_process::OptionKeys::new(),
            {
                let mut shorts = calling_process::OptionKeys::new();
                shorts.insert("-n".to_string());
                shorts
            }
        )))
    );
    assert_eq!(system.asked_for, vec![31, 2, 30]);
    assert_eq!(system.asked_for_all, 0);
}

#[test]
fn missing_parent_leads_on_to_the_process_one_below() {
    let mut system = Scripted::new(
        31,
        &[
            (30, 100, "git blame below.aa", None),
            (31, 100, "delta", Some(7)),
        ],
    );
    assert_eq!(
        git_blame_filename_extension(&mut LiveProcesses::new(&mut system)),
        Some("aa".to_string())
    );
    assert_eq!(system.asked_for, vec![31, 7, 30]);
    assert_eq!(system.asked_for_all, 0);

    // Not even the asking process can be read.
    let mut system = Scripted::new(31, &[(30, 100, "git blame below.aa", None)]);
    assert_eq!(
        git_blame_filename_extension(&mut LiveProcesses::new(&mut system)),
        Some("aa".to_string())
    );
    assert_eq!(system.asked_for, vec![31, 30]);
    assert_eq!(system.asked_for_all, 0);
}

#[test]
fn whole_table_is_read_once_as_the_last_resort() {
    let mut system = Scripted::new(
        41,
        &[
            (2, 100, "-shell", None),
            (30, 100, "git show HEAD:far.aa", Some(2)),
            (31, 100, "wrapper", Some(2)),
            (35, 100, "git show HEAD:near.bb", Some(31)),
            (36, 100, "wrapper", Some(31)),
            (41, 100, "delta", Some(36)),
        ],
    );
    assert_eq!(
        determine_calling_process(&mut LiveProcesses::new(&mut system)),
        Some(CallingProcess::GitShow("bb".to_string()))
    );
    assert_eq!(system.asked_for, vec![41, 36, 40]);
    assert_eq!(system.asked_for_all, 1);
}

#[test]
fn empty_system_gives_nothing() {
    let mut system = Scripted::new(1, &[]);
    assert_eq!(
        determine_calling_process(&mut LiveProcesses::new(&mut system)),
        None
    );
    assert_eq!(
        git_blame_filename_extension(&mut LiveProcesses::new(&mut system)),
        None
    );
    assert_eq!(system.asked_for_all, 2);
    let mut table = LiveProcesses::new(&mut system);
    assert_eq!(table.parent_process(1), None);
    assert_eq!(table.naive_sibling_process(1), None);
    assert_eq!(
        search_process_table(&mut table, describe_calling_process),
        None
    );
}

#[test]
fn source_that_answers_for_another_process_is_not_believed() {
    struct Confused;
    impl ProcessSource for Confused {
        fn current_pid(&self) -> Pid {
            9
        }
        fn read_process(&mut self, _pid: Pid) -> Option<ProcessRecord> {
            Some(record(1000, 1, "git blame wrong.pid", Some(8)))
        }
        fn read_processes(&mut self) -> Vec<ProcessRecord> {
            vec![
                record(5, 1, "first", None),
                record(5, 2, "second", None),
            ]
        }
    }
    let mut table = LiveProcesses::new(Confused);
    assert!(table.refresh_process(9));
    assert_eq!(table.process(9).unwrap().pid, 9);
    assert!(table.process(1000).is_none());
    table.refresh_processes();
    assert_eq!(table.processes(), vec![5]);
    assert_eq!(table.process(5).unwrap().argv, vec!["second"]);
}

#[test]
fn calling_process_is_determined_once() {
    let mut system = Scripted::new(31, &PIPE);
    let mut cache = CachedCallingProcess::new();
    let mut shorts = calling_process::OptionKeys::new();
    shorts.insert("-n".to_string());
    let expected = Some(CallingProcess::GitGrep((
        calling_process::OptionKeys::new(),
        shorts,
    )));
    {
        let mut table = LiveProcesses::new(&mut system);
        assert_eq!(calling_process(&mut cache, &mut table), expected);
    }
    assert_eq!(system.asked_for, vec![31, 2, 30]);
    // The answer stays, whatever becomes of the processes.
    system.processes.clear();
    system.asked_for.clear();
    {
        let mut table = LiveProcesses::new(&mut system);
        assert_eq!(calling_process(&mut cache, &mut table), expected);
        assert_eq!(calling_process(&mut cache, &mut table), expected);
    }
    assert!(system.asked_for.is_empty());
    assert_eq!(system.asked_for_all, 0);
}

#[test]
fn calling_process_that_was_not_found_is_remembered_too() {
    let mut cache = CachedCallingProcess::new();
    let mut empty = ProcessTable::new(3);
    assert_eq!(calling_process(&mut cache, &mut empty), None);
    let mut table = ProcessTable::with(vec![
        record(2, 100, "rg pattern", None),
        record(3, 100, "delta", Some(2)),
    ]);
    assert_eq!(calling_process(&mut cache, &mut table), None);
    assert_eq!(
        calling_process(&mut CachedCallingProcess::new(), &mut table),
        Some(CallingProcess::OtherGrep)
    );
}

#[test]
fn process_that_names_itself_as_its_parent_is_read_once() {
    let mut system = Scripted::new(
        7,
        &[
            (6, 100, "git blame below.bb", None),
            (7, 100, "git blame self.aa", Some(7)),
        ],
    );
    assert_eq!(
        git_blame_filename_extension(&mut LiveProcesses::new(&mut system)),
        Some("aa".to_string())
    );
    assert_eq!(system.asked_for, vec![7]);
    assert_eq!(system.asked_for_all, 0);
}

#[test]
fn parent_that_is_gone_leads_on() {
    // The parent is named, but there is no such process any more.
    let mut system = Scripted::new(
        7,
        &[
            (5, 100, "git blame brother.cc", Some(1)),
            (7, 100, "delta", Some(1)),
        ],
    );
    assert_eq!(
        git_blame_filename_extension(&mut LiveProcesses::new(&mut system)),
        Some("cc".to_string())
    );
    assert_eq!(system.asked_for, vec![7, 1, 6]);
    assert_eq!(system.asked_for_all, 1);
}
