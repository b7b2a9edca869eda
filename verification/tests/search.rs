use calling_process::{
    calling_process_cmdline, closest_matching_process, describe_calling_process,
    find_sibling_process, guess_git_blame_filename_extension, iter_parents,
    search_process_table, CallingProcess, OptionKeys, Pid, ProcessArgs, ProcessInterface,
    ProcessRecord, ProcessTable,
};

fn record(pid: Pid, start_time: u64, cmd: &str, ppid: Option<Pid>) -> ProcessRecord {
    ProcessRecord {
        pid,
        parent: ppid,
        start_time,
        argv: cmd.split(' ').map(str::to_owned).collect(),
    }
}

// The table of `processes`, asked by the last of them.
fn mock_proc_info(processes: &[(Pid, u64, &str, Option<Pid>)]) -> ProcessTable {
    ProcessTable::with(
        processes
            .iter()
            .map(|(pid, start_time, cmd, ppid)| record(*pid, *start_time, cmd, *ppid))
            .collect(),
    )
}

// The table of `processes`, asked by `me`.
fn table_asked_by(me: Pid, processes: &[(Pid, u64, &str, Option<Pid>)]) -> ProcessTable {
    let mut table = ProcessTable::new(me);
    for (pid, start_time, cmd, ppid) in processes {
        table.insert(record(*pid, *start_time, cmd, *ppid));
    }
    table
}

fn set(keys: &[&str]) -> OptionKeys {
    let mut result = OptionKeys::new();
    for key in keys {
        result.insert(key.to_string());
    }
    result
}

#[test]
fn test_process_blame_info_with_parent() {
    let no_processes = mock_proc_info(&[]);
    assert_eq!(
        calling_process_cmdline(no_processes, guess_git_blame_filename_extension),
        None
    );

    let parent = mock_proc_info(&[
        (2, 100, "-shell", None),
        (3, 100, "git blame hello.txt", Some(2)),
        (4, 100, "delta", Some(3)),
    ]);
    assert_eq!(
        calling_process_cmdline(parent, guess_git_blame_filename_extension),
        Some("txt".into())
    );

    let grandparent = mock_proc_info(&[
        (2, 100, "-shell", None),
        (3, 100, "git blame src/main.rs", Some(2)),
        (4, 100, "call_delta.sh", Some(3)),
        (5, 100, "delta", Some(4)),
    ]);
    assert_eq!(
        calling_process_cmdline(grandparent, guess_git_blame_filename_extension),
        Some("rs".into())
    );
}

#[test]
fn test_describe_calling_process_grep() {
    let no_processes = mock_proc_info(&[]);
    assert_eq!(
        calling_process_cmdline(no_processes, describe_calling_process),
        None
    );

    let parent = mock_proc_info(&[
        (2, 100, "-shell", None),
        (3, 100, "git grep pattern hello.txt", Some(2)),
        (4, 100, "delta", Some(3)),
    ]);
    assert_eq!(
        calling_process_cmdline(parent, describe_calling_process),
        Some(CallingProcess::GitGrep((set(&[]), set(&[]))))
    );

    let parent = mock_proc_info(&[
        (2, 100, "-shell", None),
        (3, 100, "Git.exe grep pattern hello.txt", Some(2)),
        (4, 100, "delta", Some(3)),
    ]);
    assert_eq!(
        calling_process_cmdline(parent, describe_calling_process),
        Some(CallingProcess::GitGrep((set(&[]), set(&[]))))
    );

    for grep_command in &[
        "/usr/local/bin/rg pattern hello.txt",
        "RG.exe pattern hello.txt",
        "/usr/local/bin/ack pattern hello.txt",
        "ack.exe pattern hello.txt",
    ] {
        let parent = mock_proc_info(&[
            (2, 100, "-shell", None),
            (3, 100, grep_command, Some(2)),
            (4, 100, "delta", Some(3)),
        ]);
        assert_eq!(
            calling_process_cmdline(parent, describe_calling_process),
            Some(CallingProcess::OtherGrep)
        );
    }

    let git_grep_command =
        "git grep -ab --function-context -n --show-function -W --foo=val pattern hello.txt";

    let expected_result = Some(CallingProcess::GitGrep((
        set(&["--function-context", "--show-function", "--foo"]),
        set(&["-a", "-b", "-n", "-W"]),
    )));

    let parent = mock_proc_info(&[
        (2, 100, "-shell", None),
        (3, 100, git_grep_command, Some(2)),
        (4, 100, "delta", Some(3)),
    ]);
    assert_eq!(
        calling_process_cmdline(parent, describe_calling_process),
        expected_result
    );

    let grandparent = mock_proc_info(&[
        (2, 100, "-shell", None),
        (3, 100, git_grep_command, Some(2)),
        (4, 100, "call_delta.sh", Some(3)),
        (5, 100, "delta", Some(4)),
    ]);
    assert_eq!(
        calling_process_cmdline(grandparent, describe_calling_process),
        expected_result
    );
}

#[test]
fn test_describe_calling_process_git_show() {
    for (command, expected_extension) in [
        ("/usr/local/bin/git show 775c3b84:./src/hello.rs", "rs"),
        ("/usr/local/bin/git show HEAD~1:Makefile", "Makefile"),
        (
            "git -c x.y=z show --abbrev-commit 775c3b84:./src/hello.bye.R",
            "R",
        ),
    ] {
        let parent = mock_proc_info(&[
            (2, 100, "-shell", None),
            (3, 100, command, Some(2)),
            (4, 100, "delta", Some(3)),
        ]);
        assert_eq!(
            calling_process_cmdline(parent, describe_calling_process),
            Some(CallingProcess::GitShow(expected_extension.to_string())),
        );
    }
}

#[test]
fn matching_parent_is_taken_before_anything_else() {
    // The process numbered one below and a brother would match as well.
    let table = table_asked_by(
        10,
        &[
            (1, 100, "-shell", None),
            (8, 100, "git blame parent.aa", Some(1)),
            (9, 100, "git blame sibling.bb", Some(8)),
            (11, 100, "git blame brother.cc", Some(8)),
            (10, 100, "delta", Some(8)),
        ],
    );
    assert_eq!(
        calling_process_cmdline(table, guess_git_blame_filename_extension),
        Some("aa".to_string())
    );
}

#[test]
fn malformed_parent_ends_the_search() {
    let table = table_asked_by(
        10,
        &[
            (8, 100, "git blame", None),
            (9, 100, "git blame sibling.bb", Some(8)),
            (10, 100, "delta", Some(8)),
        ],
    );
    assert_eq!(
        calling_process_cmdline(table, guess_git_blame_filename_extension),
        None
    );
}

#[test]
fn process_numbered_one_below_is_taken_second() {
    // The parent is another process.
    let table = table_asked_by(
        10,
        &[
            (8, 100, "-shell", None),
            (9, 100, "git blame sibling.bb", Some(8)),
            (11, 100, "git blame brother.cc", Some(8)),
            (10, 100, "delta", Some(8)),
        ],
    );
    assert_eq!(
        calling_process_cmdline(table, guess_git_blame_filename_extension),
        Some("bb".to_string())
    );
    // The parent is not in the table; the start time of the other process does not count.
    let table = table_asked_by(
        10,
        &[
            (9, 5, "git blame sibling.bb", None),
            (11, 100, "git blame brother.cc", Some(8)),
            (10, 100, "delta", Some(8)),
        ],
    );
    assert_eq!(
        calling_process_cmdline(table, guess_git_blame_filename_extension),
        Some("bb".to_string())
    );
    // The process knows of no parent.
    let table = table_asked_by(
        10,
        &[(9, 100, "git blame sibling.bb", None), (10, 100, "delta", None)],
    );
    assert_eq!(
        calling_process_cmdline(table, guess_git_blame_filename_extension),
        Some("bb".to_string())
    );
}

#[test]
fn malformed_process_one_below_does_not_end_the_search() {
    let table = table_asked_by(
        10,
        &[
            (8, 100, "-shell", None),
            (9, 100, "git blame", Some(8)),
            (20, 100, "git blame brother.cc", Some(8)),
            (10, 100, "delta", Some(8)),
        ],
    );
    assert_eq!(
        calling_process_cmdline(table, guess_git_blame_filename_extension),
        Some("cc".to_string())
    );
}

#[test]
fn nearest_match_of_the_whole_table_is_taken_last() {
    // 100 terminal
    // 124  \_ -shell
    // 301  |   \_ git blame far.aa
    // 125  \_ -shell
    // 800  |   \_ git blame near.bb
    // 200  |   \_ wrapper
    // 201  |       \_ delta
    // 126  \_ -shell
    // 555      \_ wrapper
    // 556          \_ git blame other.cc
    let processes = [
        (100, 100, "terminal", None),
        (124, 100, "-shell", Some(100)),
        (301, 100, "/usr/bin/git blame far.aa", Some(124)),
        (125, 100, "-shell", Some(100)),
        (800, 100, "/usr/bin/git blame near.bb", Some(125)),
        (200, 100, "/bin/sh wrapper", Some(125)),
        (201, 100, "delta", Some(200)),
        (126, 100, "-shell", Some(100)),
        (555, 100, "/bin/sh wrapper", Some(126)),
        (556, 100, "/usr/bin/git blame other.cc", Some(555)),
    ];
    assert_eq!(
        calling_process_cmdline(
            table_asked_by(201, &processes),
            guess_git_blame_filename_extension
        ),
        Some("bb".to_string())
    );
    // Whatever the order in which the table holds the processes.
    let mut reversed = processes;
    reversed.reverse();
    assert_eq!(
        calling_process_cmdline(
            table_asked_by(201, &reversed),
            guess_git_blame_filename_extension
        ),
        Some("bb".to_string())
    );
}

#[test]
fn chain_lengths_add_both_ways_up() {
    let table = table_asked_by(
        201,
        &[
            (100, 100, "terminal", None),
            (124, 100, "-shell", Some(100)),
            (301, 100, "git blame far.aa", Some(124)),
            (125, 100, "-shell", Some(100)),
            (200, 100, "wrapper", Some(125)),
            (201, 100, "delta", Some(200)),
        ],
    );
    assert_eq!(iter_parents(&table, 201), vec![200, 125, 100]);
    assert_eq!(iter_parents(&table, 301), vec![124, 100]);
    assert_eq!(iter_parents(&table, 100), Vec::<Pid>::new());
    assert_eq!(iter_parents(&table, 7), Vec::<Pid>::new());
    let my_chain = iter_parents(&table, 201);
    // Up to 100 in three steps, and down to 301 in two.
    assert_eq!(
        calling_process::search::chain_length_to(&table, 201, &my_chain, 301),
        5
    );
    assert_eq!(
        calling_process::search::chain_length_to(&table, 201, &my_chain, 200),
        3
    );
    assert_eq!(
        calling_process::search::chain_length_to(&table, 201, &my_chain, 100),
        usize::MAX
    );
    assert_eq!(
        calling_process::search::distance_in_chain(&table, 201, &my_chain, 125),
        Some(2)
    );
    assert_eq!(
        calling_process::search::distance_in_chain(&table, 201, &my_chain, 124),
        None
    );
}

#[test]
fn whole_table_search_looks_at_the_start_times() {
    let processes = |near: u64, far: u64| {
        table_asked_by(
            50,
            &[
                (1, 100, "-shell", None),
                (30, near, "git blame near.aa", Some(1)),
                (31, 100, "wrapper", Some(1)),
                (40, far, "git blame far.bb", Some(31)),
                (50, 100, "delta", Some(1)),
            ],
        )
    };
    assert_eq!(
        closest_matching_process(&processes(100, 100), 50, guess_git_blame_filename_extension),
        Some("aa".to_string())
    );
    assert_eq!(
        closest_matching_process(&processes(102, 98), 50, guess_git_blame_filename_extension),
        Some("aa".to_string())
    );
    assert_eq!(
        closest_matching_process(&processes(103, 98), 50, guess_git_blame_filename_extension),
        Some("bb".to_string())
    );
    assert_eq!(
        closest_matching_process(&processes(97, 102), 50, guess_git_blame_filename_extension),
        Some("bb".to_string())
    );
    assert_eq!(
        closest_matching_process(&processes(97, 103), 50, guess_git_blame_filename_extension),
        None
    );
    assert_eq!(
        closest_matching_process(
            &processes(u64::MAX, 0),
            50,
            guess_git_blame_filename_extension
        ),
        None
    );
}

#[test]
fn whole_table_search_leaves_the_asking_process_out() {
    let table = table_asked_by(
        50,
        &[(1, 100, "-shell", None), (50, 100, "git blame self.aa", Some(1))],
    );
    assert_eq!(
        closest_matching_process(&table, 50, guess_git_blame_filename_extension),
        None
    );
}

#[test]
fn whole_table_search_takes_a_match_without_common_ancestor() {
    let table = table_asked_by(
        50,
        &[
            (30, 100, "git blame lonely.aa", None),
            (50, 100, "delta", None),
        ],
    );
    assert_eq!(
        closest_matching_process(&table, 50, guess_git_blame_filename_extension),
        Some("aa".to_string())
    );
    // One with a common ancestor is nearer.
    let table = table_asked_by(
        50,
        &[
            (1, 100, "-shell", None),
            (30, 100, "git blame lonely.aa", None),
            (31, 100, "git blame brother.bb", Some(1)),
            (50, 100, "delta", Some(1)),
        ],
    );
    assert_eq!(
        closest_matching_process(&table, 50, guess_git_blame_filename_extension),
        Some("bb".to_string())
    );
}

#[test]
fn whole_table_search_needs_the_asking_process() {
    let table = table_asked_by(50, &[(30, 100, "git blame lonely.aa", None)]);
    assert_eq!(
        closest_matching_process(&table, 50, guess_git_blame_filename_extension),
        None
    );
}

#[test]
fn walk_up_the_tree_ends_on_a_circle() {
    let table = table_asked_by(
        3,
        &[
            (1, 100, "a", Some(2)),
            (2, 100, "b", Some(1)),
            (3, 100, "delta", Some(1)),
            (4, 100, "git blame x.yy", Some(2)),
        ],
    );
    let chain = iter_parents(&table, 3);
    assert_eq!(chain.len(), 2000);
    assert_eq!(&chain[..4], &[1, 2, 1, 2]);
    // The distance of a process met more than once is the last at which it is met.
    assert_eq!(
        calling_process::search::distance_in_chain(&table, 3, &chain, 1),
        Some(1999)
    );
    assert_eq!(
        calling_process::search::distance_in_chain(&table, 3, &chain, 2),
        Some(2000)
    );
    assert_eq!(
        calling_process::search::chain_length_to(&table, 3, &chain, 4),
        2001
    );
    assert_eq!(
        calling_process_cmdline(table, guess_git_blame_filename_extension),
        Some("yy".to_string())
    );
}

#[test]
fn empty_table_gives_nothing() {
    let mut table = ProcessTable::new(7);
    assert_eq!(table.len(), 0);
    assert_eq!(table.parent_process(7), None);
    assert_eq!(table.naive_sibling_process(7), None);
    assert_eq!(
        find_sibling_process(&mut table, 7, describe_calling_process),
        None
    );
    assert_eq!(
        search_process_table(&mut table, describe_calling_process),
        None
    );
    assert_eq!(
        calling_process_cmdline(ProcessTable::new(7), guess_git_blame_filename_extension),
        None
    );
    assert_eq!(
        calling_process_cmdline(ProcessTable::new(Pid::MIN), describe_calling_process),
        None
    );
}

#[test]
fn table_holds_each_process_once() {
    let mut table = ProcessTable::with(vec![
        record(3, 1, "first", None),
        record(4, 1, "other", Some(3)),
        record(3, 2, "second", Some(4)),
    ]);
    assert_eq!(table.my_pid(), 3);
    assert_eq!(table.len(), 2);
    let mut pids = table.processes();
    pids.sort();
    assert_eq!(pids, vec![3, 4]);
    assert_eq!(table.process(3).unwrap().argv, vec!["second".to_string()]);
    assert_eq!(table.process(3).unwrap().parent, Some(4));
    assert!(table.process(5).is_none());
    assert!(table.refresh_process(3));
    assert!(!table.refresh_process(5));
    table.refresh_processes();
    assert_eq!(table.len(), 2);
    assert!(table.remove(3));
    assert!(!table.remove(3));
    assert_eq!(table.processes(), vec![4]);
    assert_eq!(table.parent_process(4), None);
    table.insert(record(3, 1, "again", None));
    assert_eq!(table.parent_process(4), Some(3));
    assert_eq!(table.naive_sibling_process(4), Some(3));
    assert_eq!(table.naive_sibling_process(3), None);
    assert_eq!(ProcessTable::with(vec![]).my_pid(), 1);
}

#[test]
fn classifier_may_be_a_closure() {
    let table = table_asked_by(
        5,
        &[
            (2, 100, "less -R", None),
            (3, 100, "make test", Some(2)),
            (5, 100, "delta", Some(3)),
        ],
    );
    let find_make = |args: &[String]| {
        if args.iter().any(|arg| arg == "make") {
            ProcessArgs::Args(args.len())
        } else {
            ProcessArgs::OtherProcess
        }
    };
    assert_eq!(calling_process_cmdline(table, find_make), Some(2));
}
