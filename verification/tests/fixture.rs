use calling_process::{
    calling_process_cmdline_faked, describe_calling_process, guess_git_blame_filename_extension,
    CallingProcess, FakeParentArgs,
};

#[test]
fn test_process_testing() {
    {
        let mut args = FakeParentArgs::once(&"git blame hello");
        assert_eq!(
            calling_process_cmdline_faked(&mut args, guess_git_blame_filename_extension),
            Some("hello".into())
        );
        assert!(args.is_used_up());
    }
    {
        let mut args = FakeParentArgs::once(&"git blame world.txt");
        assert_eq!(
            calling_process_cmdline_faked(&mut args, guess_git_blame_filename_extension),
            Some("txt".into())
        );
        assert!(args.is_used_up());
    }
    {
        let mut args = FakeParentArgs::for_scope(&"git blame hello world.txt");
        assert_eq!(
            calling_process_cmdline_faked(&mut args, guess_git_blame_filename_extension),
            Some("txt".into())
        );

        assert_eq!(
            calling_process_cmdline_faked(&mut args, guess_git_blame_filename_extension),
            Some("txt".into())
        );
        assert!(args.is_used_up());
    }
}

#[test]
fn test_process_testing_scope_can_remain_unused() {
    let args = FakeParentArgs::for_scope(&"never used");
    assert!(args.is_used_up());
}

#[test]
fn test_process_testing_n_times_panic() {
    let mut args = FakeParentArgs::with(&["git blame once", "git blame twice"]);
    assert_eq!(
        calling_process_cmdline_faked(&mut args, guess_git_blame_filename_extension),
        Some("once".into())
    );

    assert_eq!(
        calling_process_cmdline_faked(&mut args, guess_git_blame_filename_extension),
        Some("twice".into())
    );
    assert!(args.is_used_up());
}

#[test]
fn once_is_shown_once() {
    let mut args = FakeParentArgs::once("git blame do.not.panic");
    assert!(args.has_next());
    assert!(!args.is_used_up());
    assert_eq!(
        calling_process_cmdline_faked(&mut args, guess_git_blame_filename_extension),
        Some("panic".into())
    );
    assert!(!args.has_next());
    assert!(args.is_used_up());
}

#[test]
fn once_that_was_never_shown_is_not_used_up() {
    let args = FakeParentArgs::once("never used");
    assert!(args.has_next());
    assert!(!args.is_used_up());
}

#[test]
fn sequence_has_to_be_shown_to_its_end() {
    let mut args = FakeParentArgs::with(&["git blame once", "git blame twice"]);
    assert!(!args.is_used_up());
    assert_eq!(args.get(), vec!["git", "blame", "once"]);
    assert!(args.has_next());
    assert!(!args.is_used_up());
    assert_eq!(args.get(), vec!["git", "blame", "twice"]);
    assert!(!args.has_next());
    assert!(args.is_used_up());
}

#[test]
fn scope_is_shown_again_and_again() {
    let mut args = FakeParentArgs::for_scope("a  b ");
    for _ in 0..3 {
        assert!(args.has_next());
        assert_eq!(args.get(), vec!["a", "", "b", ""]);
    }
    assert!(args.is_used_up());
}

#[test]
fn fake_command_line_that_does_not_match_gives_nothing() {
    let mut args = FakeParentArgs::with(&["git blame", "less", "", "rg x"]);
    assert_eq!(
        calling_process_cmdline_faked(&mut args, guess_git_blame_filename_extension),
        None
    );
    assert_eq!(
        calling_process_cmdline_faked(&mut args, guess_git_blame_filename_extension),
        None
    );
    assert_eq!(
        calling_process_cmdline_faked(&mut args, describe_calling_process),
        None
    );
    assert_eq!(
        calling_process_cmdline_faked(&mut args, describe_calling_process),
        Some(CallingProcess::OtherGrep)
    );
    assert!(args.is_used_up());
}
