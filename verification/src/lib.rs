//! Finds out which program is feeding the current process, by looking at the
//! process table, and reads a file extension or a set of option keys from that
//! program's command line.
//!
//! A classifier says of one command line whether it is of the wanted kind:
//! [`guess_git_blame_filename_extension`] knows `git blame`, and
//! [`describe_calling_process`] knows `git grep`, `git show` and a few other
//! grep tools. The search, [`calling_process_cmdline`], asks a classifier about
//! the parent of the current process, then about the process numbered one
//! below it, and at last about every process that started together with it,
//! of which it takes the nearest relative.
//!
//! The process table comes in through [`ProcessInterface`]. [`ProcessTable`]
//! holds one in memory, and [`LiveProcesses`] reads one from whatever
//! [`ProcessSource`] it is given.

pub mod args;
pub mod binary;
pub mod blame;
pub mod caller;
pub mod fake;
pub mod keys;
pub mod live;
pub mod memo;
pub mod outcome;
pub mod process;
pub mod search;
pub mod table;
pub mod text;

pub use crate::args::skip_uninteresting_args;
pub use crate::binary::is_git_binary;
pub use crate::blame::{
    git_blame_filename_extension, guess_extension_from_git_arguments,
    guess_git_blame_filename_extension,
};
pub use crate::caller::{
    describe_calling_process, describe_git_arguments, get_git_show_file_extension,
    parse_command_option_keys, CallingProcess,
};
pub use crate::fake::{calling_process_cmdline_faked, FakeParentArgs};
pub use crate::keys::OptionKeys;
pub use crate::live::{LiveProcesses, ProcessSource};
pub use crate::memo::{calling_process, determine_calling_process, CachedCallingProcess};
pub use crate::outcome::ProcessArgs;
pub use crate::process::{iter_parents, Pid, ProcessInterface, ProcessRecord};
pub use crate::search::{
    calling_process_cmdline, closest_matching_process, find_sibling_process,
    search_process_table,
};
pub use crate::table::ProcessTable;
