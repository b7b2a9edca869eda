//! The three answers a command-line classifier can give.

use vstd::prelude::*;

verus! {

/// What a classifier makes of one command line.
#[derive(Debug, PartialEq)]
pub enum ProcessArgs<T> {
    /// The command line is of the wanted kind, and this was read from it.
    Args(T),
    /// The command line is of the wanted kind, but nothing could be read from it:
    /// no other process needs to be looked at.
    ArgError,
    /// The command line is of another kind: other processes may be looked at.
    OtherProcess,
}

impl<T: View> View for ProcessArgs<T> {
    type V = ProcessArgs<T::V>;

    open spec fn view(&self) -> ProcessArgs<T::V> {
        match *self {
            ProcessArgs::Args(t) => ProcessArgs::Args(t@),
            ProcessArgs::ArgError => ProcessArgs::ArgError,
            ProcessArgs::OtherProcess => ProcessArgs::OtherProcess,
        }
    }
}

} // verus!
