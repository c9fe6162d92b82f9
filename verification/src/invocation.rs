use crate::group::path_texts;
use vstd::prelude::*;

verus! {

/// The exit status of a run that came to its end, whether or not it found
/// duplicates.
pub const EXIT_COMPLETED: i32 = 0;

/// The exit status of an invocation without the directory to scan.
pub const EXIT_USAGE: i32 = 1;

/// What the command line asks for.
#[derive(Debug)]
pub enum Invocation {
    /// Scan the tree under `root`.
    Scan { root: String },
    /// The directory to scan is missing.
    UsageError,
}

/// What a command line asks for, mathematically.
pub enum InvocationModel {
    Scan { root: Seq<char> },
    UsageError,
}

impl View for Invocation {
    type V = InvocationModel;

    open spec fn view(&self) -> InvocationModel {
        match *self {
            Invocation::Scan { root } => InvocationModel::Scan { root: root@ },
            Invocation::UsageError => InvocationModel::UsageError,
        }
    }
}

/// What an argument list asks for. The list starts with the program's own
/// name; the argument after it is the directory to scan, and what follows
/// that is not looked at.
pub open spec fn invocation_of(args: Seq<Seq<char>>) -> InvocationModel {
    if args.len() < 2 {
        InvocationModel::UsageError
    } else {
        InvocationModel::Scan { root: args[1] }
    }
}

/// The exit status that goes with an invocation.
pub open spec fn exit_status_of(invocation: InvocationModel) -> int {
    match invocation {
        InvocationModel::Scan { .. } => EXIT_COMPLETED as int,
        InvocationModel::UsageError => EXIT_USAGE as int,
    }
}

/// The line that tells how to call the tool.
pub open spec fn usage_text() -> Seq<char> {
    "Usage: civ_dedup <directory>"@
}

impl Invocation {
    /// Reads the process's argument list, program name included.
    pub fn from_args(args: &Vec<String>) -> (invocation: Self)
        ensures
            invocation@ == invocation_of(path_texts(args@)),
    {
        if args.len() < 2 {
            Invocation::UsageError
        } else {
            Invocation::Scan { root: args[1].clone() }
        }
    }

    /// The status with which the process ends: `EXIT_USAGE` where the
    /// directory was missing, and `EXIT_COMPLETED` after a scan that ran to
    /// its end.
    pub fn exit_status(&self) -> (status: i32)
        ensures
            status == exit_status_of(self@),
    {
        match self {
            Invocation::Scan { .. } => EXIT_COMPLETED,
            Invocation::UsageError => EXIT_USAGE,
        }
    }
}

/// The usage line, for the diagnostic stream.
pub fn usage() -> (line: String)
    ensures
        line@ == usage_text(),
{
    "Usage: civ_dedup <directory>".to_owned()
}

} // verus!
