//! One traced process execution.

use vstd::prelude::*;

verus! {

/// A single `execve` entry of a trace log.
#[derive(Debug, PartialEq)]
pub struct Exec {
    pub path: String,
    pub args: Vec<String>,
    pub env: Vec<(String, String)>,
    pub retcode: u8,
}

/// The mathematical value of an [`Exec`].
pub struct ExecView {
    pub path: Seq<char>,
    pub args: Seq<Seq<char>>,
    pub env: Seq<(Seq<char>, Seq<char>)>,
    pub retcode: u8,
}

impl View for Exec {
    type V = ExecView;

    open spec fn view(&self) -> ExecView {
        ExecView {
            path: self.path@,
            args: self.args.deep_view(),
            env: self.env.deep_view(),
            retcode: self.retcode,
        }
    }
}

} // verus!
