//! A coarser classification of an executable, by its file name alone.

use vstd::prelude::*;
use crate::tools::{file_name, file_name_of, is_c_compiler_name, Classifier};

verus! {

/// The kind of tool that a path names, without regard to the arguments it
/// is run with. Only C compilers are told apart from the rest.
#[derive(Debug, PartialEq, Eq, Structural, Clone, Copy)]
pub enum ToolKind {
    CCompiler,
    CXXCompiler,
    CompilerWrapper,
    CCompilerAsLinker,
    CXXCompilerAsLinker,
    Linker,
    Archiver,
    Unknown,
}

/// The kind of tool that `path` names.
pub open spec fn name_kind(path: Seq<char>) -> ToolKind {
    match file_name_of(path) {
        Some(f) => if is_c_compiler_name(f) {
            ToolKind::CCompiler
        } else {
            ToolKind::Unknown
        },
        None => ToolKind::Unknown,
    }
}

impl ToolKind {
    /// `CCompiler` where the file name of `path` is that of a C compiler,
    /// `Unknown` otherwise.
    pub fn from(path: &str) -> (r: Self)
        ensures
            r == name_kind(path@),
    {
        match file_name(path) {
            Some(f) => if Classifier::new().c_compiler_name(f.as_str()) {
                ToolKind::CCompiler
            } else {
                ToolKind::Unknown
            },
            None => ToolKind::Unknown,
        }
    }
}

} // verus!
