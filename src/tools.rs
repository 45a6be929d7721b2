//! Classification of a traced invocation by the name of its executable and
//! by its arguments.

use vstd::prelude::*;
use crate::exec::Exec;
use crate::text::same_str;

pub mod cc;

verus! {

// ---------------------------------------------------------------- outside calls

/// Whether `text` matches the regular expression `pattern`; a pattern that
/// does not compile matches nothing.
pub uninterp spec fn regex_matches(pattern: Seq<char>, text: Seq<char>) -> bool;

/// The final component of a path, if it has one.
pub uninterp spec fn file_name_of(path: Seq<char>) -> Option<Seq<char>>;

#[verifier::external_type_specification]
#[verifier::external_body]
pub struct ExRegex(regex::Regex);

/// A regular expression, compiled once, with the text it was compiled from.
pub struct Pattern {
    source: String,
    compiled: Option<regex::Regex>,
}

impl Pattern {
    /// The text of the regular expression.
    pub closed spec fn source(&self) -> Seq<char> {
        self.source@
    }

    /// Relies on `regex::Regex::new`: compiles `pattern`, keeping the text
    /// it was compiled from beside it. A pattern that does not compile is
    /// kept as `None`.
    #[verifier::external_body]
    pub fn new(pattern: &str) -> (r: Pattern)
        ensures
            r.source() == pattern@,
    {
        Pattern { source: pattern.to_string(), compiled: regex::Regex::new(pattern).ok() }
    }

    /// Relies on `regex::Regex::is_match`: whether `text` matches the
    /// pattern, which depends on the pattern's text and `text` alone. A
    /// pattern that did not compile matches nothing.
    #[verifier::external_body]
    pub fn is_match(&self, text: &str) -> (r: bool)
        ensures
            r == regex_matches(self.source(), text@),
    {
        match &self.compiled {
            Some(re) => re.is_match(text),
            None => false,
        }
    }
}

/// Relies on `std::path::Path::file_name`: the final component of `path`,
/// which depends on the path alone.
#[verifier::external_body]
pub(crate) fn file_name(path: &str) -> (r: Option<String>)
    ensures
        match r {
            Some(f) => file_name_of(path@) == Some(f@),
            None => file_name_of(path@) is None,
        },
{
    std::path::Path::new(path).file_name().and_then(|f| f.to_str()).map(|f| f.to_string())
}

// ---------------------------------------------------------------- name patterns

// The file names of C compilers.

pub const ICC: &'static str = r"^i?cc$";
pub const GCC: &'static str = r"^([^-]*-)*[mg]cc(-?\d+(\.\d+){0,2})?$";
pub const XLC: &'static str = r"^g?xlc$";
pub const CLANG: &'static str = r"^([^-]*-)*clang(-\d+(\.\d+){0,2})?$";

// The file names of C++ compilers.
pub const CPP: &'static str = r"^(c\+\+|cxx|CC)$";
pub const GPP: &'static str = r"^([^-]*-)*[mg]\+\+(-\d+(\.\d+){0,2})?$";
pub const CLANGPP: &'static str = r"^([^-]*-)*clang\+\+(-\d+(\.\d+){0,2})?$";
pub const ICPC: &'static str = r"^icpc$";
pub const XLCPP: &'static str = r"^g?xl(C|c\+\+)$";

// The file names of linkers and compiler wrappers.
pub const LD: &'static str = r"^ld(\.(bfd|gold))?$";
pub const CC_WRAPPER: &'static str = r"^(distcc|ccache)$";
pub const CC_MPI_WRAPPER: &'static str = r"^mpi(cc|cxx|CC|c\+\+)$";

/// An argument that passes something to the linker.
pub const LINKING_ARG: &'static str = r"^-(l|L|Wl,).+";

/// The file name of a C compiler.
pub open spec fn is_c_compiler_name(f: Seq<char>) -> bool {
    regex_matches(GCC@, f) || regex_matches(CLANG@, f) || regex_matches(ICC@, f)
        || regex_matches(XLC@, f)
}

/// The file name of a C++ compiler.
pub open spec fn is_cxx_compiler_name(f: Seq<char>) -> bool {
    regex_matches(CPP@, f) || regex_matches(GPP@, f) || regex_matches(CLANGPP@, f)
        || regex_matches(ICPC@, f) || regex_matches(XLCPP@, f)
}

/// The file name of a linker.
pub open spec fn is_linker_name(f: Seq<char>) -> bool {
    regex_matches(LD@, f)
}

/// The file name of the archiver.
pub open spec fn is_archiver_name(f: Seq<char>) -> bool {
    f == "ar"@
}

/// The file name of a program that runs a compiler for its caller.
pub open spec fn is_wrapper_name(f: Seq<char>) -> bool {
    regex_matches(CC_WRAPPER@, f) || regex_matches(CC_MPI_WRAPPER@, f)
}

/// The patterns that classify an invocation, each compiled once.
pub struct Classifier {
    icc: Pattern,
    gcc: Pattern,
    xlc: Pattern,
    clang: Pattern,
    cpp: Pattern,
    gpp: Pattern,
    clangpp: Pattern,
    icpc: Pattern,
    xlcpp: Pattern,
    ld: Pattern,
    cc_wrapper: Pattern,
    cc_mpi_wrapper: Pattern,
    linking_arg: Pattern,
}

impl Classifier {
    /// Each pattern was compiled from the constant of its name.
    pub closed spec fn wf(&self) -> bool {
        &&& self.icc.source() == ICC@
        &&& self.gcc.source() == GCC@
        &&& self.xlc.source() == XLC@
        &&& self.clang.source() == CLANG@
        &&& self.cpp.source() == CPP@
        &&& self.gpp.source() == GPP@
        &&& self.clangpp.source() == CLANGPP@
        &&& self.icpc.source() == ICPC@
        &&& self.xlcpp.source() == XLCPP@
        &&& self.ld.source() == LD@
        &&& self.cc_wrapper.source() == CC_WRAPPER@
        &&& self.cc_mpi_wrapper.source() == CC_MPI_WRAPPER@
        &&& self.linking_arg.source() == LINKING_ARG@
    }

    /// Compiles the patterns.
    pub fn new() -> (r: Classifier)
        ensures
            r.wf(),
    {
        Classifier {
            icc: Pattern::new(ICC),
            gcc: Pattern::new(GCC),
            xlc: Pattern::new(XLC),
            clang: Pattern::new(CLANG),
            cpp: Pattern::new(CPP),
            gpp: Pattern::new(GPP),
            clangpp: Pattern::new(CLANGPP),
            icpc: Pattern::new(ICPC),
            xlcpp: Pattern::new(XLCPP),
            ld: Pattern::new(LD),
            cc_wrapper: Pattern::new(CC_WRAPPER),
            cc_mpi_wrapper: Pattern::new(CC_MPI_WRAPPER),
            linking_arg: Pattern::new(LINKING_ARG),
        }
    }

    /// Whether `f` is the file name of a C compiler.
    pub fn c_compiler_name(&self, f: &str) -> (r: bool)
        requires
            self.wf(),
        ensures
            r == is_c_compiler_name(f@),
    {
        self.gcc.is_match(f) || self.clang.is_match(f) || self.icc.is_match(f)
            || self.xlc.is_match(f)
    }

    /// Whether `f` is the file name of a C++ compiler.
    fn cxx_compiler_name(&self, f: &str) -> (r: bool)
        requires
            self.wf(),
        ensures
            r == is_cxx_compiler_name(f@),
    {
        self.cpp.is_match(f) || self.gpp.is_match(f) || self.clangpp.is_match(f)
            || self.icpc.is_match(f) || self.xlcpp.is_match(f)
    }

    /// Whether `f` is the file name of a compiler wrapper.
    fn wrapper_name(&self, f: &str) -> (r: bool)
        requires
            self.wf(),
        ensures
            r == is_wrapper_name(f@),
    {
        self.cc_wrapper.is_match(f) || self.cc_mpi_wrapper.is_match(f)
    }

    /// The action of a compiler run with `args`; see [`CompilerAction::from`].
    pub fn action(&self, args: &Vec<String>) -> (r: CompilerAction)
        requires
            self.wf(),
        ensures
            r == action_from(args.deep_view(), 0),
    {
        let ghost a = args.deep_view();
        let mut i: usize = 0;
        while i < args.len()
            invariant
                i <= args.len(),
                a == args.deep_view(),
                self.wf(),
                action_from(a, 0) == action_from(a, i as int),
            decreases args.len() - i,
        {
            let arg = args[i].as_str();
            assert(arg@ == a[i as int]);
            if self.linking_arg.is_match(arg) {
                return CompilerAction::Link;
            } else if same_str(arg, "-S") {
                return CompilerAction::EmitAsm;
            } else if same_str(arg, "-c") {
                return CompilerAction::Compile;
            }
            i = i + 1;
        }
        CompilerAction::Other
    }

    /// The kind of tool that `e` runs; see [`ToolKind::from`].
    pub fn tool_kind(&self, e: &Exec) -> (r: ToolKind)
        requires
            self.wf(),
        ensures
            r == tool_kind(e.path@, e.args.deep_view()),
    {
        let file = match file_name(e.path.as_str()) {
            Some(f) => f,
            None => {
                return ToolKind::Unknown;
            },
        };
        let f = file.as_str();
        if self.c_compiler_name(f) {
            ToolKind::CCompiler(self.action(&e.args))
        } else if self.cxx_compiler_name(f) {
            ToolKind::CXXCompiler(self.action(&e.args))
        } else if self.ld.is_match(f) {
            ToolKind::Linker
        } else if same_str(f, "ar") {
            ToolKind::Archiver
        } else if self.wrapper_name(f) {
            ToolKind::CompilerWrapper
        } else {
            ToolKind::Unknown
        }
    }
}

// ---------------------------------------------------------------- kinds

/// What a compiler invocation does.
#[derive(Debug, PartialEq, Eq, Structural, Clone, Copy)]
pub enum CompilerAction {
    Compile,
    EmitAsm,
    Link,
    Other,
}

/// The kind of tool that a traced invocation runs.
#[derive(Debug, PartialEq, Eq, Structural, Clone, Copy)]
pub enum ToolKind {
    CCompiler(CompilerAction),
    CXXCompiler(CompilerAction),
    CompilerWrapper,
    Linker,
    Archiver,
    Unknown,
}

/// What a single argument says of the action, if anything.
pub open spec fn arg_action(a: Seq<char>) -> Option<CompilerAction> {
    if regex_matches(LINKING_ARG@, a) {
        Some(CompilerAction::Link)
    } else if a == "-S"@ {
        Some(CompilerAction::EmitAsm)
    } else if a == "-c"@ {
        Some(CompilerAction::Compile)
    } else {
        None
    }
}

/// The action given by the first argument at or after `i` that says one.
pub open spec fn action_from(args: Seq<Seq<char>>, i: int) -> CompilerAction
    decreases args.len() - i,
{
    if 0 <= i < args.len() {
        match arg_action(args[i]) {
            Some(a) => a,
            None => action_from(args, i + 1),
        }
    } else {
        CompilerAction::Other
    }
}

/// The kind of an invocation of `path` with `args`.
pub open spec fn tool_kind(path: Seq<char>, args: Seq<Seq<char>>) -> ToolKind {
    match file_name_of(path) {
        Some(f) => if is_c_compiler_name(f) {
            ToolKind::CCompiler(action_from(args, 0))
        } else if is_cxx_compiler_name(f) {
            ToolKind::CXXCompiler(action_from(args, 0))
        } else if is_linker_name(f) {
            ToolKind::Linker
        } else if is_archiver_name(f) {
            ToolKind::Archiver
        } else if is_wrapper_name(f) {
            ToolKind::CompilerWrapper
        } else {
            ToolKind::Unknown
        },
        None => ToolKind::Unknown,
    }
}

impl CompilerAction {
    /// The action of a compiler run with `args`: that of the first argument
    /// that is a linking flag (`Link`), `-S` (`EmitAsm`) or `-c` (`Compile`);
    /// `Other` where there is none.
    pub fn from(args: &Vec<String>) -> (r: Self)
        ensures
            r == action_from(args.deep_view(), 0),
    {
        Classifier::new().action(args)
    }
}

impl ToolKind {
    /// The kind of tool that `e` runs, by the file name of its path and, for
    /// a compiler, by its arguments. To classify many invocations, build a
    /// [`Classifier`] once and call [`Classifier::tool_kind`].
    pub fn from(e: &Exec) -> (r: Self)
        ensures
            r == tool_kind(e.path@, e.args.deep_view()),
    {
        Classifier::new().tool_kind(e)
    }

    /// Whether this is a compiler whose action is to compile.
    pub fn is_compile(&self) -> (r: bool)
        ensures
            r == (self == ToolKind::CCompiler(CompilerAction::Compile) || self
                == ToolKind::CXXCompiler(CompilerAction::Compile)),
    {
        match self {
            ToolKind::CCompiler(CompilerAction::Compile) => true,
            ToolKind::CXXCompiler(CompilerAction::Compile) => true,
            _ => false,
        }
    }
}

} // verus!
