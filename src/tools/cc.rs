//! Compile commands: the arguments that matter for compiling one source
//! file, and the entries of a compilation database.

use vstd::prelude::*;
use crate::exec::{Exec, ExecView};
use crate::text::{chars_of, same_str, string_of};
use crate::tools::{regex_matches, CompilerAction, Pattern, ToolKind};

verus! {

/// The extension of a path, if it has one.
pub uninterp spec fn extension_of(path: Seq<char>) -> Option<Seq<char>>;

/// Relies on `std::path::Path::extension`: the extension of the file name of
/// `path`, which depends on the path alone.
#[verifier::external_body]
fn extension(path: &str) -> (r: Option<String>)
    ensures
        match r {
            Some(x) => extension_of(path@) == Some(x@),
            None => extension_of(path@) is None,
        },
{
    std::path::Path::new(path).extension().and_then(|x| x.to_str()).map(|x| x.to_string())
}

/// An argument that may name a file: it does not begin with `-`.
pub const FILE: &'static str = r"^[^-].+";

// ---------------------------------------------------------------- source files

/// An extension of C, C++ or Objective-C source.
pub open spec fn is_source_ext(x: Seq<char>) -> bool {
    x == "c"@ || x == "i"@ || x == "ii"@ || x == "m"@ || x == "mm"@ || x == "mii"@ || x == "C"@
        || x == "cc"@ || x == "CC"@ || x == "cp"@ || x == "cpp"@ || x == "cxx"@ || x == "c++"@
        || x == "C++"@ || x == "t++"@ || x == "txx"@
}

/// A path whose extension is one of a source file.
pub open spec fn is_source_path(p: Seq<char>) -> bool {
    match extension_of(p) {
        Some(x) => is_source_ext(x),
        None => false,
    }
}

/// Whether `x` is the extension of a source file.
fn source_ext(x: &str) -> (r: bool)
    ensures
        r == is_source_ext(x@),
{
    same_str(x, "c") || same_str(x, "i") || same_str(x, "ii") || same_str(x, "m") || same_str(
        x,
        "mm",
    ) || same_str(x, "mii") || same_str(x, "C") || same_str(x, "cc") || same_str(x, "CC")
        || same_str(x, "cp") || same_str(x, "cpp") || same_str(x, "cxx") || same_str(x, "c++")
        || same_str(x, "C++") || same_str(x, "t++") || same_str(x, "txx")
}

/// Whether `file` has the extension of a source file.
pub fn is_source(file: &str) -> (r: bool)
    ensures
        r == is_source_path(file@),
{
    match extension(file) {
        Some(x) => source_ext(x.as_str()),
        None => false,
    }
}

// ---------------------------------------------------------------- argument filter

/// Why an invocation gives no entry of the database.
#[derive(Debug, PartialEq, Eq, Structural, Clone, Copy)]
pub enum EntryError {
    /// A flag that takes a value is the last argument.
    MalformedInvocation,
    /// The environment holds no working directory.
    MissingWorkingDirectory,
}

/// The number of values taken by a flag that is left out of a compile
/// command, or `None` for any other argument.
pub open spec fn ignored_arity(a: Seq<char>) -> Option<nat> {
    if a == "-c"@ || a == "-MD"@ || a == "-MMD"@ || a == "-MG"@ || a == "-MP"@ || a == "-static"@
        || a == "-shared"@ || a == "-s"@ || a == "-rdynamic"@ {
        Some(0)
    } else if a == "-MF"@ || a == "-MT"@ || a == "-MQ"@ || a == "-l"@ || a == "-L"@ || a == "-u"@
        || a == "-z"@ || a == "-T"@ || a == "-Xlinker"@ {
        Some(1)
    } else {
        None
    }
}

/// A flag that is kept together with the value that follows it.
pub open spec fn keeps_value(a: Seq<char>) -> bool {
    a == "-D"@ || a == "-I"@
}

/// An argument that names a source file.
pub open spec fn is_source_arg(a: Seq<char>) -> bool {
    regex_matches(FILE@, a) && is_source_path(a)
}

/// `a` without a leading `./`.
pub open spec fn strip_dot_slash(a: Seq<char>) -> Seq<char> {
    if a.len() >= 2 && a[0] == '.' && a[1] == '/' {
        a.subrange(2, a.len() as int)
    } else {
        a
    }
}

/// `r` with the arguments `xs` put first, and with the file `f` where `r`
/// names none.
pub open spec fn prepend_args(
    xs: Seq<Seq<char>>,
    f: Option<Seq<char>>,
    r: Option<(Seq<Seq<char>>, Option<Seq<char>>)>,
) -> Option<(Seq<Seq<char>>, Option<Seq<char>>)> {
    match r {
        Some((ys, g)) => Some((xs + ys, if g is Some { g } else { f })),
        None => None,
    }
}

/// The arguments from `i` on that a compile command keeps, with the last
/// source file among them; `None` where a flag lacks its value.
pub open spec fn filter_from(a: Seq<Seq<char>>, i: int) -> Option<
    (Seq<Seq<char>>, Option<Seq<char>>),
>
    decreases a.len() - i,
{
    if i < 0 || i >= a.len() {
        Some((seq![], None))
    } else {
        let x = a[i];
        match ignored_arity(x) {
            Some(n) => if i + n < a.len() {
                filter_from(a, i + 1 + n)
            } else {
                None
            },
            None => if keeps_value(x) {
                if i + 1 < a.len() {
                    prepend_args(seq![x, a[i + 1]], None, filter_from(a, i + 2))
                } else {
                    None
                }
            } else if is_source_arg(x) {
                prepend_args(seq![strip_dot_slash(x)], Some(strip_dot_slash(x)), filter_from(a, i + 1))
            } else {
                prepend_args(seq![x], None, filter_from(a, i + 1))
            },
        }
    }
}

/// The arguments that a compile command keeps, with the source file.
pub open spec fn filter_spec(a: Seq<Seq<char>>) -> Option<(Seq<Seq<char>>, Option<Seq<char>>)> {
    filter_from(a, 0)
}

/// An optional string as a value.
pub open spec fn opt_view(f: Option<String>) -> Option<Seq<char>> {
    match f {
        Some(s) => Some(s@),
        None => None,
    }
}

/// The result of the filter as a value.
pub open spec fn filtered_view(r: Result<(Vec<String>, Option<String>), EntryError>) -> Option<
    (Seq<Seq<char>>, Option<Seq<char>>),
> {
    match r {
        Ok((xs, f)) => Some((xs.deep_view(), opt_view(f))),
        Err(_) => None,
    }
}

proof fn lemma_prepend_args_twice(
    xs: Seq<Seq<char>>,
    f: Option<Seq<char>>,
    ys: Seq<Seq<char>>,
    g: Option<Seq<char>>,
    r: Option<(Seq<Seq<char>>, Option<Seq<char>>)>,
)
    ensures
        prepend_args(xs, f, prepend_args(ys, g, r)) == prepend_args(
            xs + ys,
            if g is Some { g } else { f },
            r,
        ),
{
    if let Some((zs, h)) = r {
        assert(xs + (ys + zs) =~= (xs + ys) + zs);
    }
}

/// The number of values taken by a flag that is left out of a compile command.
fn ignored_flag_arity(a: &str) -> (r: Option<usize>)
    ensures
        match ignored_arity(a@) {
            Some(n) => r == Some(n as usize),
            None => r is None,
        },
{
    if same_str(a, "-c") || same_str(a, "-MD") || same_str(a, "-MMD") || same_str(a, "-MG")
        || same_str(a, "-MP") || same_str(a, "-static") || same_str(a, "-shared") || same_str(
        a,
        "-s",
    ) || same_str(a, "-rdynamic") {
        Some(0)
    } else if same_str(a, "-MF") || same_str(a, "-MT") || same_str(a, "-MQ") || same_str(a, "-l")
        || same_str(a, "-L") || same_str(a, "-u") || same_str(a, "-z") || same_str(a, "-T")
        || same_str(a, "-Xlinker") {
        Some(1)
    } else {
        None
    }
}

/// `a` without a leading `./`.
fn without_dot_slash(a: &str) -> (r: String)
    ensures
        r@ == strip_dot_slash(a@),
{
    let v = chars_of(a);
    if v.len() >= 2 && v[0] == '.' && v[1] == '/' {
        string_of(&v, 2, v.len())
    } else {
        string_of(&v, 0, v.len())
    }
}

/// The arguments of a compiler invocation that matter for compiling: flags
/// that only generate dependencies or only concern linking are left out
/// with their values, and so is `-c`; `-D` and `-I` are kept with their
/// values; every other argument is kept, and one that names a source file,
/// without a leading `./`, is also the source file (the last such wins).
/// A flag that takes a value and is the last argument makes the invocation
/// malformed.
pub fn filter_args(args: &Vec<String>) -> (r: Result<(Vec<String>, Option<String>), EntryError>)
    ensures
        filtered_view(r) == filter_spec(args.deep_view()),
        r matches Err(e) ==> e == EntryError::MalformedInvocation,
{
    let ghost a = args.deep_view();
    let file_pattern = Pattern::new(FILE);
    let mut out: Vec<String> = Vec::new();
    let mut file: Option<String> = None;
    let mut i: usize = 0;
    while i < args.len()
        invariant
            i <= args.len(),
            a == args.deep_view(),
            file_pattern.source() == FILE@,
            filter_from(a, 0) == prepend_args(out.deep_view(), opt_view(file), filter_from(a, i as int)),
        decreases args.len() - i,
    {
        let arg = args[i].as_str();
        assert(arg@ == a[i as int]);
        let ghost before = out.deep_view();
        let ghost fb = opt_view(file);
        match ignored_flag_arity(arg) {
            Some(n) => {
                if n >= args.len() - i {
                    return Err(EntryError::MalformedInvocation);
                }
                i = i + 1 + n;
            },
            None => {
                if same_str(arg, "-D") || same_str(arg, "-I") {
                    if i + 1 >= args.len() {
                        return Err(EntryError::MalformedInvocation);
                    }
                    out.push(args[i].clone());
                    out.push(args[i + 1].clone());
                    proof {
                        assert(out.deep_view() =~= before + seq![a[i as int], a[i + 1]]);
                        lemma_prepend_args_twice(before, fb, seq![a[i as int], a[i + 1]], None, filter_from(a, i + 2));
                    }
                    i = i + 2;
                } else if file_pattern.is_match(arg) && is_source(arg) {
                    let f = without_dot_slash(arg);
                    let ghost fv = f@;
                    out.push(f.clone());
                    file = Some(f);
                    proof {
                        assert(out.deep_view() =~= before + seq![fv]);
                        lemma_prepend_args_twice(before, fb, seq![fv], Some(fv), filter_from(a, i + 1));
                    }
                    i = i + 1;
                } else {
                    out.push(args[i].clone());
                    proof {
                        assert(out.deep_view() =~= before + seq![a[i as int]]);
                        lemma_prepend_args_twice(before, fb, seq![a[i as int]], None, filter_from(a, i + 1));
                    }
                    i = i + 1;
                }
            },
        }
    }
    assert(out.deep_view() + seq![] =~= out.deep_view());
    Ok((out, file))
}

/// Where the filter names a source file, it keeps at least one argument.
pub proof fn lemma_file_is_kept(a: Seq<Seq<char>>, i: int)
    requires
        filter_from(a, i) matches Some((xs, f)) && f is Some,
    ensures
        filter_from(a, i) matches Some((xs, f)) && xs.len() > 0,
    decreases a.len() - i,
{
    if 0 <= i < a.len() {
        let x = a[i];
        match ignored_arity(x) {
            Some(n) => {
                lemma_file_is_kept(a, i + 1 + n);
            },
            None => {},
        }
    }
}

// ---------------------------------------------------------------- entries

/// One entry of a compilation database.
#[derive(Debug, PartialEq)]
pub struct CompileCmd {
    /// The working directory of the compilation.
    pub directory: String,
    /// The source file that is compiled.
    pub file: String,
    /// The command as one string; never set here.
    pub command: Option<String>,
    /// The command as a list of arguments.
    pub arguments: Vec<String>,
    /// The file that the compilation writes; never set here.
    pub output: Option<String>,
}

/// The value of a [`CompileCmd`].
pub struct CompileCmdView {
    pub directory: Seq<char>,
    pub file: Seq<char>,
    pub command: Option<Seq<char>>,
    pub arguments: Seq<Seq<char>>,
    pub output: Option<Seq<char>>,
}

impl View for CompileCmd {
    type V = CompileCmdView;

    open spec fn view(&self) -> CompileCmdView {
        CompileCmdView {
            directory: self.directory@,
            file: self.file@,
            command: opt_view(self.command),
            arguments: self.arguments.deep_view(),
            output: opt_view(self.output),
        }
    }
}

/// The value of the first `PWD` entry of `env` at or after `i`.
pub open spec fn working_dir_from(env: Seq<(Seq<char>, Seq<char>)>, i: int) -> Option<Seq<char>>
    decreases env.len() - i,
{
    if 0 <= i < env.len() {
        if env[i].0 == "PWD"@ {
            Some(env[i].1)
        } else {
            working_dir_from(env, i + 1)
        }
    } else {
        None
    }
}

/// The working directory that an environment records.
pub open spec fn working_dir(env: Seq<(Seq<char>, Seq<char>)>) -> Option<Seq<char>> {
    working_dir_from(env, 0)
}

/// The name that stands first in the command of a compiler of kind `t`.
pub open spec fn compiler_label(t: ToolKind) -> Seq<char> {
    match t {
        ToolKind::CXXCompiler(_) => "c++"@,
        _ => "cc"@,
    }
}

/// Whether `t` is a C or C++ compiler.
pub open spec fn is_compiler(t: ToolKind) -> bool {
    t is CCompiler || t is CXXCompiler
}

/// The entry for `e`, run as a compiler of kind `t`: `Ok(None)` where it
/// names no source file.
pub open spec fn entry_spec(e: ExecView, t: ToolKind) -> Result<Option<CompileCmdView>, EntryError> {
    match filter_spec(e.args) {
        None => Err(EntryError::MalformedInvocation),
        Some((xs, None)) => Ok(None),
        Some((xs, Some(f))) => match working_dir(e.env) {
            None => Err(EntryError::MissingWorkingDirectory),
            Some(d) => Ok(
                Some(
                    CompileCmdView {
                        directory: d,
                        file: f,
                        command: None,
                        arguments: seq![compiler_label(t), "-c"@] + xs.skip(1),
                        output: None,
                    },
                ),
            ),
        },
    }
}

/// The result of building an entry, as a value.
pub open spec fn entry_view(r: Result<Option<CompileCmd>, EntryError>) -> Result<
    Option<CompileCmdView>,
    EntryError,
> {
    match r {
        Ok(Some(c)) => Ok(Some(c@)),
        Ok(None) => Ok(None),
        Err(x) => Err(x),
    }
}

/// The working directory that `env` records.
pub fn find_working_dir(env: &Vec<(String, String)>) -> (r: Option<String>)
    ensures
        opt_view(r) == working_dir(env.deep_view()),
{
    let ghost d = env.deep_view();
    let mut i: usize = 0;
    while i < env.len()
        invariant
            i <= env.len(),
            d == env.deep_view(),
            working_dir(d) == working_dir_from(d, i as int),
        decreases env.len() - i,
    {
        if same_str(env[i].0.as_str(), "PWD") {
            return Some(env[i].1.clone());
        }
        i = i + 1;
    }
    None
}

impl CompileCmd {
    /// The entry for `e`, run as the compiler `t`: its directory is the
    /// working directory of `e`, its file the source file that the filter
    /// found, and its arguments those the filter kept, with the first
    /// replaced by `cc` or `c++` and followed by `-c`. `Ok(None)` where `e`
    /// names no source file.
    pub fn try_from(e: &Exec, t: ToolKind) -> (r: Result<Option<Self>, EntryError>)
        requires
            is_compiler(t),
        ensures
            entry_view(r) == entry_spec(e@, t),
    {
        let (mut arguments, file) = match filter_args(&e.args) {
            Ok(p) => p,
            Err(x) => {
                return Err(x);
            },
        };
        let file = match file {
            Some(f) => f,
            None => {
                return Ok(None);
            },
        };
        let directory = match find_working_dir(&e.env) {
            Some(d) => d,
            None => {
                return Err(EntryError::MissingWorkingDirectory);
            },
        };
        proof {
            lemma_file_is_kept(e@.args, 0);
        }
        let ghost kept = arguments.deep_view();
        let label = match t {
            ToolKind::CXXCompiler(_) => "c++".to_owned(),
            _ => "cc".to_owned(),
        };
        arguments.set(0, label);
        arguments.insert(1, "-c".to_owned());
        assert(arguments.deep_view() =~= seq![compiler_label(t), "-c"@] + kept.skip(1));
        Ok(Some(CompileCmd { directory, file, command: None, arguments, output: None }))
    }
}

/// Keeps `e` with its kind where it runs a C or C++ compiler to compile.
pub fn filter_execs(e: Exec) -> (r: Option<(Exec, ToolKind)>)
    ensures
        match r {
            Some((x, t)) => x == e && t == crate::tools::tool_kind(e.path@, e.args.deep_view())
                && (t == ToolKind::CCompiler(CompilerAction::Compile) || t == ToolKind::CXXCompiler(
                CompilerAction::Compile,
            )),
            None => !(crate::tools::tool_kind(e.path@, e.args.deep_view()) == ToolKind::CCompiler(
                CompilerAction::Compile,
            ) || crate::tools::tool_kind(e.path@, e.args.deep_view()) == ToolKind::CXXCompiler(
                CompilerAction::Compile,
            )),
        },
{
    let tk = ToolKind::from(&e);
    if tk.is_compile() {
        Some((e, tk))
    } else {
        None
    }
}

// ---------------------------------------------------------------- database

/// The entries of a compilation database, with the invocations that were
/// left out because a flag lacked its value.
pub struct CompileCommands {
    /// The entries, in the order of their invocations.
    pub entries: Vec<CompileCmd>,
    /// The invocations in which a flag lacked its value.
    pub malformed: Vec<Exec>,
}

/// A database under construction, as a value: its entries and the
/// malformed invocations; `None` once an invocation lacked its working
/// directory.
pub type BuildView = Option<(Seq<CompileCmdView>, Seq<ExecView>)>;

/// Compiler invocations with their kinds, as values.
pub open spec fn pairs_view(v: Seq<(Exec, ToolKind)>) -> Seq<(ExecView, ToolKind)> {
    v.map_values(|p: (Exec, ToolKind)| (p.0@, p.1))
}

/// Entries as values.
pub open spec fn cmds_view(v: Seq<CompileCmd>) -> Seq<CompileCmdView> {
    v.map_values(|c: CompileCmd| c@)
}

/// Invocations as values.
pub open spec fn execs_view(v: Seq<Exec>) -> Seq<ExecView> {
    v.map_values(|e: Exec| e@)
}

/// `b` added to the database `d`.
pub open spec fn add_entry(d: BuildView, b: (ExecView, ToolKind)) -> BuildView {
    match d {
        None => None,
        Some((es, bad)) => match entry_spec(b.0, b.1) {
            Ok(Some(c)) => Some((es.push(c), bad)),
            Ok(None) => Some((es, bad)),
            Err(EntryError::MalformedInvocation) => Some((es, bad.push(b.0))),
            Err(EntryError::MissingWorkingDirectory) => None,
        },
    }
}

/// The database built from the compiler invocations `v`, in order.
pub open spec fn build_spec(v: Seq<(ExecView, ToolKind)>) -> BuildView
    decreases v.len(),
{
    if v.len() == 0 {
        Some((seq![], seq![]))
    } else {
        add_entry(build_spec(v.drop_last()), v.last())
    }
}

/// The compilation database for the compiler invocations `v`, in their
/// order: an entry for each that names a source file, and a list of those
/// whose arguments are malformed. An invocation with a source file and no
/// working directory makes the whole database fail.
pub fn compile_commands(v: Vec<(Exec, ToolKind)>) -> (r: Result<CompileCommands, EntryError>)
    requires
        forall|i: int| 0 <= i < v.len() ==> is_compiler(#[trigger] v@[i].1),
    ensures
        match r {
            Ok(d) => build_spec(pairs_view(v@)) == Some(
                (cmds_view(d.entries@), execs_view(d.malformed@)),
            ),
            Err(x) => build_spec(pairs_view(v@)) is None && x
                == EntryError::MissingWorkingDirectory,
        },
{
    let ghost pv = pairs_view(v@);
    let mut entries: Vec<CompileCmd> = Vec::new();
    let mut malformed: Vec<Exec> = Vec::new();
    for p in it: v.into_iter()
        invariant
            it.seq() == v@,
            pv == pairs_view(v@),
            forall|i: int| 0 <= i < v.len() ==> is_compiler(#[trigger] v@[i].1),
            build_spec(pv.take(it.index() as int)) == Some(
                (cmds_view(entries@), execs_view(malformed@)),
            ),
    {
        let ghost k = it.index() as int;
        let (e, t) = p;
        assert(pv.take(k + 1).drop_last() =~= pv.take(k));
        assert(pv.take(k + 1).last() == (e@, t));
        match CompileCmd::try_from(&e, t) {
            Ok(Some(c)) => {
                entries.push(c);
                assert(cmds_view(entries@) =~= cmds_view(entries@.drop_last()).push(c@));
            },
            Ok(None) => {},
            Err(EntryError::MalformedInvocation) => {
                malformed.push(e);
                assert(execs_view(malformed@) =~= execs_view(malformed@.drop_last()).push(e@));
            },
            Err(x) => {
                proof {
                    lemma_failed_build_stays_failed(pv, k + 1);
                }
                return Err(x);
            },
        }
    }
    assert(pv.take(v@.len() as int) =~= pv);
    Ok(CompileCommands { entries, malformed })
}

/// Once the build has failed on a prefix, it fails on the whole.
proof fn lemma_failed_build_stays_failed(v: Seq<(ExecView, ToolKind)>, n: int)
    requires
        0 <= n <= v.len(),
        build_spec(v.take(n)) is None,
    ensures
        build_spec(v) is None,
    decreases v.len() - n,
{
    if n < v.len() {
        assert(v.take(n + 1).drop_last() =~= v.take(n));
        lemma_failed_build_stays_failed(v, n + 1);
    } else {
        assert(v.take(n) =~= v);
    }
}

} // verus!
