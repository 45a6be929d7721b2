use rstrace::exec::Exec;
use rstrace::tools::cc::{
    compile_commands, filter_args, filter_execs, is_source, CompileCmd, EntryError,
};
use rstrace::tools::{CompilerAction, ToolKind};

fn v(xs: &[&str]) -> Vec<String> {
    xs.iter().map(|s| s.to_string()).collect()
}

fn exec(path: &str, args: &[&str], pwd: Option<&str>) -> Exec {
    Exec {
        path: path.to_string(),
        args: v(args),
        env: match pwd {
            Some(d) => vec![("HOME".to_string(), "/root".to_string()), ("PWD".to_string(), d.to_string())],
            None => vec![],
        },
        retcode: 0,
    }
}

#[test]
fn filter_drops_dependency_flags() {
    let (args, file) =
        filter_args(&v(&["cc", "-MD", "-MF", "dep.d", "-Dfoo=1", "-Ifoo", "main.c"])).unwrap();
    assert_eq!(args, v(&["cc", "-Dfoo=1", "-Ifoo", "main.c"]));
    assert_eq!(file, Some("main.c".to_string()));
}

#[test]
fn filter_strips_dot_slash() {
    let (args, file) = filter_args(&v(&["c++", "-c", "./main.cpp"])).unwrap();
    assert_eq!(args, v(&["c++", "main.cpp"]));
    assert_eq!(file, Some("main.cpp".to_string()));
}

#[test]
fn filter_keeps_define_and_include_values() {
    let (args, file) = filter_args(&v(&["cc", "-D", "X=1", "-I", "inc", "-lm", "a.c", "b.cc"])).unwrap();
    assert_eq!(args, v(&["cc", "-D", "X=1", "-I", "inc", "-lm", "a.c", "b.cc"]));
    assert_eq!(file, Some("b.cc".to_string()));
}

#[test]
fn filter_drops_link_flags_with_values() {
    let (args, file) =
        filter_args(&v(&["cc", "-static", "-L", "/lib", "-l", "m", "-Xlinker", "-x", "-o", "a.out"])).unwrap();
    assert_eq!(args, v(&["cc", "-o", "a.out"]));
    assert_eq!(file, None);
}

#[test]
fn filter_reports_flag_without_value() {
    assert_eq!(filter_args(&v(&["cc", "main.c", "-MF"])), Err(EntryError::MalformedInvocation));
    assert_eq!(filter_args(&v(&["cc", "main.c", "-D"])), Err(EntryError::MalformedInvocation));
    assert_eq!(filter_args(&v(&[])), Ok((vec![], None)));
}

#[test]
fn source_extensions() {
    assert!(is_source("main.c"));
    assert!(is_source("dir/x.cpp"));
    assert!(is_source("y.C++"));
    assert!(!is_source("main.o"));
    assert!(!is_source("main.s"));
    assert!(!is_source("Makefile"));
}

#[test]
fn filter_execs_keeps_compiling_compilers() {
    let e = exec("/usr/bin/gcc", &["gcc", "-c", "main.c"], Some("/proj"));
    let (x, t) = filter_execs(e).unwrap();
    assert_eq!(t, ToolKind::CCompiler(CompilerAction::Compile));
    assert_eq!(x.path, "/usr/bin/gcc");
    assert!(filter_execs(exec("/usr/bin/gcc", &["gcc", "main.o", "-o", "a"], Some("/proj"))).is_none());
    assert!(filter_execs(exec("/usr/bin/ld", &["ld", "-c"], Some("/proj"))).is_none());
}

#[test]
fn entry_for_single_file_compile() {
    let e = exec("/usr/bin/gcc", &["gcc", "-c", "-o", "main.o", "main.c"], Some("/proj"));
    let c = CompileCmd::try_from(&e, ToolKind::CCompiler(CompilerAction::Compile))
        .unwrap()
        .unwrap();
    assert_eq!(c.directory, "/proj");
    assert_eq!(c.file, "main.c");
    assert_eq!(c.arguments, v(&["cc", "-c", "-o", "main.o", "main.c"]));
    assert_eq!(c.command, None);
    assert_eq!(c.output, None);
}

#[test]
fn entry_label_for_cxx() {
    let e = exec("/usr/bin/g++", &["g++", "-c", "x.cpp"], Some("/w"));
    let c = CompileCmd::try_from(&e, ToolKind::CXXCompiler(CompilerAction::Compile))
        .unwrap()
        .unwrap();
    assert_eq!(c.arguments, v(&["c++", "-c", "x.cpp"]));
}

#[test]
fn entry_errors() {
    let t = ToolKind::CCompiler(CompilerAction::Compile);
    let no_pwd = exec("/usr/bin/gcc", &["gcc", "-c", "main.c"], None);
    assert_eq!(CompileCmd::try_from(&no_pwd, t), Err(EntryError::MissingWorkingDirectory));
    let no_source = exec("/usr/bin/gcc", &["gcc", "-c", "main.s"], Some("/p"));
    assert_eq!(CompileCmd::try_from(&no_source, t), Ok(None));
    let malformed = exec("/usr/bin/gcc", &["gcc", "-c", "main.c", "-MT"], Some("/p"));
    assert_eq!(CompileCmd::try_from(&malformed, t), Err(EntryError::MalformedInvocation));
}

#[test]
fn database_of_invocations() {
    let t = ToolKind::CCompiler(CompilerAction::Compile);
    let v_in = vec![
        (exec("/usr/bin/gcc", &["gcc", "-c", "a.c"], Some("/p")), t),
        (exec("/usr/bin/gcc", &["gcc", "-c", "b.c", "-MF"], Some("/p")), t),
        (exec("/usr/bin/gcc", &["gcc", "-c", "b.s"], None), t),
        (exec("/usr/bin/g++", &["g++", "-c", "c.cc"], Some("/q")), ToolKind::CXXCompiler(CompilerAction::Compile)),
    ];
    let d = compile_commands(v_in).unwrap();
    assert_eq!(d.entries.len(), 2);
    assert_eq!(d.entries[0].file, "a.c");
    assert_eq!(d.entries[1].file, "c.cc");
    assert_eq!(d.entries[1].directory, "/q");
    assert_eq!(d.malformed.len(), 1);
    assert_eq!(d.malformed[0].args, v(&["gcc", "-c", "b.c", "-MF"]));
}

#[test]
fn database_fails_without_working_directory() {
    let t = ToolKind::CCompiler(CompilerAction::Compile);
    let v_in = vec![
        (exec("/usr/bin/gcc", &["gcc", "-c", "a.c"], Some("/p")), t),
        (exec("/usr/bin/gcc", &["gcc", "-c", "b.c"], None), t),
    ];
    assert_eq!(compile_commands(v_in).err(), Some(EntryError::MissingWorkingDirectory));
}
