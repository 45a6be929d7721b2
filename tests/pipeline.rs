use rstrace::pipeline::process_lines;
use rstrace::tools::cc::compile_commands;
use rstrace::tools::{CompilerAction, ToolKind};

fn lines(xs: &[&str]) -> Vec<String> {
    xs.iter().map(|s| s.to_string()).collect()
}

const LOG: &[&str] = &[
    "execve(\"/usr/bin/make\", [\"make\"], [\"PWD=/proj\"]) = 0",
    "execve(\"/usr/bin/gcc\", [\"gcc\", \"-c\", \"-o\", \"main.o\", \"main.c\"], [\"PWD=/proj\"]) = 0",
    "--- SIGCHLD {si_signo=SIGCHLD} ---",
    "execve(\"/usr/bin/gcc\", [\"gcc\", \"-o\", \"app\", \"main.o\", \"-lm\"], [\"PWD=/proj\"]) = 0",
    "+++ exited with 0 +++",
];

#[test]
fn end_to_end_single_entry() {
    let selection = process_lines(&lines(LOG));
    assert_eq!(
        selection.errors,
        vec!["failed to parse:\n --- SIGCHLD {si_signo=SIGCHLD} ---".to_string()]
    );
    let selected = selection.invocations;
    assert_eq!(selected.len(), 1);
    assert_eq!(selected[0].1, ToolKind::CCompiler(CompilerAction::Compile));
    let d = compile_commands(selected).unwrap();
    assert_eq!(d.entries.len(), 1);
    let c = &d.entries[0];
    assert_eq!(c.directory, "/proj");
    assert_eq!(c.file, "main.c");
    assert_eq!(c.arguments, lines(&["cc", "-c", "-o", "main.o", "main.c"]));
    assert!(d.malformed.is_empty());
}

#[test]
fn rerun_gives_same_entries() {
    let log = lines(&[
        "execve(\"/usr/bin/gcc\", [\"gcc\", \"-c\", \"a.c\"], [\"PWD=/p\"]) = 0",
        "execve(\"/usr/bin/clang++\", [\"clang++\", \"-c\", \"./b.cpp\"], [\"PWD=/p\"]) = 0",
    ]);
    let first = compile_commands(process_lines(&log).invocations).unwrap();
    let second = compile_commands(process_lines(&log).invocations).unwrap();
    assert_eq!(first.entries, second.entries);
    assert_eq!(first.entries[0].file, "a.c");
    assert_eq!(first.entries[1].file, "b.cpp");
    assert_eq!(first.entries[1].arguments, lines(&["c++", "-c", "b.cpp"]));
}

#[test]
fn logs_joined_give_joined_entries() {
    let a = lines(&["execve(\"/usr/bin/gcc\", [\"gcc\", \"-c\", \"a.c\"], [\"PWD=/p\"]) = 0"]);
    let b = lines(&["execve(\"/usr/bin/cc\", [\"cc\", \"-c\", \"b.c\"], [\"PWD=/q\"]) = 0"]);
    let mut ab = a.clone();
    ab.extend(b.clone());
    let joined = compile_commands(process_lines(&ab).invocations).unwrap();
    let mut apart = compile_commands(process_lines(&a).invocations).unwrap().entries;
    apart.extend(compile_commands(process_lines(&b).invocations).unwrap().entries);
    assert_eq!(joined.entries, apart);
}
