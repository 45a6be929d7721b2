use rstrace::compare::{compare_cmds, CompareError, MismatchKind};
use rstrace::tools::cc::CompileCmd;

fn cmd(dir: &str, file: &str, args: &[&str]) -> CompileCmd {
    CompileCmd {
        directory: dir.to_string(),
        file: file.to_string(),
        command: None,
        arguments: args.iter().map(|s| s.to_string()).collect(),
        output: None,
    }
}

fn db() -> Vec<CompileCmd> {
    vec![
        cmd("/p", "a.c", &["cc", "-c", "a.c"]),
        cmd("/p", "b.c", &["cc", "-c", "b.c"]),
        cmd("/q", "c.cc", &["c++", "-c", "c.cc"]),
    ]
}

#[test]
fn reordered_database_is_equal() {
    let a = db();
    let mut b = db();
    b.reverse();
    assert!(compare_cmds(&a, &b).is_ok());
    assert!(compare_cmds(&a, &db()).is_ok());
}

#[test]
fn duplicate_entry_is_a_count_mismatch() {
    let a = db();
    let mut b = db();
    b.push(cmd("/p", "a.c", &["cc", "-c", "a.c"]));
    let m = compare_cmds(&a, &b).unwrap_err();
    assert_eq!(m.kind, MismatchKind::Count);
    assert!(m.missing.is_empty());
    assert!(m.extra.is_empty());
    assert_eq!(m.error().details, "reference and test inputs differ in number of commands.");
}

#[test]
fn same_length_other_multiplicities_mismatch() {
    let a = vec![cmd("/p", "a.c", &["cc"]), cmd("/p", "a.c", &["cc"]), cmd("/p", "b.c", &["cc"])];
    let b = vec![cmd("/p", "a.c", &["cc"]), cmd("/p", "b.c", &["cc"]), cmd("/p", "b.c", &["cc"])];
    assert_eq!(compare_cmds(&a, &b).unwrap_err().kind, MismatchKind::Count);
}

#[test]
fn missing_entries_are_listed() {
    let a = db();
    let b = vec![cmd("/p", "b.c", &["cc", "-c", "b.c"])];
    let m = compare_cmds(&a, &b).unwrap_err();
    assert_eq!(m.kind, MismatchKind::Missing);
    assert!(m.extra.is_empty());
    assert_eq!(m.missing, vec![cmd("/p", "a.c", &["cc", "-c", "a.c"]), cmd("/q", "c.cc", &["c++", "-c", "c.cc"])]);
    assert_eq!(
        m.error().details,
        "2 commands from reference input are missing from test input"
    );
}

#[test]
fn extra_entries_are_listed() {
    let a = db();
    let mut b = db();
    b.push(cmd("/r", "d.c", &["cc", "-c", "d.c"]));
    b.push(cmd("/r", "d.c", &["cc", "-c", "d.c"]));
    let m = compare_cmds(&a, &b).unwrap_err();
    assert_eq!(m.kind, MismatchKind::Extra);
    assert!(m.missing.is_empty());
    assert_eq!(m.extra, vec![cmd("/r", "d.c", &["cc", "-c", "d.c"])]);
    assert_eq!(
        m.error().details,
        "1 commands in test input are not in the reference input"
    );
}

#[test]
fn entries_differ_by_output_or_arguments() {
    let a = vec![cmd("/p", "a.c", &["cc", "-c", "a.c"])];
    let mut c = cmd("/p", "a.c", &["cc", "-c", "a.c"]);
    c.output = Some("a.o".to_string());
    assert_eq!(compare_cmds(&a, &vec![c]).unwrap_err().kind, MismatchKind::Missing);
    let b = vec![cmd("/p", "a.c", &["cc", "a.c"])];
    assert!(compare_cmds(&a, &b).is_err());
    assert!(compare_cmds(&vec![], &vec![]).is_ok());
}

#[test]
fn compare_error_keeps_message() {
    assert_eq!(CompareError::new("boom").details, "boom");
    let mut many = Vec::new();
    for i in 0..12 {
        many.push(cmd("/p", &format!("f{}.c", i), &["cc"]));
    }
    let m = compare_cmds(&many, &vec![]).unwrap_err();
    assert_eq!(m.error().details, "12 commands from reference input are missing from test input");
}

#[test]
fn missing_and_extra_are_both_listed() {
    let a = db();
    let b = vec![
        cmd("/p", "a.c", &["cc", "-c", "a.c"]),
        cmd("/p", "b.c", &["cc", "-c", "b.c"]),
        cmd("/r", "d.c", &["cc", "-c", "d.c"]),
    ];
    let m = compare_cmds(&a, &b).unwrap_err();
    assert_eq!(m.kind, MismatchKind::Missing);
    assert_eq!(m.missing, vec![cmd("/q", "c.cc", &["c++", "-c", "c.cc"])]);
    assert_eq!(m.extra, vec![cmd("/r", "d.c", &["cc", "-c", "d.c"])]);
    assert_eq!(
        m.error().details,
        "1 commands from reference input are missing from test input"
    );
}

#[test]
fn command_string_is_not_compared() {
    let a = vec![cmd("/p", "a.c", &["cc", "-c", "a.c"])];
    let mut c = cmd("/p", "a.c", &["cc", "-c", "a.c"]);
    c.command = Some("cc -c a.c".to_string());
    assert!(compare_cmds(&a, &vec![c]).is_ok());
}
