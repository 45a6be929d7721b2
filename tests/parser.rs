use rstrace::exec::Exec;
use rstrace::parser::{
    arr_of_env_var, arr_of_str, env_var, execve, footer, from_dec, is_digit, parseln, retcode,
    string,
};

fn s(x: &str) -> String {
    x.to_string()
}

#[test]
fn test_string() {
    assert_eq!(string("\"test\""), Some((s(""), s("test"))));
    assert_eq!(string("\"te\"st\""), Some((s("st\""), s("te"))));
    assert!(string("\"\"").is_none());
    assert!(string("\"").is_none());
}

#[test]
fn test_arr_of_str() {
    assert_eq!(arr_of_str("[]"), Some((s(""), vec![])));
    assert_eq!(arr_of_str("[\"test\"]"), Some((s(""), vec![s("test")])));
    assert_eq!(
        arr_of_str("[\"test\", \"best\"]"),
        Some((s(""), vec![s("test"), s("best")]))
    );
}

#[test]
fn test_retcode() {
    assert_eq!(retcode("0"), Some((s(""), 0u8)));
}

#[test]
fn test_env_var() {
    assert_eq!(env_var("\"key=value\""), Some((s(""), (s("key"), s("value")))));
    assert_eq!(
        env_var("\"key=value=value\""),
        Some((s(""), (s("key"), s("value=value"))))
    );
}

#[test]
fn test_arr_of_env_var() {
    assert_eq!(arr_of_env_var("[]"), Some((s(""), vec![])));
    assert_eq!(
        arr_of_env_var("[\"key=value\"]"),
        Some((s(""), vec![(s("key"), s("value"))]))
    );
}

#[test]
fn test_execve() {
    assert_eq!(
        execve("execve(\"/bin/ls\", [\"-la\"], []) = 0"),
        Some((
            s(""),
            Exec {
                path: s("/bin/ls"),
                args: vec![s("-la")],
                env: vec![],
                retcode: 0
            }
        ))
    );
}

#[test]
fn test_footer() {
    assert!(footer("+++ exited with 0 +++").is_some());
    assert!(footer("+++ exited with 255 +++").is_some());
    assert!(footer("+++ exited with 1000 +++").is_none());
}

#[test]
fn parseln_invocation_record() {
    assert_eq!(
        parseln("execve(\"/bin/ls\", [\"-la\"], []) = 0"),
        Ok(Some(Exec {
            path: s("/bin/ls"),
            args: vec![s("-la")],
            env: vec![],
            retcode: 0
        }))
    );
}

#[test]
fn parseln_footer_records() {
    assert_eq!(parseln("+++ exited with 0 +++"), Ok(None));
    assert_eq!(parseln("+++ exited with 255 +++"), Ok(None));
    assert_eq!(
        parseln("+++ exited with 1000 +++"),
        Err(s("failed to parse:\n +++ exited with 1000 +++"))
    );
}

#[test]
fn parseln_rejects_other_lines() {
    let line = "execve(\"/usr/bin/cc\", [\"cc\"], []) = -1 ENOENT (No such file or directory)";
    assert_eq!(parseln(line), Err(format!("failed to parse:\n {}", line)));
    assert!(parseln("").is_err());
    assert!(parseln("--- SIGCHLD {si_signo=SIGCHLD} ---").is_err());
    assert!(parseln("execve(\"\", [], []) = 0").is_err());
}

#[test]
fn parseln_full_record_with_environment() {
    let line = "execve(\"/usr/bin/gcc\", [\"gcc\", \"-c\", \"a, b.c\"], [\"PWD=/proj\", \"X=1=2\"]) = 0";
    let e = parseln(line).unwrap().unwrap();
    assert_eq!(e.path, "/usr/bin/gcc");
    assert_eq!(e.args, vec![s("gcc"), s("-c"), s("a, b.c")]);
    assert_eq!(e.env, vec![(s("PWD"), s("/proj")), (s("X"), s("1=2"))]);
    assert_eq!(e.retcode, 0);
}

#[test]
fn parse_round_trip_of_quoted_text() {
    for content in ["a", "hello world", "x=y, [z]", "\u{e9}t\u{e9}"] {
        let text = format!("\"{}\"", content);
        let (rest, c) = string(&text).unwrap();
        assert_eq!(rest, "");
        assert_eq!(format!("\"{}\"", c), text);
    }
}

#[test]
fn text_after_a_record_is_returned() {
    assert_eq!(retcode("42 +++"), Some((s(" +++"), 42u8)));
    assert_eq!(footer("+++ exited with 7 +++ tail"), Some((s(" tail"), 7u8)));
    assert_eq!(retcode("007"), Some((s(""), 7u8)));
    assert!(retcode("256").is_none());
    assert!(retcode("x").is_none());
}

#[test]
fn malformed_arrays_are_rejected() {
    assert!(arr_of_str("[\"a\",\"b\"]").is_none());
    assert!(arr_of_str("[\"a\", ]").is_none());
    assert!(arr_of_str("[\"a\"").is_none());
    assert!(env_var("\"novalue\"").is_none());
    assert_eq!(env_var("\"=v\""), Some((s(""), (s(""), s("v")))));
}

#[test]
fn digits() {
    assert!(is_digit('0'));
    assert!(is_digit('9'));
    assert!(!is_digit('a'));
    let v: Vec<char> = "1255".chars().collect();
    assert_eq!(from_dec(&v, 0, 1), Some(1));
    assert_eq!(from_dec(&v, 1, 4), Some(255));
    assert_eq!(from_dec(&v, 0, 4), None);
    assert_eq!(from_dec(&v, 2, 2), None);
}

#[test]
fn parseln_rejects_text_after_a_record() {
    assert_eq!(
        parseln("+++ exited with 0 +++ x"),
        Err(s("failed to parse:\n +++ exited with 0 +++ x"))
    );
    assert!(parseln("execve(\"/bin/ls\", [\"ls\"], []) = 0 x").is_err());
    assert!(parseln("execve(\"/bin/ls\", [\"ls\"], []) = 00").is_ok());
}
