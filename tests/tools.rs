use rstrace::exec::Exec;
use rstrace::name_kind;
use rstrace::tools::{CompilerAction, ToolKind};

fn mock(path: &str, args: &[&str]) -> Exec {
    Exec {
        path: path.to_owned(),
        args: args.iter().map(|s| s.to_string()).collect(),
        env: vec![],
        retcode: 0,
    }
}

#[test]
fn tools_test_toolkind_from() {
    assert_eq!(name_kind::ToolKind::from("/usr/bin/cc"), name_kind::ToolKind::CCompiler);
    assert_eq!(name_kind::ToolKind::from("/usr/bin/icc"), name_kind::ToolKind::CCompiler);
    assert_eq!(name_kind::ToolKind::from("/usr/bin/gcc"), name_kind::ToolKind::CCompiler);
    assert_eq!(name_kind::ToolKind::from("/usr/bin/clang"), name_kind::ToolKind::CCompiler);
}

#[test]
fn mod_test_toolkind_from() {
    let cc_paths = &["/usr/bin/cc", "/usr/bin/icc", "/usr/bin/gcc", "/usr/bin/clang"];
    for cc in cc_paths {
        assert_eq!(
            ToolKind::from(&mock(cc, &["-c"])),
            ToolKind::CCompiler(CompilerAction::Compile)
        );
    }

    let cxx_paths = &["/usr/bin/c++", "/usr/bin/g++", "/usr/bin/clang++", "/usr/bin/xlc++"];
    for cxx in cxx_paths {
        assert_eq!(
            ToolKind::from(&mock(cxx, &["-c"])),
            ToolKind::CXXCompiler(CompilerAction::Compile)
        );
    }
}

#[test]
fn classifier_scenarios() {
    assert_eq!(
        ToolKind::from(&mock("/usr/bin/gcc", &["-c"])),
        ToolKind::CCompiler(CompilerAction::Compile)
    );
    assert_eq!(
        ToolKind::from(&mock("/usr/bin/clang++", &["-c"])),
        ToolKind::CXXCompiler(CompilerAction::Compile)
    );
    assert_eq!(ToolKind::from(&mock("/usr/bin/ld", &[])), ToolKind::Linker);
    assert_eq!(ToolKind::from(&mock("/usr/bin/ld.gold", &[])), ToolKind::Linker);
    assert_eq!(ToolKind::from(&mock("/usr/bin/ar", &["rcs"])), ToolKind::Archiver);
    assert_eq!(ToolKind::from(&mock("/usr/bin/ccache", &[])), ToolKind::CompilerWrapper);
    assert_eq!(ToolKind::from(&mock("/usr/bin/mpicxx", &[])), ToolKind::CompilerWrapper);
    assert_eq!(ToolKind::from(&mock("/bin/ls", &["-c"])), ToolKind::Unknown);
    assert_eq!(ToolKind::from(&mock("/usr/bin/arm-none-eabi-gcc-9.2", &["-c"])), ToolKind::CCompiler(CompilerAction::Compile));
    assert_eq!(name_kind::ToolKind::from("/bin/ls"), name_kind::ToolKind::Unknown);
}

#[test]
fn linking_flag_forces_link() {
    assert_eq!(
        ToolKind::from(&mock("/usr/bin/gcc", &["gcc", "-lm", "-c", "main.c"])),
        ToolKind::CCompiler(CompilerAction::Link)
    );
    assert_eq!(
        CompilerAction::from(&vec!["-Wl,--as-needed".to_string(), "-c".to_string()]),
        CompilerAction::Link
    );
}

#[test]
fn first_action_flag_wins() {
    let v = |xs: &[&str]| xs.iter().map(|s| s.to_string()).collect::<Vec<String>>();
    assert_eq!(CompilerAction::from(&v(&["gcc", "-S", "-c"])), CompilerAction::EmitAsm);
    assert_eq!(CompilerAction::from(&v(&["gcc", "-c", "-lm"])), CompilerAction::Compile);
    assert_eq!(CompilerAction::from(&v(&["gcc", "main.c"])), CompilerAction::Other);
    assert_eq!(CompilerAction::from(&v(&["gcc", "-l"])), CompilerAction::Other);
    assert_eq!(CompilerAction::from(&v(&[])), CompilerAction::Other);
}

#[test]
fn is_compile_tells_compiling_compilers() {
    assert!(ToolKind::CCompiler(CompilerAction::Compile).is_compile());
    assert!(ToolKind::CXXCompiler(CompilerAction::Compile).is_compile());
    assert!(!ToolKind::CCompiler(CompilerAction::Link).is_compile());
    assert!(!ToolKind::Linker.is_compile());
}
