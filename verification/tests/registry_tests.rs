use judge_core::registry::{CompilerDef, Registry};

fn python_def() -> CompilerDef {
    CompilerDef {
        language: "Python".to_string(),
        label: "CPython 3".to_string(),
        copy_files: vec![],
        source_filename: "main.py".to_string(),
        compile_command: vec!["true".to_string()],
        run_command: vec!["python3".to_string(), "main.py".to_string()],
    }
}

fn c_def() -> CompilerDef {
    CompilerDef {
        language: "C".to_string(),
        label: "GCC".to_string(),
        copy_files: vec![("Makefile".to_string(), "Makefile".to_string())],
        source_filename: "main.c".to_string(),
        compile_command: vec!["make".to_string()],
        run_command: vec!["./main".to_string()],
    }
}

#[test]
fn lookup_finds_what_was_registered() {
    let mut reg = Registry::new();
    assert!(reg.register("python3".to_string(), python_def()));
    assert!(reg.register("gcc-c".to_string(), c_def()));
    let d = reg.lookup("python3").expect("registered");
    assert_eq!(d.language, "Python");
    assert_eq!(d.source_filename, "main.py");
    let d = reg.lookup("gcc-c").expect("registered");
    assert_eq!(d.label, "GCC");
}

#[test]
fn lookup_misses_an_unknown_name() {
    let mut reg = Registry::new();
    assert!(reg.register("python3".to_string(), python_def()));
    assert!(reg.lookup("rust").is_none());
    assert!(reg.lookup("").is_none());
}

#[test]
fn duplicate_registration_is_rejected() {
    let mut reg = Registry::new();
    assert!(reg.register("python3".to_string(), python_def()));
    assert!(!reg.register("python3".to_string(), c_def()));
    // the first definition stands
    assert_eq!(reg.lookup("python3").expect("registered").language, "Python");
}

#[test]
fn list_names_every_compiler() {
    let mut reg = Registry::new();
    assert!(reg.register("python3".to_string(), python_def()));
    assert!(reg.register("gcc-c".to_string(), c_def()));
    let rows = reg.list();
    assert_eq!(rows.len(), 2);
    let mut names: Vec<&str> = rows.iter().map(|r| r.compiler_name.as_str()).collect();
    names.sort();
    assert_eq!(names, vec!["gcc-c", "python3"]);
    let py = rows.iter().find(|r| r.compiler_name == "python3").unwrap();
    assert_eq!(py.language, "Python");
    assert_eq!(py.label, "CPython 3");
}
