use judge_core::report::ResourceUsage;
use judge_core::response::{
    assemble_response, error_diagnostics, error_status, parse_mode, validate_run, EngineError,
    Mode, RunOutcome,
};

#[test]
fn success_carries_output_and_usage() {
    let outcome = RunOutcome {
        exit_code: 0,
        stdout: "hi\n".to_string(),
        stderr: String::new(),
        usage: ResourceUsage { time_micros: 50000, memory: 12345 },
    };
    let out = assemble_response(Ok(outcome));
    assert_eq!(out.status, "success");
    assert_eq!(out.stdout.as_deref(), Some("hi\n"));
    assert_eq!(out.stderr.as_deref(), Some(""));
    assert_eq!(out.exit_code, Some(0));
    assert_eq!(out.time_micros, Some(50000));
    assert_eq!(out.memory, Some(12345));
}

#[test]
fn nonzero_exit_is_still_a_success() {
    let outcome = RunOutcome {
        exit_code: 3,
        stdout: String::new(),
        stderr: "oops\n".to_string(),
        usage: ResourceUsage { time_micros: 1000, memory: 1 },
    };
    let out = assemble_response(Ok(outcome));
    assert_eq!(out.status, "success");
    assert_eq!(out.exit_code, Some(3));
}

#[test]
fn compile_failure_reports_diagnostics_and_nothing_else() {
    let out = assemble_response(Err(EngineError::CompileFailure(
        "main.c:1:1: error: expected something".to_string(),
    )));
    assert_eq!(out.status, "compileError");
    let stderr = out.stderr.expect("diagnostics");
    assert!(!stderr.is_empty());
    assert_eq!(stderr, "main.c:1:1: error: expected something");
    assert!(out.stdout.is_none());
    assert!(out.exit_code.is_none());
    assert!(out.time_micros.is_none());
    assert!(out.memory.is_none());
}

#[test]
fn unknown_compiler_is_an_internal_error() {
    let out = assemble_response(Err(EngineError::UnknownCompiler));
    assert_eq!(out.status, "internalError");
    assert_eq!(out.stderr.as_deref(), Some("undefined compilerName"));
    assert!(out.stdout.is_none());
}

#[test]
fn faults_are_internal_errors() {
    assert_eq!(error_status(&EngineError::RunFault("io".to_string())), "internalError");
    assert_eq!(error_status(&EngineError::StagingFault("io".to_string())), "internalError");
    assert_eq!(error_status(&EngineError::MissingField("sourceCode".to_string())), "internalError");
    assert_eq!(
        error_status(&EngineError::CompileFailure("x".to_string())),
        "compileError"
    );
    assert_eq!(
        error_diagnostics(&EngineError::MissingField("sourceCode".to_string())),
        "sourceCode not given"
    );
    assert_eq!(error_diagnostics(&EngineError::RunFault("io".to_string())), "io");
}

#[test]
fn run_request_requires_name_and_source() {
    let r = validate_run(None, Some("print(1)".to_string()), None);
    assert_eq!(r, Err(EngineError::MissingField("compilerName".to_string())));

    let r = validate_run(Some("python3".to_string()), None, None);
    assert_eq!(r, Err(EngineError::MissingField("sourceCode".to_string())));

    let q = validate_run(
        Some("python3".to_string()),
        Some("print(input())".to_string()),
        Some("hi".to_string()),
    )
    .expect("valid");
    assert_eq!(q.compiler_name, "python3");
    assert_eq!(q.source, "print(input())");
    assert_eq!(q.input, "hi");
}

#[test]
fn absent_stdin_defaults_to_empty() {
    let q = validate_run(Some("python3".to_string()), Some("pass".to_string()), None)
        .expect("valid");
    assert_eq!(q.input, "");
}

#[test]
fn mode_words_dispatch() {
    assert_eq!(parse_mode("list"), Mode::List);
    assert_eq!(parse_mode("run"), Mode::Run);
    assert_eq!(parse_mode("LIST"), Mode::Invalid);
    assert_eq!(parse_mode(""), Mode::Invalid);
    assert_eq!(parse_mode("delete"), Mode::Invalid);
}
