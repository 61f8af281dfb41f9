use judge_core::registry::CompilerDef;
use judge_core::workspace::{
    artifact_root, compile_diagnostics_filename, compile_status_filename, measured_run_argv,
    staging_plan, template_root, StageStep,
};

fn c_def() -> CompilerDef {
    CompilerDef {
        language: "C".to_string(),
        label: "GCC".to_string(),
        copy_files: vec![
            ("c/Makefile".to_string(), "Makefile".to_string()),
            ("c/harness.h".to_string(), "lib/harness.h".to_string()),
        ],
        source_filename: "main.c".to_string(),
        compile_command: vec!["make".to_string(), "main".to_string()],
        run_command: vec!["./main".to_string()],
    }
}

#[test]
fn plan_copies_templates_then_writes_source_last() {
    let plan = staging_plan(&c_def());
    assert_eq!(plan.len(), 3);
    match &plan[0] {
        StageStep::CopyTemplate { source, dest } => {
            assert_eq!(source, "c/Makefile");
            assert_eq!(dest, "Makefile");
        }
        other => panic!("expected a copy step, got {:?}", step_name(other)),
    }
    match &plan[1] {
        StageStep::CopyTemplate { source, dest } => {
            assert_eq!(source, "c/harness.h");
            assert_eq!(dest, "lib/harness.h");
        }
        other => panic!("expected a copy step, got {:?}", step_name(other)),
    }
    match &plan[2] {
        StageStep::WriteSource { dest } => assert_eq!(dest, "main.c"),
        other => panic!("expected the source step, got {:?}", step_name(other)),
    }
}

fn step_name(step: &StageStep) -> &'static str {
    match step {
        StageStep::CopyTemplate { .. } => "CopyTemplate",
        StageStep::WriteSource { .. } => "WriteSource",
    }
}

#[test]
fn plan_of_a_run_only_compiler_still_writes_source() {
    let mut def = c_def();
    def.copy_files = vec![];
    def.source_filename = "main.py".to_string();
    let plan = staging_plan(&def);
    assert_eq!(plan.len(), 1);
    match &plan[0] {
        StageStep::WriteSource { dest } => assert_eq!(dest, "main.py"),
        _ => panic!("expected the source step"),
    }
}

#[test]
fn run_command_is_wrapped_by_the_measurement_facility() {
    let argv = measured_run_argv(&c_def(), "p-time.txt");
    assert_eq!(
        argv,
        vec![
            "time".to_string(),
            "-q".to_string(),
            "-f".to_string(),
            "%e %M".to_string(),
            "-o".to_string(),
            "p-time.txt".to_string(),
            "./main".to_string(),
        ]
    );
}

#[test]
fn fixed_names_of_the_artifact_layout() {
    assert_eq!(template_root(), "template");
    assert_eq!(artifact_root(), "program");
    assert_eq!(compile_status_filename(), "compile_status.txt");
    assert_eq!(compile_diagnostics_filename(), "compile_error.txt");
}
