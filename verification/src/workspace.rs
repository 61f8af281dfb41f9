//! Workspace staging and the run command line.
//!
//! A fresh artifact directory is populated from a staging plan: every
//! template file of the compiler's definition is copied to its destination,
//! and the source text is written last to the compiler's source path. The
//! run command is wrapped by the resource-measurement facility, which
//! reports elapsed seconds and peak memory into the invocation's report
//! file. The functions here decide paths, order and argument vectors; the
//! surrounding binary touches the disk and spawns the processes.

use vstd::prelude::*;

verus! {

/// One step of populating a fresh artifact directory.
pub enum StageStep {
    /// Copy a template file into the artifact directory.
    CopyTemplate { source: String, dest: String },
    /// Write the request's source text at the compiler's source path.
    WriteSource { dest: String },
}

/// The step copies exactly this (template, destination) pair.
pub open spec fn copies_pair(step: StageStep, pair: (String, String)) -> bool {
    match step {
        StageStep::CopyTemplate { source, dest } => source@ == pair.0@ && dest@ == pair.1@,
        StageStep::WriteSource { .. } => false,
    }
}

/// The step writes the source text at this destination.
pub open spec fn writes_source_at(step: StageStep, dest_path: Seq<char>) -> bool {
    match step {
        StageStep::CopyTemplate { .. } => false,
        StageStep::WriteSource { dest } => dest@ == dest_path,
    }
}

/// The plan that materializes a workspace for `def`: each staged template
/// in order, then the source file, written last.
pub fn staging_plan(def: &crate::registry::CompilerDef) -> (r: Vec<StageStep>)
    ensures
        r@.len() == def.copy_files@.len() + 1,
        forall|i: int|
            0 <= i < def.copy_files@.len() ==> copies_pair(#[trigger] r@[i], def.copy_files@[i]),
        writes_source_at(r@.last(), def.source_filename@),
{
    let n = def.copy_files.len();
    let mut plan: Vec<StageStep> = Vec::new();
    let mut i: usize = 0;
    while i < n
        invariant
            n == def.copy_files@.len(),
            i <= n,
            plan@.len() == i,
            forall|j: int| 0 <= j < i ==> copies_pair(#[trigger] plan@[j], def.copy_files@[j]),
        decreases n - i,
    {
        let pair = &def.copy_files[i];
        plan.push(StageStep::CopyTemplate { source: pair.0.clone(), dest: pair.1.clone() });
        i += 1;
    }
    plan.push(StageStep::WriteSource { dest: def.source_filename.clone() });
    plan
}

/// The directory template files are staged from.
pub fn template_root() -> (r: String)
    ensures
        r@ == "template"@,
{
    "template".to_owned()
}

/// The directory artifacts live under, each in a subdirectory named by its
/// id.
pub fn artifact_root() -> (r: String)
    ensures
        r@ == "program"@,
{
    "program".to_owned()
}

/// The artifact file holding the compile's numeric exit status; it is
/// written only once the compile process has exited, so its presence marks
/// the compile as finished.
pub fn compile_status_filename() -> (r: String)
    ensures
        r@ == "compile_status.txt"@,
{
    "compile_status.txt".to_owned()
}

/// The artifact file the compile's diagnostics are captured in.
pub fn compile_diagnostics_filename() -> (r: String)
    ensures
        r@ == "compile_error.txt"@,
{
    "compile_error.txt".to_owned()
}

/// The run command wrapped by the measurement facility: `time` is told to
/// report elapsed seconds and peak memory into the invocation's report
/// file, and the compiler's own run command follows unchanged.
pub fn measured_run_argv(def: &crate::registry::CompilerDef, report_name: &str) -> (r: Vec<
    String,
>)
    ensures
        r@.len() == 6 + def.run_command@.len(),
        r@[0]@ == "time"@,
        r@[1]@ == "-q"@,
        r@[2]@ == "-f"@,
        r@[3]@ == "%e %M"@,
        r@[4]@ == "-o"@,
        r@[5]@ == report_name@,
        forall|i: int| 0 <= i < def.run_command@.len() ==> r@[6 + i]@ == def.run_command@[i]@,
{
    let mut argv: Vec<String> = Vec::new();
    argv.push("time".to_owned());
    argv.push("-q".to_owned());
    argv.push("-f".to_owned());
    argv.push("%e %M".to_owned());
    argv.push("-o".to_owned());
    argv.push(report_name.to_owned());
    let n = def.run_command.len();
    let mut i: usize = 0;
    while i < n
        invariant
            n == def.run_command@.len(),
            i <= n,
            argv@.len() == 6 + i,
            argv@[0]@ == "time"@,
            argv@[1]@ == "-q"@,
            argv@[2]@ == "-f"@,
            argv@[3]@ == "%e %M"@,
            argv@[4]@ == "-o"@,
            argv@[5]@ == report_name@,
            forall|j: int| 0 <= j < i ==> argv@[6 + j]@ == def.run_command@[j]@,
        decreases n - i,
    {
        argv.push(def.run_command[i].clone());
        i += 1;
    }
    argv
}

} // verus!
