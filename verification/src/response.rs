//! The engine's error taxonomy, request validation and the wire response.
//!
//! A compile failure is the user's and is reported verbatim under its own
//! status; everything else that goes wrong — an unknown compiler, a missing
//! field, a staging or run fault — is an internal error. Exit codes of
//! compiled programs are data, never errors.

use vstd::prelude::*;
use vstd::string::StringExecFns;
use crate::report::ResourceUsage;

verus! {

/// Everything a run request can fail with before a program's own exit code
/// is even in question.
#[derive(Debug, PartialEq, Eq)]
pub enum EngineError {
    /// The request names a compiler the registry does not hold.
    UnknownCompiler,
    /// A required request field is absent; carries the field's name.
    MissingField(String),
    /// The compile command exited non-zero; carries its diagnostics.
    CompileFailure(String),
    /// I/O, process launch or report parsing failed during execution.
    RunFault(String),
    /// I/O failed while the workspace was being materialized.
    StagingFault(String),
}

/// One successful execution of a compiled artifact.
#[derive(Debug, PartialEq, Eq)]
pub struct RunOutcome {
    /// The program's own exit code; non-zero is a normal outcome.
    pub exit_code: i32,
    /// Captured standard output.
    pub stdout: String,
    /// Captured standard error.
    pub stderr: String,
    /// What the measurement facility reported.
    pub usage: ResourceUsage,
}

/// A validated run request.
#[derive(Debug, PartialEq, Eq)]
pub struct RunRequest {
    pub compiler_name: String,
    pub source: String,
    pub input: String,
}

/// The status word an error is reported under: a compile failure is the
/// user's, everything else is internal.
pub open spec fn spec_status(e: EngineError) -> Seq<char> {
    match e {
        EngineError::CompileFailure(_) => "compileError"@,
        _ => "internalError"@,
    }
}

/// The diagnostic text an error carries to the caller.
pub open spec fn spec_diagnostics(e: EngineError) -> Seq<char> {
    match e {
        EngineError::UnknownCompiler => "undefined compilerName"@,
        EngineError::MissingField(f) => f@ + " not given"@,
        EngineError::CompileFailure(d) => d@,
        EngineError::RunFault(d) => d@,
        EngineError::StagingFault(d) => d@,
    }
}

/// The wire response to a run request. `time_micros` carries integral
/// microseconds; the boundary that serializes the response scales it to
/// the wire's milliseconds.
#[derive(Debug, PartialEq, Eq)]
pub struct ApiResponse {
    pub status: String,
    pub stdout: Option<String>,
    pub stderr: Option<String>,
    pub exit_code: Option<i32>,
    pub time_micros: Option<u64>,
    pub memory: Option<u64>,
}

/// The status word of an error response.
pub fn error_status(e: &EngineError) -> (r: String)
    ensures
        r@ == spec_status(*e),
{
    match e {
        EngineError::CompileFailure(_) => "compileError".to_owned(),
        _ => "internalError".to_owned(),
    }
}

/// The diagnostic text of an error response.
pub fn error_diagnostics(e: &EngineError) -> (r: String)
    ensures
        r@ == spec_diagnostics(*e),
{
    match e {
        EngineError::UnknownCompiler => "undefined compilerName".to_owned(),
        EngineError::MissingField(f) => {
            let mut msg = f.clone();
            msg.append(" not given");
            msg
        },
        EngineError::CompileFailure(d) => d.clone(),
        EngineError::RunFault(d) => d.clone(),
        EngineError::StagingFault(d) => d.clone(),
    }
}

/// Checks a run request's fields: the compiler name and the source are
/// required, in that order of complaint; absent input defaults to empty.
pub fn validate_run(
    compiler_name: Option<String>,
    source: Option<String>,
    input: Option<String>,
) -> (r: Result<RunRequest, EngineError>)
    ensures
        match r {
            Ok(q) => {
                &&& compiler_name == Some(q.compiler_name)
                &&& source == Some(q.source)
                &&& match input {
                    Some(s) => q.input == s,
                    None => q.input@ == Seq::<char>::empty(),
                }
            },
            Err(e) => {
                &&& (compiler_name is None || source is None)
                &&& (compiler_name is None ==> (e matches EngineError::MissingField(f) && f@
                    == "compilerName"@))
                &&& (compiler_name is Some ==> (e matches EngineError::MissingField(f) && f@
                    == "sourceCode"@))
            },
        },
{
    let name = match compiler_name {
        Some(n) => n,
        None => {
            return Err(EngineError::MissingField("compilerName".to_owned()));
        },
    };
    let src = match source {
        Some(s) => s,
        None => {
            return Err(EngineError::MissingField("sourceCode".to_owned()));
        },
    };
    let stdin_text = match input {
        Some(s) => s,
        None => String::new(),
    };
    Ok(RunRequest { compiler_name: name, source: src, input: stdin_text })
}

/// Shapes the wire response. Success carries the captured output, the exit
/// code and the measured usage; an error carries its status word and its
/// diagnostics in the stderr field and nothing else.
pub fn assemble_response(r: Result<RunOutcome, EngineError>) -> (out: ApiResponse)
    ensures
        match r {
            Ok(o) => {
                &&& out.status@ == "success"@
                &&& out.stdout == Some(o.stdout)
                &&& out.stderr == Some(o.stderr)
                &&& out.exit_code == Some(o.exit_code)
                &&& out.time_micros == Some(o.usage.time_micros)
                &&& out.memory == Some(o.usage.memory)
            },
            Err(e) => {
                &&& out.status@ == spec_status(e)
                &&& out.stderr matches Some(d) && d@ == spec_diagnostics(e)
                &&& out.stdout is None
                &&& out.exit_code is None
                &&& out.time_micros is None
                &&& out.memory is None
            },
        },
{
    match r {
        Ok(o) => ApiResponse {
            status: "success".to_owned(),
            stdout: Some(o.stdout),
            stderr: Some(o.stderr),
            exit_code: Some(o.exit_code),
            time_micros: Some(o.usage.time_micros),
            memory: Some(o.usage.memory),
        },
        Err(e) => {
            let status = error_status(&e);
            let diagnostics = error_diagnostics(&e);
            ApiResponse {
                status,
                stdout: None,
                stderr: Some(diagnostics),
                exit_code: None,
                time_micros: None,
                memory: None,
            }
        },
    }
}

/// How a request's mode is dispatched.
#[derive(Debug, PartialEq, Eq, Clone, Copy)]
pub enum Mode {
    /// Enumerate the registered compilers.
    List,
    /// Compile and execute a program.
    Run,
    /// Anything else is refused.
    Invalid,
}

/// Reads the request's mode word.
pub fn parse_mode(mode: &str) -> (r: Mode)
    ensures
        (r is List) <==> mode@ == "list"@,
        (r is Run) <==> mode@ == "run"@,
{
    proof {
        reveal_strlit("list");
        reveal_strlit("run");
        assert(("list")@.len() == 4);
        assert(("run")@.len() == 3);
        assert(("list")@ != ("run")@);
    }
    if crate::text::str_eq(mode, "list") {
        Mode::List
    } else if crate::text::str_eq(mode, "run") {
        Mode::Run
    } else {
        Mode::Invalid
    }
}

} // verus!
