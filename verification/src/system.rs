//! `system`: the argument check, exit-status mapping and output shaping of
//! running an operating-system command. Spawning the command is the
//! caller's.

use vstd::prelude::*;
use crate::descriptor::{error_descriptor, host_gpu_spec, param, signature, unfused_spec, BuiltinCompletionPolicy, BuiltinDescriptor, BuiltinErrorDescriptor, BuiltinFusionSpec, BuiltinGpuSpec, BuiltinOutputMode, BuiltinParamArity, BuiltinParamType};
use crate::error::{descriptor_error, opt_view, RuntimeError};
use crate::strmatch::{single_text, text_of};
use crate::value::{CharArray, Value};

verus! {

/// The error is a `system` error with this identifier and message.
pub open spec fn system_error_is(e: RuntimeError, ident: Seq<char>, msg: Seq<char>) -> bool {
    &&& e.message@ == msg
    &&& opt_view(e.builtin) == Some("system"@)
    &&& opt_view(e.identifier) == Some(ident)
}

/// The error for a command that is not text.
pub fn invalid_input() -> (e: RuntimeError)
    ensures
        system_error_is(e, "RunMat:system:InvalidInput"@, "system: command must be a character vector or string scalar"@),
{
    descriptor_error(&system_error_invalid_input(), "system")
}

/// The error for a command interpreter that could not be started.
pub fn spawn_failed() -> (e: RuntimeError)
    ensures
        system_error_is(e, "RunMat:system:SpawnFailed"@, "system: failed to start the command interpreter"@),
{
    descriptor_error(&system_error_spawn_failed(), "system")
}

/// The error for a platform that cannot run commands.
pub fn platform_unsupported() -> (e: RuntimeError)
    ensures
        system_error_is(
            e,
            "RunMat:system:PlatformUnsupported"@,
            "system: executing operating-system commands is not supported on this platform"@,
        ),
{
    descriptor_error(&system_error_platform_unsupported(), "system")
}

/// The command line: a character vector, a string or a one-element string
/// array.
pub fn command_text(command: &Value) -> (r: Result<Vec<char>, RuntimeError>)
    ensures
        match single_text(*command) {
            Some(t) => r matches Ok(c) && c@ == t,
            None => r matches Err(e) && system_error_is(
                e,
                "RunMat:system:InvalidInput"@,
                "system: command must be a character vector or string scalar"@,
            ),
        },
{
    match text_of(command) {
        Some(t) => Ok(t),
        None => Err(invalid_input()),
    }
}

/// The status a finished command reports: its exit code, else `128` plus
/// the signal that ended it, else `-1`.
pub open spec fn exit_status_spec(code: Option<i32>, signal: Option<i32>) -> int {
    match code {
        Some(c) => c as int,
        None => match signal {
            Some(s) => 128 + s,
            None => -1,
        },
    }
}

/// Maps a finished command's exit code or terminating signal to its status.
pub fn exit_status_value(code: Option<i32>, signal: Option<i32>) -> (s: i64)
    ensures
        s == exit_status_spec(code, signal),
{
    match code {
        Some(c) => c as i64,
        None => match signal {
            Some(sig) => 128 + sig as i64,
            None => -1,
        },
    }
}

/// The captured output as a character array: a 0-by-0 array when empty,
/// else one row.
pub fn cmdout_value(text: &[char]) -> (a: CharArray)
    ensures
        a.wf(),
        text@.len() == 0 ==> a.rows == 0 && a.cols == 0,
        text@.len() > 0 ==> a.rows == 1 && a.data@ == text@,
{
    if text.len() == 0 {
        CharArray::empty()
    } else {
        CharArray::new_row(text)
    }
}

/// A statement call (no output requested) forwards the captured output
/// to the console, when there is any.
pub fn echo_stdout(requested: Option<usize>, stdout: &[char]) -> (b: bool)
    ensures
        b == (requested == Some(0usize) && stdout@.len() > 0),
{
    match requested {
        Some(n) => n == 0 && stdout.len() > 0,
        None => false,
    }
}

/// Acceleration metadata of `system`.
pub fn system_gpu_spec() -> (g: BuiltinGpuSpec)
    ensures
        g.name@ == "system"@,
{
    host_gpu_spec("system", "io", "Spawns an external process; no GPU execution path.")
}

fn system_error_invalid_input() -> (e: BuiltinErrorDescriptor)
    ensures
        e.code@ == "RM.SYSTEM.INVALID_INPUT"@,
        e.identifier matches Some(i) && i@ == "RunMat:system:InvalidInput"@,
        e.message@ == "system: command must be a character vector or string scalar"@,
{
    error_descriptor(
        "RM.SYSTEM.INVALID_INPUT",
        "RunMat:system:InvalidInput",
        "The command is not a character vector or string scalar.",
        "system: command must be a character vector or string scalar",
    )
}

fn system_error_platform_unsupported() -> (e: BuiltinErrorDescriptor)
    ensures
        e.code@ == "RM.SYSTEM.PLATFORM_UNSUPPORTED"@,
        e.identifier matches Some(i) && i@ == "RunMat:system:PlatformUnsupported"@,
        e.message@ == "system: executing operating-system commands is not supported on this platform"@,
{
    error_descriptor(
        "RM.SYSTEM.PLATFORM_UNSUPPORTED",
        "RunMat:system:PlatformUnsupported",
        "The current platform cannot execute operating-system commands (non-Unix targets, including wasm and Windows, per the recorded gate decision).",
        "system: executing operating-system commands is not supported on this platform",
    )
}

fn system_error_spawn_failed() -> (e: BuiltinErrorDescriptor)
    ensures
        e.code@ == "RM.SYSTEM.SPAWN_FAILED"@,
        e.identifier matches Some(i) && i@ == "RunMat:system:SpawnFailed"@,
        e.message@ == "system: failed to start the command interpreter"@,
{
    error_descriptor(
        "RM.SYSTEM.SPAWN_FAILED",
        "RunMat:system:SpawnFailed",
        "The command interpreter (/bin/sh) could not be started.",
        "system: failed to start the command interpreter",
    )
}

/// Descriptor of `system`.
pub fn system_descriptor() -> (d: BuiltinDescriptor)
    ensures
        d.labels() == seq!["[status, cmdout] = system(command)"@],
        d.codes() == seq!["RM.SYSTEM.INVALID_INPUT"@, "RM.SYSTEM.PLATFORM_UNSUPPORTED"@, "RM.SYSTEM.SPAWN_FAILED"@],
        d.output_mode == BuiltinOutputMode::ByRequestedOutputCount,
{
    let s0 = signature(
        "[status, cmdout] = system(command)",
        vec![
            param(
                "command",
                BuiltinParamType::Any,
                BuiltinParamArity::Required,
                "Operating-system command text to execute.",
            ),
        ],
        vec![
            param(
                "status",
                BuiltinParamType::NumericScalar,
                BuiltinParamArity::Required,
                "Numeric exit status of the command (0 for the observed successful command).",
            ),
            param(
                "cmdout",
                BuiltinParamType::StringScalar,
                BuiltinParamArity::Optional,
                "Captured standard output as a char row vector, including the trailing newline.",
            ),
        ],
    );
    let d = BuiltinDescriptor {
        signatures: vec![s0],
        output_mode: BuiltinOutputMode::ByRequestedOutputCount,
        completion_policy: BuiltinCompletionPolicy::Public,
        errors: vec![system_error_invalid_input(), system_error_platform_unsupported(), system_error_spawn_failed()],
    };
    assert(d.labels() =~= seq!["[status, cmdout] = system(command)"@]);
    assert(d.codes() =~= seq!["RM.SYSTEM.INVALID_INPUT"@, "RM.SYSTEM.PLATFORM_UNSUPPORTED"@, "RM.SYSTEM.SPAWN_FAILED"@]);
    d
}

/// Fusion metadata of `system`.
pub fn system_fusion_spec() -> (f: BuiltinFusionSpec)
    ensures
        f.name@ == "system"@,
{
    unfused_spec(
        "system",
        false,
        "Not fusible; external side effect.",
    )
}

} // verus!
