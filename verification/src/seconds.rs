//! `seconds`: a duration of the given number of seconds. The arithmetic is
//! on doubles and stays with the caller; the argument checks and metadata
//! are here.

use vstd::prelude::*;
use crate::descriptor::{error_descriptor, host_gpu_spec, param, signature, unfused_spec, BuiltinCompletionPolicy, BuiltinDescriptor, BuiltinErrorDescriptor, BuiltinFusionSpec, BuiltinGpuSpec, BuiltinOutputMode, BuiltinParamArity, BuiltinParamType};
use crate::error::{descriptor_error_with_message, opt_view, RuntimeError};

verus! {

fn seconds_error_invalid_input() -> (e: BuiltinErrorDescriptor)
    ensures
        e.code@ == "RM.SECONDS.INVALID_INPUT"@,
        e.identifier matches Some(i) && i@ == "RunMat:seconds:InvalidInput"@,
        e.message@ == "seconds: input must be a numeric value"@,
{
    error_descriptor(
        "RM.SECONDS.INVALID_INPUT",
        "RunMat:seconds:InvalidInput",
        "The argument is not a numeric value convertible to a duration.",
        "seconds: input must be a numeric value",
    )
}

/// Error for an invalid `seconds` argument, with the given message.
pub fn invalid_input(message: String) -> (e: RuntimeError)
    ensures
        e.message@ == message@,
        opt_view(e.builtin) == Some("seconds"@),
        opt_view(e.identifier) == Some("RunMat:seconds:InvalidInput"@),
{
    let d = seconds_error_invalid_input();
    descriptor_error_with_message(&d, message, "seconds")
}

/// Descriptor of `seconds`.
pub fn seconds_descriptor() -> (d: BuiltinDescriptor)
    ensures
        d.labels() == seq!["d = seconds(x)"@],
        d.codes() == seq!["RM.SECONDS.INVALID_INPUT"@],
        d.output_mode == BuiltinOutputMode::Fixed,
{
    let s0 = signature(
        "d = seconds(x)",
        vec![
            param(
                "x",
                BuiltinParamType::NumericArray,
                BuiltinParamArity::Required,
                "Number of seconds.",
            ),
        ],
        vec![
            param(
                "d",
                BuiltinParamType::Any,
                BuiltinParamArity::Required,
                "Duration of x seconds.",
            ),
        ],
    );
    let d = BuiltinDescriptor {
        signatures: vec![s0],
        output_mode: BuiltinOutputMode::Fixed,
        completion_policy: BuiltinCompletionPolicy::Public,
        errors: vec![seconds_error_invalid_input()],
    };
    assert(d.labels() =~= seq!["d = seconds(x)"@]);
    assert(d.codes() =~= seq!["RM.SECONDS.INVALID_INPUT"@]);
    d
}

} // verus!
