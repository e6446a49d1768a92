//! `verLessThan`: whether RunMat's own version is older than a given
//! dotted version. Every toolbox name maps to RunMat's single version.

use vstd::prelude::*;
use crate::descriptor::{error_descriptor, host_gpu_spec, param, signature, unfused_spec, BuiltinCompletionPolicy, BuiltinDescriptor, BuiltinErrorDescriptor, BuiltinFusionSpec, BuiltinGpuSpec, BuiltinOutputMode, BuiltinParamArity, BuiltinParamType};
use crate::error::{descriptor_error, opt_view, RuntimeError};
use crate::text::chars_to_string;
use crate::value::Value;
use crate::version::{
    option_text, option_text_spec, parse_version, parse_version_spec, version_less_than,
    version_lt, RUNMAT_VERSION,
};

verus! {

fn invalid_input_descriptor() -> (e: BuiltinErrorDescriptor)
    ensures
        e.code@ == "RM.VERLESSTHAN.INVALID_INPUT"@,
        e.identifier matches Some(i) && i@ == "RunMat:verLessThan:InvalidInput"@,
        e.message@ == invalid_input_message(),
{
    error_descriptor(
        "RM.VERLESSTHAN.INVALID_INPUT",
        "RunMat:verLessThan:InvalidInput",
        "The toolbox or version argument is missing or not text.",
        "verLessThan: expected verLessThan(toolbox, version) with two text arguments",
    )
}

fn invalid_version_descriptor() -> (e: BuiltinErrorDescriptor)
    ensures
        e.code@ == "RM.VERLESSTHAN.INVALID_VERSION"@,
        e.identifier matches Some(i) && i@ == "RunMat:verLessThan:InvalidVersion"@,
        e.message@ == invalid_version_message(),
{
    error_descriptor(
        "RM.VERLESSTHAN.INVALID_VERSION",
        "RunMat:verLessThan:InvalidVersion",
        "The version argument is not a dotted numeric version string.",
        "verLessThan: version must be a dotted numeric string such as '1.2.3'",
    )
}

/// RunMat's own version, parsed (empty if it did not parse).
pub open spec fn current_version() -> Seq<u64> {
    match parse_version_spec(RUNMAT_VERSION@) {
        Some(v) => v,
        None => Seq::empty(),
    }
}

/// Message of the error for a missing or non-text argument.
pub open spec fn invalid_input_message() -> Seq<char> {
    "verLessThan: expected verLessThan(toolbox, version) with two text arguments"@
}

/// Message of the error for a version text that does not parse.
pub open spec fn invalid_version_message() -> Seq<char> {
    "verLessThan: version must be a dotted numeric string such as '1.2.3'"@
}

/// `e` is the `verLessThan` error with identifier `ident` and message `msg`.
pub open spec fn verlessthan_error_is(e: RuntimeError, ident: Seq<char>, msg: Seq<char>) -> bool {
    &&& e.message@ == msg
    &&& opt_view(e.builtin) == Some("verLessThan"@)
    &&& opt_view(e.identifier) == Some(ident)
    &&& e.source is None
}

/// Outcome of `verLessThan(toolbox, version)`.
pub open spec fn verlessthan_spec(args: Seq<Value>, r: Result<bool, RuntimeError>) -> bool {
    if args.len() != 2 || option_text_spec(args[0]) is None || option_text_spec(args[1]) is None {
        r matches Err(e) && verlessthan_error_is(e, "RunMat:verLessThan:InvalidInput"@, invalid_input_message())
    } else if parse_version_spec(option_text_spec(args[1])->0) is None {
        r matches Err(e) && verlessthan_error_is(e, "RunMat:verLessThan:InvalidVersion"@, invalid_version_message())
    } else {
        r == Ok::<bool, RuntimeError>(
            version_lt(current_version(), parse_version_spec(option_text_spec(args[1])->0)->0),
        )
    }
}

/// `tf = verLessThan(toolbox, version)`: a logical scalar, true when
/// RunMat's own version is older than `version`.
pub fn dispatch_verlessthan(args: &Vec<Value>) -> (r: Result<bool, RuntimeError>)
    ensures
        verlessthan_spec(args@, r),
{
    if args.len() != 2 {
        let d = invalid_input_descriptor();
        return Err(descriptor_error(&d, "verLessThan"));
    }
    let toolbox = option_text(&args[0]);
    let target_text = option_text(&args[1]);
    let target_text = match (toolbox, target_text) {
        (Some(_), Some(t)) => t,
        _ => {
            let d = invalid_input_descriptor();
            return Err(descriptor_error(&d, "verLessThan"));
        },
    };
    let target_string = chars_to_string(target_text.as_slice());
    let target = match parse_version(target_string.as_str()) {
        Some(t) => t,
        None => {
            let d = invalid_version_descriptor();
            return Err(descriptor_error(&d, "verLessThan"));
        },
    };
    let current = match parse_version(RUNMAT_VERSION) {
        Some(c) => c,
        None => Vec::new(),
    };
    proof {
        assert(current@ == current_version());
    }
    Ok(version_less_than(current.as_slice(), target.as_slice()))
}

/// Two `verLessThan` outcomes are alike: the same answer, or errors with the
/// same message, builtin, identifier and no cause.
pub open spec fn same_outcome(r1: Result<bool, RuntimeError>, r2: Result<bool, RuntimeError>) -> bool {
    match (r1, r2) {
        (Ok(x), Ok(y)) => x == y,
        (Err(e1), Err(e2)) => {
            &&& e1.message@ == e2.message@
            &&& opt_view(e1.builtin) == opt_view(e2.builtin)
            &&& opt_view(e1.identifier) == opt_view(e2.identifier)
            &&& e1.source is None && e2.source is None
        },
        _ => false,
    }
}

/// The toolbox name never matters: for any two text toolbox names and the
/// same version argument, `verLessThan` gives the same answer or the same
/// error.
pub proof fn lemma_toolbox_name_irrelevant(
    a: Value,
    b: Value,
    version: Value,
    r1: Result<bool, RuntimeError>,
    r2: Result<bool, RuntimeError>,
)
    requires
        option_text_spec(a) is Some,
        option_text_spec(b) is Some,
        verlessthan_spec(seq![a, version], r1),
        verlessthan_spec(seq![b, version], r2),
    ensures
        same_outcome(r1, r2),
{
    let s1 = seq![a, version];
    let s2 = seq![b, version];
    assert(s1[0] == a && s1[1] == version && s1.len() == 2);
    assert(s2[0] == b && s2[1] == version && s2.len() == 2);
}

/// Acceleration metadata of `verLessThan`: a host-side comparison.
pub fn verlessthan_gpu_spec() -> (g: BuiltinGpuSpec)
    ensures
        g.name@ == "verLessThan"@,
{
    host_gpu_spec(
        "verLessThan",
        "introspection",
        "Runtime identity comparison; no tensor inputs and no GPU execution path.",
    )
}

/// Descriptor of `verlessthan`.
pub fn verlessthan_descriptor() -> (d: BuiltinDescriptor)
    ensures
        d.labels() == seq!["tf = verLessThan(toolbox, version)"@],
        d.codes() == seq!["RM.VERLESSTHAN.INVALID_INPUT"@, "RM.VERLESSTHAN.INVALID_VERSION"@],
        d.output_mode == BuiltinOutputMode::Fixed,
{
    let s0 = signature(
        "tf = verLessThan(toolbox, version)",
        vec![
            param(
                "toolbox",
                BuiltinParamType::StringScalar,
                BuiltinParamArity::Required,
                "Component name; RunMat maps every name to its own version.",
            ),
            param(
                "version",
                BuiltinParamType::StringScalar,
                BuiltinParamArity::Required,
                "Dotted version string to compare against.",
            ),
        ],
        vec![
            param(
                "tf",
                BuiltinParamType::LogicalArray,
                BuiltinParamArity::Required,
                "True when RunMat's version is older than the given version string.",
            ),
        ],
    );
    let d = BuiltinDescriptor {
        signatures: vec![s0],
        output_mode: BuiltinOutputMode::Fixed,
        completion_policy: BuiltinCompletionPolicy::Public,
        errors: vec![invalid_input_descriptor(), invalid_version_descriptor()],
    };
    assert(d.labels() =~= seq!["tf = verLessThan(toolbox, version)"@]);
    assert(d.codes() =~= seq!["RM.VERLESSTHAN.INVALID_INPUT"@, "RM.VERLESSTHAN.INVALID_VERSION"@]);
    d
}

/// Fusion metadata of `verlessthan`.
pub fn verlessthan_fusion_spec() -> (f: BuiltinFusionSpec)
    ensures
        f.name@ == "verlessthan"@,
{
    unfused_spec(
        "verlessthan",
        false,
        "Version comparison executed on the host; never fusible.",
    )
}


} // verus!
