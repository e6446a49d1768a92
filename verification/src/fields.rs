//! `fields`: legacy name of `fieldnames`; the call is delegated by the
//! caller, and only the metadata lives here.

use vstd::prelude::*;
use crate::descriptor::{error_descriptor, param, signature, BuiltinCompletionPolicy, BuiltinDescriptor, BuiltinErrorDescriptor, BuiltinOutputMode, BuiltinParamArity, BuiltinParamType};

verus! {

fn fields_error_invalid_target() -> (e: BuiltinErrorDescriptor)
    ensures
        e.code@ == "RM.FIELDS.INVALID_TARGET"@,
        e.identifier matches Some(i) && i@ == "RunMat:fieldnames:InvalidTarget"@,
        e.message@ == "fieldnames: expected struct, struct array, or object"@,
{
    error_descriptor(
        "RM.FIELDS.INVALID_TARGET",
        "RunMat:fieldnames:InvalidTarget",
        "Input is not a struct, struct array, or object value; raised by the delegated fieldnames builtin (error inputs are unobserved in the approved spec).",
        "fieldnames: expected struct, struct array, or object",
    )
}

/// Descriptor of `fields`.
pub fn fields_descriptor() -> (d: BuiltinDescriptor)
    ensures
        d.labels() == seq!["c = fields(s)"@],
        d.codes() == seq!["RM.FIELDS.INVALID_TARGET"@],
        d.output_mode == BuiltinOutputMode::Fixed,
{
    let s0 = signature(
        "c = fields(s)",
        vec![
            param(
                "s",
                BuiltinParamType::Any,
                BuiltinParamArity::Required,
                "Structure array.",
            ),
        ],
        vec![
            param(
                "c",
                BuiltinParamType::Any,
                BuiltinParamArity::Required,
                "Cell array of field-name character vectors.",
            ),
        ],
    );
    let d = BuiltinDescriptor {
        signatures: vec![s0],
        output_mode: BuiltinOutputMode::Fixed,
        completion_policy: BuiltinCompletionPolicy::Public,
        errors: vec![fields_error_invalid_target()],
    };
    assert(d.labels() =~= seq!["c = fields(s)"@]);
    assert(d.codes() =~= seq!["RM.FIELDS.INVALID_TARGET"@]);
    d
}

} // verus!
