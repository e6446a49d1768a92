//! `full`: sparse values become dense storage; every other value passes
//! through unchanged. The densification itself is done on the sparse
//! value by its own type; this module decides when it happens and how its
//! failure is reported.

use vstd::prelude::*;
use crate::descriptor::{error_descriptor, param, signature, unfused_spec, BroadcastSemantics, BuiltinCompletionPolicy, BuiltinDescriptor, BuiltinErrorDescriptor, BuiltinFusionSpec, BuiltinGpuSpec, BuiltinOutputMode, BuiltinParamArity, BuiltinParamType, ConstantStrategy, GpuOpKind, ReductionNaN, ResidencyPolicy, ScalarType};
use crate::error::{descriptor_error_with_message, opt_view, RuntimeError};
use crate::value::Value;

verus! {

/// `full(S)` densifies a sparse argument and returns any other argument
/// unchanged.
pub fn densifies(value: &Value) -> (b: bool)
    ensures
        b == (*value is SparseTensor),
{
    match value {
        Value::SparseTensor(_, _) => true,
        _ => false,
    }
}

/// The error for a densification that failed, with its detail.
pub fn internal_error(detail: &str) -> (e: RuntimeError)
    ensures
        e.message@ == "full: "@ + detail@,
        opt_view(e.builtin) == Some("full"@),
        opt_view(e.identifier) == Some("RunMat:full:Internal"@),
{
    let m = String::from_str("full: ").concat(detail);
    descriptor_error_with_message(&full_error_internal(), m, "full")
}

/// Acceleration metadata of `full`: densification runs on the host.
pub fn full_gpu_spec() -> (g: BuiltinGpuSpec)
    ensures
        g.name@ == "full"@,
        g.supported_precisions@ == seq![ScalarType::F32, ScalarType::F64],
{
    let precisions = vec![ScalarType::F32, ScalarType::F64];
    assert(precisions@ =~= seq![ScalarType::F32, ScalarType::F64]);
    BuiltinGpuSpec {
        name: String::from_str("full"),
        op_kind: GpuOpKind::Custom(String::from_str("sparse")),
        supported_precisions: precisions,
        broadcast: BroadcastSemantics::NoBroadcast,
        provider_hooks: Vec::new(),
        constant_strategy: ConstantStrategy::InlineLiteral,
        residency: ResidencyPolicy::GatherImmediately,
        nan_mode: ReductionNaN::Include,
        two_pass_threshold: None,
        workgroup_size: None,
        accepts_nan_mode: false,
        notes: String::from_str("Sparse values are host-resident CSC; densification runs on host. Dense inputs (including GPU tensors) pass through unchanged without gathering."),
    }
}

fn full_error_internal() -> (e: BuiltinErrorDescriptor)
    ensures
        e.code@ == "RM.FULL.INTERNAL"@,
        e.identifier matches Some(i) && i@ == "RunMat:full:Internal"@,
        e.message@ == "full: densification failed"@,
{
    error_descriptor(
        "RM.FULL.INTERNAL",
        "RunMat:full:Internal",
        "Densification fails (dimension overflow or allocation failure).",
        "full: densification failed",
    )
}

/// Descriptor of `full`.
pub fn full_descriptor() -> (d: BuiltinDescriptor)
    ensures
        d.labels() == seq!["B = full(S)"@],
        d.codes() == seq!["RM.FULL.INTERNAL"@],
        d.output_mode == BuiltinOutputMode::Fixed,
{
    let s0 = signature(
        "B = full(S)",
        vec![
            param(
                "S",
                BuiltinParamType::Any,
                BuiltinParamArity::Required,
                "Sparse or full array.",
            ),
        ],
        vec![
            param(
                "B",
                BuiltinParamType::NumericArray,
                BuiltinParamArity::Required,
                "Full-storage array with the same values as the input.",
            ),
        ],
    );
    let d = BuiltinDescriptor {
        signatures: vec![s0],
        output_mode: BuiltinOutputMode::Fixed,
        completion_policy: BuiltinCompletionPolicy::Public,
        errors: vec![full_error_internal()],
    };
    assert(d.labels() =~= seq!["B = full(S)"@]);
    assert(d.codes() =~= seq!["RM.FULL.INTERNAL"@]);
    d
}

/// Fusion metadata of `full`.
pub fn full_fusion_spec() -> (f: BuiltinFusionSpec)
    ensures
        f.name@ == "full"@,
{
    unfused_spec(
        "full",
        false,
        "Storage-representation change; not fusible.",
    )
}


} // verus!
