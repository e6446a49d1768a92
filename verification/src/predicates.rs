//! Value predicates: `iscell`, `iscellstr`, `isobject`, `isrow`, `istable`
//! and the text part of `isfolder`.

use vstd::prelude::*;
use crate::descriptor::{host_gpu_spec, param, signature, unfused_spec, BuiltinCompletionPolicy, BuiltinDescriptor, BuiltinFusionSpec, BuiltinGpuSpec, BuiltinOutputMode, BuiltinParamArity, BuiltinParamType};
use crate::strmatch::{single_text, text_of};
use crate::value::{Value, ValueClass};

verus! {

/// `iscell`: a cell array that is empty or holds something other than
/// structs (a cell of structs is a struct array).
pub open spec fn iscell_spec(v: Value) -> bool {
    match v {
        Value::Cell(classes) => classes@.len() == 0 || exists|i: int| 0 <= i < classes@.len() && classes@[i] != ValueClass::Struct,
        _ => false,
    }
}

#[verifier::loop_isolation(false)]
pub fn iscell_value(value: &Value) -> (b: bool)
    ensures
        b == iscell_spec(*value),
{
    match value {
        Value::Cell(classes) => {
            if classes.len() == 0 {
                return true;
            }
            let mut i: usize = 0;
            while i < classes.len()
                invariant
                    i <= classes@.len(),
                    forall|k: int| 0 <= k < i ==> classes@[k] == ValueClass::Struct,
                decreases classes@.len() - i,
            {
                if classes[i] != ValueClass::Struct {
                    assert(classes@[i as int] != ValueClass::Struct);
                    return true;
                }
                i = i + 1;
            }
            false
        },
        _ => false,
    }
}

/// `iscellstr`: a cell array whose elements are all character arrays or
/// strings.
pub open spec fn iscellstr_spec(v: Value) -> bool {
    match v {
        Value::Cell(classes) => forall|i: int| 0 <= i < classes@.len() ==> (#[trigger] classes@[i] == ValueClass::CharArray
            || classes@[i] == ValueClass::String),
        _ => false,
    }
}

#[verifier::loop_isolation(false)]
pub fn iscellstr_value(value: &Value) -> (b: bool)
    ensures
        b == iscellstr_spec(*value),
{
    match value {
        Value::Cell(classes) => {
            let mut i: usize = 0;
            while i < classes.len()
                invariant
                    i <= classes@.len(),
                    forall|k: int| 0 <= k < i ==> (#[trigger] classes@[k] == ValueClass::CharArray || classes@[k] == ValueClass::String),
                decreases classes@.len() - i,
            {
                if classes[i] != ValueClass::CharArray && classes[i] != ValueClass::String {
                    assert(!(classes@[i as int] == ValueClass::CharArray || classes@[i as int] == ValueClass::String));
                    return false;
                }
                i = i + 1;
            }
            true
        },
        _ => false,
    }
}

/// `isobject`: a value or handle object.
pub fn isobject_value(value: &Value) -> (b: bool)
    ensures
        b == (*value is Object || *value is HandleObject),
{
    match value {
        Value::Object | Value::HandleObject => true,
        _ => false,
    }
}

/// `istable`: no value is a table.
pub fn istable_value(value: &Value) -> (b: bool)
    ensures
        !b,
{
    false
}

/// `isrow`, given the value's dimensions: exactly two, the first one.
pub fn isrow_value(dims: &[usize]) -> (b: bool)
    ensures
        b == (dims@.len() == 2 && dims@[0] == 1),
{
    dims.len() == 2 && dims[0] == 1
}

/// `isfolder`: the path to look up, if any. A value that is not a single
/// piece of text, or empty text, is no folder and needs no look-up.
pub fn folder_query(path: &Value) -> (r: Option<Vec<char>>)
    ensures
        match single_text(*path) {
            Some(t) => if t.len() == 0 { r is None } else { r matches Some(p) && p@ == t },
            None => r is None,
        },
{
    match text_of(path) {
        Some(t) => {
            if t.len() == 0 {
                None
            } else {
                Some(t)
            }
        },
        None => None,
    }
}

/// Descriptor of `iscell`.
pub fn iscell_descriptor() -> (d: BuiltinDescriptor)
    ensures
        d.labels() == seq!["tf = iscell(A)"@],
        d.codes().len() == 0,
        d.output_mode == BuiltinOutputMode::Fixed,
{
    let s0 = signature(
        "tf = iscell(A)",
        vec![
            param(
                "A",
                BuiltinParamType::Any,
                BuiltinParamArity::Required,
                "Value to test.",
            ),
        ],
        vec![
            param(
                "tf",
                BuiltinParamType::LogicalArray,
                BuiltinParamArity::Required,
                "True when the input is a cell array.",
            ),
        ],
    );
    let d = BuiltinDescriptor {
        signatures: vec![s0],
        output_mode: BuiltinOutputMode::Fixed,
        completion_policy: BuiltinCompletionPolicy::Public,
        errors: vec![],
    };
    assert(d.labels() =~= seq!["tf = iscell(A)"@]);
    assert(d.codes().len() == 0);
    d
}

/// Fusion metadata of `iscell`.
pub fn iscell_fusion_spec() -> (f: BuiltinFusionSpec)
    ensures
        f.name@ == "iscell"@,
{
    unfused_spec(
        "iscell",
        false,
        "Type check executed outside fusion; planners treat it as a scalar metadata query.",
    )
}

/// Acceleration metadata of `iscell`.
pub fn iscell_gpu_spec() -> (g: BuiltinGpuSpec)
    ensures
        g.name@ == "iscell"@,
{
    host_gpu_spec(
        "iscell",
        "metadata",
        "GPU tensors are never cell arrays; the predicate answers from value kind without gathering.",
    )
}

/// Descriptor of `iscellstr`.
pub fn iscellstr_descriptor() -> (d: BuiltinDescriptor)
    ensures
        d.labels() == seq!["tf = iscellstr(A)"@],
        d.codes().len() == 0,
        d.output_mode == BuiltinOutputMode::Fixed,
{
    let s0 = signature(
        "tf = iscellstr(A)",
        vec![
            param(
                "A",
                BuiltinParamType::Any,
                BuiltinParamArity::Required,
                "Value to test.",
            ),
        ],
        vec![
            param(
                "tf",
                BuiltinParamType::LogicalArray,
                BuiltinParamArity::Required,
                "True when the input is a cell array of character vectors.",
            ),
        ],
    );
    let d = BuiltinDescriptor {
        signatures: vec![s0],
        output_mode: BuiltinOutputMode::Fixed,
        completion_policy: BuiltinCompletionPolicy::Public,
        errors: vec![],
    };
    assert(d.labels() =~= seq!["tf = iscellstr(A)"@]);
    assert(d.codes().len() == 0);
    d
}

/// Fusion metadata of `iscellstr`.
pub fn iscellstr_fusion_spec() -> (f: BuiltinFusionSpec)
    ensures
        f.name@ == "iscellstr"@,
{
    unfused_spec(
        "iscellstr",
        false,
        "Type check executed outside fusion; planners treat it as a scalar metadata query.",
    )
}

/// Acceleration metadata of `iscellstr`.
pub fn iscellstr_gpu_spec() -> (g: BuiltinGpuSpec)
    ensures
        g.name@ == "iscellstr"@,
{
    host_gpu_spec(
        "iscellstr",
        "metadata",
        "GPU tensors are never cell arrays; the predicate answers from value kind without gathering.",
    )
}

/// Descriptor of `isobject`.
pub fn isobject_descriptor() -> (d: BuiltinDescriptor)
    ensures
        d.labels() == seq!["tf = isobject(A)"@],
        d.codes().len() == 0,
        d.output_mode == BuiltinOutputMode::Fixed,
{
    let s0 = signature(
        "tf = isobject(A)",
        vec![
            param(
                "A",
                BuiltinParamType::Any,
                BuiltinParamArity::Required,
                "Value to test.",
            ),
        ],
        vec![
            param(
                "tf",
                BuiltinParamType::LogicalArray,
                BuiltinParamArity::Required,
                "True when the input is an object instance.",
            ),
        ],
    );
    let d = BuiltinDescriptor {
        signatures: vec![s0],
        output_mode: BuiltinOutputMode::Fixed,
        completion_policy: BuiltinCompletionPolicy::Public,
        errors: vec![],
    };
    assert(d.labels() =~= seq!["tf = isobject(A)"@]);
    assert(d.codes().len() == 0);
    d
}

/// Fusion metadata of `isobject`.
pub fn isobject_fusion_spec() -> (f: BuiltinFusionSpec)
    ensures
        f.name@ == "isobject"@,
{
    unfused_spec(
        "isobject",
        false,
        "Metadata-only predicate that does not participate in fusion planning.",
    )
}

/// Acceleration metadata of `isobject`.
pub fn isobject_gpu_spec() -> (g: BuiltinGpuSpec)
    ensures
        g.name@ == "isobject"@,
{
    host_gpu_spec(
        "isobject",
        "metadata",
        "Runs entirely on the host and inspects value kind; gpuArray inputs return logical false.",
    )
}

/// Descriptor of `isrow`.
pub fn isrow_descriptor() -> (d: BuiltinDescriptor)
    ensures
        d.labels() == seq!["tf = isrow(A)"@],
        d.codes().len() == 0,
        d.output_mode == BuiltinOutputMode::Fixed,
{
    let s0 = signature(
        "tf = isrow(A)",
        vec![
            param(
                "A",
                BuiltinParamType::Any,
                BuiltinParamArity::Required,
                "Value to test.",
            ),
        ],
        vec![
            param(
                "tf",
                BuiltinParamType::LogicalArray,
                BuiltinParamArity::Required,
                "True when the input is a row vector (1-by-N, including scalars).",
            ),
        ],
    );
    let d = BuiltinDescriptor {
        signatures: vec![s0],
        output_mode: BuiltinOutputMode::Fixed,
        completion_policy: BuiltinCompletionPolicy::Public,
        errors: vec![],
    };
    assert(d.labels() =~= seq!["tf = isrow(A)"@]);
    assert(d.codes().len() == 0);
    d
}

/// Fusion metadata of `isrow`.
pub fn isrow_fusion_spec() -> (f: BuiltinFusionSpec)
    ensures
        f.name@ == "isrow"@,
{
    unfused_spec(
        "isrow",
        false,
        "Shape check executed outside fusion; planners treat it as a scalar metadata query.",
    )
}

/// Acceleration metadata of `isrow`.
pub fn isrow_gpu_spec() -> (g: BuiltinGpuSpec)
    ensures
        g.name@ == "isrow"@,
{
    host_gpu_spec(
        "isrow",
        "metadata",
        "Answers from GPU handle shape metadata; gathers only when a provider omits shape.",
    )
}

/// Descriptor of `istable`.
pub fn istable_descriptor() -> (d: BuiltinDescriptor)
    ensures
        d.labels() == seq!["tf = istable(A)"@],
        d.codes().len() == 0,
        d.output_mode == BuiltinOutputMode::Fixed,
{
    let s0 = signature(
        "tf = istable(A)",
        vec![
            param(
                "A",
                BuiltinParamType::Any,
                BuiltinParamArity::Required,
                "Value to test.",
            ),
        ],
        vec![
            param(
                "tf",
                BuiltinParamType::LogicalArray,
                BuiltinParamArity::Required,
                "True when the input is a table.",
            ),
        ],
    );
    let d = BuiltinDescriptor {
        signatures: vec![s0],
        output_mode: BuiltinOutputMode::Fixed,
        completion_policy: BuiltinCompletionPolicy::Public,
        errors: vec![],
    };
    assert(d.labels() =~= seq!["tf = istable(A)"@]);
    assert(d.codes().len() == 0);
    d
}

/// Fusion metadata of `istable`.
pub fn istable_fusion_spec() -> (f: BuiltinFusionSpec)
    ensures
        f.name@ == "istable"@,
{
    unfused_spec(
        "istable",
        false,
        "Type check executed outside fusion; planners treat it as a scalar metadata query.",
    )
}

/// Acceleration metadata of `istable`.
pub fn istable_gpu_spec() -> (g: BuiltinGpuSpec)
    ensures
        g.name@ == "istable"@,
{
    host_gpu_spec(
        "istable",
        "metadata",
        "GPU tensors are never tables; the predicate answers from value kind without gathering.",
    )
}

/// Descriptor of `isfolder`.
pub fn isfolder_descriptor() -> (d: BuiltinDescriptor)
    ensures
        d.labels() == seq!["tf = isfolder(path)"@],
        d.codes().len() == 0,
        d.output_mode == BuiltinOutputMode::Fixed,
{
    let s0 = signature(
        "tf = isfolder(path)",
        vec![
            param(
                "path",
                BuiltinParamType::Any,
                BuiltinParamArity::Required,
                "Path text to test.",
            ),
        ],
        vec![
            param(
                "tf",
                BuiltinParamType::LogicalArray,
                BuiltinParamArity::Required,
                "True when the path refers to an existing folder.",
            ),
        ],
    );
    let d = BuiltinDescriptor {
        signatures: vec![s0],
        output_mode: BuiltinOutputMode::Fixed,
        completion_policy: BuiltinCompletionPolicy::Public,
        errors: vec![],
    };
    assert(d.labels() =~= seq!["tf = isfolder(path)"@]);
    assert(d.codes().len() == 0);
    d
}

/// Fusion metadata of `isfolder`.
pub fn isfolder_fusion_spec() -> (f: BuiltinFusionSpec)
    ensures
        f.name@ == "isfolder"@,
{
    unfused_spec(
        "isfolder",
        false,
        "Not fusible; performs filesystem I/O.",
    )
}

/// Acceleration metadata of `isfolder`.
pub fn isfolder_gpu_spec() -> (g: BuiltinGpuSpec)
    ensures
        g.name@ == "isfolder"@,
{
    host_gpu_spec(
        "isfolder",
        "io",
        "Filesystem predicate; no GPU execution path.",
    )
}
} // verus!
