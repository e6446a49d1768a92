//! Descriptor metadata of a builtin: its call signatures, output mode and
//! the errors it documents, plus its acceleration and fusion metadata.

use vstd::prelude::*;

verus! {

#[derive(PartialEq, Eq, Structural, Clone, Copy, Debug)]
pub enum BuiltinOutputMode {
    Fixed,
    ByRequestedOutputCount,
}

#[derive(PartialEq, Eq, Structural, Clone, Copy, Debug)]
pub enum BuiltinCompletionPolicy {
    Public,
    MethodOnly,
    HiddenInternal,
}

#[derive(PartialEq, Eq, Structural, Clone, Copy, Debug)]
pub enum BuiltinParamArity {
    Required,
    Optional,
    Variadic,
}

#[derive(PartialEq, Eq, Structural, Clone, Copy, Debug)]
pub enum BuiltinParamType {
    Any,
    NumericScalar,
    IntegerScalar,
    StringScalar,
    NumericArray,
    LogicalArray,
    SizeArg,
    LikePrototype,
    AxesHandle,
    StyleSpec,
    PropertyName,
    PropertyValue,
}

pub struct BuiltinParamDescriptor {
    pub name: String,
    pub ty: BuiltinParamType,
    pub arity: BuiltinParamArity,
    pub default: Option<String>,
    pub description: String,
}

pub struct BuiltinSignatureDescriptor {
    pub label: String,
    pub inputs: Vec<BuiltinParamDescriptor>,
    pub outputs: Vec<BuiltinParamDescriptor>,
}

pub struct BuiltinErrorDescriptor {
    pub code: String,
    pub identifier: Option<String>,
    pub when: String,
    pub message: String,
}

pub struct BuiltinDescriptor {
    pub signatures: Vec<BuiltinSignatureDescriptor>,
    pub output_mode: BuiltinOutputMode,
    pub completion_policy: BuiltinCompletionPolicy,
    pub errors: Vec<BuiltinErrorDescriptor>,
}

impl BuiltinDescriptor {
    /// The labels of the signatures, in order.
    pub open spec fn labels(&self) -> Seq<Seq<char>> {
        self.signatures@.map_values(|s: BuiltinSignatureDescriptor| s.label@)
    }

    /// The codes of the documented errors, in order.
    pub open spec fn codes(&self) -> Seq<Seq<char>> {
        self.errors@.map_values(|e: BuiltinErrorDescriptor| e.code@)
    }
}

/// Parameter descriptor.
pub fn param(
    name: &str,
    ty: BuiltinParamType,
    arity: BuiltinParamArity,
    description: &str,
) -> (p: BuiltinParamDescriptor)
    ensures
        p.name@ == name@,
        p.ty == ty,
        p.arity == arity,
        p.default is None,
        p.description@ == description@,
{
    BuiltinParamDescriptor {
        name: String::from_str(name),
        ty,
        arity,
        default: None,
        description: String::from_str(description),
    }
}

/// Signature descriptor.
pub fn signature(
    label: &str,
    inputs: Vec<BuiltinParamDescriptor>,
    outputs: Vec<BuiltinParamDescriptor>,
) -> (s: BuiltinSignatureDescriptor)
    ensures
        s.label@ == label@,
        s.inputs@ == inputs@,
        s.outputs@ == outputs@,
{
    BuiltinSignatureDescriptor { label: String::from_str(label), inputs, outputs }
}

/// Error descriptor with a stable identifier.
pub fn error_descriptor(
    code: &str,
    identifier: &str,
    when: &str,
    message: &str,
) -> (e: BuiltinErrorDescriptor)
    ensures
        e.code@ == code@,
        e.identifier matches Some(i) && i@ == identifier@,
        e.when@ == when@,
        e.message@ == message@,
{
    BuiltinErrorDescriptor {
        code: String::from_str(code),
        identifier: Some(String::from_str(identifier)),
        when: String::from_str(when),
        message: String::from_str(message),
    }
}

/// Error descriptor without an identifier.
pub fn error_descriptor_anonymous(code: &str, when: &str, message: &str) -> (e: BuiltinErrorDescriptor)
    ensures
        e.code@ == code@,
        e.identifier is None,
        e.when@ == when@,
        e.message@ == message@,
{
    BuiltinErrorDescriptor {
        code: String::from_str(code),
        identifier: None,
        when: String::from_str(when),
        message: String::from_str(message),
    }
}

/// Parameter descriptor with a documented default.
pub fn param_with_default(
    name: &str,
    ty: BuiltinParamType,
    arity: BuiltinParamArity,
    default: &str,
    description: &str,
) -> (p: BuiltinParamDescriptor)
    ensures
        p.name@ == name@,
        p.ty == ty,
        p.arity == arity,
        p.default matches Some(d) && d@ == default@,
        p.description@ == description@,
{
    BuiltinParamDescriptor {
        name: String::from_str(name),
        ty,
        arity,
        default: Some(String::from_str(default)),
        description: String::from_str(description),
    }
}


/// Kind of GPU operation a builtin would lower to.
pub enum GpuOpKind {
    Custom(String),
}

#[derive(PartialEq, Eq, Structural, Clone, Copy, Debug)]
pub enum ScalarType {
    F32,
    F64,
}

#[derive(PartialEq, Eq, Structural, Clone, Copy, Debug)]
pub enum BroadcastSemantics {
    NoBroadcast,
    Matlab,
}

/// Provider hook a GPU implementation would call.
pub enum ProviderHook {
    Custom(String),
}

#[derive(PartialEq, Eq, Structural, Clone, Copy, Debug)]
pub enum ConstantStrategy {
    InlineLiteral,
}

#[derive(PartialEq, Eq, Structural, Clone, Copy, Debug)]
pub enum ResidencyPolicy {
    GatherImmediately,
}

#[derive(PartialEq, Eq, Structural, Clone, Copy, Debug)]
pub enum ReductionNaN {
    Include,
    Omit,
}

#[derive(PartialEq, Eq, Structural, Clone, Copy, Debug)]
pub enum ShapeRequirements {
    Any,
    BroadcastCompatible,
}

/// Acceleration metadata of a builtin.
pub struct BuiltinGpuSpec {
    pub name: String,
    pub op_kind: GpuOpKind,
    pub supported_precisions: Vec<ScalarType>,
    pub broadcast: BroadcastSemantics,
    pub provider_hooks: Vec<ProviderHook>,
    pub constant_strategy: ConstantStrategy,
    pub residency: ResidencyPolicy,
    pub nan_mode: ReductionNaN,
    pub two_pass_threshold: Option<usize>,
    pub workgroup_size: Option<u32>,
    pub accepts_nan_mode: bool,
    pub notes: String,
}

/// Fusion metadata of a builtin. None of these builtins has an elementwise
/// or reduction template, so those fields are absent.
pub struct BuiltinFusionSpec {
    pub name: String,
    pub shape: ShapeRequirements,
    pub constant_strategy: ConstantStrategy,
    pub emits_nan: bool,
    pub notes: String,
}

/// Host-only acceleration metadata: a custom operation kind, no precisions
/// or provider hooks, no broadcasting, inputs gathered immediately.
pub fn host_gpu_spec(name: &str, op_kind: &str, notes: &str) -> (g: BuiltinGpuSpec)
    ensures
        g.name@ == name@,
        g.op_kind matches GpuOpKind::Custom(k) && k@ == op_kind@,
        g.notes@ == notes@,
        g.supported_precisions@.len() == 0,
        g.provider_hooks@.len() == 0,
        g.broadcast == BroadcastSemantics::NoBroadcast,
        g.nan_mode == ReductionNaN::Include,
{
    BuiltinGpuSpec {
        name: String::from_str(name),
        op_kind: GpuOpKind::Custom(String::from_str(op_kind)),
        supported_precisions: Vec::new(),
        broadcast: BroadcastSemantics::NoBroadcast,
        provider_hooks: Vec::new(),
        constant_strategy: ConstantStrategy::InlineLiteral,
        residency: ResidencyPolicy::GatherImmediately,
        nan_mode: ReductionNaN::Include,
        two_pass_threshold: None,
        workgroup_size: None,
        accepts_nan_mode: false,
        notes: String::from_str(notes),
    }
}

/// Fusion metadata of a builtin that is never fused.
pub fn unfused_spec(name: &str, emits_nan: bool, notes: &str) -> (f: BuiltinFusionSpec)
    ensures
        f.name@ == name@,
        f.emits_nan == emits_nan,
        f.notes@ == notes@,
{
    BuiltinFusionSpec {
        name: String::from_str(name),
        shape: ShapeRequirements::Any,
        constant_strategy: ConstantStrategy::InlineLiteral,
        emits_nan,
        notes: String::from_str(notes),
    }
}

} // verus!
