//! `speye`: the sparse identity pattern and the reading of its size
//! arguments. Converting a double to a size is the caller's: each size
//! argument arrives classified.

use vstd::prelude::*;
use crate::descriptor::{error_descriptor, param, signature, unfused_spec, BroadcastSemantics, BuiltinCompletionPolicy, BuiltinDescriptor, BuiltinErrorDescriptor, BuiltinFusionSpec, BuiltinGpuSpec, BuiltinOutputMode, BuiltinParamArity, BuiltinParamType, ConstantStrategy, GpuOpKind, ReductionNaN, ResidencyPolicy, ScalarType};
use crate::error::{descriptor_error, descriptor_error_with_message, opt_view, RuntimeError};
use crate::spdiags::CscPattern;
use crate::text::{chars_to_string, push_all, str_chars};

verus! {

/// A size argument as `speye` reads it.
pub enum SizeArg {
    /// A real scalar: the size it denotes, if it is a nonnegative integer.
    Scalar(Option<usize>),
    /// A two-element numeric vector: the sizes its elements denote.
    Pair(Option<usize>, Option<usize>),
    /// Anything else.
    Other,
}

/// The error is a `speye` error with this identifier and message.
pub open spec fn speye_error_is(e: RuntimeError, ident: Seq<char>, msg: Seq<char>) -> bool {
    &&& e.message@ == msg
    &&& opt_view(e.builtin) == Some("speye"@)
    &&& opt_view(e.identifier) == Some(ident)
}

/// The error for a call that is not `speye(n)`, `speye(m, n)` or
/// `speye([m n])`.
pub fn invalid_argument() -> (e: RuntimeError)
    ensures
        speye_error_is(e, "RunMat:speye:InvalidArgument"@, "speye: expected speye(n), speye(m, n), or speye([m n])"@),
{
    descriptor_error(&speye_error_invalid_argument(), "speye")
}

/// The invalid-argument error with a detail.
pub fn invalid_argument_detail(detail: &[char]) -> (e: RuntimeError)
    ensures
        speye_error_is(e, "RunMat:speye:InvalidArgument"@, "speye: "@ + detail@),
{
    let mut cs = str_chars("speye: ");
    push_all(&mut cs, detail);
    let d = speye_error_invalid_argument();
    descriptor_error_with_message(&d, chars_to_string(cs.as_slice()), "speye")
}

/// Internal error of `speye` with a detail.
pub fn internal_error(detail: &str) -> (e: RuntimeError)
    ensures
        speye_error_is(e, "RunMat:speye:Internal"@, "speye: "@ + detail@),
{
    let mut cs = str_chars("speye: ");
    let d = str_chars(detail);
    push_all(&mut cs, d.as_slice());
    let ed = speye_error_internal();
    descriptor_error_with_message(&ed, chars_to_string(cs.as_slice()), "speye")
}

/// The detail for a size `name` that is not a nonnegative integer.
pub open spec fn size_detail(name: Seq<char>) -> Seq<char> {
    name + ": size must be a non-negative integer"@
}

/// A size, or the error naming it.
pub open spec fn size_outcome(x: Option<usize>, name: Seq<char>) -> Result<usize, Seq<char>> {
    match x {
        Some(v) => Ok(v),
        None => Err("speye: "@ + size_detail(name)),
    }
}

fn size_or_error(x: Option<usize>, name: &str) -> (r: Result<usize, RuntimeError>)
    ensures
        match size_outcome(x, name@) {
            Ok(v) => r == Ok::<usize, RuntimeError>(v),
            Err(m) => r matches Err(e) && speye_error_is(e, "RunMat:speye:InvalidArgument"@, m),
        },
{
    match x {
        Some(v) => Ok(v),
        None => {
            let mut cs = str_chars(name);
            let t = str_chars(": size must be a non-negative integer");
            push_all(&mut cs, t.as_slice());
            Err(invalid_argument_detail(cs.as_slice()))
        },
    }
}

/// What the size arguments of `speye` give: `Ok((rows, cols))` or the
/// error's message (all errors are invalid-argument errors).
pub open spec fn dims_outcome(value: SizeArg, rest: Seq<SizeArg>) -> Result<(usize, usize), Seq<char>> {
    let generic = "speye: expected speye(n), speye(m, n), or speye([m n])"@;
    if rest.len() == 0 {
        match value {
            SizeArg::Pair(a, b) => match (size_outcome(a, "m"@), size_outcome(b, "n"@)) {
                (Err(m), _) => Err(m),
                (Ok(_), Err(m)) => Err(m),
                (Ok(r), Ok(c)) => Ok((r, c)),
            },
            SizeArg::Scalar(x) => match size_outcome(x, "n"@) {
                Err(m) => Err(m),
                Ok(n) => Ok((n, n)),
            },
            SizeArg::Other => Err(generic),
        }
    } else if rest.len() == 1 {
        match value {
            SizeArg::Scalar(x) => match size_outcome(x, "m"@) {
                Err(m) => Err(m),
                Ok(r) => match rest[0] {
                    SizeArg::Scalar(y) => match size_outcome(y, "n"@) {
                        Err(m) => Err(m),
                        Ok(c) => Ok((r, c)),
                    },
                    _ => Err(generic),
                },
            },
            _ => Err(generic),
        }
    } else {
        Err(generic)
    }
}

/// The extent of the identity: `speye(n)` is `n`-by-`n`, `speye([m n])`
/// and `speye(m, n)` are `m`-by-`n`; any other call is refused.
pub fn speye_dims(value: &SizeArg, rest: &Vec<SizeArg>) -> (r: Result<(usize, usize), RuntimeError>)
    ensures
        match dims_outcome(*value, rest@) {
            Ok(d) => r == Ok::<(usize, usize), RuntimeError>(d),
            Err(m) => r matches Err(e) && speye_error_is(e, "RunMat:speye:InvalidArgument"@, m),
        },
{
    if rest.len() == 0 {
        match value {
            SizeArg::Pair(a, b) => {
                let r = match size_or_error(*a, "m") {
                    Ok(v) => v,
                    Err(e) => return Err(e),
                };
                let c = match size_or_error(*b, "n") {
                    Ok(v) => v,
                    Err(e) => return Err(e),
                };
                Ok((r, c))
            },
            SizeArg::Scalar(x) => match size_or_error(*x, "n") {
                Ok(n) => Ok((n, n)),
                Err(e) => Err(e),
            },
            SizeArg::Other => Err(invalid_argument()),
        }
    } else if rest.len() == 1 {
        match value {
            SizeArg::Scalar(x) => {
                let r = match size_or_error(*x, "m") {
                    Ok(v) => v,
                    Err(e) => return Err(e),
                };
                match &rest[0] {
                    SizeArg::Scalar(y) => match size_or_error(*y, "n") {
                        Ok(c) => Ok((r, c)),
                        Err(e) => Err(e),
                    },
                    _ => Err(invalid_argument()),
                }
            },
            _ => Err(invalid_argument()),
        }
    } else {
        Err(invalid_argument())
    }
}

/// The pattern of the `rows`-by-`cols` sparse identity: one entry at
/// `(i, i)` for each `i` below `min(rows, cols)`.
pub fn sparse_identity(rows: usize, cols: usize) -> (p: CscPattern)
    requires
        cols < usize::MAX,
    ensures
        p.wf(),
        p.rows == rows,
        p.cols == cols,
        p.row_indices@.len() == (if rows <= cols { rows } else { cols }),
        forall|i: int| 0 <= i < p.row_indices@.len() ==> p.row_indices@[i] == i,
        forall|c: int| 0 <= c <= cols ==> #[trigger] p.col_ptrs@[c] == (if c <= p.row_indices@.len() { c } else { p.row_indices@.len() as int }),
{
    let diag = if rows <= cols { rows } else { cols };
    let mut col_ptrs: Vec<usize> = Vec::new();
    col_ptrs.push(0);
    let mut c: usize = 0;
    while c < cols
        invariant
            c <= cols < usize::MAX,
            diag <= cols,
            col_ptrs@.len() == c + 1,
            forall|k: int| 0 <= k <= c ==> #[trigger] col_ptrs@[k] == (if k <= diag { k } else { diag as int }),
        decreases cols - c,
    {
        col_ptrs.push(if c + 1 <= diag { c + 1 } else { diag });
        c = c + 1;
    }
    let mut row_indices: Vec<usize> = Vec::new();
    let mut i: usize = 0;
    while i < diag
        invariant
            i <= diag,
            diag <= rows,
            row_indices@.len() == i,
            forall|k: int| 0 <= k < i ==> row_indices@[k] == k,
        decreases diag - i,
    {
        row_indices.push(i);
        i = i + 1;
    }
    let p = CscPattern { rows, cols, col_ptrs, row_indices };
    assert(p.col_ptrs@[cols as int] == diag);
    p
}

/// Acceleration metadata of `speye`: host-resident values only.
pub fn speye_gpu_spec() -> (g: BuiltinGpuSpec)
    ensures
        g.name@ == "speye"@,
        g.supported_precisions@ == seq![ScalarType::F32, ScalarType::F64],
{
    let precisions = vec![ScalarType::F32, ScalarType::F64];
    assert(precisions@ =~= seq![ScalarType::F32, ScalarType::F64]);
    BuiltinGpuSpec {
        name: String::from_str("speye"),
        op_kind: GpuOpKind::Custom(String::from_str("sparse")),
        supported_precisions: precisions,
        broadcast: BroadcastSemantics::NoBroadcast,
        provider_hooks: Vec::new(),
        constant_strategy: ConstantStrategy::InlineLiteral,
        residency: ResidencyPolicy::GatherImmediately,
        nan_mode: ReductionNaN::Include,
        two_pass_threshold: None,
        workgroup_size: None,
        accepts_nan_mode: false,
        notes: String::from_str("Creates host-resident CSC identity values; no GPU execution path."),
    }
}

fn speye_error_invalid_argument() -> (e: BuiltinErrorDescriptor)
    ensures
        e.code@ == "RM.SPEYE.INVALID_ARGUMENT"@,
        e.identifier matches Some(i) && i@ == "RunMat:speye:InvalidArgument"@,
        e.message@ == "speye: expected speye(n), speye(m, n), or speye([m n])"@,
{
    error_descriptor(
        "RM.SPEYE.INVALID_ARGUMENT",
        "RunMat:speye:InvalidArgument",
        "Arguments are not a scalar size, an (m, n) pair, or a two-element size vector.",
        "speye: expected speye(n), speye(m, n), or speye([m n])",
    )
}

fn speye_error_internal() -> (e: BuiltinErrorDescriptor)
    ensures
        e.code@ == "RM.SPEYE.INTERNAL"@,
        e.identifier matches Some(i) && i@ == "RunMat:speye:Internal"@,
        e.message@ == "speye: internal error"@,
{
    error_descriptor(
        "RM.SPEYE.INTERNAL",
        "RunMat:speye:Internal",
        "Sparse identity materialisation fails internally.",
        "speye: internal error",
    )
}

/// Descriptor of `speye`.
pub fn speye_descriptor() -> (d: BuiltinDescriptor)
    ensures
        d.labels() == seq!["S = speye(n)"@, "S = speye(m, n)"@, "S = speye(sz)"@],
        d.codes() == seq!["RM.SPEYE.INVALID_ARGUMENT"@, "RM.SPEYE.INTERNAL"@],
        d.output_mode == BuiltinOutputMode::Fixed,
{
    let s0 = signature(
        "S = speye(n)",
        vec![
            param(
                "n",
                BuiltinParamType::SizeArg,
                BuiltinParamArity::Required,
                "Number of rows and columns.",
            ),
        ],
        vec![
            param(
                "S",
                BuiltinParamType::NumericArray,
                BuiltinParamArity::Required,
                "Sparse matrix with ones on the main diagonal.",
            ),
        ],
    );
    let s1 = signature(
        "S = speye(m, n)",
        vec![
            param(
                "m",
                BuiltinParamType::SizeArg,
                BuiltinParamArity::Required,
                "Number of rows.",
            ),
            param(
                "n",
                BuiltinParamType::SizeArg,
                BuiltinParamArity::Required,
                "Number of columns.",
            ),
        ],
        vec![
            param(
                "S",
                BuiltinParamType::NumericArray,
                BuiltinParamArity::Required,
                "Sparse matrix with ones on the main diagonal.",
            ),
        ],
    );
    let s2 = signature(
        "S = speye(sz)",
        vec![
            param(
                "sz",
                BuiltinParamType::SizeArg,
                BuiltinParamArity::Required,
                "Two-element size vector [m n].",
            ),
        ],
        vec![
            param(
                "S",
                BuiltinParamType::NumericArray,
                BuiltinParamArity::Required,
                "Sparse matrix with ones on the main diagonal.",
            ),
        ],
    );
    let d = BuiltinDescriptor {
        signatures: vec![s0, s1, s2],
        output_mode: BuiltinOutputMode::Fixed,
        completion_policy: BuiltinCompletionPolicy::Public,
        errors: vec![speye_error_invalid_argument(), speye_error_internal()],
    };
    assert(d.labels() =~= seq!["S = speye(n)"@, "S = speye(m, n)"@, "S = speye(sz)"@]);
    assert(d.codes() =~= seq!["RM.SPEYE.INVALID_ARGUMENT"@, "RM.SPEYE.INTERNAL"@]);
    d
}

/// Fusion metadata of `speye`.
pub fn speye_fusion_spec() -> (f: BuiltinFusionSpec)
    ensures
        f.name@ == "speye"@,
{
    unfused_spec(
        "speye",
        false,
        "Sparse constructor; not fusible.",
    )
}

} // verus!
