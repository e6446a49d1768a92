//! `accumarray`: values summed into an output column by subscript.
//!
//! The values themselves (doubles) stay with the caller: the library checks
//! the arguments, fixes the output length, and says where each value goes
//! and which output positions receive none (and so take the fill value).

use vstd::prelude::*;
use crate::descriptor::{error_descriptor, param, signature, unfused_spec, BroadcastSemantics, BuiltinCompletionPolicy, BuiltinDescriptor, BuiltinErrorDescriptor, BuiltinFusionSpec, BuiltinGpuSpec, BuiltinOutputMode, BuiltinParamArity, BuiltinParamType, ConstantStrategy, GpuOpKind, ReductionNaN, ResidencyPolicy, ScalarType};
use crate::error::{descriptor_error, descriptor_error_with_message, opt_view, RuntimeError};

verus! {

/// An optional trailing argument: not passed, passed as the `[]`
/// placeholder (an empty numeric or logical array), or passed with a value.
pub enum OptionalArg<T> {
    Absent,
    Placeholder,
    Given(T),
}

/// The subscript argument read as a numeric array: its first extent (zero
/// when it has none) and, per element, the subscript the element denotes
/// when it is a real positive integer.
pub struct Subscripts {
    pub first_extent: usize,
    pub entries: Vec<Option<usize>>,
}

/// The arguments of `accumarray(subs, vals, sz, fun, fillval, issparse)`
/// as the accumulation reads them. An `Err` carries the message of an
/// argument that could not be read as a numeric array. `sz` holds, per
/// element, the nonnegative integer it denotes; `fillval_len` the number of
/// elements of the fill value; `sparse_option` whether a sixth argument was
/// passed.
pub struct AccumArgs {
    pub subs: Result<Subscripts, String>,
    pub vals_len: Result<usize, String>,
    pub sz: OptionalArg<Result<Vec<Option<usize>>, String>>,
    pub fun: OptionalArg<()>,
    pub fillval_len: OptionalArg<Result<usize, String>>,
    pub sparse_option: bool,
}

/// How the values are summed: the output length, the 0-based output
/// position of each subscript, which positions receive at least one value,
/// and whether a single value is used for every subscript.
pub struct AccumPlan {
    pub out_len: usize,
    pub targets: Vec<usize>,
    pub touched: Vec<bool>,
    pub scalar_vals: bool,
}

/// The element is a valid subscript: a positive integer.
pub open spec fn valid_sub(x: Option<usize>) -> bool {
    x matches Some(v) && v >= 1
}

/// Every element is a valid subscript.
pub open spec fn all_valid(s: Seq<Option<usize>>) -> bool {
    forall|i: int| 0 <= i < s.len() ==> valid_sub(#[trigger] s[i])
}

/// The largest of the first `n` subscripts, or zero.
pub open spec fn max_sub(s: Seq<Option<usize>>, n: int) -> nat
    decreases n,
{
    if n <= 0 {
        0
    } else {
        let prev = max_sub(s, n - 1);
        match s[n - 1] {
            Some(v) => if v > prev { v as nat } else { prev },
            None => prev,
        }
    }
}

/// The subscripts form more than one column.
pub open spec fn multi_column(first_extent: nat, total: nat) -> bool {
    first_extent != 0 && total / first_extent > 1
}

/// The output length that `sz` fixes when the largest subscript is `max`:
/// `max` for an empty `sz`, else its first element when that is a
/// nonnegative integer, the others are all one and it is no smaller than
/// `max`; `None` when `sz` is not such a size.
pub open spec fn sized_length(sz: Seq<Option<usize>>, max: nat) -> Option<nat> {
    if sz.len() == 0 {
        Some(max)
    } else {
        match sz[0] {
            None => None,
            Some(m) => if (exists|i: int| 1 <= i < sz.len() && #[trigger] sz[i] != Some(1usize)) || m < max {
                None
            } else {
                Some(m as nat)
            },
        }
    }
}

/// The identifier and message of an `accumarray` error.
pub open spec fn failure(ident: &str, msg: &str) -> Option<(Seq<char>, Seq<char>)> {
    Some((ident@, msg@))
}

/// The error `accumarray` raises for these arguments, if any: the checks
/// run in argument order (the sparse-output option first, then `subs`,
/// `vals`, `fun`, `sz` and `fillval`).
pub open spec fn accum_failure(a: AccumArgs) -> Option<(Seq<char>, Seq<char>)> {
    if a.sparse_option {
        failure("RunMat:accumarray:SparseOutputUnsupported", "accumarray: sparse output (issparse) is not yet supported")
    } else {
        match a.subs {
            Err(m) => Some(("RunMat:accumarray:InvalidInput"@, m@)),
            Ok(s) => if multi_column(s.first_extent as nat, s.entries@.len()) {
                failure(
                    "RunMat:accumarray:MultiColumnUnsupported",
                    "accumarray: multi-column subscripts (N-D output) are not yet supported",
                )
            } else if !all_valid(s.entries@) {
                failure("RunMat:accumarray:InvalidSubscripts", "accumarray: subscripts must be real positive integers")
            } else {
                match a.vals_len {
                    Err(m) => Some(("RunMat:accumarray:InvalidInput"@, m@)),
                    Ok(vl) => if vl != 1 && vl != s.entries@.len() {
                        failure(
                            "RunMat:accumarray:SizeMismatch",
                            "accumarray: vals must be a scalar or match the number of subscripts",
                        )
                    } else if a.fun is Given {
                        failure(
                            "RunMat:accumarray:CustomFunctionUnsupported",
                            "accumarray: custom accumulation functions are not yet supported; pass [] for the default sum",
                        )
                    } else {
                        let sz_failure = match a.sz {
                            OptionalArg::Given(Err(m)) => Some(("RunMat:accumarray:InvalidInput"@, m@)),
                            OptionalArg::Given(Ok(sz)) => if sized_length(sz@, max_sub(s.entries@, s.entries@.len() as int)) is None {
                                failure(
                                    "RunMat:accumarray:InvalidSize",
                                    "accumarray: sz must be a nonnegative [m 1] size no smaller than max(subs)",
                                )
                            } else {
                                None
                            },
                            _ => None,
                        };
                        if sz_failure is Some {
                            sz_failure
                        } else {
                            match a.fillval_len {
                                OptionalArg::Given(Err(m)) => Some(("RunMat:accumarray:InvalidInput"@, m@)),
                                OptionalArg::Given(Ok(n)) => if n != 1 {
                                    failure("RunMat:accumarray:InvalidInput", "accumarray: fillval must be a real scalar")
                                } else {
                                    None
                                },
                                _ => None,
                            }
                        }
                    },
                }
            },
        }
    }
}

/// The output length when the arguments are accepted: what `sz` fixes, or
/// the largest subscript.
pub open spec fn accum_length(a: AccumArgs) -> nat {
    let s = a.subs->Ok_0.entries@;
    let max = max_sub(s, s.len() as int);
    match a.sz {
        OptionalArg::Given(Ok(sz)) => sized_length(sz@, max)->Some_0,
        _ => max,
    }
}

/// Some subscript among `s` is `k + 1`.
pub open spec fn receives(s: Seq<Option<usize>>, k: int) -> bool {
    exists|i: int| 0 <= i < s.len() && s[i] == Some((k + 1) as usize)
}

/// The plan sums the values of accepted arguments: each subscript sends its
/// value to the position one below it, and exactly the positions some
/// subscript names receive values.
pub open spec fn plan_ok(a: AccumArgs, plan: AccumPlan) -> bool {
    let s = a.subs->Ok_0.entries@;
    &&& plan.out_len == accum_length(a)
    &&& plan.scalar_vals == (a.vals_len->Ok_0 == 1)
    &&& plan.targets@.len() == s.len()
    &&& forall|i: int| 0 <= i < s.len() ==> s[i] == Some((#[trigger] plan.targets@[i] + 1) as usize)
    &&& plan.touched@.len() == plan.out_len
    &&& forall|k: int| 0 <= k < plan.out_len ==> (#[trigger] plan.touched@[k] <==> receives(s, k))
}

/// The error is an `accumarray` error with this identifier and message.
pub open spec fn accum_error_is(e: RuntimeError, ident: Seq<char>, msg: Seq<char>) -> bool {
    &&& e.message@ == msg
    &&& opt_view(e.builtin) == Some("accumarray"@)
    &&& opt_view(e.identifier) == Some(ident)
}

/// The invalid-input error of `accumarray` with the given message.
pub fn invalid_input(message: String) -> (e: RuntimeError)
    ensures
        accum_error_is(e, "RunMat:accumarray:InvalidInput"@, message@),
{
    let d = accumarray_error_invalid_input();
    descriptor_error_with_message(&d, message, "accumarray")
}

/// The output length fixed by an `sz` argument whose elements denote the
/// given nonnegative integers, the largest subscript being `max_index`.
pub fn resolve_output_length(sz: &Vec<Option<usize>>, max_index: usize) -> (r: Result<usize, RuntimeError>)
    ensures
        match sized_length(sz@, max_index as nat) {
            Some(m) => r == Ok::<usize, RuntimeError>(m as usize),
            None => r matches Err(e) && accum_error_is(
                e,
                "RunMat:accumarray:InvalidSize"@,
                "accumarray: sz must be a nonnegative [m 1] size no smaller than max(subs)"@,
            ),
        },
{
    if sz.len() == 0 {
        return Ok(max_index);
    }
    let m = match sz[0] {
        Some(m) => m,
        None => return Err(descriptor_error(&accumarray_error_size_argument(), "accumarray")),
    };
    let mut i: usize = 1;
    while i < sz.len()
        invariant
            1 <= i <= sz@.len(),
            forall|j: int| 1 <= j < i ==> #[trigger] sz@[j] == Some(1usize),
        decreases sz@.len() - i,
    {
        match sz[i] {
            Some(1) => {},
            _ => {
                proof {
                    assert(sz@[i as int] != Some(1usize));
                }
                return Err(descriptor_error(&accumarray_error_size_argument(), "accumarray"));
            },
        }
        i = i + 1;
    }
    if m < max_index {
        return Err(descriptor_error(&accumarray_error_size_argument(), "accumarray"));
    }
    Ok(m)
}

/// Checks the arguments of `accumarray` and plans the sum: the error for
/// rejected arguments, else the output length, where each value goes and
/// which output positions receive one.
pub fn accumarray_plan(args: &AccumArgs) -> (r: Result<AccumPlan, RuntimeError>)
    ensures
        match accum_failure(*args) {
            Some((id, msg)) => r matches Err(e) && accum_error_is(e, id, msg),
            None => r matches Ok(plan) && plan_ok(*args, plan),
        },
{
    if args.sparse_option {
        return Err(descriptor_error(&accumarray_error_sparse_output(), "accumarray"));
    }
    let subs = match &args.subs {
        Err(m) => return Err(invalid_input(m.clone())),
        Ok(s) => s,
    };
    let total = subs.entries.len();
    if subs.first_extent != 0 && total / subs.first_extent > 1 {
        return Err(descriptor_error(&accumarray_error_multi_column(), "accumarray"));
    }
    let ghost s = subs.entries@;
    let mut targets: Vec<usize> = Vec::new();
    let mut max_index: usize = 0;
    let mut i: usize = 0;
    while i < total
        invariant
            total == s.len(),
            s == subs.entries@,
            !args.sparse_option,
            args.subs is Ok,
            args.subs->Ok_0.entries@ == s,
            !multi_column(args.subs->Ok_0.first_extent as nat, s.len()),
            i <= total,
            targets@.len() == i,
            forall|j: int| 0 <= j < i ==> s[j] == Some((#[trigger] targets@[j] + 1) as usize),
            forall|j: int| 0 <= j < i ==> valid_sub(#[trigger] s[j]),
            max_index == max_sub(s, i as int),
            forall|j: int| 0 <= j < i ==> targets@[j] < max_index,
        decreases total - i,
    {
        match subs.entries[i] {
            Some(idx) => {
                if idx == 0 {
                    proof {
                        assert(!valid_sub(s[i as int]));
                    }
                    return Err(descriptor_error(&accumarray_error_invalid_subscripts(), "accumarray"));
                }
                if idx > max_index {
                    max_index = idx;
                }
                targets.push(idx - 1);
            },
            None => {
                proof {
                    assert(!valid_sub(s[i as int]));
                }
                return Err(descriptor_error(&accumarray_error_invalid_subscripts(), "accumarray"));
            },
        }
        i = i + 1;
    }
    assert(all_valid(s));
    let scalar_vals = match &args.vals_len {
        Err(m) => return Err(invalid_input(m.clone())),
        Ok(vl) => {
            if *vl != 1 && *vl != total {
                return Err(descriptor_error(&accumarray_error_size_mismatch(), "accumarray"));
            }
            *vl == 1
        },
    };
    if let OptionalArg::Given(_) = &args.fun {
        return Err(descriptor_error(&accumarray_error_custom_function(), "accumarray"));
    }
    let out_len = match &args.sz {
        OptionalArg::Given(Err(m)) => return Err(invalid_input(m.clone())),
        OptionalArg::Given(Ok(sz)) => match resolve_output_length(sz, max_index) {
            Ok(n) => n,
            Err(e) => return Err(e),
        },
        _ => max_index,
    };
    match &args.fillval_len {
        OptionalArg::Given(Err(m)) => return Err(invalid_input(m.clone())),
        OptionalArg::Given(Ok(n)) => {
            if *n != 1 {
                return Err(invalid_input(String::from_str("accumarray: fillval must be a real scalar")));
            }
        },
        _ => {},
    }
    let mut touched: Vec<bool> = Vec::new();
    let mut k: usize = 0;
    while k < out_len
        invariant
            k <= out_len,
            touched@.len() == k,
            forall|t: int| 0 <= t < k ==> !(#[trigger] touched@[t]),
        decreases out_len - k,
    {
        touched.push(false);
        k = k + 1;
    }
    let mut j: usize = 0;
    while j < total
        invariant
            total == s.len(),
            j <= total,
            targets@.len() == total,
            max_index <= out_len,
            forall|t: int| 0 <= t < total ==> s[t] == Some((#[trigger] targets@[t] + 1) as usize),
            forall|t: int| 0 <= t < total ==> #[trigger] targets@[t] < max_index,
            touched@.len() == out_len,
            forall|q: int| 0 <= q < out_len ==> (#[trigger] touched@[q] <==> exists|t: int| 0 <= t < j && targets@[t] == q),
        decreases total - j,
    {
        let t = targets[j];
        touched.set(t, true);
        proof {
            assert forall|q: int| 0 <= q < out_len implies (#[trigger] touched@[q] <==> exists|t2: int| 0 <= t2 < j + 1 && targets@[t2] == q) by {
                if q == t {
                    assert(targets@[j as int] == q);
                }
            }
        }
        j = j + 1;
    }
    let plan = AccumPlan { out_len, targets, touched, scalar_vals };
    proof {
        assert forall|q: int| 0 <= q < plan.out_len implies (#[trigger] plan.touched@[q] <==> receives(s, q)) by {
            if plan.touched@[q] {
                let t = choose|t: int| 0 <= t < total && plan.targets@[t] == q;
                assert(s[t] == Some((q + 1) as usize));
            }
            if receives(s, q) {
                let t = choose|t: int| 0 <= t < s.len() && s[t] == Some((q + 1) as usize);
                assert(s[t] == Some((plan.targets@[t] + 1) as usize));
                assert(plan.targets@[t] == q);
            }
        }
    }
    Ok(plan)
}

/// GPU metadata of `accumarray`: inputs are gathered to the host.
pub fn accumarray_gpu_spec() -> (g: BuiltinGpuSpec)
    ensures
        g.name@ == "accumarray"@,
        g.op_kind matches GpuOpKind::Custom(k) && k@ == "scatter"@,
        g.supported_precisions@ == seq![ScalarType::F32, ScalarType::F64],
        g.provider_hooks@.len() == 0,
        g.broadcast == BroadcastSemantics::NoBroadcast,
        g.nan_mode == ReductionNaN::Include,
{
    let precisions = vec![ScalarType::F32, ScalarType::F64];
    assert(precisions@ =~= seq![ScalarType::F32, ScalarType::F64]);
    BuiltinGpuSpec {
        name: String::from_str("accumarray"),
        op_kind: GpuOpKind::Custom(String::from_str("scatter")),
        supported_precisions: precisions,
        broadcast: BroadcastSemantics::NoBroadcast,
        provider_hooks: Vec::new(),
        constant_strategy: ConstantStrategy::InlineLiteral,
        residency: ResidencyPolicy::GatherImmediately,
        nan_mode: ReductionNaN::Include,
        two_pass_threshold: None,
        workgroup_size: None,
        accepts_nan_mode: false,
        notes: String::from_str(
            "Subscript scatter-add executes on the host; GPU-resident inputs are gathered before accumulation.",
        ),
    }
}

fn accumarray_error_invalid_subscripts() -> (e: BuiltinErrorDescriptor)
    ensures
        e.code@ == "RM.ACCUMARRAY.INVALID_SUBSCRIPTS"@,
        e.identifier matches Some(i) && i@ == "RunMat:accumarray:InvalidSubscripts"@,
        e.message@ == "accumarray: subscripts must be real positive integers"@,
{
    error_descriptor(
        "RM.ACCUMARRAY.INVALID_SUBSCRIPTS",
        "RunMat:accumarray:InvalidSubscripts",
        "A subscript is not a real positive integer.",
        "accumarray: subscripts must be real positive integers",
    )
}

fn accumarray_error_size_mismatch() -> (e: BuiltinErrorDescriptor)
    ensures
        e.code@ == "RM.ACCUMARRAY.SIZE_MISMATCH"@,
        e.identifier matches Some(i) && i@ == "RunMat:accumarray:SizeMismatch"@,
        e.message@ == "accumarray: vals must be a scalar or match the number of subscripts"@,
{
    error_descriptor(
        "RM.ACCUMARRAY.SIZE_MISMATCH",
        "RunMat:accumarray:SizeMismatch",
        "vals is neither a scalar nor the same length as subs.",
        "accumarray: vals must be a scalar or match the number of subscripts",
    )
}

fn accumarray_error_multi_column() -> (e: BuiltinErrorDescriptor)
    ensures
        e.code@ == "RM.ACCUMARRAY.MULTI_COLUMN"@,
        e.identifier matches Some(i) && i@ == "RunMat:accumarray:MultiColumnUnsupported"@,
        e.message@ == "accumarray: multi-column subscripts (N-D output) are not yet supported"@,
{
    error_descriptor(
        "RM.ACCUMARRAY.MULTI_COLUMN",
        "RunMat:accumarray:MultiColumnUnsupported",
        "subs has more than one column (N-D output form).",
        "accumarray: multi-column subscripts (N-D output) are not yet supported",
    )
}

fn accumarray_error_custom_function() -> (e: BuiltinErrorDescriptor)
    ensures
        e.code@ == "RM.ACCUMARRAY.CUSTOM_FUNCTION"@,
        e.identifier matches Some(i) && i@ == "RunMat:accumarray:CustomFunctionUnsupported"@,
        e.message@ == "accumarray: custom accumulation functions are not yet supported; pass [] for the default sum"@,
{
    error_descriptor(
        "RM.ACCUMARRAY.CUSTOM_FUNCTION",
        "RunMat:accumarray:CustomFunctionUnsupported",
        "A non-empty accumulation function argument is supplied.",
        "accumarray: custom accumulation functions are not yet supported; pass [] for the default sum",
    )
}

fn accumarray_error_sparse_output() -> (e: BuiltinErrorDescriptor)
    ensures
        e.code@ == "RM.ACCUMARRAY.SPARSE_OUTPUT"@,
        e.identifier matches Some(i) && i@ == "RunMat:accumarray:SparseOutputUnsupported"@,
        e.message@ == "accumarray: sparse output (issparse) is not yet supported"@,
{
    error_descriptor(
        "RM.ACCUMARRAY.SPARSE_OUTPUT",
        "RunMat:accumarray:SparseOutputUnsupported",
        "The issparse option (sixth argument) is supplied.",
        "accumarray: sparse output (issparse) is not yet supported",
    )
}

fn accumarray_error_size_argument() -> (e: BuiltinErrorDescriptor)
    ensures
        e.code@ == "RM.ACCUMARRAY.SIZE_ARGUMENT"@,
        e.identifier matches Some(i) && i@ == "RunMat:accumarray:InvalidSize"@,
        e.message@ == "accumarray: sz must be a nonnegative [m 1] size no smaller than max(subs)"@,
{
    error_descriptor(
        "RM.ACCUMARRAY.SIZE_ARGUMENT",
        "RunMat:accumarray:InvalidSize",
        "The sz argument is not a valid [m 1] size, or is smaller than max(subs).",
        "accumarray: sz must be a nonnegative [m 1] size no smaller than max(subs)",
    )
}

fn accumarray_error_invalid_input() -> (e: BuiltinErrorDescriptor)
    ensures
        e.code@ == "RM.ACCUMARRAY.INVALID_INPUT"@,
        e.identifier matches Some(i) && i@ == "RunMat:accumarray:InvalidInput"@,
        e.message@ == "accumarray: invalid input arguments"@,
{
    error_descriptor(
        "RM.ACCUMARRAY.INVALID_INPUT",
        "RunMat:accumarray:InvalidInput",
        "An argument has an unsupported type.",
        "accumarray: invalid input arguments",
    )
}

fn accumarray_error_internal() -> (e: BuiltinErrorDescriptor)
    ensures
        e.code@ == "RM.ACCUMARRAY.INTERNAL"@,
        e.identifier matches Some(i) && i@ == "RunMat:accumarray:InternalError"@,
        e.message@ == "accumarray: internal error"@,
{
    error_descriptor(
        "RM.ACCUMARRAY.INTERNAL",
        "RunMat:accumarray:InternalError",
        "Output tensor construction fails.",
        "accumarray: internal error",
    )
}

/// Descriptor of `accumarray`.
pub fn accumarray_descriptor() -> (d: BuiltinDescriptor)
    ensures
        d.labels() == seq!["A = accumarray(subs, vals) | accumarray(subs, vals, sz) | accumarray(subs, vals, sz, [], fillval)"@],
        d.codes() == seq!["RM.ACCUMARRAY.INVALID_SUBSCRIPTS"@, "RM.ACCUMARRAY.SIZE_MISMATCH"@, "RM.ACCUMARRAY.MULTI_COLUMN"@, "RM.ACCUMARRAY.CUSTOM_FUNCTION"@, "RM.ACCUMARRAY.SPARSE_OUTPUT"@, "RM.ACCUMARRAY.SIZE_ARGUMENT"@, "RM.ACCUMARRAY.INVALID_INPUT"@],
        d.output_mode == BuiltinOutputMode::Fixed,
{
    let s0 = signature(
        "A = accumarray(subs, vals) | accumarray(subs, vals, sz) | accumarray(subs, vals, sz, [], fillval)",
        vec![
            param(
                "subs",
                BuiltinParamType::NumericArray,
                BuiltinParamArity::Required,
                "Column vector of positive-integer subscripts.",
            ),
            param(
                "vals",
                BuiltinParamType::NumericArray,
                BuiltinParamArity::Required,
                "Values to accumulate; a scalar is broadcast to every subscript.",
            ),
        ],
        vec![
            param(
                "A",
                BuiltinParamType::NumericArray,
                BuiltinParamArity::Required,
                "Column vector of accumulated values indexed by subscript.",
            ),
        ],
    );
    let d = BuiltinDescriptor {
        signatures: vec![s0],
        output_mode: BuiltinOutputMode::Fixed,
        completion_policy: BuiltinCompletionPolicy::Public,
        errors: vec![accumarray_error_invalid_subscripts(), accumarray_error_size_mismatch(), accumarray_error_multi_column(), accumarray_error_custom_function(), accumarray_error_sparse_output(), accumarray_error_size_argument(), accumarray_error_invalid_input()],
    };
    assert(d.labels() =~= seq!["A = accumarray(subs, vals) | accumarray(subs, vals, sz) | accumarray(subs, vals, sz, [], fillval)"@]);
    assert(d.codes() =~= seq!["RM.ACCUMARRAY.INVALID_SUBSCRIPTS"@, "RM.ACCUMARRAY.SIZE_MISMATCH"@, "RM.ACCUMARRAY.MULTI_COLUMN"@, "RM.ACCUMARRAY.CUSTOM_FUNCTION"@, "RM.ACCUMARRAY.SPARSE_OUTPUT"@, "RM.ACCUMARRAY.SIZE_ARGUMENT"@, "RM.ACCUMARRAY.INVALID_INPUT"@]);
    d
}

/// Fusion metadata of `accumarray`.
pub fn accumarray_fusion_spec() -> (f: BuiltinFusionSpec)
    ensures
        f.name@ == "accumarray"@,
{
    unfused_spec(
        "accumarray",
        false,
        "Data-dependent scatter over subscripts; materialises a host output and does not participate in fusion.",
    )
}

} // verus!
