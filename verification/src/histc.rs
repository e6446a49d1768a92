//! `histc`: how many values of an array fall between consecutive edges,
//! along one dimension, and the bin of every value.
//!
//! Values and edges are given by order keys: a key stands for a double, two
//! keys compare as the doubles they stand for, and `None` stands for NaN.
//! Counts and bin numbers are whole numbers and are returned as such.

use vstd::prelude::*;
use crate::descriptor::{error_descriptor, param, signature, unfused_spec, BroadcastSemantics, BuiltinCompletionPolicy, BuiltinDescriptor, BuiltinErrorDescriptor, BuiltinFusionSpec, BuiltinGpuSpec, BuiltinOutputMode, BuiltinParamArity, BuiltinParamType, ConstantStrategy, GpuOpKind, ProviderHook, ReductionNaN, ResidencyPolicy, ScalarType};
use crate::error::{descriptor_error_with_message, opt_view, RuntimeError};
use crate::shape::{lemma_prod_pad, lemma_prod_split, lemma_prod_update, ones, pad_to, prefix_fits, prefix_product, prod, to_vec};

verus! {

/// An array of doubles given by the order keys of its elements, stored
/// column-major.
pub struct HistcData {
    pub keys: Vec<Option<i64>>,
    pub shape: Vec<usize>,
}

impl HistcData {
    /// One key per element of the shape.
    pub open spec fn wf(&self) -> bool {
        self.keys@.len() == prod(self.shape@)
    }
}

/// An argument read as a dimension.
pub enum DimScalar {
    /// The argument is not a one-element numeric or logical value.
    NotScalar,
    /// A one-element argument: `Some(n)` when its value is the finite, whole,
    /// non-negative number `n`, `None` for any other value.
    Scalar(Option<usize>),
}

/// An argument after `x`, read both as a numeric array and as a dimension.
pub struct HistcOperand {
    /// The keys of its elements, when it converts to a numeric array.
    pub numeric: Option<Vec<Option<i64>>>,
    pub dim: DimScalar,
}

/// Array of whole numbers, stored column-major.
pub struct IndexTensor {
    pub data: Vec<usize>,
    pub shape: Vec<usize>,
}

/// Result of `histc`: the count of every bin and the bin of every element.
pub struct HistcEvaluation {
    counts: IndexTensor,
    idx: IndexTensor,
}

/// Number of edges at or below `x`.
pub open spec fn count_le(x: i64, edges: Seq<i64>) -> nat
    decreases edges.len(),
{
    if edges.len() == 0 {
        0
    } else {
        count_le(x, edges.drop_last()) + (if edges.last() <= x { 1nat } else { 0nat })
    }
}

/// The edges never decrease.
pub open spec fn sorted(edges: Seq<i64>) -> bool {
    forall|i: int, j: int| 0 <= i <= j < edges.len() ==> edges[i] <= edges[j]
}

/// Bin (0-based) of a value: the last edge at or below it, for values from
/// the first edge up to the last; none for values outside that range and
/// for NaN.
pub open spec fn bin_spec(v: Option<i64>, edges: Seq<i64>) -> Option<int> {
    match v {
        None => None,
        Some(x) => if edges.len() == 0 || x < edges[0] || x > edges.last() {
            None
        } else {
            Some(count_le(x, edges) - 1)
        },
    }
}

/// Bin number reported for a value: its 1-based bin, or 0 when uncounted.
pub open spec fn bin_code(v: Option<i64>, edges: Seq<i64>) -> int {
    match bin_spec(v, edges) {
        Some(b) => b + 1,
        None => 0,
    }
}

pub open spec fn opt_int(r: Option<usize>) -> Option<int> {
    match r {
        Some(k) => Some(k as int),
        None => None,
    }
}

/// Key of a present value (NaN reads as 0; only used where none is NaN).
pub open spec fn key_of(o: Option<i64>) -> i64 {
    match o {
        Some(x) => x,
        None => 0,
    }
}

pub open spec fn unwrap_keys(e: Seq<Option<i64>>) -> Seq<i64> {
    e.map_values(|o: Option<i64>| key_of(o))
}

/// Edges that `histc` accepts: none is NaN and they never decrease.
pub open spec fn edges_valid(e: Seq<Option<i64>>) -> bool {
    (forall|i: int| 0 <= i < e.len() ==> (#[trigger] e[i]) is Some) && sorted(unwrap_keys(e))
}

/// Number of leading extents equal to one.
pub open spec fn leading_units(s: Seq<usize>) -> nat
    decreases s.len(),
{
    if s.len() == 0 || s[0] != 1 {
        0
    } else {
        1 + leading_units(s.drop_first())
    }
}

/// Default operating dimension (0-based): the first extent other than one,
/// or the first dimension when all are one.
pub open spec fn default_dim_spec(s: Seq<usize>) -> int {
    if leading_units(s) < s.len() {
        leading_units(s) as int
    } else {
        0
    }
}

/// Shape of the input as `histc` reads it: an empty shape is 1-by-1.
pub open spec fn base_shape(shape: Seq<usize>) -> Seq<usize> {
    if shape.len() == 0 {
        seq![1usize, 1usize]
    } else {
        shape
    }
}

/// Operating dimension (0-based): the requested one, or the default.
pub open spec fn histc_dim(shape: Seq<usize>, dim_arg: Option<usize>) -> int {
    match dim_arg {
        Some(d) => d - 1,
        None => default_dim_spec(base_shape(shape)),
    }
}

/// Input extents, padded with ones up to the operating dimension.
pub open spec fn histc_dims(shape: Seq<usize>, dim_arg: Option<usize>) -> Seq<usize> {
    pad_to(base_shape(shape), histc_dim(shape, dim_arg) + 1)
}

/// Extents of the counts: the input's, with the operating dimension
/// replaced by the number of edges.
pub open spec fn histc_count_dims(shape: Seq<usize>, dim_arg: Option<usize>, bins: nat) -> Seq<usize> {
    histc_dims(shape, dim_arg).update(histc_dim(shape, dim_arg), bins as usize)
}

/// The index arithmetic of `histc` stays within `usize`.
pub open spec fn histc_fits(shape: Seq<usize>, dim_arg: Option<usize>, bins: nat) -> bool {
    prefix_fits(histc_dims(shape, dim_arg)) && prefix_fits(histc_count_dims(shape, dim_arg, bins))
}

/// Column-major position of (i, b) in a block with `a` rows.
pub open spec fn flat2(i: int, b: int, a: int) -> int {
    i + a * b
}

/// Column-major position of (i, t, o) in an a-by-m-by-c array.
pub open spec fn flat3(i: int, t: int, o: int, a: int, m: int) -> int {
    i + a * (t + m * o)
}

/// Number of the first `n` elements of line (i, o) whose bin is `b`.
pub open spec fn line_count(
    keys: Seq<Option<i64>>,
    edges: Seq<i64>,
    inner: int,
    len: int,
    i: int,
    o: int,
    b: int,
    n: int,
) -> nat
    decreases n,
{
    if n <= 0 {
        0
    } else {
        line_count(keys, edges, inner, len, i, o, b, n - 1) + (if bin_spec(
            keys[flat3(i, n - 1, o, inner, len)],
            edges,
        ) == Some(b) {
            1nat
        } else {
            0nat
        })
    }
}

/// What `histc` returns for the given data, edges and dimension: counts
/// shaped like the input with the operating dimension replaced by the
/// number of edges, each the number of elements of its line in its bin; and
/// the bin number of every element, shaped like the (padded) input.
pub open spec fn histc_result(
    counts: IndexTensor,
    idx: IndexTensor,
    keys: Seq<Option<i64>>,
    shape: Seq<usize>,
    edges: Seq<i64>,
    dim_arg: Option<usize>,
) -> bool {
    let d = histc_dim(shape, dim_arg);
    let dims = histc_dims(shape, dim_arg);
    let inner = prod(dims.take(d)) as int;
    let len = dims[d] as int;
    let outer = prod(dims.skip(d + 1)) as int;
    let bins = edges.len() as int;
    &&& counts.shape@ == histc_count_dims(shape, dim_arg, edges.len())
    &&& idx.shape@ == dims
    &&& idx.data@.len() == keys.len()
    &&& forall|p: int| 0 <= p < keys.len() ==> #[trigger] idx.data@[p] == bin_code(keys[p], edges)
    &&& counts.data@.len() == inner * (bins * outer)
    &&& forall|i: int, b: int, o: int|
        0 <= i < inner && 0 <= b < bins && 0 <= o < outer ==> #[trigger] counts.data@[flat3(
            i,
            b,
            o,
            inner,
            bins,
        )] == line_count(keys, edges, inner, len, i, o, b, len)
}

pub proof fn lemma_flat2_bound(i: int, b: int, a: int, n: int)
    requires
        0 <= i < a,
        0 <= b < n,
    ensures
        0 <= flat2(i, b, a) < a * n,
{
    assert(0 <= i + a * b < a * n) by (nonlinear_arith)
        requires
            0 <= i < a,
            0 <= b < n,
    ;
}

proof fn lemma_flat2_inj(i: int, b: int, i2: int, b2: int, a: int)
    requires
        0 <= i < a,
        0 <= i2 < a,
        0 <= b,
        0 <= b2,
        flat2(i, b, a) == flat2(i2, b2, a),
    ensures
        i == i2,
        b == b2,
{
    assert(b == b2) by (nonlinear_arith)
        requires
            0 <= i < a,
            0 <= i2 < a,
            0 <= b,
            0 <= b2,
            i + a * b == i2 + a * b2,
    {
        if b < b2 {
            assert(a * b2 >= a * (b + 1));
        } else if b2 < b {
            assert(a * b >= a * (b2 + 1));
        }
    }
}

pub proof fn lemma_flat3_bound(i: int, t: int, o: int, a: int, m: int, c: int)
    requires
        0 <= i < a,
        0 <= t < m,
        0 <= o < c,
    ensures
        0 <= flat3(i, t, o, a, m) < a * (m * c),
{
    assert(0 <= t + m * o < m * c) by (nonlinear_arith)
        requires
            0 <= t < m,
            0 <= o < c,
    ;
    lemma_flat2_bound(i, t + m * o, a, m * c);
}

proof fn lemma_flat3_split(i: int, b: int, o: int, a: int, m: int)
    ensures
        flat3(i, b, o, a, m) == (a * m) * o + flat2(i, b, a),
{
    assert(a * (b + m * o) == a * b + (a * m) * o) by (nonlinear_arith);
}

proof fn lemma_line_count_bound(
    keys: Seq<Option<i64>>,
    edges: Seq<i64>,
    inner: int,
    len: int,
    i: int,
    o: int,
    b: int,
    n: int,
)
    requires
        n >= 0,
    ensures
        line_count(keys, edges, inner, len, i, o, b, n) <= n,
    decreases n,
{
    if n > 0 {
        lemma_line_count_bound(keys, edges, inner, len, i, o, b, n - 1);
    }
}

/// For sorted edges, the edges at or below `x` are exactly the first
/// `count_le(x, edges)` ones.
proof fn lemma_count_le_partition(x: i64, s: Seq<i64>)
    requires
        sorted(s),
    ensures
        count_le(x, s) <= s.len(),
        forall|i: int| 0 <= i < count_le(x, s) ==> s[i] <= x,
        forall|i: int| count_le(x, s) <= i < s.len() ==> s[i] > x,
    decreases s.len(),
{
    if s.len() > 0 {
        let s2 = s.drop_last();
        assert(sorted(s2));
        lemma_count_le_partition(x, s2);
        if s.last() <= x {
            assert forall|i: int| 0 <= i < s.len() implies s[i] <= x by {
                assert(s[i] <= s[s.len() - 1]);
            }
            if count_le(x, s2) < s2.len() {
                assert(s2[count_le(x, s2) as int] > x);
                assert(s[count_le(x, s2) as int] <= x);
            }
        } else {
            assert forall|i: int| 0 <= i < count_le(x, s) implies s[i] <= x by {
                assert(s[i] == s2[i]);
            }
            assert forall|i: int| count_le(x, s) <= i < s.len() implies s[i] > x by {
                if i < s2.len() {
                    assert(s[i] == s2[i]);
                }
            }
        }
    }
}

pub proof fn lemma_leading_units(s: Seq<usize>, i: int)
    requires
        0 <= i <= s.len(),
        forall|j: int| 0 <= j < i ==> s[j] == 1,
        i == s.len() || s[i] != 1,
    ensures
        leading_units(s) == i,
    decreases s.len(),
{
    if s.len() > 0 && s[0] == 1 {
        let t = s.drop_first();
        assert forall|j: int| 0 <= j < i - 1 implies t[j] == 1 by {
            assert(t[j] == s[j + 1]);
        }
        if i - 1 < t.len() {
            assert(t[i - 1] == s[i]);
        }
        lemma_leading_units(t, i - 1);
    }
}

/// The bin of a counted value is bounded by its edges: bin `k` holds the
/// values from `edges[k]` up to, not including, `edges[k + 1]`; the last bin
/// holds the values equal to the last edge. Values below the first edge,
/// above the last, and NaN fall in no bin.
pub proof fn law_bin_bounds(v: Option<i64>, edges: Seq<i64>)
    requires
        sorted(edges),
    ensures
        bin_spec(v, edges) matches Some(k) ==> (v matches Some(x) && 0 <= k < edges.len()
            && edges[k] <= x && (k + 1 < edges.len() ==> x < edges[k + 1])
            && (k + 1 == edges.len() ==> x == edges[k])),
        bin_spec(v, edges) is None <==> (v is None || edges.len() == 0 || v->0 < edges[0]
            || v->0 > edges.last()),
{
    if let Some(x) = v {
        if edges.len() > 0 && edges[0] <= x && x <= edges.last() {
            lemma_count_le_partition(x, edges);
            assert(count_le(x, edges) >= 1);
        }
    }
}

fn histc_error_invalid_argument() -> (e: BuiltinErrorDescriptor)
    ensures
        e.code@ == "RM.HISTC.INVALID_ARGUMENT"@,
        e.identifier matches Some(i) && i@ == "RunMat:histc:InvalidArgument"@,
        e.message@ == "histc: invalid argument"@,
{
    error_descriptor(
        "RM.HISTC.INVALID_ARGUMENT",
        "RunMat:histc:InvalidArgument",
        "Arguments are missing, too many, or the edges are not a valid vector.",
        "histc: invalid argument",
    )
}

fn histc_error_edges_not_monotonic() -> (e: BuiltinErrorDescriptor)
    ensures
        e.code@ == "RM.HISTC.EDGES_NOT_MONOTONIC"@,
        e.identifier matches Some(i) && i@ == "RunMat:histc:EdgesNotMonotonic"@,
        e.message@ == "histc: edges must be monotonically non-decreasing finite values"@,
{
    error_descriptor(
        "RM.HISTC.EDGES_NOT_MONOTONIC",
        "RunMat:histc:EdgesNotMonotonic",
        "The edge vector contains NaN or is not monotonically non-decreasing.",
        "histc: edges must be monotonically non-decreasing finite values",
    )
}

/// The error is raised by `histc` with the given identifier and message.
pub open spec fn histc_error_is(e: RuntimeError, ident: Option<Seq<char>>, msg: Seq<char>) -> bool {
    &&& e.message@ == msg
    &&& opt_view(e.builtin) == Some("histc"@)
    &&& opt_view(e.identifier) == ident
}

/// Invalid-argument error of `histc` with the given message.
pub fn invalid_argument(message: String) -> (e: RuntimeError)
    ensures
        histc_error_is(e, Some("RunMat:histc:InvalidArgument"@), message@),
{
    let d = histc_error_invalid_argument();
    descriptor_error_with_message(&d, message, "histc")
}

/// Error of `histc` that carries no identifier.
pub fn builtin_error(message: String) -> (e: RuntimeError)
    ensures
        histc_error_is(e, None, message@),
{
    RuntimeError { message, builtin: Some(String::from_str("histc")), identifier: None, source: None }
}

fn edges_not_monotonic() -> (e: RuntimeError)
    ensures
        histc_error_is(
            e,
            Some("RunMat:histc:EdgesNotMonotonic"@),
            "histc: edges must be monotonically non-decreasing finite values"@,
        ),
{
    let d = histc_error_edges_not_monotonic();
    let message = d.message.clone();
    descriptor_error_with_message(&d, message, "histc")
}

/// Bin (0-based) of a value among sorted edges, found by bisection.
fn bin_of(value: Option<i64>, edges: &[i64]) -> (r: Option<usize>)
    requires
        sorted(edges@),
    ensures
        opt_int(r) == bin_spec(value, edges@),
        r matches Some(k) ==> k < edges@.len(),
{
    let x = match value {
        None => return None,
        Some(x) => x,
    };
    if edges.len() == 0 {
        return None;
    }
    let last = edges.len() - 1;
    if x < edges[0] || x > edges[last] {
        return None;
    }
    let mut lo: usize = 0;
    let mut hi: usize = edges.len();
    while lo < hi
        invariant
            lo <= hi <= edges@.len(),
            sorted(edges@),
            forall|i: int| 0 <= i < lo ==> edges@[i] <= x,
            forall|i: int| hi <= i < edges@.len() ==> edges@[i] > x,
        decreases hi - lo,
    {
        let mid = lo + (hi - lo) / 2;
        if edges[mid] <= x {
            proof {
                assert forall|i: int| 0 <= i < mid + 1 implies edges@[i] <= x by {
                    assert(edges@[i] <= edges@[mid as int]);
                }
            }
            lo = mid + 1;
        } else {
            proof {
                assert forall|i: int| mid <= i < edges@.len() implies edges@[i] > x by {
                    assert(edges@[mid as int] <= edges@[i]);
                }
            }
            hi = mid;
        }
    }
    proof {
        lemma_count_le_partition(x, edges@);
        let c = count_le(x, edges@) as int;
        if c < lo {
            assert(edges@[c] > x);
        }
        if lo < c {
            assert(edges@[lo as int] <= x);
        }
        assert(lo as int == c);
    }
    if lo == 0 {
        None
    } else {
        Some(lo - 1)
    }
}

/// Checks that no edge is NaN and that the edges never decrease.
pub fn validate_edges(edges: &[Option<i64>]) -> (r: Result<(), RuntimeError>)
    ensures
        r is Ok <==> edges_valid(edges@),
        r matches Err(e) ==> histc_error_is(
            e,
            Some("RunMat:histc:EdgesNotMonotonic"@),
            "histc: edges must be monotonically non-decreasing finite values"@,
        ),
{
    let ghost keys = unwrap_keys(edges@);
    let mut i: usize = 1;
    while i < edges.len()
        invariant
            1 <= i,
            edges@.len() >= 1 ==> i <= edges@.len(),
            keys == unwrap_keys(edges@),
            i >= 2 ==> forall|j: int| 0 <= j < i ==> (#[trigger] edges@[j]) is Some,
            forall|a: int, b: int| 0 <= a <= b < i && b < edges@.len() ==> keys[a] <= keys[b],
        decreases edges@.len() - i,
    {
        let p0 = edges[i - 1];
        let p1 = edges[i];
        match (p0, p1) {
            (Some(a), Some(b)) => {
                if b < a {
                    proof {
                        assert(keys[i - 1] == a);
                        assert(keys[i as int] == b);
                    }
                    return Err(edges_not_monotonic());
                }
                proof {
                    assert forall|j: int| 0 <= j < i + 1 implies (#[trigger] edges@[j]) is Some by {
                        if j == i - 1 || j == i {
                        }
                    }
                    assert(keys[i - 1] == a);
                    assert(keys[i as int] == b);
                    assert forall|a2: int, b2: int|
                        0 <= a2 <= b2 < i + 1 && b2 < edges@.len() implies keys[a2] <= keys[b2] by {
                        if b2 == i && a2 < i {
                            assert(keys[a2] <= keys[i - 1]);
                        }
                    }
                }
                i = i + 1;
            },
            _ => {
                return Err(edges_not_monotonic());
            },
        }
    }
    if edges.len() >= 1 {
        if edges[0].is_none() {
            return Err(edges_not_monotonic());
        }
    }
    proof {
        assert forall|j: int| 0 <= j < edges@.len() implies (#[trigger] edges@[j]) is Some by {
            if edges@.len() == 1 {
                assert(j == 0);
            }
        }
        assert forall|a: int, b: int| 0 <= a <= b < keys.len() implies keys[a] <= keys[b] by {
        }
    }
    Ok(())
}

/// The keys of edges none of which is NaN.
fn present_keys(edges: &[Option<i64>]) -> (v: Vec<i64>)
    ensures
        v@ == unwrap_keys(edges@),
{
    let mut v: Vec<i64> = Vec::new();
    let mut i: usize = 0;
    while i < edges.len()
        invariant
            i <= edges@.len(),
            v@ == unwrap_keys(edges@.take(i as int)),
        decreases edges@.len() - i,
    {
        let k = match edges[i] {
            Some(x) => x,
            None => 0,
        };
        v.push(k);
        i = i + 1;
        assert(v@ =~= unwrap_keys(edges@.take(i as int)));
    }
    assert(edges@.take(edges@.len() as int) =~= edges@);
    v
}

/// Default operating dimension (0-based): the first extent other than one,
/// or 0 when every extent is one.
pub fn default_dim(dims: &[usize]) -> (d: usize)
    ensures
        d == default_dim_spec(dims@),
{
    let mut i: usize = 0;
    while i < dims.len() && dims[i] == 1
        invariant
            i <= dims@.len(),
            forall|j: int| 0 <= j < i ==> dims@[j] == 1,
        decreases dims@.len() - i,
    {
        i = i + 1;
    }
    proof {
        lemma_leading_units(dims@, i as int);
    }
    if i < dims.len() {
        i
    } else {
        0
    }
}

/// Column-major strides: the product of the extents before each dimension.
pub fn column_major_strides(dims: &[usize]) -> (strides: Vec<usize>)
    requires
        prefix_fits(dims@),
    ensures
        strides@.len() == dims@.len(),
        forall|k: int| 0 <= k < dims@.len() ==> strides@[k] == prod(#[trigger] dims@.take(k)),
{
    let mut strides: Vec<usize> = Vec::new();
    let mut k: usize = 0;
    while k < dims.len()
        invariant
            k <= dims@.len(),
            prefix_fits(dims@),
            strides@.len() == k,
            forall|j: int| 0 <= j < k ==> strides@[j] == prod(#[trigger] dims@.take(j)),
        decreases dims@.len() - k,
    {
        let p = prefix_product(dims, k);
        strides.push(p);
        k = k + 1;
    }
    strides
}

/// Reads the dimension argument: a whole number of at least one.
pub fn dim_from_value(value: &DimScalar) -> (r: Result<usize, RuntimeError>)
    ensures
        match value {
            DimScalar::Scalar(Some(n)) => if n >= 1 {
                r == Ok::<usize, RuntimeError>(*n)
            } else {
                r matches Err(e) && histc_error_is(
                    e,
                    Some("RunMat:histc:InvalidArgument"@),
                    "histc: dim must be a positive integer scalar"@,
                )
            },
            _ => r matches Err(e) && histc_error_is(
                e,
                Some("RunMat:histc:InvalidArgument"@),
                "histc: dim must be a positive integer scalar"@,
            ),
        },
{
    match value {
        DimScalar::Scalar(Some(n)) => {
            if *n >= 1 {
                return Ok(*n);
            }
        },
        _ => {},
    }
    Err(invalid_argument(String::from_str("histc: dim must be a positive integer scalar")))
}

/// Reads the edges argument: the keys of a numeric array.
pub fn edges_from_value(value: &HistcOperand) -> (r: Result<Vec<Option<i64>>, RuntimeError>)
    ensures
        match value.numeric {
            Some(keys) => r matches Ok(v) && v@ == keys@,
            None => r matches Err(e) && histc_error_is(
                e,
                Some("RunMat:histc:InvalidArgument"@),
                "histc: edges must be a numeric vector"@,
            ),
        },
{
    match &value.numeric {
        Some(keys) => {
            let mut v: Vec<Option<i64>> = Vec::new();
            let mut i: usize = 0;
            while i < keys.len()
                invariant
                    i <= keys@.len(),
                    v@ == keys@.take(i as int),
                decreases keys@.len() - i,
            {
                v.push(keys[i]);
                i = i + 1;
                assert(v@ =~= keys@.take(i as int));
            }
            assert(keys@.take(keys@.len() as int) =~= keys@);
            Ok(v)
        },
        None => Err(invalid_argument(String::from_str("histc: edges must be a numeric vector"))),
    }
}


pub proof fn lemma_flat3_parts(i: int, t: int, o: int, a: int, m: int, c: int)
    requires
        0 <= i < a,
        0 <= t < m,
        0 <= o < c,
    ensures
        0 <= m * o < m * c,
        0 <= t + m * o < m * c,
        0 <= a * (t + m * o) < a * (m * c),
        m * c <= a * (m * c),
{
    assert(0 <= m * o < m * c) by (nonlinear_arith)
        requires
            0 <= t < m,
            0 <= o < c,
    ;
    assert(0 <= t + m * o < m * c) by (nonlinear_arith)
        requires
            0 <= t < m,
            0 <= o < c,
    ;
    assert(0 <= a * (t + m * o) < a * (m * c)) by (nonlinear_arith)
        requires
            0 <= i < a,
            0 <= t + m * o < m * c,
    ;
    assert(m * c <= a * (m * c)) by (nonlinear_arith)
        requires
            1 <= a,
            0 <= m * c,
    ;
}

/// Zeros of the given length.
fn zeros(n: usize) -> (v: Vec<usize>)
    ensures
        v@.len() == n,
        forall|k: int| 0 <= k < n ==> v@[k] == 0,
{
    let mut v: Vec<usize> = Vec::new();
    let mut k: usize = 0;
    while k < n
        invariant
            k <= n,
            v@.len() == k,
            forall|j: int| 0 <= j < k ==> v@[j] == 0,
        decreases n - k,
    {
        v.push(0);
        k = k + 1;
    }
    v
}

/// Shape handling of `histc`: the input's extents (1-by-1 when empty),
/// padded with ones up to the operating dimension.
fn operating_dims(shape: &Vec<usize>, dim_arg: Option<usize>) -> (r: (Vec<usize>, usize))
    requires
        dim_arg matches Some(d) ==> d >= 1,
    ensures
        r.1 == histc_dim(shape@, dim_arg),
        r.0@ == histc_dims(shape@, dim_arg),
        r.1 < r.0@.len(),
{
    let mut dims: Vec<usize> = if shape.len() == 0 {
        let v: Vec<usize> = vec![1usize, 1usize];
        assert(v@ =~= seq![1usize, 1usize]);
        v
    } else {
        to_vec(shape.as_slice())
    };
    let ghost base = dims@;
    assert(base == base_shape(shape@));
    let dim: usize = match dim_arg {
        Some(d) => d - 1,
        None => default_dim(&dims),
    };
    assert(dim as int == histc_dim(shape@, dim_arg));
    assert(dims@ =~= pad_to(base, dims@.len() as int));
    while dims.len() <= dim
        invariant
            base.len() >= 1,
            base.len() <= dims@.len(),
            base.len() < dim + 1 ==> dims@.len() <= dim + 1,
            base.len() >= dim + 1 ==> dims@.len() == base.len(),
            dims@ == pad_to(base, dims@.len() as int),
        decreases dim + 1 - dims@.len(),
    {
        dims.push(1);
        proof {
            assert(dims@ =~= pad_to(base, dims@.len() as int));
        }
    }
    proof {
        assert(dims@ =~= pad_to(base, dim + 1));
    }
    (dims, dim)
}

/// Counts and bin numbers of an array along its operating dimension.
fn histc_from_tensor(tensor: &HistcData, edges: &[i64], dim_arg: Option<usize>) -> (ev: HistcEvaluation)
    requires
        tensor.wf(),
        sorted(edges@),
        dim_arg matches Some(d) ==> d >= 1,
        histc_fits(tensor.shape@, dim_arg, edges@.len()),
    ensures
        histc_result(ev.counts, ev.idx, tensor.keys@, tensor.shape@, edges@, dim_arg),
{
    let ghost shape = tensor.shape@;
    let ghost keys = tensor.keys@;
    let (dims, dim) = operating_dims(&tensor.shape, dim_arg);
    let bins = edges.len();
    let mut out_dims = to_vec(dims.as_slice());
    out_dims.set(dim, bins);
    let inner = prefix_product(dims.as_slice(), dim);
    let len_d = dims[dim];
    let ghost outer = prod(dims@.skip(dim + 1)) as int;
    proof {
        assert(out_dims@ == histc_count_dims(shape, dim_arg, edges@.len()));
        lemma_prod_pad(base_shape(shape), dim + 1);
        if shape.len() == 0 {
            reveal_with_fuel(prod, 3);
            assert(prod(seq![1usize, 1usize]) == 1);
        }
        lemma_prod_split(dims@, dim as int);
        lemma_prod_update(dims@, dim as int, bins);
        assert(keys.len() == inner * len_d * outer);
        assert(inner * len_d * outer == inner * (len_d * outer)) by (nonlinear_arith);
        assert(out_dims@.take(dim as int) == dims@.take(dim as int));
        crate::shape::lemma_prod_take_step(out_dims@, dim as int);
        assert(prod(out_dims@.take(dim + 1)) <= usize::MAX);
        assert(out_dims@.take(out_dims@.len() as int) =~= out_dims@);
    }
    let out_total = prefix_product(out_dims.as_slice(), out_dims.len());
    let nkeys = tensor.keys.len();
    // Bin number of every element.
    let mut idx: Vec<usize> = Vec::new();
    let mut p: usize = 0;
    while p < tensor.keys.len()
        invariant
            p <= keys.len(),
            keys == tensor.keys@,
            sorted(edges@),
            bins == edges@.len(),
            idx@.len() == p,
            forall|q: int| 0 <= q < p ==> #[trigger] idx@[q] == bin_code(keys[q], edges@),
            forall|q: int| 0 <= q < p ==> #[trigger] idx@[q] <= edges@.len(),
        decreases keys.len() - p,
    {
        let code = match bin_of(tensor.keys[p], edges) {
            Some(b) => b + 1,
            None => 0,
        };
        idx.push(code);
        p = p + 1;
    }
    // Count of every bin of every line.
    let block = inner * bins;
    let mut counts: Vec<usize> = Vec::new();
    if block > 0 {
        proof {
            assert(out_total == block * outer);
            vstd::arithmetic::div_mod::lemma_div_by_multiple(outer, block as int);
            assert(block * outer == outer * block) by (nonlinear_arith);
            assert(inner >= 1 && bins >= 1) by (nonlinear_arith)
                requires
                    block == inner * bins,
                    block > 0,
            ;
        }
        let outer_n = out_total / block;
        let mut o: usize = 0;
        while o < outer_n
            invariant
                outer_n == outer,
                block == inner * bins,
                inner >= 1,
                bins == edges@.len(),
                sorted(edges@),
                keys == tensor.keys@,
                keys.len() == inner * (len_d * outer),
                keys.len() == nkeys,
                idx@.len() == keys.len(),
                forall|q: int| 0 <= q < keys.len() ==> #[trigger] idx@[q] == bin_code(keys[q], edges@),
                forall|q: int| 0 <= q < keys.len() ==> #[trigger] idx@[q] <= edges@.len(),
                o <= outer,
                counts@.len() == block * o,
                forall|i: int, b: int, o2: int|
                    0 <= i < inner && 0 <= b < bins && 0 <= o2 < o ==> #[trigger] counts@[flat3(
                        i,
                        b,
                        o2,
                        inner as int,
                        bins as int,
                    )] == line_count(keys, edges@, inner as int, len_d as int, i, o2, b, len_d as int),
            decreases outer_n - o,
        {
            let mut cell: Vec<usize> = zeros(block);
            proof {
                assert forall|i2: int, b: int| 0 <= i2 < inner && 0 <= b < bins implies #[trigger] cell@[flat2(i2, b, inner as int)] == 0 by {
                    lemma_flat2_bound(i2, b, inner as int, bins as int);
                }
            }
            let mut i: usize = 0;
            while i < inner
                invariant
                    o < outer,
                    block == inner * bins,
                    inner >= 1,
                    bins == edges@.len(),
                    sorted(edges@),
                    keys == tensor.keys@,
                    keys.len() == inner * (len_d * outer),
                    keys.len() == nkeys,
                keys.len() == nkeys,
                    idx@.len() == keys.len(),
                    forall|q: int| 0 <= q < keys.len() ==> #[trigger] idx@[q] == bin_code(keys[q], edges@),
                    forall|q: int| 0 <= q < keys.len() ==> #[trigger] idx@[q] <= edges@.len(),
                    i <= inner,
                    cell@.len() == block,
                    forall|i2: int, b: int|
                        0 <= i2 < inner && 0 <= b < bins ==> #[trigger] cell@[flat2(i2, b, inner as int)]
                            == if i2 < i {
                            line_count(keys, edges@, inner as int, len_d as int, i2, o as int, b, len_d as int)
                        } else {
                            0
                        },
                decreases inner - i,
            {
                let mut t: usize = 0;
                while t < len_d
                    invariant
                        o < outer,
                        i < inner,
                        block == inner * bins,
                        inner >= 1,
                        bins == edges@.len(),
                        sorted(edges@),
                        keys == tensor.keys@,
                        keys.len() == inner * (len_d * outer),
                        keys.len() == nkeys,
                    keys.len() == nkeys,
                keys.len() == nkeys,
                        idx@.len() == keys.len(),
                        forall|q: int| 0 <= q < keys.len() ==> #[trigger] idx@[q] == bin_code(keys[q], edges@),
                        forall|q: int| 0 <= q < keys.len() ==> #[trigger] idx@[q] <= edges@.len(),
                        t <= len_d,
                        cell@.len() == block,
                        forall|i2: int, b: int|
                            0 <= i2 < inner && 0 <= b < bins ==> #[trigger] cell@[flat2(i2, b, inner as int)]
                                == if i2 < i {
                                line_count(keys, edges@, inner as int, len_d as int, i2, o as int, b, len_d as int)
                            } else if i2 == i {
                                line_count(keys, edges@, inner as int, len_d as int, i as int, o as int, b, t as int)
                            } else {
                                0
                            },
                    decreases len_d - t,
                {
                    proof {
                        lemma_flat3_parts(i as int, t as int, o as int, inner as int, len_d as int, outer);
                        lemma_flat3_bound(i as int, t as int, o as int, inner as int, len_d as int, outer);
                    }
                    let pos = i + inner * (t + len_d * o);
                    let code = idx[pos];
                    let ghost pos_bin = bin_spec(keys[pos as int], edges@);
                    if code > 0 {
                        let b = code - 1;
                        proof {
                            assert(pos_bin == Some(b as int));
                            lemma_flat2_bound(i as int, b as int, inner as int, bins as int);
                            lemma_line_count_bound(keys, edges@, inner as int, len_d as int, i as int, o as int, b as int, t as int);
                        }
                        let c = i + inner * b;
                        let v = cell[c];
                        cell.set(c, v + 1);
                        proof {
                            assert forall|i2: int, b2: int| 0 <= i2 < inner && 0 <= b2 < bins implies #[trigger] cell@[flat2(i2, b2, inner as int)]
                                == if i2 < i {
                                line_count(keys, edges@, inner as int, len_d as int, i2, o as int, b2, len_d as int)
                            } else if i2 == i {
                                line_count(keys, edges@, inner as int, len_d as int, i as int, o as int, b2, t + 1)
                            } else {
                                0
                            } by {
                                lemma_flat2_bound(i2, b2, inner as int, bins as int);
                                if flat2(i2, b2, inner as int) == c {
                                    lemma_flat2_inj(i2, b2, i as int, b as int, inner as int);
                                }
                            }
                        }
                    } else {
                        proof {
                            if let Some(x) = keys[pos as int] {
                                lemma_count_le_partition(x, edges@);
                                if edges@.len() > 0 && x >= edges@[0] {
                                    assert(count_le(x, edges@) >= 1);
                                }
                            }
                            assert(pos_bin is None);
                        }
                    }
                    t = t + 1;
                }
                i = i + 1;
            }
            let ghost before = counts@;
            let mut c: usize = 0;
            while c < block
                invariant
                    c <= block,
                    cell@.len() == block,
                    counts@ == before + cell@.take(c as int),
                decreases block - c,
            {
                counts.push(cell[c]);
                c = c + 1;
                assert(counts@ =~= before + cell@.take(c as int));
            }
            proof {
                assert(cell@.take(block as int) =~= cell@);
                assert(block * (o + 1) == block * o + block) by (nonlinear_arith);
                assert forall|i: int, b: int, o2: int|
                    0 <= i < inner && 0 <= b < bins && 0 <= o2 < o + 1 implies #[trigger] counts@[flat3(
                        i,
                        b,
                        o2,
                        inner as int,
                        bins as int,
                    )] == line_count(keys, edges@, inner as int, len_d as int, i, o2, b, len_d as int) by {
                    lemma_flat3_split(i, b, o2, inner as int, bins as int);
                    lemma_flat2_bound(i, b, inner as int, bins as int);
                    if o2 < o {
                        assert(block * o2 + block <= block * o) by (nonlinear_arith)
                            requires
                                o2 < o,
                                block >= 0,
                        ;
                        assert(counts@[flat3(i, b, o2, inner as int, bins as int)] == before[flat3(i, b, o2, inner as int, bins as int)]);
                    } else {
                        assert(counts@[flat3(i, b, o2, inner as int, bins as int)] == cell@[flat2(i, b, inner as int)]);
                    }
                }
            }
            o = o + 1;
        }
        proof {
            assert(block * outer == inner * (bins * outer)) by (nonlinear_arith)
                requires
                    block == inner * bins,
            ;
        }
    } else {
        proof {
            assert(inner * (bins * outer) == 0) by (nonlinear_arith)
                requires
                    inner * bins == 0,
            ;
            assert(inner == 0 || bins == 0) by (nonlinear_arith)
                requires
                    inner * bins == 0,
            ;
        }
    }
    proof {
        let d = histc_dim(shape, dim_arg);
        assert(d == dim);
        assert(dims@ == histc_dims(shape, dim_arg));
        assert(inner == prod(dims@.take(d)));
        assert(len_d == dims@[d]);
        assert(outer == prod(dims@.skip(d + 1)));
        assert(out_dims@ == histc_count_dims(shape, dim_arg, edges@.len()));
        assert(idx@.len() == keys.len());
        assert(counts@.len() == inner * (bins * outer));
        assert(forall|p: int| 0 <= p < keys.len() ==> #[trigger] idx@[p] == bin_code(keys[p], edges@));
        assert(forall|i: int, b: int, o: int|
            0 <= i < inner && 0 <= b < bins && 0 <= o < outer ==> #[trigger] counts@[flat3(i, b, o, inner as int, bins as int)]
                == line_count(keys, edges@, inner as int, len_d as int, i, o, b, len_d as int));
    }
    HistcEvaluation {
        counts: IndexTensor { data: counts, shape: out_dims },
        idx: IndexTensor { data: idx, shape: dims },
    }
}


/// The arguments' dimension is a whole number of at least one.
pub open spec fn dim_valid(d: DimScalar) -> bool {
    d matches DimScalar::Scalar(Some(n)) && n >= 1
}

/// The dimension the arguments after `x` request, when they give one.
pub open spec fn requested_dim(rest: Seq<HistcOperand>) -> Option<usize> {
    if rest.len() == 2 {
        match rest[1].dim {
            DimScalar::Scalar(Some(n)) => if n >= 1 {
                Some(n)
            } else {
                None
            },
            _ => None,
        }
    } else {
        None
    }
}

/// The data fits its shape, and the index arithmetic of the requested
/// evaluation stays within `usize`.
pub open spec fn evaluate_fits(x: Result<HistcData, String>, rest: Seq<HistcOperand>) -> bool {
    x matches Ok(d) ==> {
        &&& d.wf()
        &&& (rest.len() >= 1 && rest[0].numeric is Some) ==> histc_fits(
            d.shape@,
            requested_dim(rest),
            rest[0].numeric->0@.len(),
        )
    }
}

impl HistcEvaluation {
    /// The counts.
    pub closed spec fn counts_tensor(self) -> IndexTensor {
        self.counts
    }

    /// The bin number of every element.
    pub closed spec fn index_tensor(self) -> IndexTensor {
        self.idx
    }

    /// The counts, as the first output.
    pub fn into_counts_value(self) -> (r: IndexTensor)
        ensures
            r == self.counts_tensor(),
    {
        self.counts
    }

    /// The counts and the bin numbers, as the two outputs.
    pub fn into_pair(self) -> (r: (IndexTensor, IndexTensor))
        ensures
            r.0 == self.counts_tensor(),
            r.1 == self.index_tensor(),
    {
        (self.counts, self.idx)
    }
}

/// Evaluates `histc(x, edges)` or `histc(x, edges, dim)`, `rest` holding the
/// arguments after `x` and `x` the data or the message of its failed
/// conversion to a numeric array.
pub fn evaluate(x: Result<HistcData, String>, rest: &[HistcOperand]) -> (r: Result<HistcEvaluation, RuntimeError>)
    requires
        evaluate_fits(x, rest@),
    ensures
        rest@.len() == 0 ==> (r matches Err(e) && histc_error_is(
            e,
            Some("RunMat:histc:InvalidArgument"@),
            "histc: requires edge boundaries (edges)"@,
        )),
        rest@.len() > 2 ==> (r matches Err(e) && histc_error_is(
            e,
            Some("RunMat:histc:InvalidArgument"@),
            "histc: only histc(x, edges) and histc(x, edges, dim) are supported"@,
        )),
        1 <= rest@.len() <= 2 ==> match rest@[0].numeric {
            None => r matches Err(e) && histc_error_is(
                e,
                Some("RunMat:histc:InvalidArgument"@),
                "histc: edges must be a numeric vector"@,
            ),
            Some(edges) => if !edges_valid(edges@) {
                r matches Err(e) && histc_error_is(
                    e,
                    Some("RunMat:histc:EdgesNotMonotonic"@),
                    "histc: edges must be monotonically non-decreasing finite values"@,
                )
            } else if rest@.len() == 2 && !dim_valid(rest@[1].dim) {
                r matches Err(e) && histc_error_is(
                    e,
                    Some("RunMat:histc:InvalidArgument"@),
                    "histc: dim must be a positive integer scalar"@,
                )
            } else {
                match x {
                    Err(m) => r matches Err(e) && histc_error_is(e, None, m@),
                    Ok(d) => r matches Ok(ev) && histc_result(
                        ev.counts_tensor(),
                        ev.index_tensor(),
                        d.keys@,
                        d.shape@,
                        unwrap_keys(edges@),
                        requested_dim(rest@),
                    ),
                }
            },
        },
{
    if rest.len() == 0 {
        return Err(invalid_argument(String::from_str("histc: requires edge boundaries (edges)")));
    }
    if rest.len() > 2 {
        return Err(
            invalid_argument(
                String::from_str("histc: only histc(x, edges) and histc(x, edges, dim) are supported"),
            ),
        );
    }
    let edges = match edges_from_value(&rest[0]) {
        Ok(e) => e,
        Err(e) => return Err(e),
    };
    match validate_edges(edges.as_slice()) {
        Ok(()) => {},
        Err(e) => return Err(e),
    }
    let dim_arg = if rest.len() == 2 {
        match dim_from_value(&rest[1].dim) {
            Ok(d) => Some(d),
            Err(e) => return Err(e),
        }
    } else {
        None
    };
    assert(dim_arg == requested_dim(rest@));
    let tensor = match x {
        Ok(t) => t,
        Err(m) => return Err(builtin_error(m)),
    };
    let keys = present_keys(edges.as_slice());
    Ok(histc_from_tensor(&tensor, keys.as_slice(), dim_arg))
}

/// The two outputs extend the one: for an evaluation that `evaluate`
/// returned, the counts that `into_pair` gives first are those that
/// `into_counts_value` gives, and its second output holds, for every
/// element of `x`, its 1-based bin (0 when it falls in none), shaped like
/// the input.
pub proof fn law_pair_extends_counts(
    x: HistcData,
    rest: &[HistcOperand],
    ev: HistcEvaluation,
    counts: IndexTensor,
    pair: (IndexTensor, IndexTensor),
)
    requires
        call_ensures(evaluate, (Ok::<HistcData, String>(x), rest), Ok::<HistcEvaluation, RuntimeError>(ev)),
        call_ensures(HistcEvaluation::into_counts_value, (ev,), counts),
        call_ensures(HistcEvaluation::into_pair, (ev,), pair),
    ensures
        pair.0 == counts,
        1 <= rest@.len() <= 2 && rest@[0].numeric is Some,
        pair.1.shape@ == histc_dims(x.shape@, requested_dim(rest@)),
        pair.1.data@.len() == x.keys@.len(),
        forall|p: int|
            0 <= p < x.keys@.len() ==> #[trigger] pair.1.data@[p] == bin_code(
                x.keys@[p],
                unwrap_keys(rest@[0].numeric->0@),
            ),
{
}

/// Acceleration metadata of `histc`: binning runs on the host after a
/// gather, for single and double precision inputs.
pub fn histc_gpu_spec() -> (g: BuiltinGpuSpec)
    ensures
        g.name@ == "histc"@,
        g.op_kind matches GpuOpKind::Custom(k) && k@ == "histc"@,
        g.supported_precisions@ == seq![ScalarType::F32, ScalarType::F64],
        g.provider_hooks@.len() == 1,
        g.broadcast == BroadcastSemantics::NoBroadcast,
        g.nan_mode == ReductionNaN::Omit,
{
    let precisions = vec![ScalarType::F32, ScalarType::F64];
    assert(precisions@ =~= seq![ScalarType::F32, ScalarType::F64]);
    BuiltinGpuSpec {
        name: String::from_str("histc"),
        op_kind: GpuOpKind::Custom(String::from_str("histc")),
        supported_precisions: precisions,
        broadcast: BroadcastSemantics::NoBroadcast,
        provider_hooks: vec![ProviderHook::Custom(String::from_str("histc"))],
        constant_strategy: ConstantStrategy::InlineLiteral,
        residency: ResidencyPolicy::GatherImmediately,
        nan_mode: ReductionNaN::Omit,
        two_pass_threshold: None,
        workgroup_size: None,
        accepts_nan_mode: false,
        notes: String::from_str(
            "Legacy edge-based histogram; current builds gather to host memory before binning.",
        ),
    }
}

/// Descriptor of `histc`.
pub fn histc_descriptor() -> (d: BuiltinDescriptor)
    ensures
        d.labels() == seq!["[n, idx] = histc(x, edges) | histc(x, edges, dim)"@],
        d.codes() == seq!["RM.HISTC.INVALID_ARGUMENT"@, "RM.HISTC.EDGES_NOT_MONOTONIC"@],
        d.output_mode == BuiltinOutputMode::ByRequestedOutputCount,
{
    let s0 = signature(
        "[n, idx] = histc(x, edges) | histc(x, edges, dim)",
        vec![
            param(
                "x",
                BuiltinParamType::Any,
                BuiltinParamArity::Required,
                "Input data values.",
            ),
            param(
                "edges",
                BuiltinParamType::NumericArray,
                BuiltinParamArity::Required,
                "Monotonically non-decreasing edge boundaries.",
            ),
            param(
                "dim",
                BuiltinParamType::NumericScalar,
                BuiltinParamArity::Optional,
                "Operating dimension (1-based).",
            ),
        ],
        vec![
            param(
                "n",
                BuiltinParamType::NumericArray,
                BuiltinParamArity::Required,
                "Per-bin counts; one element per edge.",
            ),
            param(
                "idx",
                BuiltinParamType::NumericArray,
                BuiltinParamArity::Optional,
                "1-based bin index for each input element (0 if uncounted).",
            ),
        ],
    );
    let d = BuiltinDescriptor {
        signatures: vec![s0],
        output_mode: BuiltinOutputMode::ByRequestedOutputCount,
        completion_policy: BuiltinCompletionPolicy::Public,
        errors: vec![histc_error_invalid_argument(), histc_error_edges_not_monotonic()],
    };
    assert(d.labels() =~= seq!["[n, idx] = histc(x, edges) | histc(x, edges, dim)"@]);
    assert(d.codes() =~= seq!["RM.HISTC.INVALID_ARGUMENT"@, "RM.HISTC.EDGES_NOT_MONOTONIC"@]);
    d
}

/// Fusion metadata of `histc`.
pub fn histc_fusion_spec() -> (f: BuiltinFusionSpec)
    ensures
        f.name@ == "histc"@,
{
    unfused_spec(
        "histc",
        false,
        "Edge-based binning materialises counts on the host and terminates fusion chains.",
    )
}


} // verus!
