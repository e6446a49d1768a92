//! `num2cell`: splits an array into a cell array, one cell per element, or
//! one cell per slice along the grouped dimensions.
//!
//! Real and complex doubles stay with the caller: their cells name the
//! positions of the elements they hold. Logical, character and string
//! contents are copied here.

use vstd::prelude::*;
use crate::descriptor::{error_descriptor, error_descriptor_anonymous, host_gpu_spec, param, signature, unfused_spec, BuiltinCompletionPolicy, BuiltinDescriptor, BuiltinErrorDescriptor, BuiltinFusionSpec, BuiltinGpuSpec, BuiltinOutputMode, BuiltinParamArity, BuiltinParamType};
use crate::digits::{base_text, decimal_text};
use crate::error::{descriptor_error_with_message, opt_view, RuntimeError};
use crate::shape::{lemma_prod_append, lemma_prod_pad, lemma_prod_take_step, pad_to, prefix_fits, prod, to_vec};
use crate::text::{chars_to_string, str_chars};
use crate::value::{CharArray, LogicalArray, StringArray, Value};

verus! {

/// Shape with at least two extents: none is 1-by-1, one extent `n` is
/// 1-by-n.
pub open spec fn normalize_spec(shape: Seq<usize>) -> Seq<usize> {
    if shape.len() == 0 {
        seq![1usize, 1usize]
    } else if shape.len() == 1 {
        seq![1usize, shape[0]]
    } else {
        shape
    }
}

/// Shape without trailing singleton extents beyond the second, and with at
/// least two extents.
pub open spec fn trim_spec(shape: Seq<usize>) -> Seq<usize>
    decreases shape.len(),
{
    if shape.len() > 2 && shape.last() == 1 {
        trim_spec(shape.drop_last())
    } else if shape.len() == 0 {
        seq![1usize, 1usize]
    } else if shape.len() == 1 {
        shape.push(1)
    } else {
        shape
    }
}

/// Shape (1-by-1 when empty) padded with ones up to `rank` extents.
pub open spec fn extend_spec(shape: Seq<usize>, rank: int) -> Seq<usize> {
    pad_to(if shape.len() == 0 { seq![1usize, 1usize] } else { shape }, rank)
}

/// Stride of dimension `k`: the product of the earlier extents, each
/// counted as at least one, saturating at `usize::MAX`.
pub open spec fn sat_stride(shape: Seq<usize>, k: int) -> nat
    decreases k,
{
    if k <= 0 {
        1
    } else {
        let prev = sat_stride(shape, k - 1);
        let e = if shape[k - 1] == 0 { 1nat } else { shape[k - 1] as nat };
        if prev * e > usize::MAX {
            usize::MAX as nat
        } else {
            prev * e
        }
    }
}

/// Number of extents greater than one among the first `n`.
pub open spec fn count_non_singleton(shape: Seq<usize>, n: int) -> nat
    decreases n,
{
    if n <= 0 {
        0
    } else {
        count_non_singleton(shape, n - 1) + (if shape[n - 1] > 1 { 1nat } else { 0nat })
    }
}

/// Normalizes a shape to at least two extents.
pub fn normalize_shape(shape: &[usize]) -> (r: Vec<usize>)
    ensures
        r@ == normalize_spec(shape@),
{
    if shape.len() == 0 {
        let v: Vec<usize> = vec![1usize, 1usize];
        assert(v@ =~= seq![1usize, 1usize]);
        v
    } else if shape.len() == 1 {
        let v: Vec<usize> = vec![1usize, shape[0]];
        assert(v@ =~= seq![1usize, shape@[0]]);
        v
    } else {
        to_vec(shape)
    }
}

/// Drops trailing singleton extents beyond the second and pads to two.
pub fn trim_shape(shape: Vec<usize>) -> (r: Vec<usize>)
    ensures
        r@ == trim_spec(shape@),
{
    let mut shape = shape;
    let ghost orig = shape@;
    while shape.len() > 2 && shape[shape.len() - 1] == 1
        invariant
            trim_spec(shape@) == trim_spec(orig),
        decreases shape@.len(),
    {
        shape.pop();
    }
    if shape.len() == 0 {
        let v: Vec<usize> = vec![1usize, 1usize];
        assert(v@ =~= seq![1usize, 1usize]);
        v
    } else {
        if shape.len() == 1 {
            shape.push(1);
        }
        shape
    }
}

/// The shape (1-by-1 when empty) padded with ones up to `rank` extents.
pub fn extend_shape(shape: &[usize], rank: usize) -> (r: Vec<usize>)
    ensures
        r@ == extend_spec(shape@, rank as int),
{
    let mut extended: Vec<usize> = if shape.len() == 0 {
        let v: Vec<usize> = vec![1usize, 1usize];
        assert(v@ =~= seq![1usize, 1usize]);
        v
    } else {
        to_vec(shape)
    };
    let ghost base = extended@;
    assert(extended@ =~= pad_to(base, extended@.len() as int));
    while extended.len() < rank
        invariant
            base.len() <= extended@.len(),
            base.len() < rank ==> extended@.len() <= rank,
            base.len() >= rank ==> extended@.len() == base.len(),
            extended@ == pad_to(base, extended@.len() as int),
        decreases rank - extended@.len(),
    {
        extended.push(1);
        assert(extended@ =~= pad_to(base, extended@.len() as int));
    }
    assert(extended@ =~= pad_to(base, rank as int));
    extended
}

/// Column-major strides, each extent counted as at least one, saturating
/// at `usize::MAX`.
pub fn column_major_strides(shape: &[usize]) -> (strides: Vec<usize>)
    ensures
        strides@.len() == shape@.len(),
        forall|k: int| 0 <= k < shape@.len() ==> strides@[k] == sat_stride(shape@, k),
{
    let mut strides: Vec<usize> = Vec::new();
    let mut acc: usize = 1;
    let mut k: usize = 0;
    while k < shape.len()
        invariant
            k <= shape@.len(),
            strides@.len() == k,
            acc == sat_stride(shape@, k as int),
            forall|j: int| 0 <= j < k ==> strides@[j] == sat_stride(shape@, j),
        decreases shape@.len() - k,
    {
        strides.push(acc);
        let extent = if shape[k] == 0 { 1 } else { shape[k] };
        acc = match acc.checked_mul(extent) {
            Some(v) => v,
            None => usize::MAX,
        };
        k = k + 1;
    }
    strides
}

/// At most one extent is greater than one.
pub fn is_vector_shape(shape: &[usize]) -> (b: bool)
    ensures
        b == (count_non_singleton(shape@, shape@.len() as int) <= 1),
{
    let mut count: usize = 0;
    let mut k: usize = 0;
    while k < shape.len()
        invariant
            k <= shape@.len(),
            count == count_non_singleton(shape@, k as int),
            count <= k,
        decreases shape@.len() - k,
    {
        if shape[k] > 1 {
            count = count + 1;
        }
        k = k + 1;
    }
    count <= 1
}


/// Position in the data of element `k` of a block, the block's elements
/// counted column-major from dimension `d` on.
pub open spec fn block_offset(k: int, ext: Seq<usize>, start: Seq<usize>, sizes: Seq<usize>, d: int) -> int
    decreases sizes.len() - d,
{
    if d < 0 || d >= sizes.len() {
        0
    } else {
        (start[d] + k % (sizes[d] as int)) * (prod(ext.take(d)) as int) + block_offset(
            k / (sizes[d] as int),
            ext,
            start,
            sizes,
            d + 1,
        )
    }
}

/// The first dimension, from `d` on, in which the block leaves the array;
/// the block's rank when there is none.
pub open spec fn first_out_of_bounds(start: Seq<usize>, sizes: Seq<usize>, ext: Seq<usize>, d: int) -> int
    decreases sizes.len() - d,
{
    if d < 0 || d >= sizes.len() {
        sizes.len() as int
    } else if start[d] + sizes[d] > ext[d] {
        d
    } else {
        first_out_of_bounds(start, sizes, ext, d + 1)
    }
}

/// Message of the error for a block leaving the array in dimension `n`
/// (1-based).
pub open spec fn slice_exceeds_text(n: nat) -> Seq<char> {
    "num2cell: slice exceeds dimension "@ + decimal_text(n) + " bounds"@
}

/// The error is an internal `num2cell` error with the given message.
pub open spec fn internal_error_is(e: RuntimeError, msg: Seq<char>) -> bool {
    &&& e.message@ == msg
    &&& opt_view(e.builtin) == Some("num2cell"@)
    &&& e.identifier is None
}

/// The error is a `num2cell` error with the given identifier and message.
pub open spec fn num2cell_error_is(e: RuntimeError, ident: Seq<char>, msg: Seq<char>) -> bool {
    &&& e.message@ == msg
    &&& opt_view(e.builtin) == Some("num2cell"@)
    &&& opt_view(e.identifier) == Some(ident)
}

proof fn lemma_first_out_of_bounds(start: Seq<usize>, sizes: Seq<usize>, ext: Seq<usize>, d: int)
    requires
        0 <= d <= sizes.len(),
        forall|j: int| 0 <= j < d ==> start[j] + sizes[j] <= ext[j],
    ensures
        first_out_of_bounds(start, sizes, ext, 0) == first_out_of_bounds(start, sizes, ext, d),
    decreases d,
{
    if d > 0 {
        lemma_first_out_of_bounds(start, sizes, ext, d - 1);
    }
}

proof fn lemma_prod_positive(s: Seq<usize>)
    requires
        prod(s) > 0,
    ensures
        forall|i: int| 0 <= i < s.len() ==> s[i] > 0,
    decreases s.len(),
{
    if s.len() > 0 {
        let t = s.drop_last();
        assert(prod(s) == prod(t) * (s.last() as nat));
        assert(prod(t) > 0 && s.last() > 0) by (nonlinear_arith)
            requires
                prod(s) == prod(t) * (s.last() as nat),
                prod(s) > 0,
        ;
        lemma_prod_positive(t);
        assert forall|i: int| 0 <= i < s.len() implies s[i] > 0 by {
            if i < t.len() {
                assert(s[i] == t[i]);
            }
        }
    }
}

/// With every extent at least one, prefix products grow with the prefix,
/// and the saturating strides are the exact prefix products.
proof fn lemma_strides_exact(ext: Seq<usize>, rank: int, k: int)
    requires
        0 <= k <= rank <= ext.len(),
        forall|i: int| 0 <= i < rank ==> ext[i] >= 1,
        prod(ext.take(rank)) <= usize::MAX,
    ensures
        prod(ext.take(k)) <= prod(ext.take(rank)),
        sat_stride(ext, k) == prod(ext.take(k)),
    decreases rank - k,
{
    if k < rank {
        lemma_strides_exact(ext, rank, k + 1);
        lemma_prod_take_step(ext, k);
        let p = prod(ext.take(k));
        let e = ext[k] as nat;
        assert(p <= p * e) by (nonlinear_arith)
            requires
                e >= 1,
        ;
    }
    if k > 0 {
        lemma_strides_exact_down(ext, rank, k);
    }
}

proof fn lemma_strides_exact_down(ext: Seq<usize>, rank: int, k: int)
    requires
        0 <= k <= rank <= ext.len(),
        forall|i: int| 0 <= i < rank ==> ext[i] >= 1,
        prod(ext.take(rank)) <= usize::MAX,
    ensures
        sat_stride(ext, k) == prod(ext.take(k)),
    decreases k,
{
    if k > 0 {
        lemma_strides_exact_down(ext, rank, k - 1);
        lemma_prod_take_step(ext, k - 1);
        lemma_prefix_le(ext, rank, k);
    }
}

proof fn lemma_prefix_le(ext: Seq<usize>, rank: int, k: int)
    requires
        0 <= k <= rank <= ext.len(),
        forall|i: int| 0 <= i < rank ==> ext[i] >= 1,
    ensures
        prod(ext.take(k)) <= prod(ext.take(rank)),
    decreases rank - k,
{
    if k < rank {
        lemma_prefix_le(ext, rank, k + 1);
        lemma_prod_take_step(ext, k);
        let p = prod(ext.take(k));
        let e = ext[k] as nat;
        assert(p <= p * e) by (nonlinear_arith)
            requires
                e >= 1,
        ;
    }
}

fn internal_error(message: String) -> (e: RuntimeError)
    ensures
        internal_error_is(e, message@),
{
    RuntimeError { message, builtin: Some(String::from_str("num2cell")), identifier: None, source: None }
}

fn slice_exceeds_message(n: usize) -> (s: String)
    ensures
        s@ == slice_exceeds_text(n as nat),
{
    let mut cs = str_chars("num2cell: slice exceeds dimension ");
    let digits = base_text(n as u64, 10);
    let tail = str_chars(" bounds");
    let ghost head = cs@;
    let mut i: usize = 0;
    while i < digits.len()
        invariant
            i <= digits@.len(),
            cs@ == head + digits@.take(i as int),
        decreases digits@.len() - i,
    {
        cs.push(digits[i]);
        i = i + 1;
        assert(cs@ =~= head + digits@.take(i as int));
    }
    let ghost mid = cs@;
    let mut j: usize = 0;
    while j < tail.len()
        invariant
            j <= tail@.len(),
            cs@ == mid + tail@.take(j as int),
        decreases tail@.len() - j,
    {
        cs.push(tail[j]);
        j = j + 1;
        assert(cs@ =~= mid + tail@.take(j as int));
    }
    assert(digits@.take(digits@.len() as int) =~= digits@);
    assert(tail@.take(tail@.len() as int) =~= tail@);
    chars_to_string(cs.as_slice())
}

/// Positions in the data of the elements of the block that starts at
/// `start` and spans `sizes`, in column-major order of the block.
pub fn block_positions(data_len: usize, shape: &[usize], start: &[usize], sizes: &[usize]) -> (r: Result<Vec<usize>, RuntimeError>)
    requires
        start@.len() >= sizes@.len(),
        forall|d: int| 0 <= d < sizes@.len() ==> start@[d] + sizes@[d] <= usize::MAX,
        prefix_fits(sizes@),
        prod(extend_spec(shape@, sizes@.len() as int).take(sizes@.len() as int)) <= usize::MAX,
    ensures
        ({
            let rank = sizes@.len() as int;
            let ext = extend_spec(shape@, rank);
            let fb = first_out_of_bounds(start@, sizes@, ext, 0);
            let total = prod(sizes@) as int;
            if fb < rank {
                r matches Err(e) && internal_error_is(e, slice_exceeds_text((fb + 1) as nat))
            } else if exists|k: int| 0 <= k < total && #[trigger] block_offset(k, ext, start@, sizes@, 0) >= data_len {
                r matches Err(e) && internal_error_is(e, "num2cell: internal indexing error"@)
            } else {
                r matches Ok(v) && v@.len() == total && forall|k: int|
                    0 <= k < total ==> #[trigger] v@[k] == block_offset(k, ext, start@, sizes@, 0)
            }
        }),
{
    let rank = sizes.len();
    let extended = extend_shape(shape, rank);
    let ghost ext = extended@;
    let strides = column_major_strides(extended.as_slice());
    proof {
        lemma_prod_pad(if shape@.len() == 0 { seq![1usize, 1usize] } else { shape@ }, rank as int);
    }
    let mut dim: usize = 0;
    while dim < rank
        invariant
            dim <= rank == sizes@.len(),
            start@.len() >= sizes@.len(),
            ext == extended@,
            ext == extend_spec(shape@, rank as int),
            ext.len() >= rank,
            forall|d: int| 0 <= d < sizes@.len() ==> start@[d] + sizes@[d] <= usize::MAX,
            forall|j: int| 0 <= j < dim ==> start@[j] + sizes@[j] <= ext[j],
        decreases rank - dim,
    {
        if start[dim] + sizes[dim] > extended[dim] {
            proof {
                lemma_first_out_of_bounds(start@, sizes@, ext, dim as int);
                assert(first_out_of_bounds(start@, sizes@, ext, dim as int) == dim);
            }
            return Err(internal_error(slice_exceeds_message(dim + 1)));
        }
        dim = dim + 1;
    }
    proof {
        lemma_first_out_of_bounds(start@, sizes@, ext, rank as int);
        assert(sizes@.take(rank as int) =~= sizes@);
    }
    let total = crate::shape::prefix_product(sizes, rank);
    if total == 0 {
        return Ok(Vec::new());
    }
    proof {
        lemma_prod_positive(sizes@);
        assert forall|i: int| 0 <= i < rank implies ext[i] >= 1 by {
            assert(start@[i] + sizes@[i] <= ext[i]);
        }
        assert forall|d: int| 0 <= d < rank implies strides@[d] == prod(ext.take(d)) by {
            lemma_strides_exact_down(ext, rank as int, d);
        }
    }
    let mut result: Vec<usize> = Vec::new();
    let mut k: usize = 0;
    while k < total
        invariant
            k <= total == prod(sizes@),
            rank == sizes@.len(),
            start@.len() >= sizes@.len(),
            ext == extended@,
            ext == extend_spec(shape@, rank as int),
            first_out_of_bounds(start@, sizes@, ext, 0) == rank,
            ext.len() >= rank,
            strides@.len() == ext.len(),
            forall|d: int| 0 <= d < rank ==> strides@[d] == prod(ext.take(d)),
            forall|d: int| 0 <= d < rank ==> sizes@[d] >= 1,
            forall|d: int| 0 <= d < rank ==> start@[d] + sizes@[d] <= ext[d],
            forall|d: int| 0 <= d < rank ==> ext[d] >= 1,
            prod(ext.take(rank as int)) <= usize::MAX,
            result@.len() == k,
            forall|j: int| 0 <= j < k ==> #[trigger] result@[j] == block_offset(j, ext, start@, sizes@, 0),
            forall|j: int| 0 <= j < k ==> #[trigger] block_offset(j, ext, start@, sizes@, 0) < data_len,
        decreases total - k,
    {
        let mut rem: usize = k;
        let mut linear: usize = 0;
        let mut d: usize = 0;
        while d < rank
            invariant
                d <= rank == sizes@.len(),
                start@.len() >= sizes@.len(),
                ext.len() >= rank,
                strides@.len() == ext.len(),
                forall|d2: int| 0 <= d2 < rank ==> strides@[d2] == prod(ext.take(d2)),
                forall|d2: int| 0 <= d2 < rank ==> sizes@[d2] >= 1,
                forall|d2: int| 0 <= d2 < rank ==> start@[d2] + sizes@[d2] <= ext[d2],
                forall|d2: int| 0 <= d2 < rank ==> ext[d2] >= 1,
                prod(ext.take(rank as int)) <= usize::MAX,
                linear < prod(ext.take(d as int)),
                linear + block_offset(rem as int, ext, start@, sizes@, d as int) == block_offset(
                    k as int,
                    ext,
                    start@,
                    sizes@,
                    0,
                ),
            decreases rank - d,
        {
            let c = rem % sizes[d];
            proof {
                lemma_prod_take_step(ext, d as int);
                lemma_prefix_le(ext, rank as int, d + 1);
                let p = prod(ext.take(d as int));
                let e = ext[d as int] as int;
                let x = start@[d as int] + c;
                assert(x <= e - 1);
                assert(linear + x * p < p * e) by (nonlinear_arith)
                    requires
                        linear < p,
                        0 <= x <= e - 1,
                ;
                assert(x * p <= p * e) by (nonlinear_arith)
                    requires
                        0 <= x <= e - 1,
                        p >= 0,
                ;
            }
            linear = linear + (start[d] + c) * strides[d];
            rem = rem / sizes[d];
            d = d + 1;
        }
        if linear >= data_len {
            assert(block_offset(k as int, ext, start@, sizes@, 0) >= data_len);
            return Err(internal_error(String::from_str("num2cell: internal indexing error")));
        }
        result.push(linear);
        k = k + 1;
    }
    Ok(result)
}

/// Copies the block that starts at `start` and spans `sizes` out of a
/// column-major array, in column-major order of the block.
pub fn copy_block<T: Copy>(data: &[T], shape: &[usize], start: &[usize], sizes: &[usize]) -> (r: Result<Vec<T>, RuntimeError>)
    requires
        start@.len() >= sizes@.len(),
        forall|d: int| 0 <= d < sizes@.len() ==> start@[d] + sizes@[d] <= usize::MAX,
        prefix_fits(sizes@),
        prod(extend_spec(shape@, sizes@.len() as int).take(sizes@.len() as int)) <= usize::MAX,
    ensures
        ({
            let rank = sizes@.len() as int;
            let ext = extend_spec(shape@, rank);
            let fb = first_out_of_bounds(start@, sizes@, ext, 0);
            let total = prod(sizes@) as int;
            if fb < rank {
                r matches Err(e) && internal_error_is(e, slice_exceeds_text((fb + 1) as nat))
            } else if exists|k: int| 0 <= k < total && #[trigger] block_offset(k, ext, start@, sizes@, 0) >= data@.len() {
                r matches Err(e) && internal_error_is(e, "num2cell: internal indexing error"@)
            } else {
                r matches Ok(v) && v@.len() == total && forall|k: int|
                    0 <= k < total ==> #[trigger] v@[k] == data@[block_offset(k, ext, start@, sizes@, 0)]
            }
        }),
{
    let positions = match block_positions(data.len(), shape, start, sizes) {
        Ok(p) => p,
        Err(e) => return Err(e),
    };
    let ghost ext = extend_spec(shape@, sizes@.len() as int);
    let mut out: Vec<T> = Vec::new();
    let mut k: usize = 0;
    while k < positions.len()
        invariant
            k <= positions@.len(),
            forall|j: int| 0 <= j < positions@.len() ==> positions@[j] < data@.len(),
            out@.len() == k,
            forall|j: int| 0 <= j < k ==> #[trigger] out@[j] == data@[positions@[j] as int],
        decreases positions@.len() - k,
    {
        out.push(data[positions[k]]);
        k = k + 1;
    }
    Ok(out)
}

fn num2cell_error_invalid_input() -> (e: BuiltinErrorDescriptor)
    ensures
        e.code@ == "RM.NUM2CELL.INVALID_INPUT"@,
        e.identifier matches Some(i) && i@ == "RunMat:num2cell:InvalidInput"@,
        e.message@ == "num2cell: invalid input arguments"@,
{
    error_descriptor(
        "RM.NUM2CELL.INVALID_INPUT",
        "RunMat:num2cell:InvalidInput",
        "Input array type or argument count is invalid.",
        "num2cell: invalid input arguments",
    )
}

fn num2cell_error_invalid_dim() -> (e: BuiltinErrorDescriptor)
    ensures
        e.code@ == "RM.NUM2CELL.INVALID_DIM"@,
        e.identifier matches Some(i) && i@ == "RunMat:num2cell:InvalidDim"@,
        e.message@ == "num2cell: dimension argument must be positive integers"@,
{
    error_descriptor(
        "RM.NUM2CELL.INVALID_DIM",
        "RunMat:num2cell:InvalidDim",
        "The dimension argument is not a vector of positive integers.",
        "num2cell: dimension argument must be positive integers",
    )
}

fn num2cell_error_internal() -> (e: BuiltinErrorDescriptor)
    ensures
        e.code@ == "RM.NUM2CELL.INTERNAL"@,
        e.identifier is None,
        e.message@ == "num2cell: internal error"@,
{
    error_descriptor_anonymous(
        "RM.NUM2CELL.INTERNAL",
        "Internal slicing, indexing, or allocation failed.",
        "num2cell: internal error",
    )
}


/// `s[i]`, or `default` when `s` is shorter.
pub open spec fn get_or(s: Seq<usize>, i: int, default: usize) -> usize {
    if 0 <= i < s.len() {
        s[i]
    } else {
        default
    }
}

/// Position of (r, c) in a row-major matrix with `n` columns.
pub open spec fn rm2(r: int, c: int, n: int) -> int {
    r * n + c
}

/// The block asks a character matrix for more than one page.
pub open spec fn char_block_too_deep(start: Seq<usize>, sizes: Seq<usize>) -> bool {
    exists|d: int| #![trigger sizes[d]] 2 <= d < sizes.len() && (sizes[d] != 1 || get_or(start, d, 0) != 0)
}

/// The block leaves the rows or the columns of the character matrix.
pub open spec fn char_block_outside(a: CharArray, start: Seq<usize>, sizes: Seq<usize>) -> bool {
    get_or(start, 0, 0) + get_or(sizes, 0, 1) > a.rows || get_or(start, 1, 0) + get_or(sizes, 1, 1) > a.cols
}

/// `out` is the block of the character matrix that starts at `start` and
/// spans `sizes` (rows and columns).
pub open spec fn char_slice_holds(a: CharArray, start: Seq<usize>, sizes: Seq<usize>, out: CharArray) -> bool {
    let rs = get_or(start, 0, 0) as int;
    let rc = get_or(sizes, 0, 1) as int;
    let cs = get_or(start, 1, 0) as int;
    let cc = get_or(sizes, 1, 1) as int;
    &&& out.wf()
    &&& out.rows == rc
    &&& out.cols == cc
    &&& forall|r: int, c: int|
        0 <= r < rc && 0 <= c < cc ==> #[trigger] out.data@[rm2(r, c, cc)] == a.data@[rm2(rs + r, cs + c, a.cols as int)]
}

proof fn lemma_rm2_bound(r: int, c: int, rows: int, cols: int)
    requires
        0 <= r < rows,
        0 <= c < cols,
    ensures
        0 <= rm2(r, c, cols) < rows * cols,
        r * cols + cols <= rows * cols,
        rm2(r, c, cols) < (r + 1) * cols,
{
    assert(0 <= r * cols + c < rows * cols) by (nonlinear_arith)
        requires
            0 <= r < rows,
            0 <= c < cols,
    ;
    assert(r * cols + cols <= rows * cols) by (nonlinear_arith)
        requires
            0 <= r < rows,
            0 <= c < cols,
    ;
    assert(r * cols + c < (r + 1) * cols) by (nonlinear_arith)
        requires
            0 <= c < cols,
    ;
}

proof fn lemma_char_block_too_deep(start: Seq<usize>, sizes: Seq<usize>, w: int)
    requires
        2 <= w < sizes.len(),
        sizes[w] != 1 || get_or(start, w, 0) != 0,
    ensures
        char_block_too_deep(start, sizes),
{
}

proof fn lemma_char_block_flat(start: Seq<usize>, sizes: Seq<usize>)
    requires
        forall|d: int| 2 <= d < sizes.len() ==> !(#[trigger] sizes[d] != 1 || get_or(start, d, 0) != 0),
    ensures
        !char_block_too_deep(start, sizes),
{
}

/// Copies a block of rows and columns out of a character matrix; the
/// block may not span more than one page.
pub fn slice_char_array(array: &CharArray, start: &[usize], sizes: &[usize]) -> (r: Result<CharArray, RuntimeError>)
    requires
        array.wf(),
        get_or(start@, 0, 0) + get_or(sizes@, 0, 1) <= usize::MAX,
        get_or(start@, 1, 0) + get_or(sizes@, 1, 1) <= usize::MAX,
    ensures
        char_block_too_deep(start@, sizes@) ==> (r matches Err(e) && num2cell_error_is(
            e,
            "RunMat:num2cell:InvalidDim"@,
            "num2cell: character arrays cannot be grouped along higher dimensions"@,
        )),
        !char_block_too_deep(start@, sizes@) && char_block_outside(*array, start@, sizes@) ==> (r matches Err(e)
            && internal_error_is(e, "num2cell: slice exceeds character array bounds"@)),
        !char_block_too_deep(start@, sizes@) && !char_block_outside(*array, start@, sizes@) ==> (r matches Ok(out)
            && char_slice_holds(*array, start@, sizes@, out)),
{
    let mut dim: usize = 2;
    while dim < sizes.len()
        invariant
            2 <= dim,
            sizes@.len() >= 2 ==> dim <= sizes@.len(),
            forall|d: int| 2 <= d < dim && d < sizes@.len() ==> !(#[trigger] sizes@[d] != 1 || get_or(start@, d, 0) != 0),
        decreases sizes@.len() - dim,
    {
        let offset = if dim < start.len() { start[dim] } else { 0 };
        assert(get_or(start@, dim as int, 0) == offset);
        if sizes[dim] != 1 || offset != 0 {
            proof {
                let w = dim as int;
                assert(2 <= w);
                assert(2 <= w < sizes@.len());
                assert(sizes@[w] != 1 || get_or(start@, w, 0) != 0);
                lemma_char_block_too_deep(start@, sizes@, w);
            }
            return Err(
                invalid_dim(String::from_str("num2cell: character arrays cannot be grouped along higher dimensions")),
            );
        }
        proof {
            assert forall|d: int| 2 <= d < dim + 1 && d < sizes@.len() implies !(#[trigger] sizes@[d] != 1 || get_or(start@, d, 0) != 0) by {
                if d == dim {
                    assert(get_or(start@, d, 0) == offset);
                }
            }
        }
        dim = dim + 1;
    }
    proof {
        lemma_char_block_flat(start@, sizes@);
    }
    let total_len = array.data.len();
    let row_start = if start.len() > 0 { start[0] } else { 0 };
    let row_count = if sizes.len() > 0 { sizes[0] } else { 1 };
    let col_start = if start.len() > 1 { start[1] } else { 0 };
    let col_count = if sizes.len() > 1 { sizes[1] } else { 1 };
    if row_start + row_count > array.rows || col_start + col_count > array.cols {
        return Err(internal_error(String::from_str("num2cell: slice exceeds character array bounds")));
    }
    let mut data: Vec<char> = Vec::new();
    let mut r: usize = 0;
    while r < row_count
        invariant
            array.wf(),
            array.data@.len() == total_len,
            row_start + row_count <= array.rows,
            col_start + col_count <= array.cols,
            r <= row_count,
            data@.len() == r * col_count,
            forall|r2: int, c2: int|
                0 <= r2 < r && 0 <= c2 < col_count ==> #[trigger] data@[rm2(r2, c2, col_count as int)]
                    == array.data@[rm2(row_start + r2, col_start + c2, array.cols as int)],
        decreases row_count - r,
    {
        let mut c: usize = 0;
        while c < col_count
            invariant
                array.wf(),
                array.data@.len() == total_len,
                row_start + row_count <= array.rows,
                col_start + col_count <= array.cols,
                r < row_count,
                c <= col_count,
                data@.len() == r * col_count + c,
                forall|r2: int, c2: int|
                    (0 <= r2 < r && 0 <= c2 < col_count) || (r2 == r && 0 <= c2 < c) ==> #[trigger] data@[rm2(
                        r2,
                        c2,
                        col_count as int,
                    )] == array.data@[rm2(row_start + r2, col_start + c2, array.cols as int)],
            decreases col_count - c,
        {
            proof {
                lemma_rm2_bound(row_start + r, col_start + c, array.rows as int, array.cols as int);
            }
            let ch = array.data[(row_start + r) * array.cols + (col_start + c)];
            let ghost before = data@;
            data.push(ch);
            proof {
                assert forall|r2: int, c2: int|
                    (0 <= r2 < r && 0 <= c2 < col_count) || (r2 == r && 0 <= c2 < c + 1) implies #[trigger] data@[rm2(
                        r2,
                        c2,
                        col_count as int,
                    )] == array.data@[rm2(row_start + r2, col_start + c2, array.cols as int)] by {
                    if r2 < r {
                        lemma_rm2_bound(r2, c2, r as int, col_count as int);
                    } else if c2 < c {
                    } else {
                        assert(rm2(r2, c2, col_count as int) == r * col_count + c);
                    }
                }
            }
            c = c + 1;
        }
        proof {
            assert(r * col_count + col_count == (r + 1) * col_count) by (nonlinear_arith);
        }
        r = r + 1;
    }
    let out = CharArray { data, rows: row_count, cols: col_count };
    proof {
        assert(out.wf());
    }
    Ok(out)
}

fn invalid_dim(message: String) -> (e: RuntimeError)
    ensures
        num2cell_error_is(e, "RunMat:num2cell:InvalidDim"@, message@),
{
    let d = num2cell_error_invalid_dim();
    descriptor_error_with_message(&d, message, "num2cell")
}

fn invalid_input(message: String) -> (e: RuntimeError)
    ensures
        num2cell_error_is(e, "RunMat:num2cell:InvalidInput"@, message@),
{
    let d = num2cell_error_invalid_input();
    descriptor_error_with_message(&d, message, "num2cell")
}


/// What `num2cell` splits: the kind of its elements, with the elements
/// themselves where they are not doubles.
pub enum Num2CellKind {
    /// Real doubles: their number (the values stay with the caller).
    Tensor(usize),
    /// Complex doubles: their number (the values stay with the caller).
    Complex(usize),
    Logical(Vec<u8>),
    Strings(Vec<String>),
    Char(CharArray),
}

/// An input of `num2cell` and the shape it is split by.
pub struct Num2CellInput {
    pub kind: Num2CellKind,
    pub base_shape: Vec<usize>,
}

/// Content of one cell.
pub enum CellValue {
    /// The input's real doubles at these positions, in this shape (one
    /// element makes a scalar).
    Numeric(Vec<usize>, Vec<usize>),
    /// The input's complex double at this position.
    ComplexScalar(usize),
    /// The input's complex doubles at these positions, in this shape.
    Complex(Vec<usize>, Vec<usize>),
    Bool(bool),
    Logical(LogicalArray),
    Text(String),
    Texts(StringArray),
    Chars(CharArray),
}

/// Number of elements of an input kind.
pub open spec fn kind_len(kind: Num2CellKind) -> nat {
    match kind {
        Num2CellKind::Tensor(n) => n as nat,
        Num2CellKind::Complex(n) => n as nat,
        Num2CellKind::Logical(d) => d@.len(),
        Num2CellKind::Strings(d) => d@.len(),
        Num2CellKind::Char(ca) => ca.data@.len(),
    }
}

impl Num2CellInput {
    /// The elements fill the shape; a character matrix is split by its
    /// rows and columns.
    pub open spec fn wf(&self) -> bool {
        match self.kind {
            Num2CellKind::Char(ca) => ca.wf() && self.base_shape@ == seq![ca.rows, ca.cols] && prefix_fits(
                self.base_shape@,
            ),
            _ => {
                &&& self.base_shape@.len() >= 2
                &&& kind_len(self.kind) == prod(self.base_shape@)
                &&& prefix_fits(self.base_shape@)
            },
        }
    }
}

/// Array values hold exactly the elements their shapes call for, and every
/// prefix product of those shapes fits in a `usize`.
pub open spec fn value_wf(v: Value) -> bool {
    match v {
        Value::Tensor(shape) => prefix_fits(shape@),
        Value::ComplexTensor(shape) => prefix_fits(shape@),
        Value::LogicalArray(l) => l.data@.len() == prod(l.shape@) && prefix_fits(l.shape@),
        Value::StringArray(sa) => sa.data@.len() == prod(sa.shape@) && prefix_fits(sa.shape@),
        Value::CharArray(ca) => ca.wf(),
        _ => true,
    }
}

/// `v` holds the `total` elements at positions `offset(0..total)` of an
/// input of the given kind, shaped `shape`; one element makes a scalar
/// where the kind has one.
pub open spec fn cell_holds(
    kind: Num2CellKind,
    shape: Seq<usize>,
    total: int,
    offset: spec_fn(int) -> int,
    v: CellValue,
) -> bool {
    match kind {
        Num2CellKind::Tensor(_) => v matches CellValue::Numeric(pos, sh) && sh@ == shape && pos@.len() == total
            && forall|k: int| 0 <= k < total ==> #[trigger] pos@[k] == offset(k),
        Num2CellKind::Complex(_) => if total == 1 {
            v matches CellValue::ComplexScalar(p) && p == offset(0)
        } else {
            v matches CellValue::Complex(pos, sh) && sh@ == shape && pos@.len() == total
                && forall|k: int| 0 <= k < total ==> #[trigger] pos@[k] == offset(k)
        },
        Num2CellKind::Logical(d) => if total == 1 {
            v matches CellValue::Bool(b) && b == (d@[offset(0)] != 0)
        } else {
            v matches CellValue::Logical(l) && l.shape@ == shape && l.data@.len() == total
                && forall|k: int| 0 <= k < total ==> #[trigger] l.data@[k] == d@[offset(k)]
        },
        Num2CellKind::Strings(d) => if total == 1 {
            v matches CellValue::Text(t) && t@ == d@[offset(0)]@
        } else {
            v matches CellValue::Texts(sa) && sa.shape@ == shape && sa.data@.len() == total
                && forall|k: int| 0 <= k < total ==> #[trigger] sa.data@[k]@ == d@[offset(k)]@
        },
        Num2CellKind::Char(_) => false,
    }
}

/// Offsets of the elements of a block, as a function of their index.
pub open spec fn block_offsets(ext: Seq<usize>, start: Seq<usize>, sizes: Seq<usize>) -> spec_fn(int) -> int {
    |k: int| block_offset(k, ext, start, sizes, 0)
}

/// What `extract` returns: for a character matrix, its block of rows and
/// columns; for any other input, the block's elements as `cell_holds`
/// describes them, or an internal error when the block leaves the array.
pub open spec fn extract_outcome(input: Num2CellInput, start: Seq<usize>, sizes: Seq<usize>, r: Result<CellValue, RuntimeError>) -> bool {
    match input.kind {
        Num2CellKind::Char(ca) => {
            &&& char_block_too_deep(start, sizes) ==> (r matches Err(e) && num2cell_error_is(
                e,
                "RunMat:num2cell:InvalidDim"@,
                "num2cell: character arrays cannot be grouped along higher dimensions"@,
            ))
            &&& !char_block_too_deep(start, sizes) && char_block_outside(ca, start, sizes) ==> (r matches Err(e)
                && internal_error_is(e, "num2cell: slice exceeds character array bounds"@))
            &&& !char_block_too_deep(start, sizes) && !char_block_outside(ca, start, sizes) ==> (r matches Ok(
                CellValue::Chars(out),
            ) && char_slice_holds(ca, start, sizes, out))
        },
        _ => {
            let rank = sizes.len() as int;
            let ext = extend_spec(input.base_shape@, rank);
            let fb = first_out_of_bounds(start, sizes, ext, 0);
            let total = prod(sizes) as int;
            if fb < rank {
                r matches Err(e) && internal_error_is(e, slice_exceeds_text((fb + 1) as nat))
            } else if exists|k: int| 0 <= k < total && #[trigger] block_offset(k, ext, start, sizes, 0) >= kind_len(input.kind) {
                r matches Err(e) && internal_error_is(e, "num2cell: internal indexing error"@)
            } else {
                r matches Ok(v) && cell_holds(input.kind, trim_spec(sizes), total, block_offsets(ext, start, sizes), v)
            }
        },
    }
}

/// The block arguments can be handled without overflow.
pub open spec fn block_args_fit(base: Seq<usize>, start: Seq<usize>, sizes: Seq<usize>) -> bool {
    &&& start.len() >= sizes.len()
    &&& forall|d: int| 0 <= d < sizes.len() ==> start[d] + sizes[d] <= usize::MAX
    &&& get_or(start, 0, 0) + get_or(sizes, 0, 1) <= usize::MAX
    &&& get_or(start, 1, 0) + get_or(sizes, 1, 1) <= usize::MAX
    &&& prefix_fits(sizes)
    &&& prod(extend_spec(base, sizes.len() as int).take(sizes.len() as int)) <= usize::MAX
}

proof fn lemma_normalize(shape: Seq<usize>)
    requires
        prefix_fits(shape),
    ensures
        prod(normalize_spec(shape)) == prod(shape),
        prefix_fits(normalize_spec(shape)),
        normalize_spec(shape).len() >= 2,
{
    reveal_with_fuel(prod, 3);
    let n = normalize_spec(shape);
    if shape.len() == 0 {
        assert(n.take(0) =~= seq![]);
        assert(n.take(1) =~= seq![1usize]);
        assert(n.take(2) =~= n);
    } else if shape.len() == 1 {
        assert(shape.take(1) =~= shape);
        assert(prod(shape) == shape[0]);
        assert(n.take(0) =~= seq![]);
        assert(n.take(1) =~= seq![1usize]);
        assert(n.take(2) =~= n);
        assert(prod(n) == shape[0]);
    }
    assert forall|k: int| 0 <= k <= n.len() implies #[trigger] prod(n.take(k)) <= usize::MAX by {
        if shape.len() == 1 {
            assert(shape.take(1) =~= shape);
        }
    }
}

impl Num2CellInput {
    /// Reads an input of `num2cell`: real, complex, logical, string and
    /// character arrays and scalars. Any other value is handed back, for the
    /// caller to report with its description.
    pub fn try_new(value: Value) -> (r: Result<Num2CellInput, Value>)
        requires
            value_wf(value),
        ensures
            input_read(value, r),
    {
        let ones: Vec<usize> = vec![1usize, 1usize];
        assert(ones@ =~= seq![1usize, 1usize]);
        proof {
            reveal_with_fuel(prod, 3);
            assert(ones@.take(0) =~= seq![]);
            assert(ones@.take(1) =~= seq![1usize]);
            assert(ones@.take(2) =~= ones@);
            assert(prefix_fits(ones@));
        }
        match value {
            Value::Tensor(shape) => {
                proof {
                    lemma_normalize(shape@);
                    assert(shape@.take(shape@.len() as int) =~= shape@);
                }
                let n = crate::shape::prefix_product(shape.as_slice(), shape.len());
                Ok(Num2CellInput { kind: Num2CellKind::Tensor(n), base_shape: normalize_shape(shape.as_slice()) })
            },
            Value::ComplexTensor(shape) => {
                proof {
                    lemma_normalize(shape@);
                    assert(shape@.take(shape@.len() as int) =~= shape@);
                }
                let n = crate::shape::prefix_product(shape.as_slice(), shape.len());
                Ok(Num2CellInput { kind: Num2CellKind::Complex(n), base_shape: normalize_shape(shape.as_slice()) })
            },
            Value::LogicalArray(l) => {
                proof {
                    lemma_normalize(l.shape@);
                }
                let base_shape = normalize_shape(l.shape.as_slice());
                Ok(Num2CellInput { kind: Num2CellKind::Logical(l.data), base_shape })
            },
            Value::StringArray(sa) => {
                let base_shape = if sa.shape.len() == 0 {
                    let rows: usize = 1;
                    let v: Vec<usize> = vec![1usize, rows];
                    assert(v@ =~= seq![1usize, 1usize]);
                    v
                } else {
                    proof {
                        lemma_normalize(sa.shape@);
                    }
                    normalize_shape(sa.shape.as_slice())
                };
                Ok(Num2CellInput { kind: Num2CellKind::Strings(sa.data), base_shape })
            },
            Value::String(s) => {
                let data: Vec<String> = vec![s];
                Ok(Num2CellInput { kind: Num2CellKind::Strings(data), base_shape: ones })
            },
            Value::CharArray(ca) => {
                let base_shape: Vec<usize> = vec![ca.rows, ca.cols];
                assert(base_shape@ =~= seq![ca.rows, ca.cols]);
                let n = ca.data.len();
                proof {
                    reveal_with_fuel(prod, 3);
                    assert(base_shape@.take(0) =~= seq![]);
                    assert(base_shape@.take(1) =~= seq![ca.rows]);
                    assert(base_shape@.take(2) =~= base_shape@);
                    assert(ca.rows * ca.cols == n);
                    assert forall|k: int| 0 <= k <= base_shape@.len() implies #[trigger] prod(base_shape@.take(k)) <= usize::MAX by {
                        if k == 0 {
                            assert(prod(base_shape@.take(0)) == 1);
                        } else if k == 1 {
                            assert(prod(base_shape@.take(1)) == ca.rows);
                        } else {
                            assert(prod(base_shape@.take(2)) == ca.rows * ca.cols);
                        }
                    }
                    assert(prefix_fits(base_shape@));
                }
                Ok(Num2CellInput { kind: Num2CellKind::Char(ca), base_shape })
            },
            Value::Complex => Ok(Num2CellInput { kind: Num2CellKind::Complex(1), base_shape: ones }),
            Value::Num => Ok(Num2CellInput { kind: Num2CellKind::Tensor(1), base_shape: ones }),
            Value::Int => Ok(Num2CellInput { kind: Num2CellKind::Tensor(1), base_shape: ones }),
            Value::Bool(b) => {
                let data: Vec<u8> = vec![if b { 1u8 } else { 0u8 }];
                assert(data@ =~= seq![if b { 1u8 } else { 0u8 }]);
                Ok(Num2CellInput { kind: Num2CellKind::Logical(data), base_shape: ones })
            },
            other => Err(other),
        }
    }
}


impl Num2CellInput {
    /// The cell for the block that starts at `start` and spans `sizes`.
    pub fn extract(&self, start: &[usize], sizes: &[usize]) -> (r: Result<CellValue, RuntimeError>)
        requires
            self.wf(),
            block_args_fit(self.base_shape@, start@, sizes@),
        ensures
            extract_outcome(*self, start@, sizes@, r),
    {
        let ghost ext = extend_spec(self.base_shape@, sizes@.len() as int);
        match &self.kind {
            Num2CellKind::Tensor(n) => {
                let positions = match block_positions(*n, self.base_shape.as_slice(), start, sizes) {
                    Ok(p) => p,
                    Err(e) => return Err(e),
                };
                let shape = trim_shape(to_vec(sizes));
                Ok(CellValue::Numeric(positions, shape))
            },
            Num2CellKind::Complex(n) => {
                let positions = match block_positions(*n, self.base_shape.as_slice(), start, sizes) {
                    Ok(p) => p,
                    Err(e) => return Err(e),
                };
                if positions.len() == 1 {
                    Ok(CellValue::ComplexScalar(positions[0]))
                } else {
                    let shape = trim_shape(to_vec(sizes));
                    Ok(CellValue::Complex(positions, shape))
                }
            },
            Num2CellKind::Logical(data) => {
                let d = match copy_block(data.as_slice(), self.base_shape.as_slice(), start, sizes) {
                    Ok(d) => d,
                    Err(e) => return Err(e),
                };
                if d.len() == 1 {
                    Ok(CellValue::Bool(d[0] != 0))
                } else {
                    let shape = trim_shape(to_vec(sizes));
                    Ok(CellValue::Logical(LogicalArray { data: d, shape }))
                }
            },
            Num2CellKind::Strings(data) => {
                let positions = match block_positions(data.len(), self.base_shape.as_slice(), start, sizes) {
                    Ok(p) => p,
                    Err(e) => return Err(e),
                };
                if positions.len() == 1 {
                    Ok(CellValue::Text(data[positions[0]].clone()))
                } else {
                    let mut texts: Vec<String> = Vec::new();
                    let mut k: usize = 0;
                    while k < positions.len()
                        invariant
                            k <= positions@.len(),
                            forall|j: int| 0 <= j < positions@.len() ==> positions@[j] < data@.len(),
                            texts@.len() == k,
                            forall|j: int| 0 <= j < k ==> #[trigger] texts@[j]@ == data@[positions@[j] as int]@,
                        decreases positions@.len() - k,
                    {
                        texts.push(data[positions[k]].clone());
                        k = k + 1;
                    }
                    let shape = trim_shape(to_vec(sizes));
                    Ok(CellValue::Texts(StringArray { data: texts, shape }))
                }
            },
            Num2CellKind::Char(ca) => {
                match slice_char_array(ca, start, sizes) {
                    Ok(c) => Ok(CellValue::Chars(c)),
                    Err(e) => Err(e),
                }
            },
        }
    }
}


/// Largest entry (0 for none).
pub open spec fn seq_max(s: Seq<usize>) -> nat
    decreases s.len(),
{
    if s.len() == 0 {
        0
    } else {
        let m = seq_max(s.drop_last());
        if s.last() as nat > m {
            s.last() as nat
        } else {
            m
        }
    }
}

proof fn lemma_seq_max(s: Seq<usize>)
    ensures
        forall|i: int| 0 <= i < s.len() ==> s[i] <= seq_max(s),
    decreases s.len(),
{
    if s.len() > 0 {
        lemma_seq_max(s.drop_last());
        assert forall|i: int| 0 <= i < s.len() implies s[i] <= seq_max(s) by {
            if i < s.len() - 1 {
                assert(s[i] == s.drop_last()[i]);
            }
        }
    }
}

/// Rank `num2cell` works in: at least two, the input's, and the largest
/// grouped dimension.
pub open spec fn n2c_rank(base: Seq<usize>, dims: Seq<usize>) -> int {
    let a = if base.len() >= seq_max(dims) { base.len() as int } else { seq_max(dims) as int };
    if a < 2 {
        2
    } else {
        a
    }
}

/// Dimension `d` (0-based) is grouped.
pub open spec fn is_grouped(dims: Seq<usize>, d: int) -> bool {
    exists|i: int| 0 <= i < dims.len() && #[trigger] dims[i] == d + 1
}

/// The input's extents in the working rank.
pub open spec fn n2c_ext(base: Seq<usize>, dims: Seq<usize>) -> Seq<usize> {
    pad_to(base, n2c_rank(base, dims))
}

/// Shape of the cell array: the input's, with grouped dimensions collapsed.
pub open spec fn outer_shape(base: Seq<usize>, dims: Seq<usize>) -> Seq<usize> {
    Seq::new(
        n2c_rank(base, dims) as nat,
        |d: int| if is_grouped(dims, d) { 1usize } else { n2c_ext(base, dims)[d] },
    )
}

/// Extents of every cell's block: the grouped dimensions whole, one element
/// along the others.
pub open spec fn content_sizes(base: Seq<usize>, dims: Seq<usize>) -> Seq<usize> {
    Seq::new(
        n2c_rank(base, dims) as nat,
        |d: int| if is_grouped(dims, d) { n2c_ext(base, dims)[d] } else { 1usize },
    )
}

/// Coordinate along dimension `d` of cell `c`, cells counted with the last
/// dimension fastest.
pub open spec fn rm_coord(c: int, outer: Seq<usize>, d: int) -> int {
    (c / (prod(outer.skip(d + 1)) as int)) % (outer[d] as int)
}

/// Where the block of cell `c` starts.
pub open spec fn cell_start(c: int, base: Seq<usize>, dims: Seq<usize>) -> Seq<usize> {
    Seq::new(
        n2c_rank(base, dims) as nat,
        |d: int| if is_grouped(dims, d) { 0usize } else { rm_coord(c, outer_shape(base, dims), d) as usize },
    )
}

/// The cell array: cells in storage order (last dimension fastest) and its
/// shape.
pub struct CellArrayOut {
    pub cells: Vec<CellValue>,
    pub shape: Vec<usize>,
}

proof fn lemma_block_offset_bound(k: int, ext: Seq<usize>, start: Seq<usize>, sizes: Seq<usize>, d: int)
    requires
        0 <= d <= sizes.len() <= ext.len(),
        k >= 0,
        forall|j: int| d <= j < sizes.len() ==> sizes[j] >= 1 && start[j] + sizes[j] <= ext[j],
    ensures
        block_offset(k, ext, start, sizes, d) + prod(ext.take(d)) <= prod(ext.take(sizes.len() as int)),
    decreases sizes.len() - d,
{
    if d < sizes.len() {
        let s = sizes[d] as int;
        lemma_block_offset_bound(k / s, ext, start, sizes, d + 1);
        lemma_prod_take_step(ext, d);
        let p = prod(ext.take(d)) as int;
        let e = ext[d] as int;
        let x = start[d] + k % s;
        assert(0 <= k % s < s) by (nonlinear_arith)
            requires
                s >= 1,
                k >= 0,
        ;
        assert(k / s >= 0) by (nonlinear_arith)
            requires
                s >= 1,
                k >= 0,
        ;
        assert(x * p + p <= p * e) by (nonlinear_arith)
            requires
                0 <= x <= e - 1,
                p >= 0,
        ;
    } else {
        assert(sizes.len() == d);
    }
}

proof fn lemma_prod_le(a: Seq<usize>, b: Seq<usize>)
    requires
        a.len() == b.len(),
        forall|i: int| 0 <= i < a.len() ==> a[i] <= b[i],
    ensures
        prod(a) <= prod(b),
    decreases a.len(),
{
    if a.len() > 0 {
        lemma_prod_le(a.drop_last(), b.drop_last());
        let pa = prod(a.drop_last());
        let pb = prod(b.drop_last());
        let x = a.last() as nat;
        let y = b.last() as nat;
        assert(pa * x <= pb * y) by (nonlinear_arith)
            requires
                pa <= pb,
                x <= y,
        ;
    }
}

proof fn lemma_prefix_fits_pad(base: Seq<usize>, n: int)
    requires
        prefix_fits(base),
    ensures
        prefix_fits(pad_to(base, n)),
{
    let p = pad_to(base, n);
    lemma_prod_pad(base, n);
    assert forall|k: int| 0 <= k <= p.len() implies #[trigger] prod(p.take(k)) <= usize::MAX by {
        if k <= base.len() {
            assert(p.take(k) =~= base.take(k));
        } else {
            assert(p.take(k) =~= base + crate::shape::ones((k - base.len()) as nat));
            lemma_prod_append(base, crate::shape::ones((k - base.len()) as nat));
            crate::shape::lemma_prod_ones((k - base.len()) as nat);
            assert(base.take(base.len() as int) =~= base);
        }
    }
}

proof fn lemma_prod_skip(s: Seq<usize>, d: int)
    requires
        0 <= d < s.len(),
    ensures
        prod(s.skip(d)) == (s[d] as nat) * prod(s.skip(d + 1)),
{
    let one = seq![s[d]];
    let rest = s.skip(d + 1);
    assert(s.skip(d) =~= one + rest);
    lemma_prod_append(one, rest);
    assert(one.drop_last() =~= Seq::<usize>::empty());
    assert(one.last() == s[d]);
    assert(prod(one.drop_last()) == 1);
    assert(prod(one) == prod(one.drop_last()) * (one.last() as nat));
    let p0 = prod(one.drop_last());
    let x = one.last() as nat;
    assert(p0 * x == x) by (nonlinear_arith)
        requires
            p0 == 1,
    ;
    assert(prod(one) == (s[d] as nat));
    assert(prod(s.skip(d)) == prod(one + rest));
}

proof fn lemma_prod_positive_all(s: Seq<usize>)
    requires
        forall|i: int| 0 <= i < s.len() ==> s[i] >= 1,
    ensures
        prod(s) >= 1,
    decreases s.len(),
{
    if s.len() > 0 {
        lemma_prod_positive_all(s.drop_last());
        let p = prod(s.drop_last());
        let x = s.last() as nat;
        assert(p * x >= 1) by (nonlinear_arith)
            requires
                p >= 1,
                x >= 1,
        ;
    }
}

/// What `convert_to_cells` returns: an internal error when the number of
/// cells overflows; otherwise the cells, last dimension fastest, each the
/// block of its position, in the shape of the input with the grouped
/// dimensions collapsed.
pub open spec fn convert_outcome(input: Num2CellInput, dims: Seq<usize>, r: Result<CellArrayOut, RuntimeError>) -> bool {
    let outer = outer_shape(input.base_shape@, dims);
    &&& !prefix_fits(outer) ==> (r matches Err(e) && internal_error_is(
        e,
        "num2cell: resulting cell array is too large to represent on this platform"@,
    ))
    &&& prefix_fits(outer) ==> (r matches Ok(out) && out.shape@ == trim_spec(outer) && out.cells@.len() == prod(outer)
        && forall|c: int|
        0 <= c < out.cells@.len() ==> extract_outcome(
            input,
            cell_start(c, input.base_shape@, dims),
            content_sizes(input.base_shape@, dims),
            Ok(#[trigger] out.cells@[c]),
        ))
}

/// Splits the input into cells: one per element, or one per slice along
/// the grouped dimensions (`dims`, 1-based).
pub fn convert_to_cells(input: &Num2CellInput, dims: &[usize]) -> (r: Result<CellArrayOut, RuntimeError>)
    requires
        input.wf(),
        forall|i: int| 0 <= i < dims@.len() ==> dims@[i] >= 1,
    ensures
        convert_outcome(*input, dims@, r),
{
    let ghost base = input.base_shape@;
    let ghost rank_s = n2c_rank(base, dims@);
    let ghost ext_s = n2c_ext(base, dims@);
    let ghost outer_s = outer_shape(base, dims@);
    let ghost content_s = content_sizes(base, dims@);
    // Working rank.
    let mut dmax: usize = 0;
    let mut i: usize = 0;
    while i < dims.len()
        invariant
            i <= dims@.len(),
            dmax == seq_max(dims@.take(i as int)),
        decreases dims@.len() - i,
    {
        assert(dims@.take(i + 1).drop_last() =~= dims@.take(i as int));
        if dims[i] > dmax {
            dmax = dims[i];
        }
        i = i + 1;
    }
    assert(dims@.take(dims@.len() as int) =~= dims@);
    proof {
        lemma_seq_max(dims@);
    }
    let mut rank = input.base_shape.len();
    if dmax > rank {
        rank = dmax;
    }
    if rank < 2 {
        rank = 2;
    }
    assert(rank == rank_s);
    let ext = extend_shape(input.base_shape.as_slice(), rank);
    proof {
        assert(base.len() >= 1);
        assert(ext@ == ext_s);
        lemma_prod_pad(base, rank as int);
    }
    // Grouped dimensions.
    let mut grouped: Vec<bool> = Vec::new();
    let mut g: usize = 0;
    while g < rank
        invariant
            g <= rank,
            grouped@.len() == g,
            forall|d: int| 0 <= d < g ==> !(#[trigger] grouped@[d]),
        decreases rank - g,
    {
        grouped.push(false);
        g = g + 1;
    }
    let mut j: usize = 0;
    while j < dims.len()
        invariant
            j <= dims@.len(),
            rank == rank_s,
            grouped@.len() == rank,
            forall|i2: int| 0 <= i2 < dims@.len() ==> dims@[i2] >= 1,
            forall|i2: int| 0 <= i2 < dims@.len() ==> dims@[i2] <= seq_max(dims@),
            seq_max(dims@) <= rank,
            forall|d: int| 0 <= d < rank ==> (#[trigger] grouped@[d] <==> exists|i2: int| 0 <= i2 < j && dims@[i2] == d + 1),
        decreases dims@.len() - j,
    {
        let target = dims[j] - 1;
        grouped.set(target, true);
        proof {
            assert forall|d: int| 0 <= d < rank implies (#[trigger] grouped@[d] <==> exists|i2: int| 0 <= i2 < j + 1 && dims@[i2] == d + 1) by {
                if d == target {
                    assert(dims@[j as int] == d + 1);
                } else if grouped@[d] {
                    let i2 = choose|i2: int| 0 <= i2 < j && dims@[i2] == d + 1;
                    assert(0 <= i2 < j + 1 && dims@[i2] == d + 1);
                }
            }
        }
        j = j + 1;
    }
    proof {
        assert forall|d: int| 0 <= d < rank implies (#[trigger] grouped@[d] == is_grouped(dims@, d)) by {
            if is_grouped(dims@, d) {
                let i2 = choose|i2: int| 0 <= i2 < dims@.len() && #[trigger] dims@[i2] == d + 1;
                assert(0 <= i2 < j && dims@[i2] == d + 1);
            }
        }
    }
    // Cell array shape and block extents.
    let mut outer: Vec<usize> = Vec::new();
    let mut content: Vec<usize> = Vec::new();
    let mut d: usize = 0;
    while d < rank
        invariant
            d <= rank,
            base == input.base_shape@,
            rank_s == n2c_rank(base, dims@),
            ext_s == n2c_ext(base, dims@),
            outer_s == outer_shape(base, dims@),
            content_s == content_sizes(base, dims@),
            rank == rank_s,
            ext@ == ext_s,
            ext@.len() == rank,
            grouped@.len() == rank,
            forall|d2: int| 0 <= d2 < rank ==> (#[trigger] grouped@[d2] == is_grouped(dims@, d2)),
            outer@ == outer_s.take(d as int),
            content@ == content_s.take(d as int),
        decreases rank - d,
    {
        let gd = grouped[d];
        assert(gd == is_grouped(dims@, d as int));
        assert(outer_s[d as int] == if gd { 1usize } else { ext_s[d as int] });
        assert(content_s[d as int] == if gd { ext_s[d as int] } else { 1usize });
        if gd {
            outer.push(1);
            content.push(ext[d]);
        } else {
            outer.push(ext[d]);
            content.push(1);
        }
        d = d + 1;
        assert(outer@ =~= outer_s.take(d as int));
        assert(content@ =~= content_s.take(d as int));
    }
    assert(outer@ =~= outer_s);
    assert(content@ =~= content_s);
    // Number of cells, refusing one that overflows.
    let mut total_cells: usize = 1;
    let mut k: usize = 0;
    while k < rank
        invariant
            k <= rank,
            base == input.base_shape@,
            rank_s == n2c_rank(base, dims@),
            ext_s == n2c_ext(base, dims@),
            outer_s == outer_shape(base, dims@),
            content_s == content_sizes(base, dims@),
            outer@.len() == rank,
            outer@ == outer_s,
            total_cells == prod(outer@.take(k as int)),
            forall|k2: int| 0 <= k2 <= k ==> #[trigger] prod(outer@.take(k2)) <= usize::MAX,
        decreases rank - k,
    {
        proof {
            lemma_prod_take_step(outer@, k as int);
        }
        match total_cells.checked_mul(outer[k]) {
            Some(v) => {
                total_cells = v;
            },
            None => {
                proof {
                    assert(prod(outer@.take(k + 1)) > usize::MAX);
                    assert(!prefix_fits(outer@));
                }
                return Err(
                    internal_error(
                        String::from_str("num2cell: resulting cell array is too large to represent on this platform"),
                    ),
                );
            },
        }
        k = k + 1;
    }
    assert(outer@.take(rank as int) =~= outer@);
    assert(prefix_fits(outer@));
    let cell_shape = trim_shape(to_vec(outer.as_slice()));
    let mut cells: Vec<CellValue> = Vec::new();
    if total_cells == 0 {
        return Ok(CellArrayOut { cells, shape: cell_shape });
    }
    proof {
        lemma_prod_positive(outer@);
        lemma_prefix_fits_pad(base, rank as int);
        assert forall|i2: int| 0 <= i2 < rank implies content@[i2] <= ext@[i2] || ext@[i2] == 0 by {}
        assert forall|i2: int| 0 <= i2 < rank implies #[trigger] content@[i2] <= if ext@[i2] == 0 { 1usize } else { ext@[i2] } by {}
    }
    let mut c: usize = 0;
    while c < total_cells
        invariant
            c <= total_cells == prod(outer@),
            input.wf(),
            base == input.base_shape@,
            rank_s == n2c_rank(base, dims@),
            ext_s == n2c_ext(base, dims@),
            outer_s == outer_shape(base, dims@),
            content_s == content_sizes(base, dims@),

            rank == rank_s,
            rank >= 2,
            base.len() <= rank,
            ext@ == ext_s,
            ext@ == extend_spec(base, rank as int),
            ext@.len() == rank,
            prod(ext@) == prod(base),
            prefix_fits(ext@),
            grouped@.len() == rank,
            forall|d2: int| 0 <= d2 < rank ==> (#[trigger] grouped@[d2] == is_grouped(dims@, d2)),
            outer@ == outer_s,
            content@ == content_s,
            outer@.len() == rank,
            content@.len() == rank,
            forall|d2: int| 0 <= d2 < rank ==> #[trigger] outer@[d2] > 0,
            cells@.len() == c,
            forall|c2: int| 0 <= c2 < c ==> extract_outcome(
                *input,
                cell_start(c2, base, dims@),
                content_s,
                Ok(#[trigger] cells@[c2]),
            ),
        decreases total_cells - c,
    {
        // Row-major coordinates of cell `c`.
        let mut start: Vec<usize> = Vec::new();
        let mut z: usize = 0;
        while z < rank
            invariant
                z <= rank,
                start@.len() == z,
                forall|d2: int| 0 <= d2 < z ==> start@[d2] == 0,
            decreases rank - z,
        {
            start.push(0);
            z = z + 1;
        }
        let mut rem: usize = c;
        let mut dd: usize = rank;
        proof {
            assert(outer@.skip(rank as int) =~= Seq::<usize>::empty());
            vstd::arithmetic::div_mod::lemma_div_basics(c as int);
        }
        while dd > 0
            invariant
                dd <= rank,
                base == input.base_shape@,
                rank_s == n2c_rank(base, dims@),
                ext_s == n2c_ext(base, dims@),
                outer_s == outer_shape(base, dims@),
                content_s == content_sizes(base, dims@),
                rank == rank_s,
                start@.len() == rank,
                outer@ == outer_s,
                outer@.len() == rank,
                grouped@.len() == rank,
                forall|d2: int| 0 <= d2 < rank ==> (#[trigger] grouped@[d2] == is_grouped(dims@, d2)),
                forall|d2: int| 0 <= d2 < rank ==> #[trigger] outer@[d2] > 0,
                rem as int == (c as int) / (prod(outer@.skip(dd as int)) as int),
                forall|d2: int| 0 <= d2 < dd ==> start@[d2] == 0,
                forall|d2: int| dd <= d2 < rank ==> start@[d2] == cell_start(c as int, base, dims@)[d2],
            decreases dd,
        {
            let dcur = dd - 1;
            let coord = rem % outer[dcur];
            proof {
                lemma_prod_skip(outer@, dcur as int);
                let p = prod(outer@.skip(dd as int)) as int;
                assert(p >= 1) by {
                    lemma_prod_positive_all(outer@.skip(dd as int));
                }
                vstd::arithmetic::div_mod::lemma_div_denominator(c as int, p, outer@[dcur as int] as int);
                assert(p * (outer@[dcur as int] as int) == (outer@[dcur as int] as int) * p) by (nonlinear_arith);
            }
            proof {
                assert(0 <= coord < outer@[dcur as int]);
                assert(coord as int == rm_coord(c as int, outer_s, dcur as int));
            }
            if !grouped[dcur] {
                start.set(dcur, coord);
            }
            rem = rem / outer[dcur];
            dd = dcur;
        }
        assert(start@ =~= cell_start(c as int, base, dims@));
        proof {
            let st = start@;
            assert forall|d2: int| 0 <= d2 < rank implies st[d2] + content_s[d2] <= ext@[d2] && content_s[d2]
                <= ext@[d2] by {
                if !is_grouped(dims@, d2) {
                    assert(outer_s[d2] == ext_s[d2]);
                    assert(0 <= rm_coord(c as int, outer_s, d2) < outer_s[d2]) by (nonlinear_arith)
                        requires
                            outer_s[d2] > 0,
                            rm_coord(c as int, outer_s, d2) == (c as int / (prod(outer_s.skip(d2 + 1)) as int)) % (
                            outer_s[d2] as int),
                    ;
                }
            }
            assert forall|kk: int| 0 <= kk <= content_s.len() implies #[trigger] prod(content_s.take(kk))
                <= usize::MAX by {
                lemma_prod_le(content_s.take(kk), ext@.take(kk));
            }
            assert(ext@.take(rank as int) =~= ext@);
            lemma_first_out_of_bounds(st, content_s, ext@, rank as int);
            assert forall|kk: int| 0 <= kk < prod(content_s) implies #[trigger] block_offset(
                kk,
                ext@,
                st,
                content_s,
                0,
            ) < prod(ext@) by {
                lemma_prod_positive(content_s);
                lemma_block_offset_bound(kk, ext@, st, content_s, 0);
            }
            if input.kind is Char {
                {
                    assert forall|d2: int| 2 <= d2 < content_s.len() implies !(#[trigger] content_s[d2] != 1
                        || get_or(st, d2, 0) != 0) by {
                        assert(ext_s[d2] == 1);
                        if !is_grouped(dims@, d2) {
                            assert(outer_s[d2] == 1);
                            assert(0 <= rm_coord(c as int, outer_s, d2) < 1) by (nonlinear_arith)
                                requires
                                    outer_s[d2] == 1,
                                    rm_coord(c as int, outer_s, d2) == (c as int / (prod(outer_s.skip(d2 + 1)) as int))
                                        % (outer_s[d2] as int),
                            ;
                        }
                    }
                    lemma_char_block_flat(st, content_s);
                }
            }
        }
        let v = match input.extract(start.as_slice(), content.as_slice()) {
            Ok(v) => v,
            Err(e) => return Err(e),
        };
        cells.push(v);
        c = c + 1;
    }
    Ok(CellArrayOut { cells, shape: cell_shape })
}


/// One entry of a dimension argument, as read from its double.
pub enum DimEntry {
    /// NaN or infinite.
    NonFinite,
    /// Within machine epsilon of the non-negative whole number it holds.
    Whole(usize),
    /// Any other finite value.
    Invalid,
}

/// The entry names a dimension: a whole number of at least one.
pub open spec fn entry_ok(e: DimEntry) -> bool {
    e matches DimEntry::Whole(n) && n >= 1
}

/// A dimension argument: the value and its numeric entries, in order.
pub struct DimArgument {
    pub value: Value,
    pub entries: Vec<DimEntry>,
}

/// The value is a numeric scalar or a numeric vector.
pub open spec fn numeric_vector(v: Value) -> bool {
    match v {
        Value::Num | Value::Int => true,
        Value::Tensor(shape) => count_non_singleton(shape@, shape@.len() as int) <= 1,
        _ => false,
    }
}

/// Index of the first entry that names no dimension, from `i` on; the
/// number of entries when there is none.
pub open spec fn first_non_whole(entries: Seq<DimEntry>, i: int) -> int
    decreases entries.len() - i,
{
    if i < 0 || i >= entries.len() {
        entries.len() as int
    } else if entry_ok(entries[i]) {
        first_non_whole(entries, i + 1)
    } else {
        i
    }
}

/// The entries strictly increase.
pub open spec fn strictly_increasing(s: Seq<usize>) -> bool {
    forall|i: int, j: int| 0 <= i < j < s.len() ==> s[i] < s[j]
}

/// What `parse_group_dims` returns: the distinct dimensions named, in
/// increasing order, or the error for the first entry that names none, or
/// for an argument that is not a numeric vector.
pub open spec fn group_dims_outcome(value: Value, entries: Seq<DimEntry>, r: Result<Vec<usize>, RuntimeError>) -> bool {
    if !numeric_vector(value) {
        r matches Err(e) && num2cell_error_is(e, "RunMat:num2cell:InvalidDim"@, "num2cell: dimension argument must be a numeric vector"@)
    } else if first_non_whole(entries, 0) < entries.len() {
        if entries[first_non_whole(entries, 0)] is NonFinite {
            r matches Err(e) && num2cell_error_is(e, "RunMat:num2cell:InvalidDim"@, "num2cell: dimension entries must be finite"@)
        } else {
            r matches Err(e) && num2cell_error_is(
                e,
                "RunMat:num2cell:InvalidDim"@,
                "num2cell: dimension argument must be positive integers"@,
            )
        }
    } else {
        r matches Ok(v) && strictly_increasing(v@) && (forall|x: usize|
            v@.contains(x) <==> exists|i: int| 0 <= i < entries.len() && #[trigger] entries[i] == DimEntry::Whole(x))
            && forall|i: int| 0 <= i < v@.len() ==> #[trigger] v@[i] >= 1
    }
}

proof fn lemma_first_non_whole(entries: Seq<DimEntry>, i: int)
    requires
        0 <= i <= entries.len(),
        forall|j: int| 0 <= j < i ==> entry_ok(#[trigger] entries[j]),
    ensures
        first_non_whole(entries, 0) == first_non_whole(entries, i),
    decreases i,
{
    if i > 0 {
        lemma_first_non_whole(entries, i - 1);
    }
}

/// Adds `x` to a strictly increasing list, keeping it strictly increasing.
fn insert_sorted(v: &mut Vec<usize>, x: usize)
    requires
        strictly_increasing(old(v)@),
    ensures
        strictly_increasing(final(v)@),
        forall|y: usize| final(v)@.contains(y) <==> (old(v)@.contains(y) || y == x),
{
    let mut i: usize = 0;
    while i < v.len() && v[i] < x
        invariant
            i <= v@.len(),
            v@ == old(v)@,
            forall|j: int| 0 <= j < i ==> v@[j] < x,
        decreases v@.len() - i,
    {
        i = i + 1;
    }
    if i < v.len() && v[i] == x {
        proof {
            assert(v@[i as int] == x);
            assert(v@.contains(x));
        }
        return;
    }
    let ghost before = v@;
    assert(before == old(v)@);
    v.insert(i, x);
    proof {
        assert forall|a: int, b: int| 0 <= a < b < v@.len() implies v@[a] < v@[b] by {
            if b < i {
            } else if a < i && b == i {
            } else if a < i {
                assert(before[a] < before[b - 1]);
            } else if a == i {
                assert(x <= before[b - 1]);
                if b - 1 > i {
                    assert(before[i as int] < before[b - 1]);
                }
            } else {
                assert(before[a - 1] < before[b - 1]);
            }
        }
        assert forall|y: usize| v@.contains(y) <==> (before.contains(y) || y == x) by {
            if v@.contains(y) {
                let k = choose|k: int| 0 <= k < v@.len() && v@[k] == y;
                if k < i {
                    assert(before[k] == y);
                } else if k > i {
                    assert(before[k - 1] == y);
                }
            }
            if before.contains(y) {
                let k = choose|k: int| 0 <= k < before.len() && before[k] == y;
                if k < i {
                    assert(v@[k] == y);
                } else {
                    assert(v@[k + 1] == y);
                }
            }
            if y == x {
                assert(v@[i as int] == x);
            }
        }
        assert(forall|y: usize| v@.contains(y) <==> (old(v)@.contains(y) || y == x));
    }
}

/// Reads the dimension argument: the distinct dimensions it names, in
/// increasing order.
pub fn parse_group_dims(value: &Value, entries: &[DimEntry]) -> (r: Result<Vec<usize>, RuntimeError>)
    ensures
        group_dims_outcome(*value, entries@, r),
{
    let vector = match value {
        Value::Num => true,
        Value::Int => true,
        Value::Tensor(shape) => is_vector_shape(shape.as_slice()),
        _ => false,
    };
    if !vector {
        return Err(invalid_dim(String::from_str("num2cell: dimension argument must be a numeric vector")));
    }
    let mut dims: Vec<usize> = Vec::new();
    let mut i: usize = 0;
    while i < entries.len()
        invariant
            i <= entries@.len(),
            numeric_vector(*value),
            forall|j: int| 0 <= j < i ==> entry_ok(#[trigger] entries@[j]),
            strictly_increasing(dims@),
            forall|k: int| 0 <= k < dims@.len() ==> #[trigger] dims@[k] >= 1,
            forall|x: usize| dims@.contains(x) <==> exists|j: int| 0 <= j < i && #[trigger] entries@[j] == DimEntry::Whole(x),
        decreases entries@.len() - i,
    {
        match entries[i] {
            DimEntry::NonFinite => {
                proof {
                    lemma_first_non_whole(entries@, i as int);
                }
                return Err(invalid_dim(String::from_str("num2cell: dimension entries must be finite")));
            },
            DimEntry::Invalid => {
                proof {
                    lemma_first_non_whole(entries@, i as int);
                }
                return Err(invalid_dim(String::from_str("num2cell: dimension argument must be positive integers")));
            },
            DimEntry::Whole(n) => {
                if n == 0 {
                    proof {
                        lemma_first_non_whole(entries@, i as int);
                    }
                    return Err(invalid_dim(String::from_str("num2cell: dimension argument must be positive integers")));
                }
                let ghost before = dims@;
                insert_sorted(&mut dims, n);
                proof {
                    assert forall|k: int| 0 <= k < dims@.len() implies #[trigger] dims@[k] >= 1 by {
                        assert(dims@.contains(dims@[k]));
                        if dims@[k] != n {
                            assert(before.contains(dims@[k]));
                        }
                    }
                    assert forall|x: usize| dims@.contains(x) <==> exists|j: int| 0 <= j < i + 1 && #[trigger] entries@[j] == DimEntry::Whole(x) by {
                        if x == n {
                            assert(entries@[i as int] == DimEntry::Whole(x));
                        }
                        if exists|j: int| 0 <= j < i + 1 && #[trigger] entries@[j] == DimEntry::Whole(x) {
                            let j = choose|j: int| 0 <= j < i + 1 && #[trigger] entries@[j] == DimEntry::Whole(x);
                            if j < i {
                                assert(before.contains(x));
                            }
                        }
                    }
                }
            },
        }
        i = i + 1;
    }
    proof {
        lemma_first_non_whole(entries@, entries@.len() as int);
    }
    Ok(dims)
}

/// Error for an input `num2cell` cannot split, given the description of
/// the input.
pub fn unsupported_input(description: &str) -> (e: RuntimeError)
    ensures
        num2cell_error_is(
            e,
            "RunMat:num2cell:InvalidInput"@,
            "num2cell: unsupported input type "@ + description@ + "; expected numeric, logical, string, or char arrays"@,
        ),
{
    let mut cs = str_chars("num2cell: unsupported input type ");
    let d = str_chars(description);
    let tail = str_chars("; expected numeric, logical, string, or char arrays");
    let ghost head = cs@;
    let mut i: usize = 0;
    while i < d.len()
        invariant
            i <= d@.len(),
            cs@ == head + d@.take(i as int),
        decreases d@.len() - i,
    {
        cs.push(d[i]);
        i = i + 1;
        assert(cs@ =~= head + d@.take(i as int));
    }
    let ghost mid = cs@;
    let mut j: usize = 0;
    while j < tail.len()
        invariant
            j <= tail@.len(),
            cs@ == mid + tail@.take(j as int),
        decreases tail@.len() - j,
    {
        cs.push(tail[j]);
        j = j + 1;
        assert(cs@ =~= mid + tail@.take(j as int));
    }
    assert(d@.take(d@.len() as int) =~= d@);
    assert(tail@.take(tail@.len() as int) =~= tail@);
    invalid_input(chars_to_string(cs.as_slice()))
}

/// Why `num2cell` returned no cell array.
pub enum Num2CellError {
    /// An error of `num2cell`.
    Failed(RuntimeError),
    /// The input is of a type `num2cell` does not split; the caller reports
    /// it with `unsupported_input` and the input's description.
    UnsupportedType(Value),
}

/// What `try_new` returns for a value.
pub open spec fn input_read(value: Value, r: Result<Num2CellInput, Value>) -> bool {
    &&& r matches Ok(input) ==> input.wf()
    &&& match value {
        Value::Tensor(shape) => r matches Ok(i) && i.kind == Num2CellKind::Tensor(prod(shape@) as usize)
            && i.base_shape@ == normalize_spec(shape@),
        Value::ComplexTensor(shape) => r matches Ok(i) && i.kind == Num2CellKind::Complex(prod(shape@) as usize)
            && i.base_shape@ == normalize_spec(shape@),
        Value::LogicalArray(l) => r matches Ok(i) && i.kind == Num2CellKind::Logical(l.data)
            && i.base_shape@ == normalize_spec(l.shape@),
        Value::StringArray(sa) => r matches Ok(i) && i.kind == Num2CellKind::Strings(sa.data)
            && i.base_shape@ == (if sa.shape@.len() == 0 { seq![1usize, 1usize] } else { normalize_spec(sa.shape@) }),
        Value::String(s) => r matches Ok(i) && i.kind matches Num2CellKind::Strings(d) && d@.len() == 1
            && d@[0]@ == s@ && i.base_shape@ == seq![1usize, 1usize],
        Value::CharArray(ca) => r matches Ok(i) && i.kind == Num2CellKind::Char(ca)
            && i.base_shape@ == seq![ca.rows, ca.cols],
        Value::Complex => r matches Ok(i) && i.kind == Num2CellKind::Complex(1)
            && i.base_shape@ == seq![1usize, 1usize],
        Value::Num | Value::Int => r matches Ok(i) && i.kind == Num2CellKind::Tensor(1)
            && i.base_shape@ == seq![1usize, 1usize],
        Value::Bool(b) => r matches Ok(i) && i.kind matches Num2CellKind::Logical(d)
            && d@ == seq![if b { 1u8 } else { 0u8 }] && i.base_shape@ == seq![1usize, 1usize],
        _ => r is Err,
    }
}

/// The dimensions read from the arguments after the input: none when there
/// is no argument.
pub open spec fn dims_read(rest: Seq<DimArgument>, g: Result<Vec<usize>, RuntimeError>) -> bool {
    if rest.len() == 1 {
        group_dims_outcome(rest[0].value, rest[0].entries@, g)
    } else {
        g matches Ok(v) && v@.len() == 0
    }
}

/// The cells made of the value with the dimensions read: the error of the
/// dimensions; else the refusal of an unsupported value; else what
/// `convert_to_cells` returns.
pub open spec fn cells_from(
    value: Value,
    g: Result<Vec<usize>, RuntimeError>,
    inp: Result<Num2CellInput, Value>,
    r: Result<CellArrayOut, Num2CellError>,
) -> bool {
    match g {
        Err(e) => r == Err::<CellArrayOut, Num2CellError>(Num2CellError::Failed(e)),
        Ok(dims) => {
            &&& input_read(value, inp)
            &&& match inp {
                Err(_) => r matches Err(Num2CellError::UnsupportedType(_)),
                Ok(input) => match r {
                    Ok(out) => convert_outcome(input, dims@, Ok(out)),
                    Err(Num2CellError::Failed(e)) => convert_outcome(input, dims@, Err(e)),
                    Err(Num2CellError::UnsupportedType(_)) => false,
                },
            }
        },
    }
}

/// What `num2cell` returns: the argument-count error, or the cells made of
/// the value with the dimensions read.
pub open spec fn num2cell_outcome(value: Value, rest: Seq<DimArgument>, r: Result<CellArrayOut, Num2CellError>) -> bool {
    if rest.len() > 1 {
        r matches Err(Num2CellError::Failed(e)) && num2cell_error_is(
            e,
            "RunMat:num2cell:InvalidInput"@,
            "num2cell: expected at most one dimension argument"@,
        )
    } else {
        exists|g: Result<Vec<usize>, RuntimeError>, inp: Result<Num2CellInput, Value>|
            #![trigger dims_read(rest, g), cells_from(value, g, inp, r)]
            dims_read(rest, g) && cells_from(value, g, inp, r)
    }
}

/// `num2cell(A)` or `num2cell(A, dim)`, `rest` holding the arguments after
/// the input.
pub fn num2cell(value: Value, rest: &[DimArgument]) -> (r: Result<CellArrayOut, Num2CellError>)
    requires
        value_wf(value),
    ensures
        num2cell_outcome(value, rest@, r),
{
    if rest.len() > 1 {
        return Err(Num2CellError::Failed(invalid_input(String::from_str("num2cell: expected at most one dimension argument"))));
    }
    let dims_r = if rest.len() == 1 {
        parse_group_dims(&rest[0].value, rest[0].entries.as_slice())
    } else {
        let empty: Vec<usize> = Vec::new();
        Ok(empty)
    };
    let ghost g = dims_r;
    let dims = match dims_r {
        Ok(d) => d,
        Err(e) => {
            let r = Err(Num2CellError::Failed(e));
            proof {
                let inp: Result<Num2CellInput, Value> = arbitrary();
                assert(dims_read(rest@, g) && cells_from(value, g, inp, r));
            }
            return r;
        },
    };
    let input_r = Num2CellInput::try_new(value);
    let ghost inp = input_r;
    let input = match input_r {
        Ok(i) => i,
        Err(v) => {
            let r = Err(Num2CellError::UnsupportedType(v));
            assert(dims_read(rest@, g) && cells_from(value, g, inp, r));
            return r;
        },
    };
    let out = convert_to_cells(&input, dims.as_slice());
    let r = match out {
        Ok(out) => Ok(out),
        Err(e) => Err(Num2CellError::Failed(e)),
    };
    assert(dims_read(rest@, g) && cells_from(value, g, inp, r));
    r
}

/// Descriptor of `num2cell`.
pub fn num2cell_descriptor() -> (d: BuiltinDescriptor)
    ensures
        d.labels() == seq!["C = num2cell(A)"@, "C = num2cell(A, dim)"@],
        d.codes() == seq!["RM.NUM2CELL.INVALID_INPUT"@, "RM.NUM2CELL.INVALID_DIM"@, "RM.NUM2CELL.INTERNAL"@],
        d.output_mode == BuiltinOutputMode::Fixed,
{
    let s0 = signature(
        "C = num2cell(A)",
        vec![
            param(
                "A",
                BuiltinParamType::Any,
                BuiltinParamArity::Required,
                "Array to convert.",
            ),
        ],
        vec![
            param(
                "C",
                BuiltinParamType::Any,
                BuiltinParamArity::Required,
                "Cell array holding the elements (or grouped slices) of the input.",
            ),
        ],
    );
    let s1 = signature(
        "C = num2cell(A, dim)",
        vec![
            param(
                "A",
                BuiltinParamType::Any,
                BuiltinParamArity::Required,
                "Array to convert.",
            ),
            param(
                "dim",
                BuiltinParamType::SizeArg,
                BuiltinParamArity::Optional,
                "Dimension(s) to group along.",
            ),
        ],
        vec![
            param(
                "C",
                BuiltinParamType::Any,
                BuiltinParamArity::Required,
                "Cell array holding the elements (or grouped slices) of the input.",
            ),
        ],
    );
    let d = BuiltinDescriptor {
        signatures: vec![s0, s1],
        output_mode: BuiltinOutputMode::Fixed,
        completion_policy: BuiltinCompletionPolicy::Public,
        errors: vec![num2cell_error_invalid_input(), num2cell_error_invalid_dim(), num2cell_error_internal()],
    };
    assert(d.labels() =~= seq!["C = num2cell(A)"@, "C = num2cell(A, dim)"@]);
    assert(d.codes() =~= seq!["RM.NUM2CELL.INVALID_INPUT"@, "RM.NUM2CELL.INVALID_DIM"@, "RM.NUM2CELL.INTERNAL"@]);
    d
}

/// Acceleration metadata of `num2cell`.
pub fn num2cell_gpu_spec() -> (g: BuiltinGpuSpec)
    ensures
        g.name@ == "num2cell"@,
{
    host_gpu_spec(
        "num2cell",
        "container",
        "num2cell gathers gpuArray inputs to the host; cell construction is host-only.",
    )
}

/// Fusion metadata of `num2cell`.
pub fn num2cell_fusion_spec() -> (f: BuiltinFusionSpec)
    ensures
        f.name@ == "num2cell"@,
{
    unfused_spec(
        "num2cell",
        false,
        "Conversion into cells terminates fusion; cell contents are produced on the host.",
    )
}


} // verus!
