//! `spdiags`: the diagonals of a matrix as the columns of a dense array,
//! and a sparse matrix built from such columns.
//!
//! Values (doubles) stay with the caller: the caller says which of them are
//! stored (nonzero or NaN), and the results name values by their positions.

use vstd::prelude::*;
use crate::descriptor::{error_descriptor, host_gpu_spec, param, signature, unfused_spec, BroadcastSemantics, BuiltinCompletionPolicy, BuiltinDescriptor, BuiltinErrorDescriptor, BuiltinFusionSpec, BuiltinGpuSpec, BuiltinOutputMode, BuiltinParamArity, BuiltinParamType, ConstantStrategy, GpuOpKind, ReductionNaN, ResidencyPolicy, ScalarType};
use crate::digits::{base_text, decimal_text};
use crate::error::{descriptor_error_with_message, opt_view, RuntimeError};
use crate::text::{chars_to_string, push_all, str_chars};

verus! {

/// Sparsity pattern of a compressed-sparse-column matrix.
pub struct CscPattern {
    pub rows: usize,
    pub cols: usize,
    pub col_ptrs: Vec<usize>,
    pub row_indices: Vec<usize>,
}

impl CscPattern {
    /// Column pointers start at zero, never decrease and end at the number
    /// of stored entries; row indices lie below `rows`.
    pub open spec fn wf(&self) -> bool {
        &&& self.col_ptrs@.len() == self.cols + 1
        &&& self.col_ptrs@[0] == 0
        &&& self.col_ptrs@[self.cols as int] == self.row_indices@.len()
        &&& forall|i: int, j: int| 0 <= i <= j <= self.cols ==> self.col_ptrs@[i] <= self.col_ptrs@[j]
        &&& forall|k: int| 0 <= k < self.row_indices@.len() ==> self.row_indices@[k] < self.rows
    }
}

/// The matrix argument of `spdiags(A)`, with which of its values are
/// stored.
pub enum SpdiagsInput {
    /// A sparse matrix: its pattern and, per entry, whether it is stored.
    Sparse(CscPattern, Vec<bool>),
    /// A dense array: its shape and, per element (column-major), whether it
    /// is stored.
    Dense(Vec<usize>, Vec<bool>),
    /// A real scalar, and whether it is stored.
    Scalar(bool),
    /// Anything else.
    Other,
}

/// An entry: row, column, and the position of its value in the input.
pub type Entry = (usize, usize, usize);

/// Entries of column `col` from pattern position `from` up to `to`.
pub open spec fn col_entries(p: CscPattern, stored: Seq<bool>, col: int, from: int, to: int) -> Seq<Entry>
    decreases to - from,
{
    if to <= from {
        Seq::empty()
    } else {
        let prev = col_entries(p, stored, col, from, to - 1);
        if stored[to - 1] {
            prev.push((p.row_indices@[to - 1], col as usize, (to - 1) as usize))
        } else {
            prev
        }
    }
}

/// Stored entries of the first `c` columns, column by column.
pub open spec fn sparse_entries(p: CscPattern, stored: Seq<bool>, c: int) -> Seq<Entry>
    decreases c,
{
    if c <= 0 {
        Seq::empty()
    } else {
        sparse_entries(p, stored, c - 1) + col_entries(
            p,
            stored,
            c - 1,
            p.col_ptrs@[c - 1] as int,
            p.col_ptrs@[c] as int,
        )
    }
}

/// Stored elements among the first `n` of a column-major matrix with
/// `rows` rows, in storage order.
pub open spec fn dense_entries(stored: Seq<bool>, rows: int, n: int) -> Seq<Entry>
    decreases n,
{
    if n <= 0 {
        Seq::empty()
    } else {
        let prev = dense_entries(stored, rows, n - 1);
        let q = n - 1;
        if stored[q] {
            prev.push(((q % rows) as usize, (q / rows) as usize, q as usize))
        } else {
            prev
        }
    }
}

/// Rows of a dense array: its first extent, or one.
pub open spec fn dense_rows(shape: Seq<usize>) -> usize {
    if shape.len() > 0 {
        shape[0]
    } else {
        1
    }
}

/// Columns of a dense array: its second extent, or one.
pub open spec fn dense_cols(shape: Seq<usize>) -> usize {
    if shape.len() > 1 {
        shape[1]
    } else {
        1
    }
}

/// The error is a `spdiags` error with the given identifier and message.
pub open spec fn spdiags_error_is(e: RuntimeError, ident: Seq<char>, msg: Seq<char>) -> bool {
    &&& e.message@ == msg
    &&& opt_view(e.builtin) == Some("spdiags"@)
    &&& opt_view(e.identifier) == Some(ident)
}

/// Why `nonzero_entries` gave no entries.
pub enum EntriesError {
    Failed(RuntimeError),
    /// The input is not a matrix; the caller reports it with
    /// `unsupported_input` and its description.
    NotMatrix,
}


/// Invalid-input error of `spdiags` with the given message.
pub fn invalid_input(message: String) -> (e: RuntimeError)
    ensures
        spdiags_error_is(e, "RunMat:spdiags:InvalidInput"@, message@),
{
    let d = spdiags_error_invalid_input();
    descriptor_error_with_message(&d, message, "spdiags")
}

/// The error for a call with an argument count other than one or four.
pub fn invalid_argument() -> (e: RuntimeError)
    ensures
        spdiags_error_is(
            e,
            "RunMat:spdiags:InvalidArgument"@,
            "spdiags: only spdiags(A) and spdiags(B, d, m, n) are supported"@,
        ),
{
    let d = spdiags_error_invalid_argument();
    let m = d.message.clone();
    descriptor_error_with_message(&d, m, "spdiags")
}

/// Internal error of `spdiags` with the given detail.
pub fn internal_error(detail: &str) -> (e: RuntimeError)
    ensures
        spdiags_error_is(e, "RunMat:spdiags:Internal"@, "spdiags: "@ + detail@),
{
    let mut cs = str_chars("spdiags: ");
    let d = str_chars(detail);
    push_all(&mut cs, d.as_slice());
    let desc = spdiags_error_internal();
    descriptor_error_with_message(&desc, chars_to_string(cs.as_slice()), "spdiags")
}

/// `head`, the decimal text of `n`, and `tail`, as a string.
fn with_number(head: &str, n: usize, tail: &str) -> (s: String)
    ensures
        s@ == head@ + decimal_text(n as nat) + tail@,
{
    let mut cs = str_chars(head);
    let digits = base_text(n as u64, 10);
    push_all(&mut cs, digits.as_slice());
    let t = str_chars(tail);
    push_all(&mut cs, t.as_slice());
    chars_to_string(cs.as_slice())
}

/// Error for an input that is not a matrix, given its description.
pub fn unsupported_input(description: &str) -> (e: RuntimeError)
    ensures
        spdiags_error_is(e, "RunMat:spdiags:InvalidInput"@, "spdiags: unsupported input "@ + description@),
{
    let mut cs = str_chars("spdiags: unsupported input ");
    let d = str_chars(description);
    push_all(&mut cs, d.as_slice());
    invalid_input(chars_to_string(cs.as_slice()))
}

/// What `nonzero_entries` returns: the size and the stored entries of the
/// matrix, column by column.
pub open spec fn entries_outcome(input: SpdiagsInput, r: Result<(usize, usize, Vec<Entry>), EntriesError>) -> bool {
    match input {
        SpdiagsInput::Sparse(p, st) => r matches Ok((rows, cols, es)) && rows == p.rows && cols == p.cols && es@
            == sparse_entries(p, st@, p.cols as int),
        SpdiagsInput::Dense(shape, st) => if shape@.len() > 2 {
            r matches Err(EntriesError::Failed(e)) && spdiags_error_is(
                e,
                "RunMat:spdiags:InvalidInput"@,
                "spdiags: input must be a 2-D matrix, got "@ + decimal_text(shape@.len()) + "-D tensor"@,
            )
        } else {
            r matches Ok((rows, cols, es)) && rows == dense_rows(shape@) && cols == dense_cols(shape@) && es@
                == dense_entries(st@, rows as int, rows * cols)
        },
        SpdiagsInput::Scalar(b) => r matches Ok((rows, cols, es)) && rows == 1 && cols == 1 && es@ == (if b {
            seq![(0usize, 0usize, 0usize)]
        } else {
            Seq::<Entry>::empty()
        }),
        SpdiagsInput::Other => r matches Err(EntriesError::NotMatrix),
    }
}

/// The input's well-formedness: a sparse pattern that holds together, and
/// one flag per value.
pub open spec fn input_wf(input: SpdiagsInput) -> bool {
    match input {
        SpdiagsInput::Sparse(p, st) => p.wf() && st@.len() == p.row_indices@.len(),
        SpdiagsInput::Dense(shape, st) => shape@.len() <= 2 ==> st@.len() == dense_rows(shape@) * dense_cols(shape@),
        _ => true,
    }
}

/// The size and the stored entries of a matrix argument.
pub fn nonzero_entries(input: &SpdiagsInput) -> (r: Result<(usize, usize, Vec<Entry>), EntriesError>)
    requires
        input_wf(*input),
    ensures
        entries_outcome(*input, r),
{
    match input {
        SpdiagsInput::Sparse(p, st) => {
            let mut entries: Vec<Entry> = Vec::new();
            let mut col: usize = 0;
            while col < p.cols
                invariant
                    p.wf(),
                    st@.len() == p.row_indices@.len(),
                    col <= p.cols,
                    entries@ == sparse_entries(*p, st@, col as int),
                decreases p.cols - col,
            {
                let start = p.col_ptrs[col];
                let end = p.col_ptrs[col + 1];
                let mut idx: usize = start;
                let ghost before = entries@;
                while idx < end
                    invariant
                        p.wf(),
                        st@.len() == p.row_indices@.len(),
                        col < p.cols,
                        start == p.col_ptrs@[col as int],
                        end == p.col_ptrs@[col + 1],
                        start <= idx <= end,
                        end <= p.row_indices@.len(),
                        before == sparse_entries(*p, st@, col as int),
                        entries@ == before + col_entries(*p, st@, col as int, start as int, idx as int),
                    decreases end - idx,
                {
                    if st[idx] {
                        entries.push((p.row_indices[idx], col, idx));
                    }
                    idx = idx + 1;
                    proof {
                        assert(entries@ =~= before + col_entries(*p, st@, col as int, start as int, idx as int));
                    }
                }
                col = col + 1;
            }
            assert(entries@ == sparse_entries(*p, st@, p.cols as int));
            Ok((p.rows, p.cols, entries))
        },
        SpdiagsInput::Dense(shape, st) => {
            if shape.len() > 2 {
                let m = with_number("spdiags: input must be a 2-D matrix, got ", shape.len(), "-D tensor");
                return Err(EntriesError::Failed(invalid_input(m)));
            }
            let rows = if shape.len() > 0 { shape[0] } else { 1 };
            let cols = if shape.len() > 1 { shape[1] } else { 1 };
            let n = st.len();
            let mut entries: Vec<Entry> = Vec::new();
            if rows == 0 {
                proof {
                    assert(rows * cols == 0) by (nonlinear_arith)
                        requires
                            rows == 0,
                    ;
                    assert(entries@ =~= dense_entries(st@, rows as int, rows * cols));
                }
                return Ok((rows, cols, entries));
            }
            let mut col: usize = 0;
            while col < cols
                invariant
                    n == st@.len() == rows * cols,
                    col <= cols,
                    rows > 0,
                    entries@ == dense_entries(st@, rows as int, col * rows),
                decreases cols - col,
            {
                let mut row: usize = 0;
                while row < rows
                    invariant
                        n == st@.len() == rows * cols,
                        col < cols,
                        row <= rows,
                        rows > 0,
                        entries@ == dense_entries(st@, rows as int, col * rows + row),
                    decreases rows - row,
                {
                    proof {
                        assert(row + col * rows < rows * cols) by (nonlinear_arith)
                            requires
                                row < rows,
                                col < cols,
                        ;
                        vstd::arithmetic::div_mod::lemma_fundamental_div_mod_converse(
                            (row + col * rows) as int,
                            rows as int,
                            col as int,
                            row as int,
                        );
                    }
                    let q = row + col * rows;
                    if st[q] {
                        entries.push((row, col, q));
                    }
                    row = row + 1;
                }
                proof {
                    assert(col * rows + rows == (col + 1) * rows) by (nonlinear_arith);
                }
                col = col + 1;
            }
            proof {
                assert(cols * rows == rows * cols) by (nonlinear_arith);
            }
            Ok((rows, cols, entries))
        },
        SpdiagsInput::Scalar(b) => {
            let mut entries: Vec<Entry> = Vec::new();
            if *b {
                entries.push((0, 0, 0));
            }
            proof {
                assert(entries@ =~= (if *b {
                    seq![(0usize, 0usize, 0usize)]
                } else {
                    Seq::<Entry>::empty()
                }));
            }
            Ok((1, 1, entries))
        },
        SpdiagsInput::Other => Err(EntriesError::NotMatrix),
    }
}

fn spdiags_error_invalid_argument() -> (e: BuiltinErrorDescriptor)
    ensures
        e.code@ == "RM.SPDIAGS.INVALID_ARGUMENT"@,
        e.identifier matches Some(i) && i@ == "RunMat:spdiags:InvalidArgument"@,
        e.message@ == "spdiags: only spdiags(A) and spdiags(B, d, m, n) are supported"@,
{
    error_descriptor(
        "RM.SPDIAGS.INVALID_ARGUMENT",
        "RunMat:spdiags:InvalidArgument",
        "An unsupported call form is used (argument count other than 1 or 4).",
        "spdiags: only spdiags(A) and spdiags(B, d, m, n) are supported",
    )
}

fn spdiags_error_invalid_input() -> (e: BuiltinErrorDescriptor)
    ensures
        e.code@ == "RM.SPDIAGS.INVALID_INPUT"@,
        e.identifier matches Some(i) && i@ == "RunMat:spdiags:InvalidInput"@,
        e.message@ == "spdiags: invalid input"@,
{
    error_descriptor(
        "RM.SPDIAGS.INVALID_INPUT",
        "RunMat:spdiags:InvalidInput",
        "Inputs are not numeric matrices/vectors of consistent sizes.",
        "spdiags: invalid input",
    )
}

fn spdiags_error_internal() -> (e: BuiltinErrorDescriptor)
    ensures
        e.code@ == "RM.SPDIAGS.INTERNAL"@,
        e.identifier matches Some(i) && i@ == "RunMat:spdiags:Internal"@,
        e.message@ == "spdiags: internal error"@,
{
    error_descriptor(
        "RM.SPDIAGS.INTERNAL",
        "RunMat:spdiags:Internal",
        "Result materialisation fails internally.",
        "spdiags: internal error",
    )
}


/// Diagonal of an entry: its column minus its row.
pub open spec fn diag_of(e: Entry) -> int {
    e.1 - e.0
}

/// The offsets strictly increase.
pub open spec fn increasing(s: Seq<i64>) -> bool {
    forall|i: int, j: int| 0 <= i < j < s.len() ==> s[i] < s[j]
}

/// The entry's row of the diagonal array: its column for a tall or
/// square matrix, its row for a wide one.
pub open spec fn diag_row(rows: int, cols: int, e: Entry) -> int {
    if rows >= cols {
        e.1 as int
    } else {
        e.0 as int
    }
}

/// The layout of `[B, d] = spdiags(A)`: `B` has `rows_b` rows and one
/// column per offset in `offsets`; `slots[i]` places entry `i` (its value
/// position second) at its position in `B`.
pub struct ExtractPlan {
    pub rows_b: usize,
    pub offsets: Vec<i64>,
    pub slots: Vec<(usize, usize)>,
}

/// `slot` places the value of entry `e` in the diagonal array: its value
/// position second, and first the entry's row there plus the column of its
/// diagonal times `rows_b`.
pub open spec fn slot_ok(offsets: Seq<i64>, rows: int, cols: int, rows_b: int, e: Entry, slot: (usize, usize)) -> bool {
    &&& slot.1 == e.2
    &&& exists|k: int| 0 <= k < offsets.len() && offsets[k] == diag_of(e) && slot.0 == diag_row(rows, cols, e) + k * rows_b
}

/// Position of `x` among strictly increasing offsets that hold it.
fn index_of(offsets: &Vec<i64>, x: i64) -> (k: usize)
    requires
        increasing(offsets@),
        offsets@.contains(x),
    ensures
        k < offsets@.len(),
        offsets@[k as int] == x,
{
    let mut lo: usize = 0;
    let mut hi: usize = offsets.len();
    while lo < hi
        invariant
            lo <= hi <= offsets@.len(),
            increasing(offsets@),
            offsets@.contains(x),
            forall|i: int| 0 <= i < lo ==> offsets@[i] < x,
            forall|i: int| hi <= i < offsets@.len() ==> offsets@[i] > x || (offsets@[i] == x && i == hi),
        decreases hi - lo,
    {
        let mid = lo + (hi - lo) / 2;
        if offsets[mid] < x {
            proof {
                assert forall|i: int| 0 <= i < mid + 1 implies offsets@[i] < x by {
                    if i < mid {
                        assert(offsets@[i] < offsets@[mid as int]);
                    }
                }
            }
            lo = mid + 1;
        } else {
            proof {
                assert forall|i: int| mid <= i < offsets@.len() implies offsets@[i] > x || (offsets@[i] == x && i == mid) by {
                    if i > mid {
                        assert(offsets@[mid as int] < offsets@[i]);
                    }
                }
            }
            hi = mid;
        }
    }
    proof {
        let j = choose|j: int| 0 <= j < offsets@.len() && offsets@[j] == x;
        if j < lo {
            assert(offsets@[j] < x);
        }
        assert(j >= lo);
        if j > lo {
            assert(offsets@[lo as int] <= x);
        }
    }
    lo
}

/// Adds `x` to strictly increasing offsets.
fn insert_offset(v: &mut Vec<i64>, x: i64)
    requires
        increasing(old(v)@),
    ensures
        increasing(final(v)@),
        forall|y: i64| final(v)@.contains(y) <==> (old(v)@.contains(y) || y == x),
        final(v)@.len() <= old(v)@.len() + 1,
{
    let mut lo: usize = 0;
    let mut hi: usize = v.len();
    while lo < hi
        invariant
            lo <= hi <= v@.len(),
            v@ == old(v)@,
            increasing(v@),
            forall|i: int| 0 <= i < lo ==> v@[i] < x,
            forall|i: int| hi <= i < v@.len() ==> v@[i] >= x,
        decreases hi - lo,
    {
        let mid = lo + (hi - lo) / 2;
        if v[mid] < x {
            proof {
                assert forall|i: int| 0 <= i < mid + 1 implies v@[i] < x by {
                    if i < mid {
                        assert(v@[i] < v@[mid as int]);
                    }
                }
            }
            lo = mid + 1;
        } else {
            proof {
                assert forall|i: int| mid <= i < v@.len() implies v@[i] >= x by {
                    if i > mid {
                        assert(v@[mid as int] < v@[i]);
                    }
                }
            }
            hi = mid;
        }
    }
    let i = lo;
    if i < v.len() && v[i] == x {
        return;
    }
    let ghost before = v@;
    v.insert(i, x);
    proof {
        assert forall|a: int, b: int| 0 <= a < b < v@.len() implies v@[a] < v@[b] by {
            if b < i {
            } else if a < i && b == i {
            } else if a < i {
                assert(before[a] < before[b - 1]);
            } else if a == i {
                assert(x <= before[b - 1]);
                if x == before[b - 1] {
                    assert(before[i as int] >= x);
                    if b - 1 > i {
                        assert(before[i as int] < before[b - 1]);
                    }
                }
            } else {
                assert(before[a - 1] < before[b - 1]);
            }
        }
        assert forall|y: i64| v@.contains(y) <==> (before.contains(y) || y == x) by {
            if v@.contains(y) {
                let k = choose|k: int| 0 <= k < v@.len() && v@[k] == y;
                if k < i {
                    assert(before[k] == y);
                } else if k > i {
                    assert(before[k - 1] == y);
                }
            }
            if before.contains(y) {
                let k = choose|k: int| 0 <= k < before.len() && before[k] == y;
                if k < i {
                    assert(v@[k] == y);
                } else {
                    assert(v@[k + 1] == y);
                }
            }
            if y == x {
                assert(v@[i as int] == x);
            }
        }
    }
}

/// Lays out `[B, d] = spdiags(A)` for the stored entries of an
/// `rows`-by-`cols` matrix: the distinct diagonals in increasing order, and
/// for each entry the position in `B` of its value, `B` having
/// `min(rows, cols)` rows.
pub fn extract_form(rows: usize, cols: usize, entries: &Vec<Entry>) -> (plan: ExtractPlan)
    requires
        rows <= i64::MAX,
        cols <= i64::MAX,
        forall|i: int| 0 <= i < entries@.len() ==> (#[trigger] entries@[i]).0 < rows && entries@[i].1 < cols,
        (if rows <= cols { rows as int } else { cols as int }) * entries@.len() <= usize::MAX,
    ensures
        plan.rows_b == if rows <= cols { rows } else { cols },
        increasing(plan.offsets@),
        forall|x: i64| plan.offsets@.contains(x) <==> exists|i: int|
            0 <= i < entries@.len() && diag_of(#[trigger] entries@[i]) == x,
        plan.slots@.len() == entries@.len(),
        forall|i: int| 0 <= i < entries@.len() ==> slot_ok(plan.offsets@, rows as int, cols as int, plan.rows_b as int, entries@[i], #[trigger] plan.slots@[i]),
{
    let rows_b = if rows <= cols { rows } else { cols };
    let mut offsets: Vec<i64> = Vec::new();
    let mut i: usize = 0;
    while i < entries.len()
        invariant
            i <= entries@.len(),
            rows <= i64::MAX,
            cols <= i64::MAX,
            forall|j: int| 0 <= j < entries@.len() ==> (#[trigger] entries@[j]).0 < rows && entries@[j].1 < cols,
            increasing(offsets@),
            offsets@.len() <= i,
            forall|x: i64| offsets@.contains(x) <==> exists|j: int| 0 <= j < i && diag_of(#[trigger] entries@[j]) == x,
        decreases entries@.len() - i,
    {
        let (row, col, _src) = entries[i];
        let d = (col as i64) - (row as i64);
        let ghost before = offsets@;
        insert_offset(&mut offsets, d);
        proof {
            assert forall|x: i64| offsets@.contains(x) <==> exists|j: int| 0 <= j < i + 1 && diag_of(#[trigger] entries@[j]) == x by {
                if x == d {
                    assert(diag_of(entries@[i as int]) == x);
                }
                if exists|j: int| 0 <= j < i + 1 && diag_of(#[trigger] entries@[j]) == x {
                    let j = choose|j: int| 0 <= j < i + 1 && diag_of(#[trigger] entries@[j]) == x;
                    if j < i {
                        assert(before.contains(x));
                    }
                }
            }
        }
        i = i + 1;
    }
    let mut slots: Vec<(usize, usize)> = Vec::new();
    let mut j: usize = 0;
    while j < entries.len()
        invariant
            j <= entries@.len(),
            rows <= i64::MAX,
            cols <= i64::MAX,
            rows_b == if rows <= cols { rows } else { cols },
            forall|t: int| 0 <= t < entries@.len() ==> (#[trigger] entries@[t]).0 < rows && entries@[t].1 < cols,
            (rows_b as int) * entries@.len() <= usize::MAX,
            increasing(offsets@),
            forall|x: i64| offsets@.contains(x) <==> exists|t: int| 0 <= t < entries@.len() && diag_of(#[trigger] entries@[t]) == x,
            offsets@.len() <= entries@.len(),
            slots@.len() == j,
            forall|t: int| 0 <= t < j ==> slot_ok(offsets@, rows as int, cols as int, rows_b as int, entries@[t], #[trigger] slots@[t]),
        decreases entries@.len() - j,
    {
        let (row, col, src) = entries[j];
        let d = (col as i64) - (row as i64);
        proof {
            assert(diag_of(entries@[j as int]) == d);
        }
        let k = index_of(&offsets, d);
        let r = if rows >= cols { col } else { row };
        proof {
            assert(r < rows_b);
            assert(r + k * rows_b < rows_b * entries@.len()) by (nonlinear_arith)
                requires
                    r < rows_b,
                    k < entries@.len(),
            ;
        }
        let ghost before = slots@;
        slots.push((r + k * rows_b, src));
        proof {
            assert(offsets@[k as int] == diag_of(entries@[j as int]));
            assert(slot_ok(offsets@, rows as int, cols as int, rows_b as int, entries@[j as int], slots@[j as int]));
            assert forall|t: int| 0 <= t < j + 1 implies slot_ok(offsets@, rows as int, cols as int, rows_b as int, entries@[t], #[trigger] slots@[t]) by {
                if t < j {
                    assert(slots@[t] == before[t]);
                }
            }
        }
        j = j + 1;
    }
    ExtractPlan { rows_b, offsets, slots }
}


/// Index of the last of the first `n` diagonals equal to `x`, or -1.
pub open spec fn last_k(diags: Seq<i64>, x: int, n: int) -> int
    decreases n,
{
    if n <= 0 {
        -1
    } else if diags[n - 1] == x {
        n - 1
    } else {
        last_k(diags, x, n - 1)
    }
}

pub proof fn lemma_last_k(diags: Seq<i64>, x: int, n: int)
    requires
        0 <= n <= diags.len(),
    ensures
        -1 <= last_k(diags, x, n) < n,
        last_k(diags, x, n) >= 0 ==> diags[last_k(diags, x, n)] == x,
        last_k(diags, x, n) < 0 <==> forall|k: int| 0 <= k < n ==> diags[k] != x,
    decreases n,
{
    if n > 0 {
        lemma_last_k(diags, x, n - 1);
    }
}

/// Some pair has first component `x`.
pub open spec fn has_diag(dd: Seq<(i64, usize)>, x: int) -> bool {
    exists|j: int| 0 <= j < dd.len() && dd[j].0 == x
}

/// The pairs strictly decrease in their first component.
pub open spec fn decreasing_diags(dd: Seq<(i64, usize)>) -> bool {
    forall|i: int, j: int| 0 <= i < j < dd.len() ==> dd[i].0 > dd[j].0
}

/// The distinct diagonals, decreasing, each with the index of its last
/// occurrence.
fn distinct_diagonals(diags: &[i64]) -> (dd: Vec<(i64, usize)>)
    ensures
        decreasing_diags(dd@),
        forall|x: int| #[trigger] has_diag(dd@, x) <==> last_k(diags@, x, diags@.len() as int) >= 0,
        forall|j: int| 0 <= j < dd@.len() ==> (#[trigger] dd@[j]).1 == last_k(diags@, dd@[j].0 as int, diags@.len() as int),
{
    let mut dd: Vec<(i64, usize)> = Vec::new();
    let mut k: usize = 0;
    while k < diags.len()
        invariant
            k <= diags@.len(),
            decreasing_diags(dd@),
            forall|x: int| #[trigger] has_diag(dd@, x) <==> last_k(diags@, x, k as int) >= 0,
            forall|j: int| 0 <= j < dd@.len() ==> (#[trigger] dd@[j]).1 == last_k(diags@, dd@[j].0 as int, k as int),
        decreases diags@.len() - k,
    {
        let d = diags[k];
        let mut pos: usize = 0;
        while pos < dd.len() && dd[pos].0 > d
            invariant
                pos <= dd@.len(),
                forall|j: int| 0 <= j < pos ==> dd@[j].0 > d,
            decreases dd@.len() - pos,
        {
            pos = pos + 1;
        }
        let ghost before = dd@;
        if pos < dd.len() && dd[pos].0 == d {
            dd.set(pos, (d, k));
            proof {
                assert forall|x: int| #[trigger] has_diag(dd@, x) <==> last_k(diags@, x, k + 1) >= 0 by {
                    if has_diag(dd@, x) {
                        let j = choose|j: int| 0 <= j < dd@.len() && dd@[j].0 == x;
                        if j != pos {
                            assert(before[j].0 == x);
                            assert(has_diag(before, x));
                        }
                    }
                    if last_k(diags@, x, k + 1) >= 0 && x != d {
                        assert(last_k(diags@, x, k as int) >= 0);
                        assert(has_diag(before, x));
                        let j = choose|j: int| 0 <= j < before.len() && before[j].0 == x;
                        assert(dd@[j].0 == x);
                        assert(has_diag(dd@, x));
                    }
                    if x == d {
                        assert(dd@[pos as int].0 == x);
                        assert(has_diag(dd@, x));
                    }
                }
                assert forall|j: int| 0 <= j < dd@.len() implies (#[trigger] dd@[j]).1 == last_k(diags@, dd@[j].0 as int, k + 1) by {
                    if j != pos {
                        assert(before[j].0 != d) by {
                            if j < pos {
                            } else {
                                assert(before[pos as int].0 > before[j].0);
                            }
                        }
                    }
                }
            }
        } else {
            dd.insert(pos, (d, k));
            proof {
                assert forall|a: int, b: int| 0 <= a < b < dd@.len() implies dd@[a].0 > dd@[b].0 by {
                    if b < pos {
                    } else if a < pos && b == pos {
                    } else if a < pos {
                        assert(before[a].0 > before[b - 1].0);
                    } else if a == pos {
                        assert(before[pos as int].0 <= d);
                        if b - 1 > pos {
                            assert(before[pos as int].0 > before[b - 1].0);
                        }
                    } else {
                        assert(before[a - 1].0 > before[b - 1].0);
                    }
                }
                assert forall|x: int| #[trigger] has_diag(dd@, x) <==> last_k(diags@, x, k + 1) >= 0 by {
                    if has_diag(dd@, x) {
                        let j = choose|j: int| 0 <= j < dd@.len() && dd@[j].0 == x;
                        if j < pos {
                            assert(before[j].0 == x);
                        } else if j > pos {
                            assert(before[j - 1].0 == x);
                        }
                    }
                    if last_k(diags@, x, k + 1) >= 0 && x != d {
                        assert(last_k(diags@, x, k as int) >= 0);
                        assert(has_diag(before, x));
                        let j = choose|j: int| 0 <= j < before.len() && before[j].0 == x;
                        if j < pos {
                            assert(dd@[j].0 == x);
                        } else {
                            assert(dd@[j + 1].0 == x);
                        }
                    }
                    if x == d {
                        assert(dd@[pos as int].0 == x);
                    }
                }
                assert(last_k(diags@, d as int, k as int) < 0) by {
                    if last_k(diags@, d as int, k as int) >= 0 {
                        assert(has_diag(before, d as int));
                        let j = choose|j: int| 0 <= j < before.len() && before[j].0 == d;
                        if j < pos {
                        } else {
                            assert(before[pos as int].0 < d || before[pos as int].0 == d);
                            assert(before[pos as int].0 >= before[j].0);
                        }
                    }
                }
                assert forall|j: int| 0 <= j < dd@.len() implies (#[trigger] dd@[j]).1 == last_k(diags@, dd@[j].0 as int, k + 1) by {
                    if j < pos {
                        assert(dd@[j] == before[j]);
                        assert(before[j].0 != d);
                    } else if j > pos {
                        assert(dd@[j] == before[j - 1]);
                        assert(before[j - 1].0 != d) by {
                            assert(before[pos as int].0 <= d);
                            if j - 1 > pos {
                                assert(before[pos as int].0 > before[j - 1].0);
                            }
                            if before[pos as int].0 == d {
                            }
                        }
                    }
                }
            }
        }
        k = k + 1;
    }
    dd
}


/// `a` comes before `b`: by column, then by row.
pub open spec fn lex_before(a: Entry, b: Entry) -> bool {
    a.0 < b.0 || (a.0 == b.0 && a.1 < b.1)
}

/// An entry (column, row, position in `B`) of `A = spdiags(B, d, m, n)`:
/// inside the matrix, on a diagonal `d` names, its value taken from the
/// last column of `B` for that diagonal, at the entry's column (tall or
/// square matrix) or row (wide matrix).
pub open spec fn construct_ok(rows: int, cols: int, min_dim: int, diags: Seq<i64>, e: Entry) -> bool {
    let k = last_k(diags, e.0 - e.1, diags.len() as int);
    &&& e.0 < cols
    &&& e.1 < rows
    &&& k >= 0
    &&& e.2 == (if rows >= cols { e.0 as int } else { e.1 as int }) + k * min_dim
}

/// Some entry sits at (c, r).
pub open spec fn covered(es: Seq<Entry>, c: int, r: int) -> bool {
    exists|i: int| 0 <= i < es.len() && es[i].0 == c && es[i].1 == r
}

/// Position (c, r) has been visited: an earlier column, or this column on
/// one of the first `j` diagonals.
pub open spec fn reached(dd: Seq<(i64, usize)>, col: int, j: int, c: int, r: int) -> bool {
    c < col || (c == col && exists|jj: int| 0 <= jj < j && dd[jj].0 == c - r)
}

/// The largest magnitude a diagonal index or an extent may have: half
/// the largest `i64`, so that a column minus a diagonal stays in range.
pub open spec fn half_range() -> int {
    0x4000_0000_0000_0000
}

/// The entries of `A = spdiags(B, d, m, n)` for an `m`-by-`n` result,
/// ordered by column then row, a later repeat of a diagonal in `d`
/// replacing an earlier one.
pub fn construct_entries(rows: usize, cols: usize, diags: &[i64]) -> (es: Vec<Entry>)
    requires
        rows <= half_range(),
        cols <= half_range(),
        forall|k: int| 0 <= k < diags@.len() ==> -half_range() <= #[trigger] diags@[k] <= half_range(),
        (if rows <= cols { rows as int } else { cols as int }) * diags@.len() <= usize::MAX,
    ensures
        forall|i: int| 0 <= i < es@.len() ==> construct_ok(
            rows as int,
            cols as int,
            if rows <= cols { rows as int } else { cols as int },
            diags@,
            #[trigger] es@[i],
        ),
        forall|i: int, j: int| 0 <= i < j < es@.len() ==> lex_before(es@[i], es@[j]),
        forall|c: int, r: int|
            0 <= c < cols && 0 <= r < rows && last_k(diags@, c - r, diags@.len() as int) >= 0 ==> #[trigger] covered(
                es@,
                c,
                r,
            ),
{
    let min_dim = if rows <= cols { rows } else { cols };
    let dd = distinct_diagonals(diags);
    let ghost p = diags@.len() as int;
    let mut es: Vec<Entry> = Vec::new();
    let mut col: usize = 0;
    while col < cols
        invariant
            col <= cols,
            rows <= half_range(),
            cols <= half_range(),
            forall|k: int| 0 <= k < diags@.len() ==> -half_range() <= #[trigger] diags@[k] <= half_range(),
            (min_dim as int) * diags@.len() <= usize::MAX,
            min_dim == if rows <= cols { rows } else { cols },
            decreasing_diags(dd@),
            forall|x: int| #[trigger] has_diag(dd@, x) <==> last_k(diags@, x, p) >= 0,
            forall|j: int| 0 <= j < dd@.len() ==> (#[trigger] dd@[j]).1 == last_k(diags@, dd@[j].0 as int, p),
            p == diags@.len(),
            forall|i: int| 0 <= i < es@.len() ==> construct_ok(rows as int, cols as int, min_dim as int, diags@, #[trigger] es@[i]),
            forall|i: int, j: int| 0 <= i < j < es@.len() ==> lex_before(es@[i], es@[j]),
            forall|i: int| 0 <= i < es@.len() ==> (#[trigger] es@[i]).0 < col,
            forall|c: int, r: int|
                0 <= c < cols && 0 <= r < rows && last_k(diags@, c - r, p) >= 0 && c < col ==> #[trigger] covered(es@, c, r),
        decreases cols - col,
    {
        let mut j: usize = 0;
        while j < dd.len()
            invariant
                col < cols,
                j <= dd@.len(),
                rows <= half_range(),
                cols <= half_range(),
                forall|k: int| 0 <= k < diags@.len() ==> -half_range() <= #[trigger] diags@[k] <= half_range(),
                (min_dim as int) * diags@.len() <= usize::MAX,
                min_dim == if rows <= cols { rows } else { cols },
                decreasing_diags(dd@),
                forall|x: int| #[trigger] has_diag(dd@, x) <==> last_k(diags@, x, p) >= 0,
                forall|j2: int| 0 <= j2 < dd@.len() ==> (#[trigger] dd@[j2]).1 == last_k(diags@, dd@[j2].0 as int, p),
                p == diags@.len(),
                forall|i: int| 0 <= i < es@.len() ==> construct_ok(rows as int, cols as int, min_dim as int, diags@, #[trigger] es@[i]),
                forall|i: int, i2: int| 0 <= i < i2 < es@.len() ==> lex_before(es@[i], es@[i2]),
                forall|i: int| 0 <= i < es@.len() ==> (#[trigger] es@[i]).0 < col || (es@[i].0 == col && exists|jj: int|
                    0 <= jj < j && es@[i].1 == col - dd@[jj].0),
                forall|c: int, r: int|
                    0 <= c < cols && 0 <= r < rows && last_k(diags@, c - r, p) >= 0 && reached(dd@, col as int, j as int, c, r)
                        ==> #[trigger] covered(es@, c, r),
            decreases dd@.len() - j,
        {
            let (d, k) = dd[j];
            proof {
                assert(has_diag(dd@, d as int));
                crate::spdiags::lemma_last_k(diags@, d as int, p);
                assert(-half_range() <= d <= half_range());
            }
            let r = (col as i64) - d;
            let ghost before = es@;
            if 0 <= r && r < rows as i64 {
                let row = r as usize;
                let base = if rows >= cols { col } else { row };
                proof {
                    assert(base < min_dim);
                    assert(k < p);
                    assert(base + k * min_dim < min_dim * p) by (nonlinear_arith)
                        requires
                            base < min_dim,
                            k < p,
                    ;
                }
                es.push((col, row, base + k * min_dim));
                proof {
                    assert(construct_ok(rows as int, cols as int, min_dim as int, diags@, es@[before.len() as int]));
                    assert forall|i: int, i2: int| 0 <= i < i2 < es@.len() implies lex_before(es@[i], es@[i2]) by {
                        if i2 == before.len() {
                            if es@[i].0 == col {
                                let jj = choose|jj: int| 0 <= jj < j && es@[i].1 == col - dd@[jj].0;
                                assert(dd@[jj].0 > dd@[j as int].0);
                            }
                        }
                    }
                    assert forall|i: int| 0 <= i < es@.len() implies (#[trigger] es@[i]).0 < col || (es@[i].0 == col && exists|jj: int|
                        0 <= jj < j + 1 && es@[i].1 == col - dd@[jj].0) by {
                        if i < before.len() {
                            assert(es@[i] == before[i]);
                        } else {
                            assert(es@[i].1 == col - dd@[j as int].0);
                        }
                    }
                    assert forall|c: int, r2: int|
                        0 <= c < cols && 0 <= r2 < rows && last_k(diags@, c - r2, p) >= 0 && reached(dd@, col as int, j + 1, c, r2)
                            implies #[trigger] covered(es@, c, r2) by {
                        if reached(dd@, col as int, j as int, c, r2) {
                            assert(covered(before, c, r2));
                            let i = choose|i: int| 0 <= i < before.len() && before[i].0 == c && before[i].1 == r2;
                            assert(es@[i] == before[i]);
                        } else {
                            assert(c == col && dd@[j as int].0 == c - r2);
                            assert(es@[before.len() as int].0 == c && es@[before.len() as int].1 == r2);
                        }
                    }
                }
            } else {
                proof {
                    assert forall|c: int, r2: int|
                        0 <= c < cols && 0 <= r2 < rows && last_k(diags@, c - r2, p) >= 0 && reached(dd@, col as int, j + 1, c, r2)
                            implies #[trigger] covered(es@, c, r2) by {
                        if !reached(dd@, col as int, j as int, c, r2) {
                            let jj = choose|jj: int| 0 <= jj < j + 1 && dd@[jj].0 == c - r2;
                            if jj == j {
                                assert(r2 == r);
                            }
                        }
                    }
                    assert forall|i: int| 0 <= i < es@.len() implies (#[trigger] es@[i]).0 < col || (es@[i].0 == col && exists|jj: int|
                        0 <= jj < j + 1 && es@[i].1 == col - dd@[jj].0) by {
                        if es@[i].0 == col {
                            let jj = choose|jj: int| 0 <= jj < j && es@[i].1 == col - dd@[jj].0;
                            assert(0 <= jj < j + 1);
                        }
                    }
                }
            }
            j = j + 1;
        }
        proof {
            assert forall|c: int, r: int|
                0 <= c < cols && 0 <= r < rows && last_k(diags@, c - r, p) >= 0 && c < col + 1 implies #[trigger] covered(es@, c, r) by {
                if c == col {
                    assert(has_diag(dd@, c - r));
                    let jj = choose|jj: int| 0 <= jj < dd@.len() && dd@[jj].0 == c - r;
                    assert(reached(dd@, col as int, dd@.len() as int, c, r));
                } else {
                    assert(reached(dd@, col as int, dd@.len() as int, c, r));
                }
            }
        }
        col = col + 1;
    }
    es
}

/// The entries among the first `n` whose value is stored.
pub open spec fn kept(es: Seq<Entry>, stored: Seq<bool>, n: int) -> Seq<Entry>
    decreases n,
{
    if n <= 0 {
        Seq::empty()
    } else {
        let prev = kept(es, stored, n - 1);
        if stored[es[n - 1].2 as int] {
            prev.push(es[n - 1])
        } else {
            prev
        }
    }
}

/// How many entries lie in a column before `c` (the column comes first).
pub open spec fn cols_below(s: Seq<Entry>, c: int) -> int
    decreases s.len(),
{
    if s.len() == 0 {
        0
    } else {
        cols_below(s.drop_last(), c) + (if (s.last().0 as int) < c { 1int } else { 0int })
    }
}

proof fn lemma_cols_below_push(s: Seq<Entry>, e: Entry, c: int)
    ensures
        cols_below(s.push(e), c) == cols_below(s, c) + (if (e.0 as int) < c { 1int } else { 0int }),
{
    assert(s.push(e).drop_last() =~= s);
}

proof fn lemma_cols_below_bounds(s: Seq<Entry>, a: int, b: int)
    requires
        a <= b,
    ensures
        0 <= cols_below(s, a) <= cols_below(s, b) <= s.len(),
        a <= 0 ==> cols_below(s, a) == 0,
        (forall|t: int| 0 <= t < s.len() ==> (#[trigger] s[t]).0 < b) ==> cols_below(s, b) == s.len(),
    decreases s.len(),
{
    if s.len() > 0 {
        lemma_cols_below_bounds(s.drop_last(), a, b);
        if forall|t: int| 0 <= t < s.len() ==> (#[trigger] s[t]).0 < b {
            assert forall|t: int| 0 <= t < s.drop_last().len() implies (#[trigger] s.drop_last()[t]).0 < b by {
                assert(s.drop_last()[t] == s[t]);
            }
        }
    }
}

/// The compressed-column form of the stored entries among `es` (each a
/// column, a row and the position of its value), given in column order:
/// the pattern, and per stored entry the position of its value.
pub fn assemble_csc(rows: usize, cols: usize, es: &Vec<Entry>, stored: &Vec<bool>) -> (r: (CscPattern, Vec<usize>))
    requires
        cols < usize::MAX,
        forall|i: int| 0 <= i < es@.len() ==> (#[trigger] es@[i]).0 < cols && es@[i].1 < rows && es@[i].2 < stored@.len(),
        forall|i: int, j: int| 0 <= i < j < es@.len() ==> es@[i].0 <= es@[j].0,
    ensures
        r.0.wf(),
        r.0.rows == rows,
        r.0.cols == cols,
        r.0.row_indices@.len() == kept(es@, stored@, es@.len() as int).len(),
        r.1@.len() == kept(es@, stored@, es@.len() as int).len(),
        forall|k: int| 0 <= k < r.1@.len() ==> r.0.row_indices@[k] == (#[trigger] kept(es@, stored@, es@.len() as int)[k]).1
            && r.1@[k] == kept(es@, stored@, es@.len() as int)[k].2,
        forall|c: int| 0 <= c <= cols ==> #[trigger] r.0.col_ptrs@[c] == cols_below(kept(es@, stored@, es@.len() as int), c),
{
    let mut col_ptrs: Vec<usize> = Vec::new();
    let mut row_indices: Vec<usize> = Vec::new();
    let mut sources: Vec<usize> = Vec::new();
    col_ptrs.push(0);
    proof {
        lemma_cols_below_bounds(Seq::<Entry>::empty(), 0, 0);
    }
    let mut current: usize = 0;
    let mut i: usize = 0;
    while i < es.len()
        invariant
            i <= es@.len(),
            cols < usize::MAX,
            forall|t: int| 0 <= t < es@.len() ==> (#[trigger] es@[t]).0 < cols && es@[t].1 < rows && es@[t].2 < stored@.len(),
            forall|a: int, b: int| 0 <= a < b < es@.len() ==> es@[a].0 <= es@[b].0,
            current <= cols,
            col_ptrs@.len() == current + 1,
            row_indices@.len() == kept(es@, stored@, i as int).len(),
            sources@.len() == kept(es@, stored@, i as int).len(),
            forall|k: int| 0 <= k < sources@.len() ==> row_indices@[k] == (#[trigger] kept(es@, stored@, i as int)[k]).1
                && sources@[k] == kept(es@, stored@, i as int)[k].2,
            forall|c: int| 0 <= c <= current ==> #[trigger] col_ptrs@[c] == cols_below(kept(es@, stored@, i as int), c),
            forall|t: int| 0 <= t < kept(es@, stored@, i as int).len() ==> (#[trigger] kept(es@, stored@, i as int)[t]).0 <= current
                && kept(es@, stored@, i as int)[t].1 < rows && kept(es@, stored@, i as int)[t].0 < cols,
            forall|t: int| i <= t < es@.len() ==> current <= (#[trigger] es@[t]).0,
        decreases es@.len() - i,
    {
        let (c, r, src) = es[i];
        let ghost ks = kept(es@, stored@, i as int);
        if stored[src] {
            while current < c
                invariant
                    current <= c,
                    c < cols,
                    col_ptrs@.len() == current + 1,
                    row_indices@.len() == ks.len(),
                    forall|cc: int| 0 <= cc <= current ==> #[trigger] col_ptrs@[cc] == cols_below(ks, cc),
                    forall|t: int| 0 <= t < ks.len() ==> (#[trigger] ks[t]).0 <= current,
                decreases c - current,
            {
                proof {
                    lemma_cols_below_bounds(ks, current + 1, current + 1);
                }
                col_ptrs.push(row_indices.len());
                current = current + 1;
            }
            row_indices.push(r);
            sources.push(src);
            proof {
                assert(kept(es@, stored@, i + 1) == ks.push(es@[i as int]));
                assert forall|cc: int| 0 <= cc <= current implies #[trigger] col_ptrs@[cc] == cols_below(kept(es@, stored@, i + 1), cc) by {
                    lemma_cols_below_push(ks, es@[i as int], cc);
                }
                assert forall|t: int| i + 1 <= t < es@.len() implies current <= (#[trigger] es@[t]).0 by {
                    assert(es@[i as int].0 <= es@[t].0);
                }
            }
        } else {
            proof {
                assert(kept(es@, stored@, i + 1) == ks);
            }
        }
        i = i + 1;
    }
    let ghost ks = kept(es@, stored@, es@.len() as int);
    while current < cols
        invariant
            current <= cols,
            cols < usize::MAX,
            col_ptrs@.len() == current + 1,
            row_indices@.len() == ks.len(),
            forall|cc: int| 0 <= cc <= current ==> #[trigger] col_ptrs@[cc] == cols_below(ks, cc),
            forall|t: int| 0 <= t < ks.len() ==> (#[trigger] ks[t]).0 <= current && ks[t].0 < cols && ks[t].1 < rows,
        decreases cols - current,
    {
        proof {
            lemma_cols_below_bounds(ks, current + 1, current + 1);
        }
        col_ptrs.push(row_indices.len());
        current = current + 1;
    }
    let pattern = CscPattern { rows, cols, col_ptrs, row_indices };
    proof {
        lemma_cols_below_bounds(ks, 0, 0);
        lemma_cols_below_bounds(ks, cols as int, cols as int);
        assert forall|a: int, b: int| 0 <= a <= b <= cols implies pattern.col_ptrs@[a] <= pattern.col_ptrs@[b] by {
            lemma_cols_below_bounds(ks, a, b);
        }
        assert forall|k: int| 0 <= k < pattern.row_indices@.len() implies pattern.row_indices@[k] < rows by {
            assert(pattern.row_indices@[k] == ks[k].1);
        }
        assert(pattern.col_ptrs@[cols as int] == pattern.row_indices@.len());
    }
    (pattern, sources)
}

proof fn lemma_kept_members(es: Seq<Entry>, st: Seq<bool>, n: int)
    requires
        0 <= n <= es.len(),
    ensures
        forall|t: int| 0 <= t < kept(es, st, n).len() ==> st[(#[trigger] kept(es, st, n)[t]).2 as int] && exists|i: int|
            0 <= i < n && kept(es, st, n)[t] == es[i],
    decreases n,
{
    if n > 0 {
        lemma_kept_members(es, st, n - 1);
        let prev = kept(es, st, n - 1);
        let cur = kept(es, st, n);
        if st[es[n - 1].2 as int] {
            assert(cur == prev.push(es[n - 1]));
            assert forall|t: int| 0 <= t < cur.len() implies st[(#[trigger] cur[t]).2 as int] && exists|i: int|
                0 <= i < n && cur[t] == es[i] by {
                if t < prev.len() {
                    assert(cur[t] == prev[t]);
                    let i = choose|i: int| 0 <= i < n - 1 && prev[t] == es[i];
                    assert(cur[t] == es[i]);
                } else {
                    assert(cur[t] == es[n - 1]);
                }
            }
        } else {
            assert(cur == prev);
            assert forall|t: int| 0 <= t < cur.len() implies st[(#[trigger] cur[t]).2 as int] && exists|i: int|
                0 <= i < n && cur[t] == es[i] by {
                let i = choose|i: int| 0 <= i < n - 1 && prev[t] == es[i];
                assert(cur[t] == es[i]);
            }
        }
    }
}

proof fn lemma_kept_complete(es: Seq<Entry>, st: Seq<bool>, n: int)
    requires
        0 <= n <= es.len(),
    ensures
        forall|i: int| 0 <= i < n && st[(#[trigger] es[i]).2 as int] ==> exists|t: int|
            0 <= t < kept(es, st, n).len() && kept(es, st, n)[t] == es[i],
    decreases n,
{
    if n > 0 {
        lemma_kept_complete(es, st, n - 1);
        let prev = kept(es, st, n - 1);
        let cur = kept(es, st, n);
        if st[es[n - 1].2 as int] {
            assert(cur == prev.push(es[n - 1]));
            assert forall|i: int| 0 <= i < n && st[(#[trigger] es[i]).2 as int] implies exists|t: int|
                0 <= t < cur.len() && cur[t] == es[i] by {
                if i < n - 1 {
                    let t = choose|t: int| 0 <= t < prev.len() && prev[t] == es[i];
                    assert(cur[t] == prev[t]);
                } else {
                    assert(cur[prev.len() as int] == es[i]);
                }
            }
        } else {
            assert(cur == prev);
        }
    }
}

proof fn lemma_kept_sorted(es: Seq<Entry>, st: Seq<bool>, n: int)
    requires
        0 <= n <= es.len(),
        forall|i: int, j: int| 0 <= i < j < n ==> lex_before(es[i], es[j]),
    ensures
        forall|a: int, b: int| 0 <= a < b < kept(es, st, n).len() ==> lex_before(kept(es, st, n)[a], kept(es, st, n)[b]),
    decreases n,
{
    if n > 0 {
        lemma_kept_sorted(es, st, n - 1);
        lemma_kept_members(es, st, n - 1);
        let prev = kept(es, st, n - 1);
        let cur = kept(es, st, n);
        if st[es[n - 1].2 as int] {
            assert(cur == prev.push(es[n - 1]));
            assert forall|a: int, b: int| 0 <= a < b < cur.len() implies lex_before(cur[a], cur[b]) by {
                assert(cur[a] == prev[a]);
                if b < prev.len() {
                    assert(cur[b] == prev[b]);
                } else {
                    let i = choose|i: int| 0 <= i < n - 1 && prev[a] == es[i];
                    assert(lex_before(es[i], es[n - 1]));
                }
            }
        } else {
            assert(cur == prev);
        }
    }
}

proof fn lemma_cols_below_sorted(s: Seq<Entry>, c: int, k: int)
    requires
        forall|a: int, b: int| 0 <= a < b < s.len() ==> s[a].0 <= s[b].0,
        0 <= k < s.len(),
    ensures
        k < cols_below(s, c) <==> s[k].0 < c,
    decreases s.len(),
{
    let n = s.len() - 1;
    let d = s.drop_last();
    lemma_cols_below_bounds(d, c, c);
    if s[n].0 < c {
        assert forall|t: int| 0 <= t < d.len() implies (#[trigger] d[t]).0 < c by {
            assert(d[t] == s[t]);
            assert(s[t].0 <= s[n].0);
        }
        lemma_cols_below_bounds(d, c, c);
        if k < n {
            assert(s[k].0 <= s[n].0);
        }
    } else if k < n {
        assert forall|a: int, b: int| 0 <= a < b < d.len() implies d[a].0 <= d[b].0 by {
            assert(d[a] == s[a] && d[b] == s[b]);
        }
        lemma_cols_below_sorted(d, c, k);
        assert(d[k] == s[k]);
    }
}

/// Entry `k` of the pattern lies in column `c`.
pub open spec fn in_column(p: CscPattern, c: int, k: int) -> bool {
    0 <= c < p.cols && p.col_ptrs@[c] <= k < p.col_ptrs@[c + 1]
}

/// The pattern holds an entry at row `r` of column `c`.
pub open spec fn holds_entry(p: CscPattern, c: int, r: int) -> bool {
    exists|k: int| in_column(p, c, k) && p.row_indices@[k] == r
}

/// Position in `B` (column-major, `min(rows, cols)` rows) of the value that
/// `A = spdiags(B, d, m, n)` places at column `c`, row `r`.
pub open spec fn b_position(rows: int, cols: int, diags: Seq<i64>, c: int, r: int) -> int {
    let min_dim = if rows <= cols { rows } else { cols };
    (if rows >= cols { c } else { r }) + last_k(diags, c - r, diags.len() as int) * min_dim
}

/// `(p, srcs)` is `A = spdiags(B, d, m, n)`: an `m`-by-`n` pattern whose
/// entries are exactly the positions on a diagonal named in `d` whose value
/// in `B` is stored, rows increasing within a column, `srcs` giving for
/// each entry the position of its value in `B`.
pub open spec fn construct_result(rows: int, cols: int, diags: Seq<i64>, b_stored: Seq<bool>, p: CscPattern, srcs: Seq<usize>) -> bool {
    let min_dim = if rows <= cols { rows } else { cols };
    &&& p.wf()
    &&& p.rows == rows
    &&& p.cols == cols
    &&& srcs.len() == p.row_indices@.len()
    &&& forall|c: int, k: int| #[trigger] in_column(p, c, k) ==> construct_ok(
        rows,
        cols,
        min_dim,
        diags,
        (c as usize, p.row_indices@[k], srcs[k]),
    ) && b_stored[srcs[k] as int]
    &&& forall|c: int, k1: int, k2: int| #[trigger] in_column(p, c, k1) && #[trigger] in_column(p, c, k2) && k1 < k2
        ==> p.row_indices@[k1] < p.row_indices@[k2]
    &&& forall|c: int, r: int|
        0 <= c < cols && 0 <= r < rows && last_k(diags, c - r, diags.len() as int) >= 0 && b_stored[b_position(
            rows,
            cols,
            diags,
            c,
            r,
        )] ==> #[trigger] holds_entry(p, c, r)
}

proof fn lemma_construct_result(
    rows: int,
    cols: int,
    diags: Seq<i64>,
    b_stored: Seq<bool>,
    es: Seq<Entry>,
    pattern: CscPattern,
    srcs: Seq<usize>,
)
    requires
        0 <= rows,
        0 <= cols,
        forall|i: int| 0 <= i < es.len() ==> construct_ok(
            rows,
            cols,
            if rows <= cols { rows } else { cols },
            diags,
            #[trigger] es[i],
        ),
        forall|i: int, j: int| 0 <= i < j < es.len() ==> lex_before(es[i], es[j]),
        forall|c: int, r: int|
            0 <= c < cols && 0 <= r < rows && last_k(diags, c - r, diags.len() as int) >= 0 ==> #[trigger] covered(es, c, r),
        pattern.wf(),
        pattern.rows == rows,
        pattern.cols == cols,
        pattern.row_indices@.len() == kept(es, b_stored, es.len() as int).len(),
        srcs.len() == kept(es, b_stored, es.len() as int).len(),
        forall|k: int| 0 <= k < srcs.len() ==> pattern.row_indices@[k] == (#[trigger] kept(es, b_stored, es.len() as int)[k]).1
            && srcs[k] == kept(es, b_stored, es.len() as int)[k].2,
        forall|c: int| 0 <= c <= cols ==> #[trigger] pattern.col_ptrs@[c] == cols_below(kept(es, b_stored, es.len() as int), c),
    ensures
        construct_result(rows, cols, diags, b_stored, pattern, srcs),
{
    let min_dim = if rows <= cols { rows } else { cols };
    let p = diags.len() as int;
    let n = es.len() as int;
    let ks = kept(es, b_stored, n);
    lemma_kept_members(es, b_stored, n);
    lemma_kept_complete(es, b_stored, n);
    lemma_kept_sorted(es, b_stored, n);
    assert forall|a: int, b: int| 0 <= a < b < ks.len() implies ks[a].0 <= ks[b].0 by {
        assert(lex_before(ks[a], ks[b]));
    }
    assert forall|c: int, k: int| #[trigger] in_column(pattern, c, k) implies ks[k].0 == c && k < ks.len() by {
        lemma_cols_below_bounds(ks, c + 1, cols);
        lemma_cols_below_sorted(ks, c, k);
        lemma_cols_below_sorted(ks, c + 1, k);
    }
    assert forall|c: int, k: int| #[trigger] in_column(pattern, c, k) implies construct_ok(
        rows,
        cols,
        min_dim,
        diags,
        (c as usize, pattern.row_indices@[k], srcs[k]),
    ) && b_stored[srcs[k] as int] by {
        let i = choose|i: int| 0 <= i < n && ks[k] == es[i];
        assert(construct_ok(rows, cols, min_dim, diags, es[i]));
        assert(ks[k] == (c as usize, pattern.row_indices@[k], srcs[k]));
    }
    assert forall|c: int, k1: int, k2: int| #[trigger] in_column(pattern, c, k1) && #[trigger] in_column(pattern, c, k2) && k1
        < k2 implies pattern.row_indices@[k1] < pattern.row_indices@[k2] by {
        assert(lex_before(ks[k1], ks[k2]));
    }
    assert forall|c: int, r: int|
        0 <= c < cols && 0 <= r < rows && last_k(diags, c - r, p) >= 0 && b_stored[b_position(
            rows,
            cols,
            diags,
            c,
            r,
        )] implies #[trigger] holds_entry(pattern, c, r) by {
        assert(covered(es, c, r));
        let i = choose|i: int| 0 <= i < es.len() && es[i].0 == c && es[i].1 == r;
        assert(construct_ok(rows, cols, min_dim, diags, es[i]));
        assert(es[i].2 == b_position(rows, cols, diags, c, r));
        let t = choose|t: int| 0 <= t < ks.len() && ks[t] == es[i];
        lemma_cols_below_bounds(ks, c + 1, cols);
        lemma_cols_below_sorted(ks, c, t);
        lemma_cols_below_sorted(ks, c + 1, t);
        assert(in_column(pattern, c, t));
    }
}


proof fn lemma_index_unique(offsets: Seq<i64>, k: int)
    requires
        increasing(offsets),
        0 <= k < offsets.len(),
    ensures
        last_k(offsets, offsets[k] as int, offsets.len() as int) == k,
{
    let x = offsets[k] as int;
    lemma_last_k(offsets, x, offsets.len() as int);
    let j = last_k(offsets, x, offsets.len() as int);
    if j < k {
        assert(offsets[j] < offsets[k]);
    } else if j > k {
        assert(offsets[k] < offsets[j]);
    }
}

proof fn lemma_mixed_radix_unique(a1: int, k1: int, a2: int, k2: int, m: int)
    requires
        0 <= a1 < m,
        0 <= a2 < m,
        0 <= k1,
        0 <= k2,
        a1 + k1 * m == a2 + k2 * m,
    ensures
        a1 == a2,
        k1 == k2,
{
    if k1 < k2 {
        assert(a1 == a2 + (k2 - k1) * m) by (nonlinear_arith)
            requires
                a1 + k1 * m == a2 + k2 * m,
        ;
        assert((k2 - k1) * m >= m) by (nonlinear_arith)
            requires
                k2 - k1 >= 1,
                m > 0,
        ;
    } else if k2 < k1 {
        assert(a2 == a1 + (k1 - k2) * m) by (nonlinear_arith)
            requires
                a1 + k1 * m == a2 + k2 * m,
        ;
        assert((k1 - k2) * m >= m) by (nonlinear_arith)
            requires
                k1 - k2 >= 1,
                m > 0,
        ;
    } else {
        assert(k1 * m == k2 * m);
    }
}

/// Position `q` of `B` holds the value of some entry of the extraction.
pub open spec fn slot_filled(slots: Seq<(usize, usize)>, q: int) -> bool {
    exists|i: int| 0 <= i < slots.len() && slots[i].0 == q
}

/// Construction inverts extraction: build `B` and `d` from the stored
/// entries of a `rows`-by-`cols` matrix `A` (`[B, d] = spdiags(A)`, the
/// positions of `B` that no entry fills being zero), then
/// `spdiags(B, d, rows, cols)` stores exactly the positions of `A` that
/// were stored, each taking its value from the position of `B` that the
/// extraction put that entry's value in.
pub proof fn law_construct_inverts_extract(
    rows: int,
    cols: int,
    es: Seq<Entry>,
    offsets: Seq<i64>,
    slots: Seq<(usize, usize)>,
    b_stored: Seq<bool>,
    p: CscPattern,
    srcs: Seq<usize>,
)
    requires
        forall|i: int| 0 <= i < es.len() ==> (#[trigger] es[i]).0 < rows && es[i].1 < cols,
        increasing(offsets),
        forall|x: i64| offsets.contains(x) <==> exists|i: int| 0 <= i < es.len() && diag_of(#[trigger] es[i]) == x,
        slots.len() == es.len(),
        forall|i: int| 0 <= i < es.len() ==> slot_ok(
            offsets,
            rows,
            cols,
            if rows <= cols { rows } else { cols },
            es[i],
            #[trigger] slots[i],
        ),
        forall|q: int| 0 <= q < b_stored.len() ==> (b_stored[q] <==> slot_filled(slots, q)),
        b_stored.len() == (if rows <= cols { rows } else { cols }) * offsets.len(),
        construct_result(rows, cols, offsets, b_stored, p, srcs),
    ensures
        forall|c: int, r: int|
            0 <= c < cols && 0 <= r < rows ==> (#[trigger] holds_entry(p, c, r) <==> exists|i: int|
                0 <= i < es.len() && es[i].0 == r && es[i].1 == c),
        forall|c: int, k: int| #[trigger] in_column(p, c, k) ==> exists|i: int|
            0 <= i < es.len() && es[i].0 == p.row_indices@[k] && es[i].1 == c && slots[i].0 == srcs[k],
{
    let min_dim = if rows <= cols { rows } else { cols };
    let n = offsets.len() as int;
    // Where an entry's value lands in `B` is where construction reads it.
    assert forall|i: int| 0 <= i < es.len() implies #[trigger] slots[i].0 == b_position(rows, cols, offsets, es[i].1 as int, es[i].0 as int)
        && last_k(offsets, es[i].1 - es[i].0, n) >= 0 by {
        let e = es[i];
        let k = choose|k: int| 0 <= k < offsets.len() && offsets[k] == diag_of(e) && slots[i].0 == diag_row(rows, cols, e) + k * min_dim;
        lemma_index_unique(offsets, k);
    }
    // A filled position of `B` is read back at the entry that filled it.
    assert forall|c: int, r: int, i: int|
        #![trigger slots[i], b_position(rows, cols, offsets, c, r)]
        0 <= c < cols && 0 <= r < rows && 0 <= i < es.len() && last_k(offsets, c - r, n) >= 0 && slots[i].0 == b_position(
            rows,
            cols,
            offsets,
            c,
            r,
        ) implies es[i].0 == r && es[i].1 == c by {
        let e = es[i];
        let k = choose|k: int| 0 <= k < offsets.len() && offsets[k] == diag_of(e) && slots[i].0 == diag_row(rows, cols, e) + k * min_dim;
        let kk = last_k(offsets, c - r, n);
        lemma_last_k(offsets, c - r, n);
        let base: int = if rows >= cols { c } else { r };
        lemma_mixed_radix_unique(diag_row(rows, cols, e), k, base, kk, min_dim);
    }
    assert forall|c: int, r: int|
        0 <= c < cols && 0 <= r < rows implies (#[trigger] holds_entry(p, c, r) <==> exists|i: int|
            0 <= i < es.len() && es[i].0 == r && es[i].1 == c) by {
        if exists|i: int| 0 <= i < es.len() && es[i].0 == r && es[i].1 == c {
            let i = choose|i: int| 0 <= i < es.len() && es[i].0 == r && es[i].1 == c;
            let q = b_position(rows, cols, offsets, c, r);
            assert(slots[i].0 == q);
            let kk = last_k(offsets, c - r, n);
            lemma_last_k(offsets, c - r, n);
            let base: int = if rows >= cols { c } else { r };
            assert(q < b_stored.len()) by (nonlinear_arith)
                requires
                    q == base + kk * min_dim,
                    0 <= base < min_dim,
                    0 <= kk < n,
                    b_stored.len() == min_dim * n,
            ;
            assert(slot_filled(slots, q));
        }
        if holds_entry(p, c, r) {
            let k = choose|k: int| in_column(p, c, k) && p.row_indices@[k] == r;
            assert(construct_ok(rows, cols, min_dim, offsets, (c as usize, p.row_indices@[k], srcs[k])));
            assert(b_stored[srcs[k] as int]);
            let q = srcs[k] as int;
            assert(q == b_position(rows, cols, offsets, c, r));
            let base: int = if rows >= cols { c } else { r };
            let kk = last_k(offsets, c - r, n);
            lemma_last_k(offsets, c - r, n);
            assert(q < b_stored.len()) by (nonlinear_arith)
                requires
                    q == base + kk * min_dim,
                    0 <= base < min_dim,
                    0 <= kk < n,
                    b_stored.len() == min_dim * n,
            ;
            let i = choose|i: int| 0 <= i < slots.len() && slots[i].0 == q;
            assert(slots[i].0 == b_position(rows, cols, offsets, c, r));
        }
    }
    assert forall|c: int, k: int| #[trigger] in_column(p, c, k) implies exists|i: int|
        0 <= i < es.len() && es[i].0 == p.row_indices@[k] && es[i].1 == c && slots[i].0 == srcs[k] by {
        let r = p.row_indices@[k] as int;
        assert(construct_ok(rows, cols, min_dim, offsets, (c as usize, p.row_indices@[k], srcs[k])));
        assert(b_stored[srcs[k] as int]);
        let q = srcs[k] as int;
        let base: int = if rows >= cols { c } else { r };
        let kk = last_k(offsets, c - r, n);
        lemma_last_k(offsets, c - r, n);
        assert(q < b_stored.len()) by (nonlinear_arith)
            requires
                q == base + kk * min_dim,
                0 <= base < min_dim,
                0 <= kk < n,
                b_stored.len() == min_dim * n,
        ;
        let i = choose|i: int| 0 <= i < slots.len() && slots[i].0 == q;
        assert(slots[i].0 == b_position(rows, cols, offsets, c, r));
    }
}

/// The error for a `B` whose size is not `min(m,n)`-by-`length(d)`.
pub open spec fn b_size_message(min_dim: nat, p: nat, b_rows: nat, b_cols: nat) -> Seq<char> {
    "spdiags: B must be min(m,n)-by-length(d) ("@ + decimal_text(min_dim) + "x"@ + decimal_text(p) + "), got "@
        + decimal_text(b_rows) + "x"@ + decimal_text(b_cols)
}

/// `A = spdiags(B, d, m, n)` for an `rows`-by-`cols` result and diagonal
/// indices `diags`, `B` being `b_rows`-by-`b_cols` with `b_stored` telling
/// (column-major) which of its values are stored: the sparsity pattern and
/// the position in `B` of each entry's value, or the error for a `B` of
/// the wrong size.
pub fn construct_form(
    rows: usize,
    cols: usize,
    diags: &Vec<i64>,
    b_rows: usize,
    b_cols: usize,
    b_stored: &Vec<bool>,
) -> (r: Result<(CscPattern, Vec<usize>), RuntimeError>)
    requires
        rows <= half_range(),
        cols <= half_range(),
        cols < usize::MAX,
        forall|k: int| 0 <= k < diags@.len() ==> -half_range() <= #[trigger] diags@[k] <= half_range(),
        b_stored@.len() == b_rows * b_cols,
    ensures
        ({
            let min_dim = if rows <= cols { rows } else { cols };
            match r {
                Err(e) => (b_rows != min_dim || b_cols != diags@.len()) && spdiags_error_is(
                    e,
                    "RunMat:spdiags:InvalidInput"@,
                    b_size_message(min_dim as nat, diags@.len(), b_rows as nat, b_cols as nat),
                ),
                Ok((p, srcs)) => b_rows == min_dim && b_cols == diags@.len() && construct_result(
                    rows as int,
                    cols as int,
                    diags@,
                    b_stored@,
                    p,
                    srcs@,
                ),
            }
        }),
{
    let min_dim = if rows <= cols { rows } else { cols };
    if b_rows != min_dim || b_cols != diags.len() {
        let mut cs = str_chars("spdiags: B must be min(m,n)-by-length(d) (");
        let t = base_text(min_dim as u64, 10);
        push_all(&mut cs, t.as_slice());
        let x = str_chars("x");
        push_all(&mut cs, x.as_slice());
        let t = base_text(diags.len() as u64, 10);
        push_all(&mut cs, t.as_slice());
        let g = str_chars("), got ");
        push_all(&mut cs, g.as_slice());
        let t = base_text(b_rows as u64, 10);
        push_all(&mut cs, t.as_slice());
        push_all(&mut cs, x.as_slice());
        let t = base_text(b_cols as u64, 10);
        push_all(&mut cs, t.as_slice());
        return Err(invalid_input(chars_to_string(cs.as_slice())));
    }
    let blen = b_stored.len();
    assert(blen == b_rows * b_cols);
    let es = construct_entries(rows, cols, diags.as_slice());
    let ghost p = diags@.len() as int;
    proof {
        assert forall|i: int| 0 <= i < es@.len() implies (#[trigger] es@[i]).0 < cols && es@[i].1 < rows && es@[i].2
            < b_stored@.len() by {
            let e = es@[i];
            assert(construct_ok(rows as int, cols as int, min_dim as int, diags@, e));
            let k = last_k(diags@, e.0 - e.1, p);
            lemma_last_k(diags@, e.0 - e.1, p);
            let base: int = if rows >= cols { e.0 as int } else { e.1 as int };
            assert(base < min_dim);
            assert(base + k * min_dim < min_dim * p) by (nonlinear_arith)
                requires
                    0 <= base < min_dim,
                    0 <= k < p,
            ;
        }
        assert forall|i: int, j: int| 0 <= i < j < es@.len() implies es@[i].0 <= es@[j].0 by {
            assert(lex_before(es@[i], es@[j]));
        }
    }
    let (pattern, srcs) = assemble_csc(rows, cols, &es, b_stored);
    proof {
        lemma_construct_result(rows as int, cols as int, diags@, b_stored@, es@, pattern, srcs@);
    }
    Ok((pattern, srcs))
}

/// The size of the `B` argument of `A = spdiags(B, d, m, n)`, or the error
/// for a `B` that is not a 2-D numeric matrix.
pub fn dense_shape(b: &SpdiagsInput) -> (r: Result<(usize, usize), EntriesError>)
    ensures
        match *b {
            SpdiagsInput::Dense(shape, _) => if shape@.len() > 2 {
                r matches Err(EntriesError::Failed(e)) && spdiags_error_is(
                    e,
                    "RunMat:spdiags:InvalidInput"@,
                    "spdiags: B must be a 2-D matrix, got "@ + decimal_text(shape@.len()) + "-D tensor"@,
                )
            } else {
                r == Ok::<(usize, usize), EntriesError>((dense_rows(shape@), dense_cols(shape@)))
            },
            SpdiagsInput::Sparse(p, _) => r == Ok::<(usize, usize), EntriesError>((p.rows, p.cols)),
            SpdiagsInput::Scalar(_) => r == Ok::<(usize, usize), EntriesError>((1usize, 1usize)),
            SpdiagsInput::Other => r matches Err(EntriesError::NotMatrix),
        },
{
    match b {
        SpdiagsInput::Dense(shape, _) => {
            if shape.len() > 2 {
                Err(EntriesError::Failed(invalid_input(with_number("spdiags: B must be a 2-D matrix, got ", shape.len(), "-D tensor"))))
            } else {
                let rows = if shape.len() > 0 { shape[0] } else { 1 };
                let cols = if shape.len() > 1 { shape[1] } else { 1 };
                Ok((rows, cols))
            }
        },
        SpdiagsInput::Sparse(p, _) => Ok((p.rows, p.cols)),
        SpdiagsInput::Scalar(_) => Ok((1, 1)),
        SpdiagsInput::Other => Err(EntriesError::NotMatrix),
    }
}

/// Error for a `B` that is not numeric, given its description.
pub fn b_not_numeric(description: &str) -> (e: RuntimeError)
    ensures
        spdiags_error_is(e, "RunMat:spdiags:InvalidInput"@, "spdiags: B must be a numeric matrix, got "@ + description@),
{
    let mut cs = str_chars("spdiags: B must be a numeric matrix, got ");
    let d = str_chars(description);
    push_all(&mut cs, d.as_slice());
    invalid_input(chars_to_string(cs.as_slice()))
}

/// The two call forms of `spdiags`.
pub enum SpdiagsForm {
    /// `[B, d] = spdiags(A)`.
    Extract,
    /// `A = spdiags(B, d, m, n)`.
    Construct,
}

/// The call form for `n_args` arguments: one extracts, four construct, any
/// other count is an error.
pub fn call_form(n_args: usize) -> (r: Result<SpdiagsForm, RuntimeError>)
    ensures
        n_args == 1 ==> r matches Ok(SpdiagsForm::Extract),
        n_args == 4 ==> r matches Ok(SpdiagsForm::Construct),
        n_args != 1 && n_args != 4 ==> (r matches Err(e) && spdiags_error_is(
            e,
            "RunMat:spdiags:InvalidArgument"@,
            "spdiags: only spdiags(A) and spdiags(B, d, m, n) are supported"@,
        )),
{
    if n_args == 1 {
        Ok(SpdiagsForm::Extract)
    } else if n_args == 4 {
        Ok(SpdiagsForm::Construct)
    } else {
        Err(invalid_argument())
    }
}

/// GPU metadata of `spdiags`: inputs are gathered to the host.
pub fn spdiags_gpu_spec() -> (g: BuiltinGpuSpec)
    ensures
        g.name@ == "spdiags"@,
        g.op_kind matches GpuOpKind::Custom(k) && k@ == "sparse"@,
        g.supported_precisions@ == seq![ScalarType::F32, ScalarType::F64],
        g.provider_hooks@.len() == 0,
        g.broadcast == BroadcastSemantics::NoBroadcast,
        g.nan_mode == ReductionNaN::Include,
{
    let mut g = host_gpu_spec(
        "spdiags",
        "sparse",
        "Sparse matrices are host-resident CSC values; GPU inputs are gathered before diagonal extraction or construction.",
    );
    let precisions = vec![ScalarType::F32, ScalarType::F64];
    assert(precisions@ =~= seq![ScalarType::F32, ScalarType::F64]);
    g.supported_precisions = precisions;
    g
}

/// Descriptor of `spdiags`.
pub fn spdiags_descriptor() -> (d: BuiltinDescriptor)
    ensures
        d.labels() == seq!["[B, d] = spdiags(A)"@, "A = spdiags(B, d, m, n)"@],
        d.codes() == seq!["RM.SPDIAGS.INVALID_ARGUMENT"@, "RM.SPDIAGS.INVALID_INPUT"@, "RM.SPDIAGS.INTERNAL"@],
        d.output_mode == BuiltinOutputMode::ByRequestedOutputCount,
{
    let s0 = signature(
        "[B, d] = spdiags(A)",
        vec![
            param(
                "A",
                BuiltinParamType::Any,
                BuiltinParamArity::Required,
                "Matrix whose diagonals are read.",
            ),
        ],
        vec![
            param(
                "B",
                BuiltinParamType::NumericArray,
                BuiltinParamArity::Required,
                "Nonzero diagonals of A as columns of a full matrix.",
            ),
            param(
                "d",
                BuiltinParamType::NumericArray,
                BuiltinParamArity::Optional,
                "Indices of the extracted diagonals (column vector).",
            ),
        ],
    );
    let s1 = signature(
        "A = spdiags(B, d, m, n)",
        vec![
            param(
                "B",
                BuiltinParamType::NumericArray,
                BuiltinParamArity::Required,
                "min(m,n)-by-p matrix of diagonal data.",
            ),
            param(
                "d",
                BuiltinParamType::NumericArray,
                BuiltinParamArity::Required,
                "Diagonal indices for the columns of B.",
            ),
            param(
                "m",
                BuiltinParamType::SizeArg,
                BuiltinParamArity::Required,
                "Number of rows.",
            ),
            param(
                "n",
                BuiltinParamType::SizeArg,
                BuiltinParamArity::Required,
                "Number of columns.",
            ),
        ],
        vec![
            param(
                "A",
                BuiltinParamType::NumericArray,
                BuiltinParamArity::Required,
                "Sparse m-by-n matrix built from the supplied diagonals.",
            ),
        ],
    );
    let d = BuiltinDescriptor {
        signatures: vec![s0, s1],
        output_mode: BuiltinOutputMode::ByRequestedOutputCount,
        completion_policy: BuiltinCompletionPolicy::Public,
        errors: vec![spdiags_error_invalid_argument(), spdiags_error_invalid_input(), spdiags_error_internal()],
    };
    assert(d.labels() =~= seq!["[B, d] = spdiags(A)"@, "A = spdiags(B, d, m, n)"@]);
    assert(d.codes() =~= seq!["RM.SPDIAGS.INVALID_ARGUMENT"@, "RM.SPDIAGS.INVALID_INPUT"@, "RM.SPDIAGS.INTERNAL"@]);
    d
}

/// Fusion metadata of `spdiags`.
pub fn spdiags_fusion_spec() -> (f: BuiltinFusionSpec)
    ensures
        f.name@ == "spdiags"@,
{
    unfused_spec(
        "spdiags",
        false,
        "Representation-changing diagonal reshuffle; not fusible.",
    )
}


} // verus!
