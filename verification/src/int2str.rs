//! `int2str`: rounded numbers laid out as a character matrix. Rounding and
//! formatting each number (a double) is the caller's; the layout of the
//! formatted numbers, the argument checks and the metadata are here.

use vstd::prelude::*;
use crate::descriptor::{error_descriptor, host_gpu_spec, param, signature, BuiltinCompletionPolicy, BuiltinDescriptor, BuiltinErrorDescriptor, BuiltinGpuSpec, BuiltinOutputMode, BuiltinParamArity, BuiltinParamType};
use crate::digits::decimal_text;
use crate::error::{descriptor_error_with_message, map_control_flow_with_builtin, opt_view, RuntimeError};
use crate::text::{chars_to_string, push_all, push_right_aligned, right_align, str_chars};
use crate::value::{CharArray, Value};

verus! {

/// Widest text among rows `0..k` of column `c` (zero when there is none).
pub open spec fn widest(texts: Seq<Seq<char>>, rows: int, c: int, k: int) -> int
    decreases k,
{
    if k <= 0 {
        0
    } else {
        let rest = widest(texts, rows, c, k - 1);
        let l = texts[(k - 1) + c * rows].len() as int;
        if l > rest { l } else { rest }
    }
}

/// Sum of the widths of the first `k` columns.
pub open spec fn widths_sum(texts: Seq<Seq<char>>, rows: int, k: int) -> int
    decreases k,
{
    if k <= 0 {
        0
    } else {
        widths_sum(texts, rows, k - 1) + widest(texts, rows, k - 1, rows)
    }
}

/// Column `c` of row `r`: two separating blanks before every column but
/// the first, then the text right-aligned to its column's width.
pub open spec fn int_cell(texts: Seq<Seq<char>>, rows: int, r: int, c: int) -> Seq<char> {
    (if c > 0 { seq![' ', ' '] } else { Seq::<char>::empty() }) + right_align(texts[r + c * rows], widest(texts, rows, c, rows))
}

/// The first `k` columns of row `r` of the layout.
pub open spec fn int_line(texts: Seq<Seq<char>>, rows: int, k: int, r: int) -> Seq<char>
    decreases k,
{
    if k <= 0 {
        Seq::empty()
    } else {
        int_line(texts, rows, k - 1, r) + int_cell(texts, rows, r, k - 1)
    }
}

/// The first `k` rows of the layout, one after another.
pub open spec fn int_rows(texts: Seq<Seq<char>>, rows: int, cols: int, k: int) -> Seq<char>
    decreases k,
{
    if k <= 0 {
        Seq::empty()
    } else {
        int_rows(texts, rows, cols, k - 1) + int_line(texts, rows, cols, k - 1)
    }
}

/// Width of every row: the column widths plus two blanks between columns.
pub open spec fn int_width(texts: Seq<Seq<char>>, rows: int, cols: int) -> int {
    widths_sum(texts, rows, cols) + 2 * (cols - 1)
}

proof fn lemma_widest(texts: Seq<Seq<char>>, rows: int, c: int, k: int, j: int)
    requires
        0 <= k,
    ensures
        widest(texts, rows, c, k) >= 0,
        0 <= j < k ==> texts[j + c * rows].len() <= widest(texts, rows, c, k),
    decreases k,
{
    if k > 0 {
        lemma_widest(texts, rows, c, k - 1, j);
    }
}

proof fn lemma_line_len(texts: Seq<Seq<char>>, rows: int, r: int, k: int)
    requires
        0 <= r < rows,
        1 <= k,
    ensures
        int_line(texts, rows, k, r).len() == widths_sum(texts, rows, k) + 2 * (k - 1),
    decreases k,
{
    lemma_widest(texts, rows, k - 1, rows, r);
    let f = texts[r + (k - 1) * rows];
    let w = widest(texts, rows, k - 1, rows);
    assert(f.len() <= w);
    assert(right_align(f, w).len() == w);
    assert(int_cell(texts, rows, r, k - 1).len() == (if k > 1 { 2int } else { 0int }) + widest(texts, rows, k - 1, rows));
    assert(widths_sum(texts, rows, k) == widths_sum(texts, rows, k - 1) + w);
    if k > 1 {
        lemma_line_len(texts, rows, r, k - 1);
        assert(int_line(texts, rows, k, r).len() == int_line(texts, rows, k - 1, r).len() + int_cell(texts, rows, r, k - 1).len());
        assert(int_line(texts, rows, k - 1, r).len() == widths_sum(texts, rows, k - 1) + 2 * (k - 2));
    } else {
        assert(int_line(texts, rows, 0, r).len() == 0);
        assert(widths_sum(texts, rows, 0) == 0);
        assert(int_line(texts, rows, 1, r).len() == int_line(texts, rows, 0, r).len() + int_cell(texts, rows, r, 0).len());
    }
}

proof fn lemma_data_len(texts: Seq<Seq<char>>, rows: int, cols: int, k: int)
    requires
        0 <= k <= rows,
        cols >= 1,
    ensures
        int_rows(texts, rows, cols, k).len() == k * int_width(texts, rows, cols),
    decreases k,
{
    if k > 0 {
        lemma_data_len(texts, rows, cols, k - 1);
        lemma_line_len(texts, rows, k - 1, cols);
        let w = int_width(texts, rows, cols);
        assert(int_rows(texts, rows, cols, k).len() == int_rows(texts, rows, cols, k - 1).len() + int_line(texts, rows, cols, k - 1).len());
        assert((k - 1) * w + w == k * w) by (nonlinear_arith);
    } else {
        assert(0 * int_width(texts, rows, cols) == 0);
    }
}

/// The `int2str` layout of a `rows`-by-`cols` matrix of formatted numbers
/// (stored column by column): each column right-aligned to its widest
/// entry, columns separated by two blanks, one row of characters per
/// matrix row; an empty matrix gives the 0-by-0 character array.
pub fn format_rounded_matrix(texts: &Vec<Vec<char>>, rows: usize, cols: usize) -> (a: CharArray)
    requires
        texts@.len() == rows * cols,
        rows * (widths_sum(texts.deep_view(), rows as int, cols as int) + 2 * cols) <= usize::MAX,
    ensures
        a.wf(),
        rows == 0 || cols == 0 ==> a.rows == 0 && a.cols == 0,
        rows > 0 && cols > 0 ==> {
            &&& a.rows == rows
            &&& a.cols == int_width(texts.deep_view(), rows as int, cols as int)
            &&& a.data@ == int_rows(texts.deep_view(), rows as int, cols as int, rows as int)
        },
{
    if rows == 0 || cols == 0 {
        return CharArray::empty();
    }
    let ghost tv = texts.deep_view();
    let total = texts.len();
    proof {
        lemma_widths_bound(tv, rows as int, cols as int);
    }
    let mut widths: Vec<usize> = Vec::new();
    let mut total_width: usize = 0;
    let mut c: usize = 0;
    while c < cols
        invariant
            texts@.len() == rows * cols,
            total == texts@.len(),
            tv == texts.deep_view(),
            rows > 0,
            c <= cols,
            rows * (widths_sum(tv, rows as int, cols as int) + 2 * cols) <= usize::MAX,
            forall|k: int| 0 <= k <= cols ==> 0 <= #[trigger] widths_sum(tv, rows as int, k) <= widths_sum(tv, rows as int, cols as int),
            widths@.len() == c,
            total_width == widths_sum(tv, rows as int, c as int),
            forall|k: int| 0 <= k < c ==> widths@[k] as int == #[trigger] widest(tv, rows as int, k, rows as int),
        decreases cols - c,
    {
        let mut w: usize = 0;
        let mut r: usize = 0;
        while r < rows
            invariant
                texts@.len() == rows * cols,
                total == texts@.len(),
                tv == texts.deep_view(),
                c < cols,
                r <= rows,
                w as int == widest(tv, rows as int, c as int, r as int),
            decreases rows - r,
        {
            proof {
                assert(r + c * rows < rows * cols) by (nonlinear_arith)
                    requires
                        r < rows,
                        c < cols,
                ;
            }
            let idx = r + c * rows;
            let len = texts[idx].len();
            assert(tv[idx as int] == texts@[idx as int]@);
            if len > w {
                w = len;
            }
            r = r + 1;
        }
        proof {
            assert(widths_sum(tv, rows as int, c + 1) == total_width + w);
            assert(rows * (widths_sum(tv, rows as int, cols as int) + 2 * cols) >= widths_sum(tv, rows as int, cols as int)) by (nonlinear_arith)
                requires
                    rows > 0,
                    widths_sum(tv, rows as int, cols as int) >= 0,
            ;
        }
        widths.push(w);
        total_width = total_width + w;
        c = c + 1;
    }
    proof {
        assert(rows * (widths_sum(tv, rows as int, cols as int) + 2 * cols) >= widths_sum(tv, rows as int, cols as int) + 2 * cols) by (nonlinear_arith)
            requires
                rows > 0,
                widths_sum(tv, rows as int, cols as int) >= 0,
        ;
    }
    let width = total_width + 2 * (cols - 1);
    let mut out: Vec<char> = Vec::new();
    let mut r: usize = 0;
    while r < rows
        invariant
            texts@.len() == rows * cols,
            total == texts@.len(),
            tv == texts.deep_view(),
            widths@.len() == cols,
            forall|k: int| 0 <= k < cols ==> widths@[k] as int == #[trigger] widest(tv, rows as int, k, rows as int),
            r <= rows,
            cols > 0,
            out@ == int_rows(tv, rows as int, cols as int, r as int),
        decreases rows - r,
    {
        let ghost before = out@;
        let mut c: usize = 0;
        while c < cols
            invariant
                texts@.len() == rows * cols,
                total == texts@.len(),
                tv == texts.deep_view(),
                widths@.len() == cols,
                forall|k: int| 0 <= k < cols ==> widths@[k] as int == #[trigger] widest(tv, rows as int, k, rows as int),
                r < rows,
                c <= cols,
                out@ == before + int_line(tv, rows as int, c as int, r as int),
            decreases cols - c,
        {
            proof {
                assert(r + c * rows < rows * cols) by (nonlinear_arith)
                    requires
                        r < rows,
                        c < cols,
                ;
            }
            let ghost mid = out@;
            if c > 0 {
                out.push(' ');
                out.push(' ');
            }
            let idx = r + c * rows;
            assert(tv[idx as int] == texts@[idx as int]@);
            push_right_aligned(&mut out, texts[idx].as_slice(), widths[c]);
            proof {
                assert(widths@[c as int] as int == widest(tv, rows as int, c as int, rows as int));
                assert(out@ =~= mid + int_cell(tv, rows as int, r as int, c as int));
                assert(out@ =~= before + int_line(tv, rows as int, (c + 1) as int, r as int));
            }
            c = c + 1;
        }
        proof {
            assert(out@ =~= int_rows(tv, rows as int, cols as int, (r + 1) as int));
        }
        r = r + 1;
    }
    proof {
        lemma_data_len(tv, rows as int, cols as int, rows as int);
    }
    CharArray { data: out, rows, cols: width }
}

proof fn lemma_widths_bound(texts: Seq<Seq<char>>, rows: int, cols: int)
    requires
        0 <= cols,
        0 <= rows,
    ensures
        forall|k: int| 0 <= k <= cols ==> 0 <= #[trigger] widths_sum(texts, rows, k) <= widths_sum(texts, rows, cols),
    decreases cols,
{
    if cols > 0 {
        lemma_widths_bound(texts, rows, cols - 1);
        lemma_widest(texts, rows, cols - 1, rows, 0);
        assert forall|k: int| 0 <= k <= cols implies 0 <= #[trigger] widths_sum(texts, rows, k) <= widths_sum(texts, rows, cols) by {
            if k < cols {
                assert(0 <= widths_sum(texts, rows, k) <= widths_sum(texts, rows, cols - 1));
            } else {
                assert(0 <= widths_sum(texts, rows, cols - 1));
            }
        }
    }
}

/// What `int2str` formats, by argument kind.
pub enum Int2strInput {
    /// A real scalar (double, integer or logical).
    Scalar,
    /// A real or logical array of the given shape.
    Array(Vec<usize>),
    /// Any other value, with its debug description.
    Other(String),
}

/// The extent of the matrix `int2str` formats: one by one for a scalar,
/// the array's rows and columns for a matrix, or the error for an array of
/// more than two dimensions or a value that is not real numeric.
pub fn matrix_extent(input: &Int2strInput) -> (r: Result<(usize, usize), RuntimeError>)
    ensures
        match *input {
            Int2strInput::Scalar => r == Ok::<(usize, usize), RuntimeError>((1usize, 1usize)),
            Int2strInput::Array(shape) => if shape@.len() > 2 {
                r matches Err(e) && e.message@ == "int2str: input must be scalar, vector, or 2-D matrix"@ && opt_view(
                    e.identifier,
                ) == Some("RunMat:int2str:InvalidInput"@)
            } else {
                r == Ok::<(usize, usize), RuntimeError>((
                    if shape@.len() > 0 { shape@[0] } else { 1usize },
                    if shape@.len() > 1 { shape@[1] } else { 1usize },
                ))
            },
            Int2strInput::Other(desc) => r matches Err(e) && e.message@ == "int2str: unsupported input type "@ + desc@
                + "; expected real numeric or logical values"@ && opt_view(e.identifier) == Some("RunMat:int2str:InvalidInput"@),
        },
{
    match input {
        Int2strInput::Scalar => Ok((1, 1)),
        Int2strInput::Array(shape) => {
            if shape.len() > 2 {
                let d = int2str_error_invalid_input();
                Err(descriptor_error_with_message(
                    &d,
                    String::from_str("int2str: input must be scalar, vector, or 2-D matrix"),
                    "int2str",
                ))
            } else {
                let rows = if shape.len() > 0 { shape[0] } else { 1 };
                let cols = if shape.len() > 1 { shape[1] } else { 1 };
                Ok((rows, cols))
            }
        },
        Int2strInput::Other(desc) => {
            let mut cs = str_chars("int2str: unsupported input type ");
            let d = str_chars(desc.as_str());
            push_all(&mut cs, d.as_slice());
            let t = str_chars("; expected real numeric or logical values");
            push_all(&mut cs, t.as_slice());
            let ed = int2str_error_invalid_input();
            Err(descriptor_error_with_message(&ed, chars_to_string(cs.as_slice()), "int2str"))
        },
    }
}

/// Attributes an error raised while gathering the argument to `int2str`.
pub fn remap_int2str_flow(err: RuntimeError) -> (e: RuntimeError)
    ensures
        e.message@ == err.message@,
        opt_view(e.identifier) == opt_view(err.identifier),
        opt_view(e.builtin) == (match err.builtin {
            Some(b) => Some(b@),
            None => Some("int2str"@),
        }),
{
    map_control_flow_with_builtin(err, "int2str")
}

/// Acceleration metadata of `int2str`: data is gathered before formatting.
pub fn int2str_gpu_spec() -> (g: BuiltinGpuSpec)
    ensures
        g.name@ == "int2str"@,
{
    host_gpu_spec(
        "int2str",
        "conversion",
        "Always gathers GPU data to host memory before rounding and formatting integer text.",
    )
}

fn int2str_error_invalid_input() -> (e: BuiltinErrorDescriptor)
    ensures
        e.code@ == "RM.INT2STR.INVALID_INPUT"@,
        e.identifier matches Some(i) && i@ == "RunMat:int2str:InvalidInput"@,
        e.message@ == "int2str: unsupported input type"@,
{
    error_descriptor(
        "RM.INT2STR.INVALID_INPUT",
        "RunMat:int2str:InvalidInput",
        "Input value is not a supported numeric/logical scalar, vector, or matrix.",
        "int2str: unsupported input type",
    )
}

fn int2str_error_internal() -> (e: BuiltinErrorDescriptor)
    ensures
        e.code@ == "RM.INT2STR.INTERNAL"@,
        e.identifier matches Some(i) && i@ == "RunMat:int2str:InternalError"@,
        e.message@ == "int2str: internal error"@,
{
    error_descriptor(
        "RM.INT2STR.INTERNAL",
        "RunMat:int2str:InternalError",
        "Internal char-array assembly failed.",
        "int2str: internal error",
    )
}

/// Descriptor of `int2str`.
pub fn int2str_descriptor() -> (d: BuiltinDescriptor)
    ensures
        d.labels() == seq!["str = int2str(X)"@],
        d.codes() == seq!["RM.INT2STR.INVALID_INPUT"@, "RM.INT2STR.INTERNAL"@],
        d.output_mode == BuiltinOutputMode::Fixed,
{
    let s0 = signature(
        "str = int2str(X)",
        vec![
            param(
                "X",
                BuiltinParamType::Any,
                BuiltinParamArity::Required,
                "Numeric or logical scalar/vector/matrix input.",
            ),
        ],
        vec![
            param(
                "str",
                BuiltinParamType::Any,
                BuiltinParamArity::Required,
                "Character array containing the rounded integer values.",
            ),
        ],
    );
    let d = BuiltinDescriptor {
        signatures: vec![s0],
        output_mode: BuiltinOutputMode::Fixed,
        completion_policy: BuiltinCompletionPolicy::Public,
        errors: vec![int2str_error_invalid_input(), int2str_error_internal()],
    };
    assert(d.labels() =~= seq!["str = int2str(X)"@]);
    assert(d.codes() =~= seq!["RM.INT2STR.INVALID_INPUT"@, "RM.INT2STR.INTERNAL"@]);
    d
}

} // verus!
