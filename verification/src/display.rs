//! `display`: the command-window text of a value. Real scalars render as a
//! right-aligned field of at least six columns followed by a blank line,
//! real matrices as contiguous fields of at least six columns, and char
//! arrays as their bare rows.

use vstd::prelude::*;
use crate::descriptor::{
    error_descriptor_anonymous, param, signature, BuiltinCompletionPolicy, BuiltinDescriptor,
    BuiltinErrorDescriptor, BuiltinOutputMode, BuiltinParamArity, BuiltinParamType,
};
use crate::text::{chars_to_string, join_pieces, push_all, push_right_aligned, right_align};
use crate::value::CharArray;
use crate::error::{descriptor_error, opt_view, RuntimeError};

verus! {

/// Minimum field width of the numeric layout.
pub const NUMERIC_MIN_FIELD_WIDTH: usize = 6;

/// Text of a real scalar whose formatted number is `field`.
pub open spec fn scalar_text_spec(field: Seq<char>) -> Seq<char> {
    let width = if field.len() > 6 { field.len() as int } else { 6int };
    right_align(field, width) + seq!['\n', '\n']
}

/// Right-align a scalar field to the minimum numeric width and append the
/// line break and the trailing blank line: `"    42\n\n"`.
pub fn scalar_text(field: &[char]) -> (r: String)
    ensures
        r@ == scalar_text_spec(field@),
{
    let width = if field.len() > NUMERIC_MIN_FIELD_WIDTH {
        field.len()
    } else {
        NUMERIC_MIN_FIELD_WIDTH
    };
    let mut out: Vec<char> = Vec::new();
    push_right_aligned(&mut out, field, width);
    out.push('\n');
    out.push('\n');
    proof {
        assert(out@ =~= scalar_text_spec(field@));
    }
    chars_to_string(out.as_slice())
}

/// Width of column `c` of a `rows`-row grid of fields stored column by
/// column: the widest field of the column, at least six.
pub open spec fn column_width(fields: Seq<Seq<char>>, rows: int, c: int) -> int {
    max_field_len(fields, rows, c, rows)
}

/// Widest field among rows `0..k` of column `c`, at least six.
pub open spec fn max_field_len(fields: Seq<Seq<char>>, rows: int, c: int, k: int) -> int
    decreases k,
{
    if k <= 0 {
        6
    } else {
        let rest = max_field_len(fields, rows, c, k - 1);
        let l = fields[(k - 1) + c * rows].len() as int;
        if l > rest { l } else { rest }
    }
}

/// One line of the grid: the fields of row `r`, each right-aligned to its
/// column's width, then a line break.
pub open spec fn grid_line(fields: Seq<Seq<char>>, rows: int, cols: int, r: int) -> Seq<char> {
    join_pieces(cols, |c: int| right_align(fields[r + c * rows], column_width(fields, rows, c)))
        + seq!['\n']
}

/// Text of a grid: its lines, then a blank line.
pub open spec fn grid_text_spec(fields: Seq<Seq<char>>, rows: int, cols: int) -> Seq<char> {
    join_pieces(rows, |r: int| grid_line(fields, rows, cols, r)) + seq!['\n']
}

/// Render a 2-D grid of formatted numbers (stored column by column) as
/// contiguous right-aligned fields of at least six columns, one line per
/// row, then a blank line: `"     1     2     3\n\n"`.
pub fn grid_text(rows: usize, cols: usize, fields: &Vec<Vec<char>>) -> (r: String)
    requires
        fields@.len() == rows * cols,
    ensures
        r@ == grid_text_spec(fields.deep_view(), rows as int, cols as int),
{
    let ghost fv = fields.deep_view();
    let total = fields.len();
    let mut widths: Vec<usize> = Vec::new();
    let mut c: usize = 0;
    while c < cols
        invariant
            fields@.len() == rows * cols,
            total == fields@.len(),
            fv == fields.deep_view(),
            c <= cols,
            widths@.len() == c,
            forall|k: int| 0 <= k < c ==> widths@[k] as int == #[trigger] column_width(fv, rows as int, k),
        decreases cols - c,
    {
        let mut w: usize = NUMERIC_MIN_FIELD_WIDTH;
        let mut r: usize = 0;
        while r < rows
            invariant
                fields@.len() == rows * cols,
                total == fields@.len(),
                fv == fields.deep_view(),
                c < cols,
                r <= rows,
                w as int == max_field_len(fv, rows as int, c as int, r as int),
            decreases rows - r,
        {
            proof {
                assert(r + c * rows < rows * cols && c * rows <= rows * cols) by (nonlinear_arith)
                    requires
                        r < rows,
                        c < cols,
                ;
            }
            let idx = r + c * rows;
            let len = fields[idx].len();
            assert(fv[idx as int] == fields@[idx as int]@);
            if len > w {
                w = len;
            }
            r = r + 1;
        }
        widths.push(w);
        c = c + 1;
    }
    let mut out: Vec<char> = Vec::new();
    let mut r: usize = 0;
    while r < rows
        invariant
            fields@.len() == rows * cols,
            total == fields@.len(),
            fv == fields.deep_view(),
            widths@.len() == cols,
            forall|k: int| 0 <= k < cols ==> widths@[k] as int == #[trigger] column_width(fv, rows as int, k),
            r <= rows,
            out@ == join_pieces(r as int, |i: int| grid_line(fv, rows as int, cols as int, i)),
        decreases rows - r,
    {
        let ghost before = out@;
        let ghost line_fn = |c: int| right_align(fv[r + c * rows], column_width(fv, rows as int, c));
        let mut c: usize = 0;
        while c < cols
            invariant
                fields@.len() == rows * cols,
                total == fields@.len(),
                fv == fields.deep_view(),
                widths@.len() == cols,
                forall|k: int| 0 <= k < cols ==> widths@[k] as int == #[trigger] column_width(fv, rows as int, k),
                r < rows,
                c <= cols,
                line_fn == (|c: int| right_align(fv[r + c * rows], column_width(fv, rows as int, c))),
                out@ == before + join_pieces(c as int, line_fn),
            decreases cols - c,
        {
            proof {
                assert(r + c * rows < rows * cols && c * rows <= rows * cols) by (nonlinear_arith)
                    requires
                        r < rows,
                        c < cols,
                ;
            }
            let idx = r + c * rows;
            assert(fv[idx as int] == fields@[idx as int]@);
            push_right_aligned(&mut out, fields[idx].as_slice(), widths[c]);
            proof {
                assert(widths@[c as int] as int == column_width(fv, rows as int, c as int));
                assert(out@ =~= before + join_pieces((c + 1) as int, line_fn));
            }
            c = c + 1;
        }
        out.push('\n');
        proof {
            assert(out@ =~= join_pieces((r + 1) as int, |i: int| grid_line(fv, rows as int, cols as int, i)));
        }
        r = r + 1;
    }
    out.push('\n');
    chars_to_string(out.as_slice())
}

/// Text of a char array: each row on its own line; an empty array is a
/// single line break.
pub open spec fn char_text_spec(a: CharArray) -> Seq<char> {
    if a.rows == 0 || a.cols == 0 {
        seq!['\n']
    } else {
        join_pieces(a.rows as int, |r: int| a.row(r) + seq!['\n'])
    }
}

/// Char arrays: one bare line per row, a single trailing line break, no
/// blank line.
pub fn char_text(array: &CharArray) -> (r: String)
    requires
        array.wf(),
    ensures
        r@ == char_text_spec(*array),
{
    if array.rows == 0 || array.cols == 0 {
        let mut out: Vec<char> = Vec::new();
        out.push('\n');
        return chars_to_string(out.as_slice());
    }
    let mut out: Vec<char> = Vec::new();
    let mut r: usize = 0;
    let total = array.data.len();
    while r < array.rows
        invariant
            array.wf(),
            total == array.data@.len(),
            r <= array.rows,
            array.cols > 0,
            out@ == join_pieces(r as int, |i: int| array.row(i) + seq!['\n']),
        decreases array.rows - r,
    {
        proof {
            assert((r + 1) * array.cols <= array.rows * array.cols && r * array.cols <= (r + 1)
                * array.cols) by (nonlinear_arith)
                requires
                    r < array.rows,
            ;
            assert(r * array.cols + array.cols == (r + 1) * array.cols) by (nonlinear_arith);
        }
        let start = r * array.cols;
        let ghost before = out@;
        let mut k: usize = 0;
        while k < array.cols
            invariant
                array.wf(),
                total == array.data@.len(),
                r < array.rows,
                start == r * array.cols,
                start + array.cols <= array.data@.len(),
                k <= array.cols,
                out@ == before + array.data@.subrange(start as int, start + k),
            decreases array.cols - k,
        {
            out.push(array.data[start + k]);
            k = k + 1;
        }
        out.push('\n');
        proof {
            assert(out@ =~= join_pieces((r + 1) as int, |i: int| array.row(i) + seq!['\n']));
        }
        r = r + 1;
    }
    chars_to_string(out.as_slice())
}

/// Dimensions of a shape as at least two extents: `[]` is 1-by-1 and `[n]`
/// is 1-by-n.
pub open spec fn canonical_dims_spec(shape: Seq<usize>) -> Seq<usize> {
    if shape.len() == 0 {
        seq![1, 1]
    } else if shape.len() == 1 {
        seq![1, shape[0]]
    } else {
        shape
    }
}

pub fn canonical_dims(shape: &[usize]) -> (r: Vec<usize>)
    ensures
        r@ == canonical_dims_spec(shape@),
{
    if shape.len() == 0 {
        vec![1, 1]
    } else if shape.len() == 1 {
        vec![1, shape[0]]
    } else {
        let mut r: Vec<usize> = Vec::new();
        let mut i: usize = 0;
        while i < shape.len()
            invariant
                i <= shape@.len(),
                r@ == shape@.subrange(0, i as int),
            decreases shape@.len() - i,
        {
            r.push(shape[i]);
            i = i + 1;
        }
        r
    }
}

/// A value as `display` sees it: real numbers come already formatted, one
/// text per element.
pub enum DisplayInput {
    /// Real double scalar with its formatted text.
    Scalar(Vec<char>),
    /// Real double array of the given shape, with one formatted text per
    /// element in storage (column-major) order.
    Tensor(Vec<usize>, Vec<Vec<char>>),
    CharArray(CharArray),
    /// Any other value; it is rendered by `disp` followed by a blank line.
    Other,
}

/// Product of a shape's extents.
pub open spec fn shape_product(shape: Seq<usize>) -> int
    decreases shape.len(),
{
    if shape.len() == 0 {
        1
    } else {
        shape_product(shape.drop_last()) * shape.last()
    }
}

/// The display text derived from the observed layouts, or `None` for value
/// kinds that are delegated: one-element tensors take the scalar path, 2-D
/// nonempty tensors the grid path, char arrays the bare-row path.
pub open spec fn format_display_spec(v: DisplayInput) -> Option<Seq<char>> {
    match v {
        DisplayInput::Scalar(f) => Some(scalar_text_spec(f@)),
        DisplayInput::Tensor(shape, fields) => {
            let dims = canonical_dims_spec(shape@);
            if fields@.len() == 1 {
                Some(scalar_text_spec(fields@[0]@))
            } else if fields@.len() == 0 || dims.len() > 2 || dims.contains(0) {
                None
            } else {
                Some(grid_text_spec(fields.deep_view(), dims[0] as int, dims[1] as int))
            }
        },
        DisplayInput::CharArray(a) => Some(char_text_spec(a)),
        DisplayInput::Other => None,
    }
}

/// Text `display` prints for `value`, complete with every trailing line
/// break, or `None` when the value kind is delegated to `disp`.
pub fn format_display_text(value: &DisplayInput) -> (r: Option<String>)
    requires
        value matches DisplayInput::Tensor(shape, fields) ==> fields@.len() == shape_product(
            canonical_dims_spec(shape@),
        ),
        value matches DisplayInput::CharArray(a) ==> a.wf(),
    ensures
        match (r, format_display_spec(*value)) {
            (Some(s), Some(t)) => s@ == t,
            (None, None) => true,
            _ => false,
        },
{
    match value {
        DisplayInput::Scalar(f) => Some(scalar_text(f.as_slice())),
        DisplayInput::Tensor(shape, fields) => {
            if fields.len() == 1 {
                return Some(scalar_text(fields[0].as_slice()));
            }
            let dims = canonical_dims(shape.as_slice());
            let mut has_zero = false;
            let mut i: usize = 0;
            while i < dims.len()
                invariant
                    i <= dims@.len(),
                    has_zero == exists|k: int| 0 <= k < i && dims@[k] == 0,
                decreases dims@.len() - i,
            {
                if dims[i] == 0 {
                    has_zero = true;
                }
                i = i + 1;
            }
            proof {
                if has_zero {
                    let k = choose|k: int| 0 <= k < dims@.len() && dims@[k] == 0;
                    assert(dims@.contains(0usize));
                }
            }
            if fields.len() == 0 || dims.len() > 2 || has_zero {
                return None;
            }
            proof {
                let d = dims@;
                assert(d.len() == 2);
                assert(d.drop_last().drop_last() =~= Seq::<usize>::empty());
                assert(shape_product(d.drop_last().drop_last()) == 1);
                assert(shape_product(d.drop_last()) == 1 * d[0]);
                assert(1 * d[0] == d[0]);
                assert(shape_product(d) == d[0] * d[1]);
            }
            Some(grid_text(dims[0], dims[1], fields))
        },
        DisplayInput::CharArray(a) => Some(char_text(a)),
        DisplayInput::Other => None,
    }
}

/// What `display(X, rest...)` prints: the two-argument form is refused;
/// otherwise the text of `format_display_text`, or `None` when the value is
/// to be rendered by `disp` followed by one blank line.
pub fn display_output(value: &DisplayInput, extra_args: usize) -> (r: Result<Option<String>, RuntimeError>)
    requires
        value matches DisplayInput::Tensor(shape, fields) ==> fields@.len() == shape_product(
            canonical_dims_spec(shape@),
        ),
        value matches DisplayInput::CharArray(a) ==> a.wf(),
    ensures
        extra_args > 0 ==> (r matches Err(e) && e.message@ == "display: the two-argument form is not yet specified"@
            && opt_view(e.builtin) == Some("display"@) && e.identifier is None),
        extra_args == 0 ==> (r matches Ok(o) && match (o, format_display_spec(*value)) {
            (Some(s), Some(t)) => s@ == t,
            (None, None) => true,
            _ => false,
        }),
{
    if extra_args > 0 {
        return Err(descriptor_error(&display_error_name_unsupported(), "display"));
    }
    Ok(format_display_text(value))
}

fn display_error_name_unsupported() -> (e: BuiltinErrorDescriptor)
    ensures
        e.code@ == "RM.DISPLAY.ARG_UNSUPPORTED"@,
        e.identifier is None,
        e.message@ == "display: the two-argument form is not yet specified"@,
{
    error_descriptor_anonymous(
        "RM.DISPLAY.ARG_UNSUPPORTED",
        "A second argument is passed to display.",
        "display: the two-argument form is not yet specified",
    )
}

/// Descriptor of `display`.
pub fn display_descriptor() -> (d: BuiltinDescriptor)
    ensures
        d.labels() == seq!["display(X)"@],
        d.codes() == seq![
            "RM.DISPLAY.ARG_UNSUPPORTED"@,
            "RM.DISPLAY.GATHER"@,
            "RM.DISPLAY.RENDER"@,
        ],
        d.output_mode == BuiltinOutputMode::Fixed,
{
    let s = signature(
        "display(X)",
        vec![
            param(
                "X",
                BuiltinParamType::Any,
                BuiltinParamArity::Required,
                "Value to display in the Command Window.",
            ),
        ],
        vec![
            param(
                "ans",
                BuiltinParamType::NumericArray,
                BuiltinParamArity::Required,
                "Empty matrix placeholder returned by sink invocation.",
            ),
        ],
    );
    let d = BuiltinDescriptor {
        signatures: vec![s],
        output_mode: BuiltinOutputMode::Fixed,
        completion_policy: BuiltinCompletionPolicy::Public,
        errors: vec![
            display_error_name_unsupported(),
            error_descriptor_anonymous(
                "RM.DISPLAY.GATHER",
                "Input value cannot be gathered onto the host for rendering.",
                "display: failed to gather value for display",
            ),
            error_descriptor_anonymous(
                "RM.DISPLAY.RENDER",
                "Delegated rendering of an unobserved value kind fails.",
                "display: failed to render value",
            ),
        ],
    };
    assert(d.labels() =~= seq!["display(X)"@]);
    assert(d.codes() =~= seq![
        "RM.DISPLAY.ARG_UNSUPPORTED"@,
        "RM.DISPLAY.GATHER"@,
        "RM.DISPLAY.RENDER"@,
    ]);
    d
}

} // verus!
