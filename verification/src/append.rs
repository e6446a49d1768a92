//! `append`: text pieces concatenated in order, element by element with
//! MATLAB broadcasting; the result is a string when any input is one, else
//! a character array.

use vstd::prelude::*;
use crate::broadcast::{agree, agree_upto, bidx, broadcast_index, broadcast_shapes, broadcast_spec, extent, fits, lemma_fits_broadcast, max_len};
use crate::descriptor::{error_descriptor, param, signature, unfused_spec, BroadcastSemantics, BuiltinCompletionPolicy, BuiltinDescriptor, BuiltinErrorDescriptor, BuiltinFusionSpec, BuiltinGpuSpec, BuiltinOutputMode, BuiltinParamArity, BuiltinParamType, ConstantStrategy, GpuOpKind, ReductionNaN, ResidencyPolicy, ShapeRequirements};
use crate::digits::{base_text, decimal_text};
use crate::error::{descriptor_error, descriptor_error_with_message, map_control_flow_with_builtin, opt_view, RuntimeError};
use crate::shape::prod;
use crate::text::{chars_to_string, push_all, str_chars};
use crate::value::{CharArray, StringArray, Value};

verus! {

/// Text class of one input.
#[derive(PartialEq, Eq, Structural, Clone, Copy, Debug)]
pub enum OperandKind {
    String,
    Char,
}

/// Class of the result.
#[derive(PartialEq, Eq, Structural, Clone, Copy, Debug)]
pub enum OutputKind {
    Char,
    String,
}

impl OutputKind {
    /// Any string input makes the result a string; only character inputs
    /// keep it a character array.
    pub fn update(self, operand_kind: OperandKind) -> (r: OutputKind)
        ensures
            r == (if operand_kind == OperandKind::String || self == OutputKind::String {
                OutputKind::String
            } else {
                OutputKind::Char
            }),
    {
        match (self, operand_kind) {
            (_, OperandKind::String) => OutputKind::String,
            (OutputKind::String, _) => OutputKind::String,
            _ => OutputKind::Char,
        }
    }
}

/// The number of elements of a two-extent shape.
pub proof fn lemma_prod_pair(a: usize, b: usize)
    ensures
        prod(seq![a, b]) == (a as nat) * (b as nat),
{
    let s = seq![a, b];
    let h = seq![a];
    assert(s.drop_last() =~= h);
    assert(h.drop_last() =~= Seq::<usize>::empty());
    assert(prod(Seq::<usize>::empty()) == 1);
    assert(h.last() == a);
    assert(prod(h) == prod(h.drop_last()) * (h.last() as nat));
    assert(prod(h) == (a as nat));
    assert(s.last() == b);
}

/// One input as pieces of text (column-major) with its shape.
pub struct TextOperand {
    pub data: Vec<String>,
    pub shape: Vec<usize>,
    pub kind: OperandKind,
}

impl TextOperand {
    /// One piece per element of the shape.
    pub open spec fn wf(&self) -> bool {
        self.data@.len() == prod(self.shape@)
    }

    /// The pieces' texts.
    pub open spec fn texts(&self) -> Seq<Seq<char>> {
        self.data@.map_values(|s: String| s@)
    }

    /// A string is one piece of shape 1-by-1.
    pub fn from_string_scalar(text: String) -> (op: TextOperand)
        ensures
            op.wf(),
            op.texts() == seq![text@],
            op.shape@ == seq![1usize, 1usize],
            op.kind == OperandKind::String,
    {
        let shape = vec![1usize, 1usize];
        let op = TextOperand { data: vec![text], shape, kind: OperandKind::String };
        proof {
            assert(op.shape@ =~= seq![1usize, 1usize]);
            lemma_prod_pair(1, 1);
            assert(op.texts() =~= seq![text@]);
        }
        op
    }

    /// A string array keeps its elements and shape.
    pub fn from_string_array(array: StringArray) -> (op: TextOperand)
        requires
            array.data@.len() == prod(array.shape@),
        ensures
            op.wf(),
            op.data@ == array.data@,
            op.shape@ == array.shape@,
            op.kind == OperandKind::String,
    {
        TextOperand { data: array.data, shape: array.shape, kind: OperandKind::String }
    }

    /// A character array is one piece per row, trailing blanks kept, of
    /// shape rows-by-1.
    pub fn from_char_array(array: &CharArray) -> (op: TextOperand)
        requires
            array.wf(),
        ensures
            op.wf(),
            op.data@.len() == array.rows,
            forall|r: int| 0 <= r < array.rows ==> (#[trigger] op.data@[r])@ == array.row(r),
            op.shape@ == seq![array.rows, 1usize],
            op.kind == OperandKind::Char,
    {
        let rows = array.rows;
        let cols = array.cols;
        let total = array.data.len();
        let mut data: Vec<String> = Vec::new();
        let mut r: usize = 0;
        while r < rows
            invariant
                array.wf(),
                rows == array.rows,
                cols == array.cols,
                total == array.data@.len(),
                r <= rows,
                data@.len() == r,
                forall|k: int| 0 <= k < r ==> (#[trigger] data@[k])@ == array.row(k),
            decreases rows - r,
        {
            proof {
                assert(r * cols + cols <= rows * cols) by (nonlinear_arith)
                    requires
                        r < rows,
                ;
            }
            let start = r * cols;
            let mut row: Vec<char> = Vec::new();
            let mut c: usize = 0;
            while c < cols
                invariant
                    array.wf(),
                    cols == array.cols,
                    total == array.data@.len(),
                    start + cols <= array.data@.len(),
                    c <= cols,
                    row@ == array.data@.subrange(start as int, start + c),
                decreases cols - c,
            {
                row.push(array.data[start + c]);
                c = c + 1;
            }
            data.push(chars_to_string(row.as_slice()));
            r = r + 1;
        }
        let shape = vec![rows, 1usize];
        proof {
            assert(shape@ =~= seq![rows, 1usize]);
            lemma_prod_pair(rows, 1);
        }
        TextOperand { data, shape, kind: OperandKind::Char }
    }
}

/// The value's text pieces are consistent with its shape.
pub open spec fn text_value_wf(v: Value) -> bool {
    match v {
        Value::StringArray(sa) => sa.data@.len() == prod(sa.shape@),
        Value::CharArray(ca) => ca.wf(),
        _ => true,
    }
}

/// The text pieces `append` reads from a text input, in column-major order.
pub open spec fn operand_texts(v: Value) -> Seq<Seq<char>> {
    match v {
        Value::String(s) => seq![s@],
        Value::StringArray(sa) => sa.data@.map_values(|s: String| s@),
        Value::CharArray(ca) => Seq::new(ca.rows as nat, |r: int| ca.row(r)),
        _ => Seq::empty(),
    }
}

/// The shape `append` gives a text input.
pub open spec fn operand_shape(v: Value) -> Seq<usize> {
    match v {
        Value::StringArray(sa) => sa.shape@,
        Value::CharArray(ca) => seq![ca.rows, 1usize],
        _ => seq![1usize, 1usize],
    }
}

/// The value is text: a string, a string array or a character array.
pub open spec fn is_text(v: Value) -> bool {
    v is String || v is StringArray || v is CharArray
}

/// The error is an `append` error with this identifier and message.
pub open spec fn append_error_is(e: RuntimeError, ident: Seq<char>, msg: Seq<char>) -> bool {
    &&& e.message@ == msg
    &&& opt_view(e.builtin) == Some("append"@)
    &&& opt_view(e.identifier) == Some(ident)
}

/// An input as text pieces, or the error for an input that is not text.
pub fn operand_from_value(value: Value) -> (r: Result<TextOperand, RuntimeError>)
    requires
        text_value_wf(value),
    ensures
        is_text(value) ==> (r matches Ok(op) && op.wf() && op.shape@ == operand_shape(value) && op.texts() == operand_texts(value) && op.kind == (if value is CharArray {
            OperandKind::Char
        } else {
            OperandKind::String
        })),
        !is_text(value) ==> (r matches Err(e) && append_error_is(
            e,
            "RunMat:append:InvalidInput"@,
            "append: inputs must be strings or character arrays"@,
        )),
{
    match value {
        Value::String(s) => Ok(TextOperand::from_string_scalar(s)),
        Value::StringArray(sa) => {
            let op = TextOperand::from_string_array(sa);
            assert(op.texts() =~= operand_texts(value));
            Ok(op)
        },
        Value::CharArray(ca) => {
            let op = TextOperand::from_char_array(&ca);
            assert(op.texts() =~= operand_texts(value));
            Ok(op)
        },
        _ => Err(descriptor_error(&append_error_invalid_input(), "append")),
    }
}

/// The class of the result for the first `n` inputs.
pub open spec fn output_kind_spec(vs: Seq<Value>, n: int) -> OutputKind
    decreases n,
{
    if n <= 0 {
        OutputKind::Char
    } else if vs[n - 1] is CharArray {
        output_kind_spec(vs, n - 1)
    } else {
        OutputKind::String
    }
}

/// Reads the inputs as text pieces: the error for no input or for the
/// first input that is not text, else one operand per input and the class
/// of the result.
pub fn append_operands(rest: Vec<Value>) -> (r: Result<(Vec<TextOperand>, OutputKind), RuntimeError>)
    requires
        forall|i: int| 0 <= i < rest@.len() ==> text_value_wf(#[trigger] rest@[i]),
    ensures
        rest@.len() == 0 ==> (r matches Err(e) && append_error_is(
            e,
            "RunMat:append:NotEnoughInputs"@,
            "append: not enough input arguments"@,
        )),
        rest@.len() > 0 && (exists|i: int| 0 <= i < rest@.len() && !is_text(#[trigger] rest@[i])) ==> (r matches Err(e)
            && append_error_is(e, "RunMat:append:InvalidInput"@, "append: inputs must be strings or character arrays"@)),
        rest@.len() > 0 && (forall|i: int| 0 <= i < rest@.len() ==> is_text(#[trigger] rest@[i])) ==> (r matches Ok((ops, kind))
            && ops@.len() == rest@.len() && kind == output_kind_spec(rest@, rest@.len() as int) && forall|i: int|
            0 <= i < ops@.len() ==> (#[trigger] ops@[i]).wf() && ops@[i].shape@ == operand_shape(rest@[i]) && ops@[i].texts()
                == operand_texts(rest@[i])),
{
    if rest.len() == 0 {
        return Err(descriptor_error(&append_error_not_enough_inputs(), "append"));
    }
    let ghost vs = rest@;
    let n = rest.len();
    let mut remaining = rest;
    let mut ops: Vec<TextOperand> = Vec::new();
    let mut kind = OutputKind::Char;
    let mut i: usize = 0;
    while i < n
        invariant
            n == vs.len(),
            forall|j: int| 0 <= j < vs.len() ==> text_value_wf(#[trigger] vs[j]),
            i <= n,
            remaining@ == vs.skip(i as int),
            vs == rest@,
            ops@.len() == i,
            kind == output_kind_spec(vs, i as int),
            forall|j: int| 0 <= j < i ==> is_text(#[trigger] vs[j]),
            forall|j: int| 0 <= j < i ==> (#[trigger] ops@[j]).wf() && ops@[j].shape@ == operand_shape(vs[j]) && ops@[j].texts()
                == operand_texts(vs[j]),
        decreases n - i,
    {
        let v = remaining.remove(0);
        assert(v == vs[i as int]);
        assert(remaining@ =~= vs.skip(i + 1));
        let is_char = match &v {
            Value::CharArray(_) => true,
            _ => false,
        };
        match operand_from_value(v) {
            Ok(op) => {
                let k = if is_char { OperandKind::Char } else { OperandKind::String };
                kind = kind.update(k);
                ops.push(op);
            },
            Err(e) => {
                return Err(e);
            },
        }
        i = i + 1;
    }
    Ok((ops, kind))
}

/// The first dimension below `n` where `a` and `b` disagree, or -1.
pub open spec fn first_clash(a: Seq<usize>, b: Seq<usize>, n: int) -> int
    decreases n,
{
    if n <= 0 {
        -1
    } else {
        let f = first_clash(a, b, n - 1);
        if f >= 0 {
            f
        } else if !agree(extent(a, n - 1), extent(b, n - 1)) {
            n - 1
        } else {
            -1
        }
    }
}

proof fn lemma_first_clash(a: Seq<usize>, b: Seq<usize>, n: int, k: int)
    requires
        0 <= n,
        agree_upto(a, b, if k < n { k } else { n }),
        k < n ==> k >= 0 && !agree(extent(a, k), extent(b, k)),
    ensures
        first_clash(a, b, n) == (if k < n { k } else { -1 }),
    decreases n,
{
    if n > 0 {
        lemma_first_clash(a, b, n - 1, k);
        if k >= n {
            assert(agree(extent(a, n - 1), extent(b, n - 1)));
        }
    }
}

/// The shape the first `n` shapes broadcast to, or where it first fails:
/// the dimension and the two extents there.
pub open spec fn fold_shape(shs: Seq<Seq<usize>>, n: int) -> Result<Seq<usize>, (int, usize, usize)>
    decreases n,
{
    if n <= 1 {
        Ok(shs[0])
    } else {
        match fold_shape(shs, n - 1) {
            Err(e) => Err(e),
            Ok(s) => {
                let b = shs[n - 1];
                let k = first_clash(s, b, max_len(s, b));
                if k < 0 {
                    Ok(broadcast_spec(s, b))
                } else {
                    Err((k, extent(s, k), extent(b, k)))
                }
            },
        }
    }
}

/// The shapes of the operands.
pub open spec fn shapes_of(ops: Seq<TextOperand>) -> Seq<Seq<usize>> {
    Seq::new(ops.len(), |i: int| ops[i].shape@)
}

/// The message of a broadcasting failure at dimension `k` (from zero).
pub open spec fn mismatch_message(k: int, x: usize, y: usize) -> Seq<char> {
    "append: array sizes are not compatible for broadcasting: append: size mismatch in dimension "@ + decimal_text(
        (k + 1) as nat,
    ) + " ("@ + decimal_text(x as nat) + " vs "@ + decimal_text(y as nat) + ")"@
}

fn mismatch_error(k: usize, x: usize, y: usize) -> (e: RuntimeError)
    requires
        k < usize::MAX,
    ensures
        append_error_is(e, "RunMat:append:SizeMismatch"@, mismatch_message(k as int, x, y)),
{
    let mut cs = str_chars("append: array sizes are not compatible for broadcasting: append: size mismatch in dimension ");
    let t = base_text((k + 1) as u64, 10);
    push_all(&mut cs, t.as_slice());
    let o = str_chars(" (");
    push_all(&mut cs, o.as_slice());
    let t = base_text(x as u64, 10);
    push_all(&mut cs, t.as_slice());
    let v = str_chars(" vs ");
    push_all(&mut cs, v.as_slice());
    let t = base_text(y as u64, 10);
    push_all(&mut cs, t.as_slice());
    let c = str_chars(")");
    push_all(&mut cs, c.as_slice());
    let d = append_error_size_mismatch();
    descriptor_error_with_message(&d, chars_to_string(cs.as_slice()), "append")
}

/// The shape all operands broadcast to, or the size-mismatch error at the
/// first operand that does not broadcast with the ones before it.
pub fn append_shape(ops: &Vec<TextOperand>) -> (r: Result<Vec<usize>, RuntimeError>)
    requires
        ops@.len() >= 1,
    ensures
        match fold_shape(shapes_of(ops@), ops@.len() as int) {
            Ok(s) => r matches Ok(out) && out@ == s && forall|k: int| 0 <= k < ops@.len() ==> fits(out@, #[trigger] ops@[k].shape@),
            Err((k, x, y)) => r matches Err(e) && append_error_is(e, "RunMat:append:SizeMismatch"@, mismatch_message(k, x, y)),
        },
{
    let ghost shs = shapes_of(ops@);
    let mut out: Vec<usize> = Vec::new();
    let first = &ops[0].shape;
    let mut t: usize = 0;
    while t < first.len()
        invariant
            t <= first@.len(),
            out@ == first@.take(t as int),
        decreases first@.len() - t,
    {
        out.push(first[t]);
        t = t + 1;
        assert(out@ =~= first@.take(t as int));
    }
    proof {
        assert(out@ =~= first@);
        assert(shs[0] == first@);
        assert forall|i: int| 0 <= i < out@.len() implies #[trigger] extent(first@, i) == out@[i] || extent(first@, i) == 1 by {
        }
    }
    let mut k: usize = 1;
    while k < ops.len()
        invariant
            1 <= k <= ops@.len(),
            shs == shapes_of(ops@),
            fold_shape(shs, k as int) == Ok::<Seq<usize>, (int, usize, usize)>(out@),
            forall|j: int| 0 <= j < k ==> fits(out@, #[trigger] ops@[j].shape@),
        decreases ops@.len() - k,
    {
        let b = &ops[k].shape;
        assert(shs[k as int] == b@);
        match broadcast_shapes(out.as_slice(), b.as_slice()) {
            Ok(s) => {
                proof {
                    lemma_first_clash(out@, b@, max_len(out@, b@), max_len(out@, b@));
                    assert forall|j: int| 0 <= j < k + 1 implies fits(s@, #[trigger] ops@[j].shape@) by {
                        if j < k {
                            lemma_fits_broadcast(out@, b@, ops@[j].shape@);
                        } else {
                            lemma_fits_broadcast(out@, b@, out@);
                        }
                    }
                }
                out = s;
            },
            Err((d, x, y)) => {
                proof {
                    lemma_first_clash(out@, b@, max_len(out@, b@), d as int);
                    assert forall|m: int| #![trigger fold_shape(shs, m)] k < m <= ops@.len() implies fold_shape(shs, m) == Err::<Seq<usize>, (int, usize, usize)>((d as int, x, y)) by {
                        lemma_fold_err_stays(shs, (k + 1) as int, m, (d as int, x, y));
                    }
                    assert(fold_shape(shs, ops@.len() as int) == Err::<Seq<usize>, (int, usize, usize)>((d as int, x, y)));
                }
                return Err(mismatch_error(d, x, y));
            },
        }
        k = k + 1;
    }
    Ok(out)
}

proof fn lemma_fold_err_stays(shs: Seq<Seq<usize>>, a: int, m: int, e: (int, usize, usize))
    requires
        2 <= a <= m,
        fold_shape(shs, a) == Err::<Seq<usize>, (int, usize, usize)>(e),
    ensures
        fold_shape(shs, m) == Err::<Seq<usize>, (int, usize, usize)>(e),
    decreases m - a,
{
    if m > a {
        lemma_fold_err_stays(shs, a, m - 1, e);
    }
}

/// The element count of a shape, or `None` when it exceeds `usize`.
pub fn shape_total(shape: &[usize]) -> (r: Option<usize>)
    ensures
        match r {
            Some(t) => t == prod(shape@),
            None => prod(shape@) > usize::MAX,
        },
{
    let mut z: usize = 0;
    while z < shape.len()
        invariant
            z <= shape@.len(),
            forall|k: int| 0 <= k < z ==> #[trigger] shape@[k] > 0,
        decreases shape@.len() - z,
    {
        if shape[z] == 0 {
            proof {
                crate::shape::lemma_prod_split(shape@, z as int);
                assert(prod(shape@) == 0) by (nonlinear_arith)
                    requires
                        prod(shape@) == prod(shape@.take(z as int)) * (shape@[z as int] as nat) * prod(shape@.skip(z + 1)),
                        shape@[z as int] == 0,
                ;
            }
            return Some(0);
        }
        z = z + 1;
    }
    let mut acc: usize = 1;
    let mut i: usize = 0;
    assert(shape@.take(0) =~= Seq::<usize>::empty());
    while i < shape.len()
        invariant
            i <= shape@.len(),
            forall|k: int| 0 <= k < shape@.len() ==> #[trigger] shape@[k] > 0,
            acc == prod(shape@.take(i as int)),
        decreases shape@.len() - i,
    {
        proof {
            crate::shape::lemma_prod_take_step(shape@, i as int);
        }
        match acc.checked_mul(shape[i]) {
            Some(v) => {
                acc = v;
            },
            None => {
                proof {
                    let hd = shape@.take(i + 1);
                    let tl = shape@.skip(i + 1);
                    assert(shape@ =~= hd + tl);
                    crate::shape::lemma_prod_append(hd, tl);
                    assert forall|k: int| 0 <= k < tl.len() implies #[trigger] tl[k] > 0 by {
                        assert(tl[k] == shape@[k + i + 1]);
                    }
                    crate::broadcast::lemma_prod_ge_one(tl);
                    assert(prod(hd) * prod(tl) >= prod(hd)) by (nonlinear_arith)
                        requires
                            prod(tl) >= 1,
                    ;
                }
                return None;
            },
        }
        i = i + 1;
    }
    assert(shape@.take(shape@.len() as int) =~= shape@);
    Some(acc)
}

/// The concatenation, at position `p` of the result of shape `out`, of the
/// pieces the first `k` operands broadcast there.
pub open spec fn concat_at(ops: Seq<TextOperand>, out: Seq<usize>, p: nat, k: int) -> Seq<char>
    decreases k,
{
    if k <= 0 {
        Seq::empty()
    } else {
        concat_at(ops, out, p, k - 1) + ops[k - 1].texts()[bidx(p, out, ops[k - 1].shape@) as int]
    }
}

/// Every element of the result: the operands' broadcast pieces joined in
/// order.
pub fn concatenate(ops: &Vec<TextOperand>, out: &Vec<usize>, total: usize) -> (res: Vec<String>)
    requires
        total == prod(out@),
        forall|k: int| 0 <= k < ops@.len() ==> (#[trigger] ops@[k]).wf() && fits(out@, ops@[k].shape@),
    ensures
        res@.len() == total,
        forall|p: int| 0 <= p < total ==> (#[trigger] res@[p])@ == concat_at(ops@, out@, p as nat, ops@.len() as int),
{
    let mut res: Vec<String> = Vec::new();
    let mut p: usize = 0;
    while p < total
        invariant
            total == prod(out@),
            forall|k: int| 0 <= k < ops@.len() ==> (#[trigger] ops@[k]).wf() && fits(out@, ops@[k].shape@),
            p <= total,
            res@.len() == p,
            forall|q: int| 0 <= q < p ==> (#[trigger] res@[q])@ == concat_at(ops@, out@, q as nat, ops@.len() as int),
        decreases total - p,
    {
        let mut buf: Vec<char> = Vec::new();
        let mut k: usize = 0;
        while k < ops.len()
            invariant
                p < total == prod(out@),
                forall|j: int| 0 <= j < ops@.len() ==> (#[trigger] ops@[j]).wf() && fits(out@, ops@[j].shape@),
                k <= ops@.len(),
                buf@ == concat_at(ops@, out@, p as nat, k as int),
            decreases ops@.len() - k,
        {
            let op = &ops[k];
            let n = op.data.len();
            let idx = broadcast_index(p, out.as_slice(), op.shape.as_slice());
            let piece = str_chars(op.data[idx].as_str());
            push_all(&mut buf, piece.as_slice());
            proof {
                assert(op.texts()[idx as int] == op.data@[idx as int]@);
            }
            k = k + 1;
        }
        res.push(chars_to_string(buf.as_slice()));
        p = p + 1;
    }
    res
}

/// The pieces make a scalar string: a shape with no extents or all ones.
pub open spec fn scalar_shape(shape: Seq<usize>) -> bool {
    forall|i: int| 0 <= i < shape.len() ==> shape[i] == 1
}

/// A string result: an empty array stays an array of its shape, a scalar
/// shape gives a string, any other shape a string array.
pub fn build_string_output(data: Vec<String>, shape: Vec<usize>) -> (v: Value)
    ensures
        data@.len() == 0 ==> v == Value::StringArray(StringArray { data, shape }),
        data@.len() > 0 && scalar_shape(shape@) ==> v == Value::String(data@[0]),
        data@.len() > 0 && !scalar_shape(shape@) ==> v == Value::StringArray(StringArray { data, shape }),
{
    if data.len() == 0 {
        return Value::StringArray(StringArray { data, shape });
    }
    let mut i: usize = 0;
    while i < shape.len()
        invariant
            i <= shape@.len(),
            forall|k: int| 0 <= k < i ==> shape@[k] == 1,
        decreases shape@.len() - i,
    {
        if shape[i] != 1 {
            return Value::StringArray(StringArray { data, shape });
        }
        i = i + 1;
    }
    let mut data = data;
    let first = data.swap_remove(0);
    Value::String(first)
}

/// `n` blanks.
pub open spec fn blanks(n: int) -> Seq<char> {
    Seq::new(n as nat, |i: int| ' ')
}

/// The most characters in one of the first `n` texts.
pub open spec fn max_chars(texts: Seq<Seq<char>>, n: int) -> int
    decreases n,
{
    if n <= 0 {
        0
    } else {
        let m = max_chars(texts, n - 1);
        if texts[n - 1].len() > m { texts[n - 1].len() as int } else { m }
    }
}

proof fn lemma_max_chars(texts: Seq<Seq<char>>, n: int, r: int)
    requires
        0 <= r < n,
    ensures
        texts[r].len() <= max_chars(texts, n),
    decreases n,
{
    if r < n - 1 {
        lemma_max_chars(texts, n - 1, r);
    }
}

/// A character result: one row per piece, padded with trailing blanks to
/// the longest; no piece gives a 0-by-0 array.
pub fn build_char_output(data: &Vec<String>) -> (a: CharArray)
    requires
        data@.len() * max_chars(data@.map_values(|s: String| s@), data@.len() as int) <= usize::MAX,
    ensures
        a.wf(),
        a.rows == data@.len(),
        data@.len() > 0 ==> a.cols == max_chars(data@.map_values(|s: String| s@), data@.len() as int),
        forall|r: int| 0 <= r < a.rows ==> a.row(r) == (#[trigger] data@[r])@ + blanks(a.cols - data@[r]@.len()),
{
    let ghost ts = data@.map_values(|s: String| s@);
    let rows = data.len();
    if rows == 0 {
        return CharArray::empty();
    }
    let mut width: usize = 0;
    let mut i: usize = 0;
    while i < rows
        invariant
            rows == data@.len(),
            ts == data@.map_values(|s: String| s@),
            i <= rows,
            width == max_chars(ts, i as int),
        decreases rows - i,
    {
        let n = data[i].unicode_len();
        assert(ts[i as int] == data@[i as int]@);
        if n > width {
            width = n;
        }
        i = i + 1;
    }
    let mut chars: Vec<char> = Vec::new();
    let mut r: usize = 0;
    while r < rows
        invariant
            rows == data@.len(),
            ts == data@.map_values(|s: String| s@),
            width == max_chars(ts, rows as int),
            rows * width <= usize::MAX,
            r <= rows,
            chars@.len() == r * width,
            forall|q: int| 0 <= q < r ==> chars@.subrange(q * width, q * width + width) == (#[trigger] data@[q])@ + blanks(
                width - data@[q]@.len(),
            ),
        decreases rows - r,
    {
        let ghost before = chars@;
        let row = str_chars(data[r].as_str());
        proof {
            lemma_max_chars(ts, rows as int, r as int);
            assert(ts[r as int] == data@[r as int]@);
        }
        push_all(&mut chars, row.as_slice());
        let mut c: usize = row.len();
        while c < width
            invariant
                row@.len() <= c <= width,
                chars@ == before + row@ + blanks(c - row@.len()),
            decreases width - c,
        {
            chars.push(' ');
            proof {
                assert(blanks(c - row@.len()).push(' ') =~= blanks(c + 1 - row@.len()));
            }
            c = c + 1;
        }
        proof {
            assert(r * width + width == (r + 1) * width) by (nonlinear_arith);
            assert forall|q: int| 0 <= q < r + 1 implies chars@.subrange(q * width, q * width + width) == (#[trigger] data@[q])@
                + blanks(width - data@[q]@.len()) by {
                if q < r {
                    assert(q * width + width <= r * width) by (nonlinear_arith)
                        requires
                            q < r,
                    ;
                    assert(chars@.subrange(q * width, q * width + width) =~= before.subrange(q * width, q * width + width));
                } else {
                    assert(chars@.subrange(q * width, q * width + width) =~= row@ + blanks(width - row@.len()));
                }
            }
        }
        r = r + 1;
    }
    CharArray { data: chars, rows, cols: width }
}

/// The concatenation, at position `p` of the result of shape `out`, of the
/// pieces the first `k` inputs broadcast there.
pub open spec fn concat_values(vs: Seq<Value>, out: Seq<usize>, p: nat, k: int) -> Seq<char>
    decreases k,
{
    if k <= 0 {
        Seq::empty()
    } else {
        concat_values(vs, out, p, k - 1) + operand_texts(vs[k - 1])[bidx(p, out, operand_shape(vs[k - 1])) as int]
    }
}

proof fn lemma_concat_values(ops: Seq<TextOperand>, vs: Seq<Value>, out: Seq<usize>, p: nat, k: int)
    requires
        0 <= k <= ops.len() == vs.len(),
        forall|i: int| 0 <= i < ops.len() ==> (#[trigger] ops[i]).shape@ == operand_shape(vs[i]) && ops[i].texts() == operand_texts(vs[i]),
    ensures
        concat_at(ops, out, p, k) == concat_values(vs, out, p, k),
    decreases k,
{
    if k > 0 {
        lemma_concat_values(ops, vs, out, p, k - 1);
        assert(ops[k - 1].shape@ == operand_shape(vs[k - 1]));
    }
}

/// The shapes of the inputs.
pub open spec fn value_shapes(vs: Seq<Value>) -> Seq<Seq<usize>> {
    Seq::new(vs.len(), |i: int| operand_shape(vs[i]))
}

/// The result of `append` on text inputs whose shapes broadcast to `out`:
/// element `p` of the result is `concat_values` at `p`. A string result
/// is a string array of shape `out` (a string when it has one element of a
/// scalar shape); a character result has one row per element, padded with
/// blanks.
pub open spec fn append_value(vs: Seq<Value>, out: Seq<usize>, v: Value) -> bool {
    let n = prod(out);
    let texts = Seq::new(n, |p: int| concat_values(vs, out, p as nat, vs.len() as int));
    match output_kind_spec(vs, vs.len() as int) {
        OutputKind::String => if n > 0 && scalar_shape(out) {
            v matches Value::String(s) && s@ == texts[0]
        } else {
            v matches Value::StringArray(sa) && sa.shape@ == out && sa.data@.map_values(|s: String| s@) == texts
        },
        OutputKind::Char => v matches Value::CharArray(ca) && ca.wf() && ca.rows == n && forall|r: int|
            0 <= r < n ==> #[trigger] ca.row(r) == texts[r] + blanks(ca.cols - texts[r].len()),
    }
}

/// The element texts of the result of shape `out`.
pub open spec fn append_texts(vs: Seq<Value>, out: Seq<usize>) -> Seq<Seq<char>> {
    Seq::new(prod(out), |p: int| concat_values(vs, out, p as nat, vs.len() as int))
}

/// The result of shape `out` can be held: its element count fits in
/// `usize`, and for a character result so does the count of characters
/// of its padded rows.
pub open spec fn append_fits(vs: Seq<Value>, out: Seq<usize>) -> bool {
    &&& prod(out) <= usize::MAX
    &&& output_kind_spec(vs, vs.len() as int) == OutputKind::Char ==> prod(out) * max_chars(
        append_texts(vs, out),
        prod(out) as int,
    ) <= usize::MAX
}

/// `append(str1, str2, ...)`: the errors for no input, for an input that is
/// not text and for shapes that do not broadcast, in that order; else the
/// concatenated result, or `None` exactly when the result's size does not
/// fit in memory addresses.
pub fn append(rest: Vec<Value>) -> (r: Result<Option<Value>, RuntimeError>)
    requires
        forall|i: int| 0 <= i < rest@.len() ==> text_value_wf(#[trigger] rest@[i]),
    ensures
        rest@.len() == 0 ==> (r matches Err(e) && append_error_is(
            e,
            "RunMat:append:NotEnoughInputs"@,
            "append: not enough input arguments"@,
        )),
        rest@.len() > 0 && (exists|i: int| 0 <= i < rest@.len() && !is_text(#[trigger] rest@[i])) ==> (r matches Err(e)
            && append_error_is(e, "RunMat:append:InvalidInput"@, "append: inputs must be strings or character arrays"@)),
        rest@.len() > 0 && (forall|i: int| 0 <= i < rest@.len() ==> is_text(#[trigger] rest@[i])) ==> match fold_shape(
            value_shapes(rest@),
            rest@.len() as int,
        ) {
            Err((k, x, y)) => r matches Err(e) && append_error_is(e, "RunMat:append:SizeMismatch"@, mismatch_message(k, x, y)),
            Ok(out) => if append_fits(rest@, out) {
                r matches Ok(Some(v)) && append_value(rest@, out, v)
            } else {
                r matches Ok(None)
            },
        },
{
    let ghost vs = rest@;
    let (ops, kind) = match append_operands(rest) {
        Ok(x) => x,
        Err(e) => return Err(e),
    };
    proof {
        assert(shapes_of(ops@) =~= value_shapes(vs));
    }
    let out = match append_shape(&ops) {
        Ok(s) => s,
        Err(e) => return Err(e),
    };
    let total = match shape_total(out.as_slice()) {
        Some(t) => t,
        None => return Ok(None),
    };
    let texts = concatenate(&ops, &out, total);
    let ghost want = Seq::new(prod(out@), |p: int| concat_values(vs, out@, p as nat, vs.len() as int));
    proof {
        assert forall|p: int| 0 <= p < total implies (#[trigger] texts@[p])@ == want[p] by {
            lemma_concat_values(ops@, vs, out@, p as nat, vs.len() as int);
        }
        assert(texts@.map_values(|s: String| s@) =~= want);
    }
    match kind {
        OutputKind::String => {
            let v = build_string_output(texts, out);
            Ok(Some(v))
        },
        OutputKind::Char => {
            let mut width: usize = 0;
            let mut i: usize = 0;
            while i < texts.len()
                invariant
                    i <= texts@.len(),
                    width == max_chars(texts@.map_values(|s: String| s@), i as int),
                decreases texts@.len() - i,
            {
                let n = texts[i].unicode_len();
                if n > width {
                    width = n;
                }
                i = i + 1;
            }
            if texts.len() > 0 && width > usize::MAX / texts.len() {
                proof {
                    let n = texts@.len() as int;
                    let m = usize::MAX as int;
                    assert(n * width > m) by (nonlinear_arith)
                        requires
                            n > 0,
                            width > m / n,
                    ;
                    assert(texts@.map_values(|s: String| s@) == append_texts(vs, out@));
                }
                return Ok(None);
            }
            proof {
                let n = texts@.len() as int;
                let m = usize::MAX as int;
                if n > 0 {
                    assert(n * width <= m) by (nonlinear_arith)
                        requires
                            n > 0,
                            width <= m / n,
                    ;
                }
            }
            let a = build_char_output(&texts);
            proof {
                assert(texts@.map_values(|s: String| s@) == append_texts(vs, out@));
                assert forall|q: int| 0 <= q < a.rows implies #[trigger] a.row(q) == want[q] + blanks(a.cols - want[q].len()) by {
                    assert(texts@[q]@ == want[q]);
                }
            }
            Ok(Some(Value::CharArray(a)))
        },
    }
}

/// Attributes an error raised while gathering an argument to `append`.
pub fn map_flow(err: RuntimeError) -> (e: RuntimeError)
    ensures
        e.message@ == err.message@,
        opt_view(e.identifier) == opt_view(err.identifier),
        opt_view(e.builtin) == (match err.builtin {
            Some(b) => Some(b@),
            None => Some("append"@),
        }),
{
    map_control_flow_with_builtin(err, "append")
}

/// Acceleration metadata of `append`: host concatenation with MATLAB
/// broadcasting.
pub fn append_gpu_spec() -> (g: BuiltinGpuSpec)
    ensures
        g.name@ == "append"@,
        g.broadcast == BroadcastSemantics::Matlab,
{
    BuiltinGpuSpec {
        name: String::from_str("append"),
        op_kind: GpuOpKind::Custom(String::from_str("string-transform")),
        supported_precisions: Vec::new(),
        broadcast: BroadcastSemantics::Matlab,
        provider_hooks: Vec::new(),
        constant_strategy: ConstantStrategy::InlineLiteral,
        residency: ResidencyPolicy::GatherImmediately,
        nan_mode: ReductionNaN::Include,
        two_pass_threshold: None,
        workgroup_size: None,
        accepts_nan_mode: false,
        notes: String::from_str(
            "Executes on the CPU and preserves trailing whitespace; GPU inputs are gathered before concatenation.",
        ),
    }
}

fn append_error_not_enough_inputs() -> (e: BuiltinErrorDescriptor)
    ensures
        e.code@ == "RM.APPEND.NOT_ENOUGH_INPUTS"@,
        e.identifier matches Some(i) && i@ == "RunMat:append:NotEnoughInputs"@,
        e.message@ == "append: not enough input arguments"@,
{
    error_descriptor(
        "RM.APPEND.NOT_ENOUGH_INPUTS",
        "RunMat:append:NotEnoughInputs",
        "No arguments are supplied.",
        "append: not enough input arguments",
    )
}

fn append_error_invalid_input() -> (e: BuiltinErrorDescriptor)
    ensures
        e.code@ == "RM.APPEND.INVALID_INPUT"@,
        e.identifier matches Some(i) && i@ == "RunMat:append:InvalidInput"@,
        e.message@ == "append: inputs must be strings or character arrays"@,
{
    error_descriptor(
        "RM.APPEND.INVALID_INPUT",
        "RunMat:append:InvalidInput",
        "An input is not a string or character array.",
        "append: inputs must be strings or character arrays",
    )
}

fn append_error_size_mismatch() -> (e: BuiltinErrorDescriptor)
    ensures
        e.code@ == "RM.APPEND.SIZE_MISMATCH"@,
        e.identifier matches Some(i) && i@ == "RunMat:append:SizeMismatch"@,
        e.message@ == "append: array sizes are not compatible for broadcasting"@,
{
    error_descriptor(
        "RM.APPEND.SIZE_MISMATCH",
        "RunMat:append:SizeMismatch",
        "Input shapes are not broadcast-compatible.",
        "append: array sizes are not compatible for broadcasting",
    )
}

fn append_error_internal() -> (e: BuiltinErrorDescriptor)
    ensures
        e.code@ == "RM.APPEND.INTERNAL"@,
        e.identifier matches Some(i) && i@ == "RunMat:append:InternalError"@,
        e.message@ == "append: internal error"@,
{
    error_descriptor(
        "RM.APPEND.INTERNAL",
        "RunMat:append:InternalError",
        "Internal output container construction failed.",
        "append: internal error",
    )
}

/// Descriptor of `append`.
pub fn append_descriptor() -> (d: BuiltinDescriptor)
    ensures
        d.labels() == seq!["str = append(str1, str2, ...)"@],
        d.codes() == seq!["RM.APPEND.NOT_ENOUGH_INPUTS"@, "RM.APPEND.INVALID_INPUT"@, "RM.APPEND.SIZE_MISMATCH"@, "RM.APPEND.INTERNAL"@],
        d.output_mode == BuiltinOutputMode::Fixed,
{
    let s0 = signature(
        "str = append(str1, str2, ...)",
        vec![
            param(
                "str1",
                BuiltinParamType::Any,
                BuiltinParamArity::Required,
                "First text input (string or character array).",
            ),
            param(
                "str2",
                BuiltinParamType::Any,
                BuiltinParamArity::Variadic,
                "Additional text inputs appended in order.",
            ),
        ],
        vec![
            param(
                "str",
                BuiltinParamType::Any,
                BuiltinParamArity::Required,
                "Combined text: a string when any input is a string, otherwise a char row.",
            ),
        ],
    );
    let d = BuiltinDescriptor {
        signatures: vec![s0],
        output_mode: BuiltinOutputMode::Fixed,
        completion_policy: BuiltinCompletionPolicy::Public,
        errors: vec![append_error_not_enough_inputs(), append_error_invalid_input(), append_error_size_mismatch(), append_error_internal()],
    };
    assert(d.labels() =~= seq!["str = append(str1, str2, ...)"@]);
    assert(d.codes() =~= seq!["RM.APPEND.NOT_ENOUGH_INPUTS"@, "RM.APPEND.INVALID_INPUT"@, "RM.APPEND.SIZE_MISMATCH"@, "RM.APPEND.INTERNAL"@]);
    d
}

/// Fusion metadata of `append`: broadcast-compatible shapes, never fused.
pub fn append_fusion_spec() -> (f: BuiltinFusionSpec)
    ensures
        f.name@ == "append"@,
        f.shape == ShapeRequirements::BroadcastCompatible,
{
    let mut f = unfused_spec(
        "append",
        false,
        "String concatenation runs on the host and is not eligible for fusion.",
    );
    f.shape = ShapeRequirements::BroadcastCompatible;
    f
}
} // verus!
