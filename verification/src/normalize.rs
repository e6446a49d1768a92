//! `normalize`: centres and scales the lines of an array along one
//! dimension. The argument grammar and the traversal of the lines are
//! here; the arithmetic on the doubles is the caller's.

use vstd::prelude::*;
use crate::descriptor::{error_descriptor, param, param_with_default, signature, unfused_spec, BroadcastSemantics, BuiltinCompletionPolicy, BuiltinDescriptor, BuiltinErrorDescriptor, BuiltinFusionSpec, BuiltinGpuSpec, BuiltinOutputMode, BuiltinParamArity, BuiltinParamType, ConstantStrategy, GpuOpKind, ReductionNaN, ResidencyPolicy, ScalarType};
use crate::error::{opt_view, RuntimeError};
use crate::histc::{flat3, leading_units};
use crate::shape::{lemma_prod_take_step, prefix_fits, prefix_product, prod};
use crate::text::{chars_equal, chars_to_string, eq_ignore_ascii_case, eq_ignore_ascii_case_spec, push_all, str_chars, trim_chars, trim_spec};
use crate::value::Value;

verus! {

/// How the lines are normalized. Where the method takes a number from its
/// method-type argument (`...Given`), the caller reads it there.
#[derive(PartialEq, Eq, Structural, Clone, Copy, Debug)]
pub enum Method {
    /// Centre by the mean, scale by the sample standard deviation.
    ZScore,
    /// Subtract the mean.
    CenterMean,
    /// Subtract the method type's scalar.
    CenterGiven,
    /// Divide by the sample standard deviation.
    ScaleStd,
    /// Divide by the first element of the line.
    ScaleFirst,
    /// Divide by the method type's scalar.
    ScaleGiven,
    /// Divide by the 2-norm.
    Norm2,
    /// Divide by the p-norm, p the method type's scalar.
    NormGiven,
    /// Divide by the largest magnitude.
    NormInf,
    /// Rescale to [0, 1].
    RangeUnit,
    /// Rescale to the interval the method type's two numbers give.
    RangeGiven,
}

/// A one-element real value as the checks read it.
#[derive(PartialEq, Eq, Structural, Clone, Copy, Debug)]
pub struct ScalarInfo {
    /// The value is greater than zero.
    pub positive: bool,
    /// The value is finite.
    pub finite: bool,
    /// The whole number the value is, when it is finite, whole and at least one.
    pub whole: Option<usize>,
}

/// An argument after the input array: the value, and for a real double or
/// integer scalar (or a one-element real array) how its number reads.
pub struct NormalizeArg {
    pub value: Value,
    pub number: Option<ScalarInfo>,
}

/// The argument is numeric: it selects the operating dimension.
pub open spec fn is_numeric_spec(v: Value) -> bool {
    v is Num || v is Int || v is Bool || v is Tensor || v is LogicalArray
}

/// How a logical value reads as a number.
pub open spec fn bit_info(b: bool) -> ScalarInfo {
    ScalarInfo { positive: b, finite: true, whole: if b { Some(1usize) } else { None } }
}

/// The argument as a one-element real value, when it is one.
pub open spec fn scalar_info(a: NormalizeArg) -> Option<ScalarInfo> {
    match a.value {
        Value::Num => a.number,
        Value::Int => a.number,
        Value::Bool(b) => Some(bit_info(b)),
        Value::Tensor(shape) => if prod(shape@) == 1 {
            a.number
        } else {
            None
        },
        Value::LogicalArray(l) => if l.data@.len() == 1 {
            Some(bit_info(l.data@[0] != 0))
        } else {
            None
        },
        _ => None,
    }
}

/// The argument's text, for a string scalar, a one-element string array or
/// a character row.
pub open spec fn arg_text(v: Value) -> Option<Seq<char>> {
    match v {
        Value::String(s) => Some(s@),
        Value::StringArray(sa) => if sa.data@.len() == 1 {
            Some(sa.data@[0]@)
        } else {
            None
        },
        Value::CharArray(ca) => if ca.rows <= 1 {
            Some(ca.data@)
        } else {
            None
        },
        _ => None,
    }
}

/// The number of elements of a real scalar or real array argument.
pub open spec fn vector_len(v: Value) -> Option<nat> {
    match v {
        Value::Num => Some(1),
        Value::Int => Some(1),
        Value::Tensor(shape) => Some(prod(shape@)),
        _ => None,
    }
}

/// ASCII lower case of a character.
pub open spec fn lower_char(c: char) -> char {
    if 'A' <= c && c <= 'Z' {
        (((c as u32) as u8) + 32) as u8 as char
    } else {
        c
    }
}

/// The text trimmed and in ASCII lower case.
pub open spec fn lower_trim(s: Seq<char>) -> Seq<char> {
    trim_spec(s).map_values(|c: char| lower_char(c))
}

/// The error is a `normalize` error of the given descriptor message, with
/// the given detail.
pub open spec fn normalize_error_is(e: RuntimeError, ident: Seq<char>, message: Seq<char>, detail: Seq<char>) -> bool {
    &&& e.message@ == message + ": "@ + detail
    &&& opt_view(e.builtin) == Some("normalize"@)
    &&& opt_view(e.identifier) == Some(ident)
}

pub open spec fn invalid_argument_is(e: RuntimeError, detail: Seq<char>) -> bool {
    normalize_error_is(e, "RunMat:normalize:InvalidArgument"@, "normalize: invalid argument"@, detail)
}

pub open spec fn unsupported_is(e: RuntimeError, detail: Seq<char>) -> bool {
    normalize_error_is(e, "RunMat:normalize:Unsupported"@, "normalize: unsupported method or input"@, detail)
}

/// `text`, `insert` and `tail` joined.
pub open spec fn quoted(head: Seq<char>, insert: Seq<char>, tail: Seq<char>) -> Seq<char> {
    head + insert + tail
}


/// Outcome of reading a method: the method, or the detail of an
/// invalid-argument or unsupported-method error.
pub enum Outcome {
    Done(Method),
    InvalidArgument(Seq<char>),
    Unsupported(Seq<char>),
}

/// The result is the outcome.
pub open spec fn outcome_is(r: Result<Method, RuntimeError>, o: Outcome) -> bool {
    match o {
        Outcome::Done(m) => r == Ok::<Method, RuntimeError>(m),
        Outcome::InvalidArgument(d) => r matches Err(e) && invalid_argument_is(e, d),
        Outcome::Unsupported(d) => r matches Err(e) && unsupported_is(e, d),
    }
}

/// What `parse_method` returns for `zscore`.
pub open spec fn zscore_outcome(mt: Option<NormalizeArg>) -> Outcome {
    match mt {
        None => Outcome::Done(Method::ZScore),
        Some(a) => match arg_text(a.value) {
            None => Outcome::InvalidArgument("zscore method type must be a string"@),
            Some(s) => if eq_ignore_ascii_case_spec(trim_spec(s), "std"@) {
                Outcome::Done(Method::ZScore)
            } else {
                Outcome::Unsupported(quoted("zscore scaling '"@, s, "' is unresolved (normalize.q-methods)"@))
            },
        },
    }
}

/// What `parse_method` returns for `range`.
pub open spec fn range_outcome(mt: Option<NormalizeArg>) -> Outcome {
    match mt {
        None => Outcome::Done(Method::RangeUnit),
        Some(a) => match vector_len(a.value) {
            None => Outcome::InvalidArgument("range interval must be a numeric 2-element vector"@),
            Some(n) => if n != 2 {
                Outcome::InvalidArgument("range interval must have exactly two elements [a b]"@)
            } else {
                Outcome::Done(Method::RangeGiven)
            },
        },
    }
}

/// What `parse_method` returns for `center`.
pub open spec fn center_outcome(mt: Option<NormalizeArg>) -> Outcome {
    match mt {
        None => Outcome::Done(Method::CenterMean),
        Some(a) => match arg_text(a.value) {
            Some(s) => {
                let t = lower_trim(s);
                if t == "mean"@ {
                    Outcome::Done(Method::CenterMean)
                } else if t == "median"@ {
                    Outcome::Unsupported("center 'median' is unresolved (normalize.q-methods)"@)
                } else {
                    Outcome::InvalidArgument(quoted("unknown center type '"@, t, "'"@))
                }
            },
            None => if scalar_info(a) is Some {
                Outcome::Done(Method::CenterGiven)
            } else {
                Outcome::InvalidArgument("center value must be a scalar or 'mean'"@)
            },
        },
    }
}

/// What `parse_method` returns for `scale`.
pub open spec fn scale_outcome(mt: Option<NormalizeArg>) -> Outcome {
    match mt {
        None => Outcome::Done(Method::ScaleStd),
        Some(a) => match arg_text(a.value) {
            Some(s) => {
                let t = lower_trim(s);
                if t == "std"@ {
                    Outcome::Done(Method::ScaleStd)
                } else if t == "first"@ {
                    Outcome::Done(Method::ScaleFirst)
                } else if t == "mad"@ || t == "iqr"@ {
                    Outcome::Unsupported(quoted("scale '"@, s, "' is unresolved (normalize.q-methods)"@))
                } else {
                    Outcome::InvalidArgument(quoted("unknown scale type '"@, t, "'"@))
                }
            },
            None => if scalar_info(a) is Some {
                Outcome::Done(Method::ScaleGiven)
            } else {
                Outcome::InvalidArgument("scale value must be a scalar or 'std'/'first'"@)
            },
        },
    }
}

/// What `parse_method` returns for `norm`.
pub open spec fn norm_outcome(mt: Option<NormalizeArg>) -> Outcome {
    match mt {
        None => Outcome::Done(Method::Norm2),
        Some(a) => match arg_text(a.value) {
            Some(s) => {
                let t = lower_trim(s);
                if t == "inf"@ {
                    Outcome::Done(Method::NormInf)
                } else {
                    Outcome::InvalidArgument(quoted("unknown norm order '"@, t, "'"@))
                }
            },
            None => match scalar_info(a) {
                Some(info) => if !info.positive {
                    Outcome::InvalidArgument("norm order must be positive"@)
                } else {
                    Outcome::Done(Method::NormGiven)
                },
                None => Outcome::InvalidArgument("norm order must be a positive scalar or Inf"@),
            },
        },
    }
}

/// What `parse_method` returns for a method name and its method type.
pub open spec fn method_outcome(name: Seq<char>, mt: Option<NormalizeArg>) -> Outcome {
    let lname = lower_trim(name);
    if lname == "zscore"@ {
        zscore_outcome(mt)
    } else if lname == "range"@ {
        range_outcome(mt)
    } else if lname == "center"@ {
        center_outcome(mt)
    } else if lname == "scale"@ {
        scale_outcome(mt)
    } else if lname == "norm"@ {
        norm_outcome(mt)
    } else if lname == "robust"@ || lname == "medianiqr"@ || lname == "mad"@ || lname == "iqr"@ {
        Outcome::Unsupported(quoted("method '"@, lname, "' is unresolved in the approved spec (normalize.q-methods)"@),
        )
    } else {
        Outcome::InvalidArgument(quoted("unknown method '"@, lname, "'"@))
    }
}

/// The method type as a spec value.
pub open spec fn opt_arg(mt: Option<&NormalizeArg>) -> Option<NormalizeArg> {
    match mt {
        Some(a) => Some(*a),
        None => None,
    }
}

fn lower(c: char) -> (r: char)
    ensures
        r == lower_char(c),
{
    if 'A' <= c && c <= 'Z' {
        let b = (c as u32) as u8;
        (b + 32) as char
    } else {
        c
    }
}

/// The text trimmed and in ASCII lower case.
fn lowercase_trimmed(s: &[char]) -> (r: Vec<char>)
    ensures
        r@ == lower_trim(s@),
{
    let t = trim_chars(s);
    let mut r: Vec<char> = Vec::new();
    let mut i: usize = 0;
    while i < t.len()
        invariant
            i <= t@.len(),
            r@ == t@.take(i as int).map_values(|c: char| lower_char(c)),
        decreases t@.len() - i,
    {
        r.push(lower(t[i]));
        i = i + 1;
        assert(r@ =~= t@.take(i as int).map_values(|c: char| lower_char(c)));
    }
    assert(t@.take(t@.len() as int) =~= t@);
    r
}

/// The characters equal the literal.
fn is_word(a: &[char], lit: &str) -> (b: bool)
    ensures
        b == (a@ == lit@),
{
    let l = str_chars(lit);
    chars_equal(a, l.as_slice())
}

/// `head`, `insert` and `tail` joined into a string.
fn join3(head: &str, insert: &[char], tail: &str) -> (s: String)
    ensures
        s@ == quoted(head@, insert@, tail@),
{
    let mut cs = str_chars(head);
    push_all(&mut cs, insert);
    let t = str_chars(tail);
    push_all(&mut cs, t.as_slice());
    chars_to_string(cs.as_slice())
}

/// Error with the descriptor's message and the given detail.
fn descriptor_detail_error(error: &BuiltinErrorDescriptor, detail: &str) -> (e: RuntimeError)
    requires
        error.identifier is Some,
    ensures
        e.message@ == error.message@ + ": "@ + detail@,
        opt_view(e.builtin) == Some("normalize"@),
        opt_view(e.identifier) == opt_view(error.identifier),
{
    let mut cs = str_chars(error.message.as_str());
    let sep = str_chars(": ");
    push_all(&mut cs, sep.as_slice());
    let d = str_chars(detail);
    push_all(&mut cs, d.as_slice());
    let identifier = crate::error::clone_opt(&error.identifier);
    RuntimeError { message: chars_to_string(cs.as_slice()), builtin: Some(String::from_str("normalize")), identifier, source: None }
}

/// Invalid-argument error of `normalize` with the given detail.
pub fn invalid_argument(detail: &str) -> (e: RuntimeError)
    ensures
        invalid_argument_is(e, detail@),
{
    descriptor_detail_error(&normalize_error_invalid_argument(), detail)
}

/// Invalid-input error of `normalize` with the given detail.
pub fn invalid_input(detail: &str) -> (e: RuntimeError)
    ensures
        normalize_error_is(e, "RunMat:normalize:InvalidInput"@, "normalize: invalid input"@, detail@),
{
    descriptor_detail_error(&normalize_error_invalid_input(), detail)
}

/// Unsupported-method error of `normalize` with the given detail.
pub fn unsupported(detail: &str) -> (e: RuntimeError)
    ensures
        unsupported_is(e, detail@),
{
    descriptor_detail_error(&normalize_error_unsupported(), detail)
}

/// Internal error of `normalize` with the given detail.
pub fn internal_error(detail: &str) -> (e: RuntimeError)
    ensures
        normalize_error_is(e, "RunMat:normalize:Internal"@, "normalize: internal failure"@, detail@),
{
    descriptor_detail_error(&normalize_error_internal(), detail)
}

/// The text, trimmed, equals `want` up to ASCII case.
pub fn s_is(s: &[char], want: &str) -> (b: bool)
    ensures
        b == eq_ignore_ascii_case_spec(trim_spec(s@), want@),
{
    let t = trim_chars(s);
    let w = str_chars(want);
    eq_ignore_ascii_case(t.as_slice(), w.as_slice())
}

/// The text of a string scalar, one-element string array or character row.
pub fn value_as_str(v: &Value) -> (r: Option<Vec<char>>)
    ensures
        match arg_text(*v) {
            Some(t) => r matches Some(x) && x@ == t,
            None => r is None,
        },
{
    match v {
        Value::String(s) => Some(str_chars(s.as_str())),
        Value::StringArray(sa) => {
            if sa.data.len() == 1 {
                Some(str_chars(sa.data[0].as_str()))
            } else {
                None
            }
        },
        Value::CharArray(ca) => {
            if ca.rows <= 1 {
                Some(crate::shape::to_vec_chars(ca.data.as_slice()))
            } else {
                None
            }
        },
        _ => None,
    }
}

/// The argument as a one-element real value.
pub fn value_scalar(a: &NormalizeArg) -> (r: Option<ScalarInfo>)
    ensures
        r == scalar_info(*a),
{
    match &a.value {
        Value::Num => a.number,
        Value::Int => a.number,
        Value::Bool(b) => Some(ScalarInfo { positive: *b, finite: true, whole: if *b { Some(1) } else { None } }),
        Value::Tensor(shape) => {
            if one_element(shape.as_slice()) {
                a.number
            } else {
                None
            }
        },
        Value::LogicalArray(l) => {
            if l.data.len() == 1 {
                let b = l.data[0] != 0;
                Some(ScalarInfo { positive: b, finite: true, whole: if b { Some(1) } else { None } })
            } else {
                None
            }
        },
        _ => None,
    }
}

/// The extents hold exactly one element.
fn one_element(shape: &[usize]) -> (b: bool)
    ensures
        b == (prod(shape@) == 1),
{
    let mut k: usize = 0;
    let mut all_one = true;
    let mut any_zero = false;
    while k < shape.len()
        invariant
            k <= shape@.len(),
            all_one == (forall|j: int| 0 <= j < k ==> shape@[j] == 1),
            any_zero == (exists|j: int| 0 <= j < k && shape@[j] == 0),
            !any_zero ==> prod(shape@.take(k as int)) >= 1,
            all_one ==> prod(shape@.take(k as int)) == 1,
            any_zero ==> prod(shape@.take(k as int)) == 0,
            !all_one && !any_zero ==> prod(shape@.take(k as int)) >= 2,
        decreases shape@.len() - k,
    {
        proof {
            lemma_prod_take_step(shape@, k as int);
            let p = prod(shape@.take(k as int));
            let x = shape@[k as int] as nat;
            if !any_zero && x >= 1 {
                assert(p * x >= 1) by (nonlinear_arith)
                    requires
                        p >= 1,
                        x >= 1,
                ;
                if x >= 2 {
                    assert(p * x >= 2) by (nonlinear_arith)
                        requires
                            p >= 1,
                            x >= 2,
                    ;
                }
                if !all_one {
                    assert(p * x >= 2) by (nonlinear_arith)
                        requires
                            p >= 2,
                            x >= 1,
                    ;
                }
            }
            if any_zero {
                assert(p * x == 0) by (nonlinear_arith)
                    requires
                        p == 0,
                ;
            }
        }
        if shape[k] != 1 {
            all_one = false;
        }
        if shape[k] == 0 {
            any_zero = true;
        }
        k = k + 1;
    }
    assert(shape@.take(shape@.len() as int) =~= shape@);
    all_one
}

/// The number of elements of a real scalar or real array argument.
fn value_vec_len(v: &Value) -> (r: Option<usize>)
    requires
        v matches Value::Tensor(shape) ==> prefix_fits(shape@),
    ensures
        match vector_len(*v) {
            Some(n) => r == Some(n as usize) && n <= usize::MAX,
            None => r is None,
        },
{
    match v {
        Value::Num => Some(1),
        Value::Int => Some(1),
        Value::Tensor(shape) => {
            proof {
                assert(shape@.take(shape@.len() as int) =~= shape@);
            }
            Some(prefix_product(shape.as_slice(), shape.len()))
        },
        _ => None,
    }
}

/// The zscore method type, when given, as text.
pub fn methodtype_str(v: Option<&NormalizeArg>) -> (r: Result<Option<Vec<char>>, RuntimeError>)
    ensures
        match v {
            None => r matches Ok(None),
            Some(a) => match arg_text(a.value) {
                Some(t) => r matches Ok(Some(x)) && x@ == t,
                None => r matches Err(e) && invalid_argument_is(e, "zscore method type must be a string"@),
            },
        },
{
    match v {
        None => Ok(None),
        Some(a) => match value_as_str(&a.value) {
            Some(s) => Ok(Some(s)),
            None => Err(invalid_argument("zscore method type must be a string")),
        },
    }
}

fn normalize_error_invalid_argument() -> (e: BuiltinErrorDescriptor)
    ensures
        e.code@ == "RM.NORMALIZE.INVALID_ARGUMENT"@,
        e.identifier matches Some(i) && i@ == "RunMat:normalize:InvalidArgument"@,
        e.message@ == "normalize: invalid argument"@,
{
    error_descriptor(
        "RM.NORMALIZE.INVALID_ARGUMENT",
        "RunMat:normalize:InvalidArgument",
        "Dimension, method, or method-type argument grammar is invalid.",
        "normalize: invalid argument",
    )
}

fn normalize_error_invalid_input() -> (e: BuiltinErrorDescriptor)
    ensures
        e.code@ == "RM.NORMALIZE.INVALID_INPUT"@,
        e.identifier matches Some(i) && i@ == "RunMat:normalize:InvalidInput"@,
        e.message@ == "normalize: invalid input"@,
{
    error_descriptor(
        "RM.NORMALIZE.INVALID_INPUT",
        "RunMat:normalize:InvalidInput",
        "Input values cannot be converted to a real double array.",
        "normalize: invalid input",
    )
}

fn normalize_error_unsupported() -> (e: BuiltinErrorDescriptor)
    ensures
        e.code@ == "RM.NORMALIZE.UNSUPPORTED"@,
        e.identifier matches Some(i) && i@ == "RunMat:normalize:Unsupported"@,
        e.message@ == "normalize: unsupported method or input"@,
{
    error_descriptor(
        "RM.NORMALIZE.UNSUPPORTED",
        "RunMat:normalize:Unsupported",
        "A method whose behaviour is unresolved in the approved specification (robust/mad/iqr/medianiqr) or a complex input is requested.",
        "normalize: unsupported method or input",
    )
}

fn normalize_error_internal() -> (e: BuiltinErrorDescriptor)
    ensures
        e.code@ == "RM.NORMALIZE.INTERNAL"@,
        e.identifier matches Some(i) && i@ == "RunMat:normalize:Internal"@,
        e.message@ == "normalize: internal failure"@,
{
    error_descriptor(
        "RM.NORMALIZE.INTERNAL",
        "RunMat:normalize:Internal",
        "Result tensor construction fails.",
        "normalize: internal failure",
    )
}


/// The extents of an array argument have prefix products within `usize`.
pub open spec fn arg_fits(a: NormalizeArg) -> bool {
    a.value matches Value::Tensor(shape) ==> prefix_fits(shape@)
}

fn parse_zscore(methodtype: Option<&NormalizeArg>) -> (r: Result<Method, RuntimeError>)
    ensures
        outcome_is(r, zscore_outcome(opt_arg(methodtype))),
{
    match methodtype_str(methodtype) {
        Err(e) => Err(e),
        Ok(None) => Ok(Method::ZScore),
        Ok(Some(s)) => {
            if s_is(s.as_slice(), "std") {
                Ok(Method::ZScore)
            } else {
                let m = join3("zscore scaling '", s.as_slice(), "' is unresolved (normalize.q-methods)");
                Err(unsupported(m.as_str()))
            }
        },
    }
}

fn parse_range(methodtype: Option<&NormalizeArg>) -> (r: Result<Method, RuntimeError>)
    requires
        methodtype matches Some(a) ==> arg_fits(*a),
    ensures
        outcome_is(r, range_outcome(opt_arg(methodtype))),
{
    match methodtype {
        None => Ok(Method::RangeUnit),
        Some(v) => match value_vec_len(&v.value) {
            None => Err(invalid_argument("range interval must be a numeric 2-element vector")),
            Some(n) => {
                if n != 2 {
                    Err(invalid_argument("range interval must have exactly two elements [a b]"))
                } else {
                    Ok(Method::RangeGiven)
                }
            },
        },
    }
}

fn parse_center(methodtype: Option<&NormalizeArg>) -> (r: Result<Method, RuntimeError>)
    ensures
        outcome_is(r, center_outcome(opt_arg(methodtype))),
{
    proof {
        reveal_strlit("mean");
        reveal_strlit("median");
    }
    match methodtype {
        None => Ok(Method::CenterMean),
        Some(v) => match value_as_str(&v.value) {
            Some(s) => {
                let t = lowercase_trimmed(s.as_slice());
                if is_word(t.as_slice(), "mean") {
                    Ok(Method::CenterMean)
                } else if is_word(t.as_slice(), "median") {
                    Err(unsupported("center 'median' is unresolved (normalize.q-methods)"))
                } else {
                    let m = join3("unknown center type '", t.as_slice(), "'");
                    Err(invalid_argument(m.as_str()))
                }
            },
            None => {
                if value_scalar(v).is_some() {
                    Ok(Method::CenterGiven)
                } else {
                    Err(invalid_argument("center value must be a scalar or 'mean'"))
                }
            },
        },
    }
}

fn parse_scale(methodtype: Option<&NormalizeArg>) -> (r: Result<Method, RuntimeError>)
    ensures
        outcome_is(r, scale_outcome(opt_arg(methodtype))),
{
    match methodtype {
        None => Ok(Method::ScaleStd),
        Some(v) => match value_as_str(&v.value) {
            Some(s) => {
                let t = lowercase_trimmed(s.as_slice());
                if is_word(t.as_slice(), "std") {
                    Ok(Method::ScaleStd)
                } else if is_word(t.as_slice(), "first") {
                    Ok(Method::ScaleFirst)
                } else if is_word(t.as_slice(), "mad") || is_word(t.as_slice(), "iqr") {
                    let m = join3("scale '", s.as_slice(), "' is unresolved (normalize.q-methods)");
                    Err(unsupported(m.as_str()))
                } else {
                    let m = join3("unknown scale type '", t.as_slice(), "'");
                    Err(invalid_argument(m.as_str()))
                }
            },
            None => {
                if value_scalar(v).is_some() {
                    Ok(Method::ScaleGiven)
                } else {
                    Err(invalid_argument("scale value must be a scalar or 'std'/'first'"))
                }
            },
        },
    }
}

fn parse_norm(methodtype: Option<&NormalizeArg>) -> (r: Result<Method, RuntimeError>)
    ensures
        outcome_is(r, norm_outcome(opt_arg(methodtype))),
{
    match methodtype {
        None => Ok(Method::Norm2),
        Some(v) => match value_as_str(&v.value) {
            Some(s) => {
                let t = lowercase_trimmed(s.as_slice());
                if is_word(t.as_slice(), "inf") {
                    Ok(Method::NormInf)
                } else {
                    let m = join3("unknown norm order '", t.as_slice(), "'");
                    Err(invalid_argument(m.as_str()))
                }
            },
            None => match value_scalar(v) {
                Some(info) => {
                    if !info.positive {
                        Err(invalid_argument("norm order must be positive"))
                    } else {
                        Ok(Method::NormGiven)
                    }
                },
                None => Err(invalid_argument("norm order must be a positive scalar or Inf")),
            },
        },
    }
}

/// The `scale` method types: whatever the case of the method name and of
/// the type text and whatever whitespace surrounds them, `scale` alone and
/// `scale` with `'std'` divide by the standard deviation, while `scale`
/// with `'first'` divides by the first element of the line, a different
/// method.
pub proof fn law_scale_method_types(name: &[char], methodtype: Option<&NormalizeArg>, r: Result<Method, RuntimeError>)
    requires
        lower_trim(name@) == "scale"@,
        call_ensures(parse_method, (name, methodtype), r),
    ensures
        methodtype is None ==> r == Ok::<Method, RuntimeError>(Method::ScaleStd),
        methodtype matches Some(a) && arg_text(a.value) matches Some(s) && lower_trim(s) == "std"@
            ==> r == Ok::<Method, RuntimeError>(Method::ScaleStd),
        methodtype matches Some(a) && arg_text(a.value) matches Some(s) && lower_trim(s) == "first"@
            ==> r == Ok::<Method, RuntimeError>(Method::ScaleFirst),
        Method::ScaleFirst != Method::ScaleStd,
{
    reveal_strlit("scale");
    reveal_strlit("zscore");
    reveal_strlit("range");
    reveal_strlit("center");
    reveal_strlit("std");
    reveal_strlit("first");
    assert("scale"@ != "zscore"@ && "scale"@ != "range"@ && "scale"@ != "center"@) by {
        assert("scale"@.len() != "zscore"@.len());
        assert("scale"@[0] != "range"@[0]);
        assert("scale"@.len() != "center"@.len());
    }
    assert("std"@ != "first"@) by {
        assert("std"@.len() != "first"@.len());
    }
    assert(method_outcome(name@, opt_arg(methodtype)) == scale_outcome(opt_arg(methodtype)));
}

/// The other named methods: whatever the case of the method name and of the
/// type text and whatever whitespace surrounds them, `zscore` alone or with
/// `'std'` is the z-score, `range` alone maps to [0, 1], `center` alone or
/// with `'mean'` subtracts the mean, and `norm` alone divides by the 2-norm
/// while `norm` with `'inf'` divides by the largest magnitude.
pub proof fn law_named_method_types(name: &[char], methodtype: Option<&NormalizeArg>, r: Result<Method, RuntimeError>)
    requires
        call_ensures(parse_method, (name, methodtype), r),
    ensures
        lower_trim(name@) == "zscore"@ && methodtype is None ==> r == Ok::<Method, RuntimeError>(Method::ZScore),
        methodtype matches Some(a) && arg_text(a.value) matches Some(s) && lower_trim(name@) == "zscore"@
            && lower_trim(s) == "std"@ ==> r == Ok::<Method, RuntimeError>(Method::ZScore),
        lower_trim(name@) == "range"@ && methodtype is None ==> r == Ok::<Method, RuntimeError>(Method::RangeUnit),
        lower_trim(name@) == "center"@ && methodtype is None ==> r == Ok::<Method, RuntimeError>(Method::CenterMean),
        methodtype matches Some(a) && arg_text(a.value) matches Some(s) && lower_trim(name@) == "center"@
            && lower_trim(s) == "mean"@ ==> r == Ok::<Method, RuntimeError>(Method::CenterMean),
        lower_trim(name@) == "norm"@ && methodtype is None ==> r == Ok::<Method, RuntimeError>(Method::Norm2),
        methodtype matches Some(a) && arg_text(a.value) matches Some(s) && lower_trim(name@) == "norm"@
            && lower_trim(s) == "inf"@ ==> r == Ok::<Method, RuntimeError>(Method::NormInf),
{
    reveal_strlit("zscore");
    reveal_strlit("range");
    reveal_strlit("center");
    reveal_strlit("scale");
    reveal_strlit("norm");
    reveal_strlit("std");
    reveal_strlit("mean");
    reveal_strlit("inf");
    assert("zscore"@ != "range"@ && "zscore"@ != "center"@ && "range"@ != "center"@) by {
        assert("zscore"@.len() != "range"@.len());
        assert("zscore"@[0] != "center"@[0]);
        assert("range"@.len() != "center"@.len());
    }
    assert("norm"@ != "zscore"@ && "norm"@ != "range"@ && "norm"@ != "center"@ && "norm"@ != "scale"@) by {
        assert("norm"@.len() != "zscore"@.len());
        assert("norm"@.len() != "range"@.len());
        assert("norm"@.len() != "center"@.len());
        assert("norm"@.len() != "scale"@.len());
    }
}

/// Reads a method name and its optional method type.
pub fn parse_method(name: &[char], methodtype: Option<&NormalizeArg>) -> (r: Result<Method, RuntimeError>)
    requires
        methodtype matches Some(a) ==> arg_fits(*a),
    ensures
        outcome_is(r, method_outcome(name@, opt_arg(methodtype))),
{
    let lname = lowercase_trimmed(name);
    if is_word(lname.as_slice(), "zscore") {
        parse_zscore(methodtype)
    } else if is_word(lname.as_slice(), "range") {
        parse_range(methodtype)
    } else if is_word(lname.as_slice(), "center") {
        parse_center(methodtype)
    } else if is_word(lname.as_slice(), "scale") {
        parse_scale(methodtype)
    } else if is_word(lname.as_slice(), "norm") {
        parse_norm(methodtype)
    } else if is_word(lname.as_slice(), "robust") || is_word(lname.as_slice(), "medianiqr") || is_word(
        lname.as_slice(),
        "mad",
    ) || is_word(lname.as_slice(), "iqr") {
        let m = join3("method '", lname.as_slice(), "' is unresolved in the approved spec (normalize.q-methods)");
        Err(unsupported(m.as_str()))
    } else {
        let m = join3("unknown method '", lname.as_slice(), "'");
        Err(invalid_argument(m.as_str()))
    }
}

/// Reads the operating dimension: a whole number of at least one.
pub fn parse_dim(a: &NormalizeArg) -> (r: Result<usize, RuntimeError>)
    ensures
        match scalar_info(*a) {
            None => r matches Err(e) && invalid_argument_is(e, "operating dimension must be a numeric scalar"@),
            Some(info) => if !info.finite {
                r matches Err(e) && invalid_argument_is(e, "operating dimension must be finite"@)
            } else {
                match info.whole {
                    None => r matches Err(e) && invalid_argument_is(e, "operating dimension must be a positive integer"@),
                    Some(n) => r == Ok::<usize, RuntimeError>(n),
                }
            },
        },
{
    let info = match value_scalar(a) {
        Some(i) => i,
        None => return Err(invalid_argument("operating dimension must be a numeric scalar")),
    };
    if !info.finite {
        return Err(invalid_argument("operating dimension must be finite"));
    }
    match info.whole {
        None => Err(invalid_argument("operating dimension must be a positive integer")),
        Some(n) => Ok(n),
    }
}

/// The argument is numeric, so it selects the operating dimension.
pub fn is_numeric_value(v: &Value) -> (b: bool)
    ensures
        b == is_numeric_spec(*v),
{
    match v {
        Value::Num => true,
        Value::Int => true,
        Value::Bool(_) => true,
        Value::Tensor(_) => true,
        Value::LogicalArray(_) => true,
        _ => false,
    }
}

/// Why the arguments after the input were refused.
pub enum ArgumentError {
    /// An error of `normalize`.
    Failed(RuntimeError),
    /// The argument at this index should name a method but is not text; the
    /// caller reports it with `method_name_error` and its description.
    MethodNotText(usize),
}

/// Error for a method argument that is not text, given its description.
pub fn method_name_error(description: &str) -> (e: RuntimeError)
    ensures
        invalid_argument_is(e, "expected a method name string, got "@ + description@),
{
    let d = str_chars(description);
    let m = join3("expected a method name string, got ", d.as_slice(), "");
    proof {
        reveal_strlit("");
        assert(m@ =~= "expected a method name string, got "@ + description@);
    }
    invalid_argument(m.as_str())
}

/// What `parse_arguments` returns: a leading numeric argument is the
/// dimension; the next argument names the method and the one after is its
/// method type; more arguments are refused.
pub open spec fn arguments_outcome(rest: Seq<NormalizeArg>, r: Result<(Option<usize>, Method), ArgumentError>) -> bool {
    let has_dim = rest.len() > 0 && is_numeric_spec(rest[0].value);
    let midx: int = if has_dim { 1 } else { 0 };
    if has_dim && !(parse_dim_ok(rest[0])) {
        r matches Err(ArgumentError::Failed(e)) && dim_error(rest[0], e)
    } else if midx >= rest.len() {
        r == Ok::<(Option<usize>, Method), ArgumentError>((dim_of(rest, has_dim), Method::ZScore))
    } else {
        match arg_text(rest[midx].value) {
            None => r == Err::<(Option<usize>, Method), ArgumentError>(ArgumentError::MethodNotText(midx as usize)),
            Some(name) => {
                let mt = if midx + 1 < rest.len() { Some(rest[midx + 1]) } else { None };
                let used = if midx + 1 < rest.len() { midx + 2 } else { midx + 1 };
                match method_outcome(name, mt) {
                    Outcome::Done(method) => if used < rest.len() {
                        r matches Err(ArgumentError::Failed(e)) && invalid_argument_is(e, "too many arguments"@)
                    } else {
                        r == Ok::<(Option<usize>, Method), ArgumentError>((dim_of(rest, has_dim), method))
                    },
                    Outcome::InvalidArgument(d) => r matches Err(ArgumentError::Failed(e)) && invalid_argument_is(e, d),
                    Outcome::Unsupported(d) => r matches Err(ArgumentError::Failed(e)) && unsupported_is(e, d),
                }
            },
        }
    }
}

/// The dimension argument reads as a whole number of at least one.
pub open spec fn parse_dim_ok(a: NormalizeArg) -> bool {
    scalar_info(a) matches Some(info) && info.finite && info.whole is Some
}

/// The dimension read, when there is one.
pub open spec fn dim_of(rest: Seq<NormalizeArg>, has_dim: bool) -> Option<usize> {
    if has_dim {
        match scalar_info(rest[0]) {
            Some(info) => info.whole,
            None => None,
        }
    } else {
        None
    }
}

/// The error `parse_dim` gives for a dimension argument that does not read.
pub open spec fn dim_error(a: NormalizeArg, e: RuntimeError) -> bool {
    match scalar_info(a) {
        None => invalid_argument_is(e, "operating dimension must be a numeric scalar"@),
        Some(info) => if !info.finite {
            invalid_argument_is(e, "operating dimension must be finite"@)
        } else {
            invalid_argument_is(e, "operating dimension must be a positive integer"@)
        },
    }
}

/// Reads the arguments after the input: `[dim,] method[, methodtype]`.
pub fn parse_arguments(rest: &[NormalizeArg]) -> (r: Result<(Option<usize>, Method), ArgumentError>)
    requires
        forall|i: int| 0 <= i < rest@.len() ==> arg_fits(#[trigger] rest@[i]),
    ensures
        arguments_outcome(rest@, r),
{
    let mut idx: usize = 0;
    let mut dim: Option<usize> = None;
    if rest.len() > 0 {
        if is_numeric_value(&rest[0].value) {
            match parse_dim(&rest[0]) {
                Ok(d) => {
                    dim = Some(d);
                },
                Err(e) => return Err(ArgumentError::Failed(e)),
            }
            idx = 1;
        }
    }
    let ghost has_dim = rest@.len() > 0 && is_numeric_spec(rest@[0].value);
    assert(dim == dim_of(rest@, has_dim));
    assert(idx as int == if has_dim { 1int } else { 0int });
    if idx >= rest.len() {
        return Ok((dim, Method::ZScore));
    }
    let name = match value_as_str(&rest[idx].value) {
        Some(n) => n,
        None => return Err(ArgumentError::MethodNotText(idx)),
    };
    let methodtype = if idx + 1 < rest.len() { Some(&rest[idx + 1]) } else { None };
    let used = if idx + 1 < rest.len() { idx + 2 } else { idx + 1 };
    let m = parse_method(name.as_slice(), methodtype);
    let ghost mt = if idx + 1 < rest@.len() { Some(rest@[idx + 1]) } else { None };
    assert(opt_arg(methodtype) == mt);
    let method = match m {
        Ok(method) => method,
        Err(e) => return Err(ArgumentError::Failed(e)),
    };
    if used < rest.len() {
        return Err(ArgumentError::Failed(invalid_argument("too many arguments")));
    }
    Ok((dim, method))
}

/// Default operating dimension (1-based): the first extent other than one,
/// or the first dimension.
pub fn default_dimension(shape: &[usize]) -> (d: usize)
    ensures
        d == if leading_units(shape@) < shape@.len() { leading_units(shape@) + 1 } else { 1 },
{
    let mut i: usize = 0;
    while i < shape.len() && shape[i] == 1
        invariant
            i <= shape@.len(),
            forall|j: int| 0 <= j < i ==> shape@[j] == 1,
        decreases shape@.len() - i,
    {
        i = i + 1;
    }
    proof {
        crate::histc::lemma_leading_units(shape@, i as int);
    }
    if i < shape.len() {
        i + 1
    } else {
        1
    }
}

/// Extents around dimension `dim` (1-based): the number of elements
/// before it, its length, and the number of lines after it. A dimension
/// beyond the shape is a singleton.
pub open spec fn line_layout(shape: Seq<usize>, dim: int) -> (int, int, int) {
    let d = dim - 1;
    if d < shape.len() {
        (prod(shape.take(d)) as int, shape[d] as int, prod(shape.skip(d + 1)) as int)
    } else {
        (prod(shape) as int, 1, 1)
    }
}

/// The positions, in the column-major data, of the elements of each line
/// along dimension `dim` (1-based), lines ordered with the earlier
/// dimensions fastest: line `before + b * after` holds the positions
/// `before + b * (k + n * after)`, `b` elements lying before the dimension
/// and `n` along it. There are no lines when there are no elements.
pub fn normalize_lines(shape: &[usize], dim: usize) -> (lines: Vec<Vec<usize>>)
    requires
        dim >= 1,
        prefix_fits(shape@),
    ensures
        ({
            let (b, n, a) = line_layout(shape@, dim as int);
            &&& b * n == 0 ==> lines@.len() == 0
            &&& b * n != 0 ==> lines@.len() == b * a
            &&& b * n != 0 ==> forall|before: int, after: int|
                0 <= before < b && 0 <= after < a ==> (#[trigger] lines@[before + b * after])@.len() == n
                    && forall|k: int| 0 <= k < n ==> #[trigger] lines@[before + b * after]@[k] == flat3(before, k, after, b, n)
        }),
{
    let ndims = shape.len();
    let d = dim - 1;
    proof {
        assert(shape@.take(ndims as int) =~= shape@);
    }
    let total = prefix_product(shape, ndims);
    let mut stride_before: usize = total;
    let mut n: usize = 1;
    let mut stride_after: usize = 1;
    let ghost sa_spec: int = 1;
    if d < ndims {
        proof {
            crate::shape::lemma_prod_split(shape@, d as int);
            lemma_prod_take_step(shape@, d as int);
            assert(prod(shape@.take(d + 1)) <= usize::MAX);
        }
        stride_before = prefix_product(shape, d);
        n = shape[d];
        proof {
            sa_spec = prod(shape@.skip(d + 1)) as int;
        }
        if stride_before * n > 0 {
            proof {
                vstd::arithmetic::div_mod::lemma_div_by_multiple(sa_spec, (stride_before * n) as int);
                assert((stride_before * n) * sa_spec == sa_spec * (stride_before * n)) by (nonlinear_arith);
                assert(total == stride_before * n * sa_spec);
            }
            stride_after = total / (stride_before * n);
        }
    }
    let ghost layout = line_layout(shape@, dim as int);
    assert(stride_before == layout.0 && n == layout.1);
    assert(stride_before * n != 0 ==> stride_after == layout.2);
    let mut lines: Vec<Vec<usize>> = Vec::new();
    if stride_before * n == 0 {
        return lines;
    }
    proof {
        assert(stride_before > 0 && n > 0) by (nonlinear_arith)
            requires
                stride_before * n != 0,
        ;
        assert(total == stride_before * (n * stride_after)) by (nonlinear_arith)
            requires
                total == stride_before * n * stride_after,
        ;
    }
    let mut after: usize = 0;
    while after < stride_after
        invariant
            after <= stride_after,
            stride_before > 0,
            n > 0,
            total == stride_before * (n * stride_after),
            lines@.len() == stride_before * after,
            forall|before2: int, after2: int|
                0 <= before2 < stride_before && 0 <= after2 < after ==> (#[trigger] lines@[before2 + stride_before * after2])@.len() == n
                    && forall|k: int| 0 <= k < n ==> #[trigger] lines@[before2 + stride_before * after2]@[k] == flat3(
                        before2,
                        k,
                        after2,
                        stride_before as int,
                        n as int,
                    ),
        decreases stride_after - after,
    {
        let mut before: usize = 0;
        while before < stride_before
            invariant
                after < stride_after,
                before <= stride_before,
                stride_before > 0,
                n > 0,
                total == stride_before * (n * stride_after),
                lines@.len() == stride_before * after + before,
                forall|before2: int, after2: int|
                    (0 <= before2 < stride_before && 0 <= after2 < after) || (0 <= before2 < before && after2 == after)
                        ==> (#[trigger] lines@[before2 + stride_before * after2])@.len() == n && forall|k: int|
                        0 <= k < n ==> #[trigger] lines@[before2 + stride_before * after2]@[k] == flat3(
                            before2,
                            k,
                            after2,
                            stride_before as int,
                            n as int,
                        ),
            decreases stride_before - before,
        {
            let mut line: Vec<usize> = Vec::new();
            let mut k: usize = 0;
            while k < n
                invariant
                    after < stride_after,
                    before < stride_before,
                    k <= n,
                    total == stride_before * (n * stride_after),
                    line@.len() == k,
                    forall|k2: int| 0 <= k2 < k ==> #[trigger] line@[k2] == flat3(
                        before as int,
                        k2,
                        after as int,
                        stride_before as int,
                        n as int,
                    ),
                decreases n - k,
            {
                proof {
                    crate::histc::lemma_flat3_parts(before as int, k as int, after as int, stride_before as int, n as int, stride_after as int);
                    crate::histc::lemma_flat3_bound(before as int, k as int, after as int, stride_before as int, n as int, stride_after as int);
                }
                line.push(before + stride_before * (k + n * after));
                k = k + 1;
            }
            let ghost prev = lines@;
            lines.push(line);
            proof {
                assert forall|before2: int, after2: int|
                    (0 <= before2 < stride_before && 0 <= after2 < after) || (0 <= before2 < before + 1 && after2 == after)
                        implies (#[trigger] lines@[before2 + stride_before * after2])@.len() == n && forall|k3: int|
                        0 <= k3 < n ==> #[trigger] lines@[before2 + stride_before * after2]@[k3] == flat3(
                            before2,
                            k3,
                            after2,
                            stride_before as int,
                            n as int,
                        ) by {
                    crate::histc::lemma_flat2_bound(before2, after2, stride_before as int, after as int + 1);
                    if after2 < after {
                        assert(before2 + stride_before * after2 < stride_before * after) by (nonlinear_arith)
                            requires
                                0 <= before2 < stride_before,
                                0 <= after2 < after,
                        ;
                    } else if before2 < before {
                    } else {
                        assert(before2 + stride_before * after2 == prev.len());
                    }
                }
            }
            before = before + 1;
        }
        proof {
            assert(stride_before * after + stride_before == stride_before * (after + 1)) by (nonlinear_arith);
        }
        after = after + 1;
    }
    lines
}

/// Acceleration metadata of `normalize`: host reductions after a gather,
/// for single and double precision inputs.
pub fn normalize_gpu_spec() -> (g: BuiltinGpuSpec)
    ensures
        g.name@ == "normalize"@,
        g.op_kind matches GpuOpKind::Custom(k) && k@ == "reduction"@,
        g.supported_precisions@ == seq![ScalarType::F32, ScalarType::F64],
        g.provider_hooks@.len() == 0,
        g.broadcast == BroadcastSemantics::NoBroadcast,
        g.nan_mode == ReductionNaN::Include,
{
    let precisions = vec![ScalarType::F32, ScalarType::F64];
    assert(precisions@ =~= seq![ScalarType::F32, ScalarType::F64]);
    BuiltinGpuSpec {
        name: String::from_str("normalize"),
        op_kind: GpuOpKind::Custom(String::from_str("reduction")),
        supported_precisions: precisions,
        broadcast: BroadcastSemantics::NoBroadcast,
        provider_hooks: Vec::new(),
        constant_strategy: ConstantStrategy::InlineLiteral,
        residency: ResidencyPolicy::GatherImmediately,
        nan_mode: ReductionNaN::Include,
        two_pass_threshold: None,
        workgroup_size: None,
        accepts_nan_mode: false,
        notes: String::from_str(
            "Centre/scale composite; gathers to host and reuses mean/std/min/max style reductions.",
        ),
    }
}

/// Descriptor of `normalize`.
pub fn normalize_descriptor() -> (d: BuiltinDescriptor)
    ensures
        d.labels() == seq!["N = normalize(A)"@, "N = normalize(A, dim) | normalize(A, method)"@, "N = normalize(A, [dim,] method, methodtype)"@],
        d.codes() == seq!["RM.NORMALIZE.INVALID_ARGUMENT"@, "RM.NORMALIZE.INVALID_INPUT"@, "RM.NORMALIZE.UNSUPPORTED"@, "RM.NORMALIZE.INTERNAL"@],
        d.output_mode == BuiltinOutputMode::Fixed,
{
    let s0 = signature(
        "N = normalize(A)",
        vec![
            param(
                "A",
                BuiltinParamType::Any,
                BuiltinParamArity::Required,
                "Input array.",
            ),
        ],
        vec![
            param(
                "N",
                BuiltinParamType::NumericArray,
                BuiltinParamArity::Required,
                "Normalized data, class double, same size as A.",
            ),
        ],
    );
    let s1 = signature(
        "N = normalize(A, dim) | normalize(A, method)",
        vec![
            param(
                "A",
                BuiltinParamType::Any,
                BuiltinParamArity::Required,
                "Input array.",
            ),
            param_with_default(
                "method",
                BuiltinParamType::Any,
                BuiltinParamArity::Optional,
                "\"zscore\"",
                "Operating dimension (numeric) or normalization method (string).",
            ),
        ],
        vec![
            param(
                "N",
                BuiltinParamType::NumericArray,
                BuiltinParamArity::Required,
                "Normalized data, class double, same size as A.",
            ),
        ],
    );
    let s2 = signature(
        "N = normalize(A, [dim,] method, methodtype)",
        vec![
            param(
                "A",
                BuiltinParamType::Any,
                BuiltinParamArity::Required,
                "Input array.",
            ),
            param_with_default(
                "method",
                BuiltinParamType::Any,
                BuiltinParamArity::Optional,
                "\"zscore\"",
                "Operating dimension (numeric) or normalization method (string).",
            ),
            param(
                "methodtype",
                BuiltinParamType::Any,
                BuiltinParamArity::Optional,
                "Method qualifier (e.g. range interval [a b], norm order p).",
            ),
        ],
        vec![
            param(
                "N",
                BuiltinParamType::NumericArray,
                BuiltinParamArity::Required,
                "Normalized data, class double, same size as A.",
            ),
        ],
    );
    let d = BuiltinDescriptor {
        signatures: vec![s0, s1, s2],
        output_mode: BuiltinOutputMode::Fixed,
        completion_policy: BuiltinCompletionPolicy::Public,
        errors: vec![normalize_error_invalid_argument(), normalize_error_invalid_input(), normalize_error_unsupported(), normalize_error_internal()],
    };
    assert(d.labels() =~= seq!["N = normalize(A)"@, "N = normalize(A, dim) | normalize(A, method)"@, "N = normalize(A, [dim,] method, methodtype)"@]);
    assert(d.codes() =~= seq!["RM.NORMALIZE.INVALID_ARGUMENT"@, "RM.NORMALIZE.INVALID_INPUT"@, "RM.NORMALIZE.UNSUPPORTED"@, "RM.NORMALIZE.INTERNAL"@]);
    d
}

/// Fusion metadata of `normalize`.
pub fn normalize_fusion_spec() -> (f: BuiltinFusionSpec)
    ensures
        f.name@ == "normalize"@,
{
    unfused_spec(
        "normalize",
        true,
        "Reduction followed by a broadcast transform; not independently fusible.",
    )
}


} // verus!
