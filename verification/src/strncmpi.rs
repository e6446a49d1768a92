//! `strncmpi`: case-insensitive comparison of the first `N` characters.

use vstd::prelude::*;
use crate::append::shape_total;
use crate::broadcast::{agree_upto, bidx, broadcast_index, broadcast_shapes, broadcast_spec, fits, lemma_fits_broadcast, max_len};
use crate::descriptor::{error_descriptor, host_gpu_spec, param, signature, unfused_spec, BroadcastSemantics, BuiltinCompletionPolicy, BuiltinDescriptor, BuiltinErrorDescriptor, BuiltinFusionSpec, BuiltinGpuSpec, BuiltinOutputMode, BuiltinParamArity, BuiltinParamType};
use crate::error::{descriptor_error, map_control_flow_with_builtin, opt_view, RuntimeError};
use crate::shape::prod;
use crate::text::{char_lowercase, chars_equal, str_chars, unicode_lowercase};
use crate::text_utils::{TextCollection, TextElement};
use crate::matches::logical_result;
use crate::value::{LogicalArray, Value};

verus! {

/// Two characters are equal ignoring case: identical, or with identical
/// Unicode lower-case mappings.
pub open spec fn chars_equal_ignore_case_spec(a: char, b: char) -> bool {
    a == b || unicode_lowercase(a) == unicode_lowercase(b)
}

/// Case fold consistent with `strcmpi`: the Unicode lower-case mapping is
/// applied per character.
pub fn chars_equal_ignore_case(lc: char, rc: char) -> (r: bool)
    ensures
        r == chars_equal_ignore_case_spec(lc, rc),
{
    if lc == rc {
        return true;
    }
    let a = char_lowercase(lc);
    let b = char_lowercase(rc);
    chars_equal(a.as_slice(), b.as_slice())
}

/// The first `limit` characters agree ignoring case: every position both
/// texts reach within the limit matches, and either both reach the limit or
/// both end at the same place.
pub open spec fn prefix_equal_ignore_case_spec(l: Seq<char>, r: Seq<char>, limit: nat) -> bool {
    let m = min3(limit as int, l.len() as int, r.len() as int);
    limit == 0 || ((forall|k: int| 0 <= k < m ==> chars_equal_ignore_case_spec(#[trigger] l[k], r[k]))
        && (m == limit || l.len() == r.len()))
}

pub open spec fn min3(a: int, b: int, c: int) -> int {
    let ab = if a < b { a } else { b };
    if ab < c { ab } else { c }
}

/// Compare up to `limit` characters ignoring case.
pub fn prefix_equal_ignore_case(lhs: &str, rhs: &str, limit: usize) -> (r: bool)
    ensures
        r == prefix_equal_ignore_case_spec(lhs@, rhs@, limit as nat),
{
    if limit == 0 {
        return true;
    }
    let l = str_chars(lhs);
    let rr = str_chars(rhs);
    let mut compared: usize = 0;
    while compared < limit
        invariant
            l@ == lhs@,
            rr@ == rhs@,
            compared <= limit,
            compared <= l@.len(),
            compared <= rr@.len(),
            forall|k: int| 0 <= k < compared ==> chars_equal_ignore_case_spec(#[trigger] l@[k], rr@[k]),
        decreases limit - compared,
    {
        let left_more = compared < l.len();
        let right_more = compared < rr.len();
        if left_more && right_more {
            if !chars_equal_ignore_case(l[compared], rr[compared]) {
                return false;
            }
        } else if left_more || right_more {
            return false;
        } else {
            return true;
        }
        compared = compared + 1;
    }
    true
}


/// The comparison is symmetric: swapping the two texts does not change
/// whether their first `limit` characters agree ignoring case.
pub proof fn law_prefix_compare_symmetric(l: Seq<char>, r: Seq<char>, limit: nat)
    ensures
        prefix_equal_ignore_case_spec(l, r, limit) == prefix_equal_ignore_case_spec(r, l, limit),
{
    let m = min3(limit as int, l.len() as int, r.len() as int);
    assert(m == min3(limit as int, r.len() as int, l.len() as int));
    if prefix_equal_ignore_case_spec(l, r, limit) && limit != 0 {
        assert forall|k: int| 0 <= k < m implies chars_equal_ignore_case_spec(#[trigger] r[k], l[k]) by {
            assert(chars_equal_ignore_case_spec(l[k], r[k]));
        }
    }
    if prefix_equal_ignore_case_spec(r, l, limit) && limit != 0 {
        assert forall|k: int| 0 <= k < m implies chars_equal_ignore_case_spec(#[trigger] l[k], r[k]) by {
            assert(chars_equal_ignore_case_spec(r[k], l[k]));
        }
    }
}

/// An error raised while gathering an argument, attributed to `strncmpi`.
pub fn remap_strncmpi_flow(err: RuntimeError) -> (e: RuntimeError)
    ensures
        e.message@ == err.message@,
        opt_view(e.identifier) == opt_view(err.identifier),
        opt_view(e.builtin) == (match err.builtin {
            Some(b) => Some(b@),
            None => Some("strncmpi"@),
        }),
{
    map_control_flow_with_builtin(err, "strncmpi")
}


/// The error is a `strncmpi` error with this identifier and message.
pub open spec fn strncmpi_error_is(e: RuntimeError, ident: Seq<char>, msg: Seq<char>) -> bool {
    &&& e.message@ == msg
    &&& opt_view(e.builtin) == Some("strncmpi"@)
    &&& opt_view(e.identifier) == Some(ident)
}

/// The prefix length argument as `strncmpi` reads it.
pub enum PrefixArg {
    /// An integer scalar.
    Int(i64),
    /// A real double scalar (or one-element array): the length it denotes
    /// when it is finite, nonnegative, integral and fits in `usize`.
    Float(Option<usize>),
    /// A logical scalar (or one-element logical array).
    Bool(bool),
    /// Anything else.
    Other,
}

/// The prefix length, or `None` when the argument is not a nonnegative
/// integer scalar.
pub open spec fn prefix_length_spec(a: PrefixArg) -> Option<usize> {
    match a {
        PrefixArg::Int(i) => if i < 0 { None } else { Some(i as usize) },
        PrefixArg::Float(x) => x,
        PrefixArg::Bool(b) => Some(if b { 1usize } else { 0usize }),
        PrefixArg::Other => None,
    }
}

fn to_length(i: i64) -> (n: usize)
    requires
        i >= 0,
    ensures
        n == i as usize,
{
    i as usize
}

/// Reads the prefix length.
pub fn parse_prefix_length(value: &PrefixArg) -> (r: Result<usize, RuntimeError>)
    ensures
        match prefix_length_spec(*value) {
            Some(n) => r == Ok::<usize, RuntimeError>(n),
            None => r matches Err(e) && strncmpi_error_is(
                e,
                "RunMat:strncmpi:InvalidPrefixLength"@,
                "strncmpi: prefix length must be a finite nonnegative integer scalar"@,
            ),
        },
{
    match value {
        PrefixArg::Int(i) => {
            if *i < 0 {
                Err(descriptor_error(&error_invalid_prefix_length(), "strncmpi"))
            } else {
                Ok(to_length(*i))
            }
        },
        PrefixArg::Float(x) => match x {
            Some(n) => Ok(*n),
            None => Err(descriptor_error(&error_invalid_prefix_length(), "strncmpi")),
        },
        PrefixArg::Bool(b) => Ok(if *b { 1 } else { 0 }),
        PrefixArg::Other => Err(descriptor_error(&error_invalid_prefix_length(), "strncmpi")),
    }
}

/// Two elements compare equal within `limit` characters: always for a
/// zero limit, never when either is missing.
pub open spec fn element_equal(a: TextElement, b: TextElement, limit: nat) -> bool {
    if limit == 0 {
        true
    } else {
        match (a, b) {
            (TextElement::Text(l), TextElement::Text(r)) => prefix_equal_ignore_case_spec(l@, r@, limit),
            _ => false,
        }
    }
}

/// The entry at position `p` of the comparison: one when the elements the
/// two collections broadcast there agree within `limit` characters.
pub open spec fn compared_at(left: TextCollection, right: TextCollection, out: Seq<usize>, p: int, limit: usize) -> u8 {
    if element_equal(
        left.elements@[bidx(p as nat, out, left.shape@) as int],
        right.elements@[bidx(p as nat, out, right.shape@) as int],
        limit as nat,
    ) {
        1u8
    } else {
        0u8
    }
}

/// The collection holds one element per position of its shape.
pub open spec fn collection_wf(c: TextCollection) -> bool {
    c.elements@.len() == prod(c.shape@)
}

/// Compares the two collections element by element under broadcasting:
/// the shape error when their shapes do not broadcast, else one entry per
/// element of the broadcast shape (one when the elements agree ignoring
/// case within `limit` characters).
pub fn evaluate_strncmpi(left: &TextCollection, right: &TextCollection, limit: usize) -> (r: Result<LogicalArray, RuntimeError>)
    requires
        collection_wf(*left),
        collection_wf(*right),
        agree_upto(left.shape@, right.shape@, max_len(left.shape@, right.shape@)) ==> prod(
            broadcast_spec(left.shape@, right.shape@),
        ) <= usize::MAX,
    ensures
        !agree_upto(left.shape@, right.shape@, max_len(left.shape@, right.shape@)) ==> (r matches Err(e) && strncmpi_error_is(
            e,
            "RunMat:strncmpi:ShapeMismatch"@,
            "strncmpi: input sizes are not broadcast-compatible"@,
        )),
        agree_upto(left.shape@, right.shape@, max_len(left.shape@, right.shape@)) ==> (r matches Ok(a) && {
            let out = broadcast_spec(left.shape@, right.shape@);
            &&& a.shape@ == out
            &&& a.data@.len() == prod(out)
            &&& forall|p: int| 0 <= p < a.data@.len() ==> #[trigger] a.data@[p] == compared_at(*left, *right, out, p, limit)
        }),
{
    let shape = match broadcast_shapes(left.shape.as_slice(), right.shape.as_slice()) {
        Ok(s) => s,
        Err(_) => return Err(descriptor_error(&error_shape_mismatch(), "strncmpi")),
    };
    proof {
        lemma_fits_broadcast(left.shape@, right.shape@, left.shape@);
    }
    let total = match shape_total(shape.as_slice()) {
        Some(t) => t,
        None => {
            assert(false);
            return Err(descriptor_error(&error_internal(), "strncmpi"));
        },
    };
    let ln = left.elements.len();
    let rn = right.elements.len();
    let mut data: Vec<u8> = Vec::new();
    let mut p: usize = 0;
    while p < total
        invariant
            total == prod(shape@),
            shape@ == broadcast_spec(left.shape@, right.shape@),
            fits(shape@, left.shape@),
            fits(shape@, right.shape@),
            ln == left.elements@.len() == prod(left.shape@),
            rn == right.elements@.len() == prod(right.shape@),
            p <= total,
            data@.len() == p,
            forall|q: int| 0 <= q < p ==> #[trigger] data@[q] == compared_at(*left, *right, shape@, q, limit),
        decreases total - p,
    {
        let li = broadcast_index(p, shape.as_slice(), left.shape.as_slice());
        let ri = broadcast_index(p, shape.as_slice(), right.shape.as_slice());
        let equal = if limit == 0 {
            true
        } else {
            match (&left.elements[li], &right.elements[ri]) {
                (TextElement::Text(l), TextElement::Text(r)) => prefix_equal_ignore_case(l.as_str(), r.as_str(), limit),
                _ => false,
            }
        };
        data.push(if equal { 1u8 } else { 0u8 });
        p = p + 1;
    }
    Ok(LogicalArray { data, shape })
}

/// The value `strncmpi` returns for two broadcast-compatible collections:
/// a logical scalar when the broadcast shape holds one element, else the
/// logical array of the comparisons.
pub open spec fn strncmpi_value(v: Value, left: TextCollection, right: TextCollection, limit: usize) -> bool {
    let out = broadcast_spec(left.shape@, right.shape@);
    if prod(out) == 1 {
        v == Value::Bool(compared_at(left, right, out, 0, limit) != 0)
    } else {
        &&& v matches Value::LogicalArray(a)
        &&& v->LogicalArray_0.shape@ == out
        &&& v->LogicalArray_0.data@.len() == prod(out)
        &&& forall|p: int| 0 <= p < prod(out) ==> #[trigger] v->LogicalArray_0.data@[p] == compared_at(left, right, out, p, limit)
    }
}

/// `strncmpi(A, B, N)` on arguments already read: `N` is checked first,
/// then each text argument (`None` for a value that is not a text
/// container), then the shapes.
pub fn strncmpi(a: &Option<TextCollection>, b: &Option<TextCollection>, n: &PrefixArg) -> (r: Result<Value, RuntimeError>)
    requires
        *a matches Some(l) ==> collection_wf(l),
        *b matches Some(rc) ==> collection_wf(rc),
        match (*a, *b) {
            (Some(l), Some(rc)) => agree_upto(l.shape@, rc.shape@, max_len(l.shape@, rc.shape@)) ==> prod(
                broadcast_spec(l.shape@, rc.shape@),
            ) <= usize::MAX,
            _ => true,
        },
    ensures
        match prefix_length_spec(*n) {
            None => r matches Err(e) && strncmpi_error_is(
                e,
                "RunMat:strncmpi:InvalidPrefixLength"@,
                "strncmpi: prefix length must be a finite nonnegative integer scalar"@,
            ),
            Some(limit) => match (*a, *b) {
                (Some(l), Some(rc)) => if agree_upto(l.shape@, rc.shape@, max_len(l.shape@, rc.shape@)) {
                    r matches Ok(v) && strncmpi_value(v, l, rc, limit)
                } else {
                    r matches Err(e) && strncmpi_error_is(
                        e,
                        "RunMat:strncmpi:ShapeMismatch"@,
                        "strncmpi: input sizes are not broadcast-compatible"@,
                    )
                },
                _ => r matches Err(e) && strncmpi_error_is(
                    e,
                    "RunMat:strncmpi:InvalidInput"@,
                    "strncmpi: text inputs must be string/char/cell/string-array values"@,
                ),
            },
        },
{
    let limit = match parse_prefix_length(n) {
        Ok(l) => l,
        Err(e) => return Err(e),
    };
    let left = match a {
        Some(l) => l,
        None => return Err(descriptor_error(&error_invalid_input(), "strncmpi")),
    };
    let right = match b {
        Some(rc) => rc,
        None => return Err(descriptor_error(&error_invalid_input(), "strncmpi")),
    };
    match evaluate_strncmpi(left, right, limit) {
        Ok(arr) => {
            let ghost out = broadcast_spec(left.shape@, right.shape@);
            let v = logical_result(arr);
            Ok(v)
        },
        Err(e) => Err(e),
    }
}

/// Acceleration metadata of `strncmpi`: host comparisons after a gather.
pub fn strncmpi_gpu_spec() -> (g: BuiltinGpuSpec)
    ensures
        g.name@ == "strncmpi"@,
        g.broadcast == BroadcastSemantics::Matlab,
{
    let mut g = host_gpu_spec(
        "strncmpi",
        "string-prefix-compare-fold",
        "Performs host-side case-folded prefix comparisons; GPU inputs are gathered before evaluation.",
    );
    g.broadcast = BroadcastSemantics::Matlab;
    g
}

fn error_invalid_input() -> (e: BuiltinErrorDescriptor)
    ensures
        e.code@ == "RM.STRNCMPI.INVALID_INPUT"@,
        e.identifier matches Some(i) && i@ == "RunMat:strncmpi:InvalidInput"@,
        e.message@ == "strncmpi: text inputs must be string/char/cell/string-array values"@,
{
    error_descriptor(
        "RM.STRNCMPI.INVALID_INPUT",
        "RunMat:strncmpi:InvalidInput",
        "At least one text input is not a supported text container.",
        "strncmpi: text inputs must be string/char/cell/string-array values",
    )
}

fn error_shape_mismatch() -> (e: BuiltinErrorDescriptor)
    ensures
        e.code@ == "RM.STRNCMPI.SHAPE_MISMATCH"@,
        e.identifier matches Some(i) && i@ == "RunMat:strncmpi:ShapeMismatch"@,
        e.message@ == "strncmpi: input sizes are not broadcast-compatible"@,
{
    error_descriptor(
        "RM.STRNCMPI.SHAPE_MISMATCH",
        "RunMat:strncmpi:ShapeMismatch",
        "Text inputs are not broadcast-compatible.",
        "strncmpi: input sizes are not broadcast-compatible",
    )
}

fn error_invalid_prefix_length() -> (e: BuiltinErrorDescriptor)
    ensures
        e.code@ == "RM.STRNCMPI.INVALID_PREFIX_LENGTH"@,
        e.identifier matches Some(i) && i@ == "RunMat:strncmpi:InvalidPrefixLength"@,
        e.message@ == "strncmpi: prefix length must be a finite nonnegative integer scalar"@,
{
    error_descriptor(
        "RM.STRNCMPI.INVALID_PREFIX_LENGTH",
        "RunMat:strncmpi:InvalidPrefixLength",
        "Prefix length argument is not a finite nonnegative integer scalar.",
        "strncmpi: prefix length must be a finite nonnegative integer scalar",
    )
}

fn error_internal() -> (e: BuiltinErrorDescriptor)
    ensures
        e.code@ == "RM.STRNCMPI.INTERNAL"@,
        e.identifier matches Some(i) && i@ == "RunMat:strncmpi:InternalError"@,
        e.message@ == "strncmpi: internal error"@,
{
    error_descriptor(
        "RM.STRNCMPI.INTERNAL",
        "RunMat:strncmpi:InternalError",
        "Internal logical result assembly failed.",
        "strncmpi: internal error",
    )
}

/// Descriptor of `strncmpi`.
pub fn strncmpi_descriptor() -> (d: BuiltinDescriptor)
    ensures
        d.labels() == seq!["tf = strncmpi(A, B, N)"@],
        d.codes() == seq!["RM.STRNCMPI.INVALID_INPUT"@, "RM.STRNCMPI.SHAPE_MISMATCH"@, "RM.STRNCMPI.INVALID_PREFIX_LENGTH"@, "RM.STRNCMPI.INTERNAL"@],
        d.output_mode == BuiltinOutputMode::Fixed,
{
    let s0 = signature(
        "tf = strncmpi(A, B, N)",
        vec![
            param(
                "A",
                BuiltinParamType::Any,
                BuiltinParamArity::Required,
                "First text input (string/char/cell/string array).",
            ),
            param(
                "B",
                BuiltinParamType::Any,
                BuiltinParamArity::Required,
                "Second text input (string/char/cell/string array).",
            ),
            param(
                "N",
                BuiltinParamType::IntegerScalar,
                BuiltinParamArity::Required,
                "Prefix length to compare.",
            ),
        ],
        vec![
            param(
                "tf",
                BuiltinParamType::LogicalArray,
                BuiltinParamArity::Required,
                "Logical case-insensitive prefix-comparison result.",
            ),
        ],
    );
    let d = BuiltinDescriptor {
        signatures: vec![s0],
        output_mode: BuiltinOutputMode::Fixed,
        completion_policy: BuiltinCompletionPolicy::Public,
        errors: vec![error_invalid_input(), error_shape_mismatch(), error_invalid_prefix_length(), error_internal()],
    };
    assert(d.labels() =~= seq!["tf = strncmpi(A, B, N)"@]);
    assert(d.codes() =~= seq!["RM.STRNCMPI.INVALID_INPUT"@, "RM.STRNCMPI.SHAPE_MISMATCH"@, "RM.STRNCMPI.INVALID_PREFIX_LENGTH"@, "RM.STRNCMPI.INTERNAL"@]);
    d
}

/// Fusion metadata of `strncmpi`.
pub fn strncmpi_fusion_spec() -> (f: BuiltinFusionSpec)
    ensures
        f.name@ == "strncmpi"@,
{
    unfused_spec(
        "strncmpi",
        false,
        "Produces logical host results and is not eligible for GPU fusion.",
    )
}


} // verus!
