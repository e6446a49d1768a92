//! `matches`: whether each text element equals any of a set of patterns.

use vstd::prelude::*;
use crate::descriptor::{error_descriptor, host_gpu_spec, param, param_with_default, signature, unfused_spec, BroadcastSemantics, BuiltinCompletionPolicy, BuiltinDescriptor, BuiltinErrorDescriptor, BuiltinFusionSpec, BuiltinGpuSpec, BuiltinOutputMode, BuiltinParamArity, BuiltinParamType, GpuOpKind};
use crate::error::{descriptor_error_with_message, map_control_flow_with_builtin, opt_view, RuntimeError};
use crate::text::{chars_equal, str_chars, str_lowercase, unicode_str_lowercase};
use crate::text_utils::{lowered, TextCollection, TextElement};
use crate::value::{LogicalArray, Value};

verus! {

/// `t` equals some present pattern: exactly, or after lower-casing both
/// when `ignore_case` holds.
pub open spec fn matches_any(t: Seq<char>, patterns: Seq<TextElement>, ignore_case: bool) -> bool {
    exists|j: int| 0 <= j < patterns.len() && pattern_hit(t, #[trigger] patterns[j], ignore_case)
}

/// `t` equals the pattern `e`, which is present.
pub open spec fn pattern_hit(t: Seq<char>, e: TextElement, ignore_case: bool) -> bool {
    match e {
        TextElement::Missing => false,
        TextElement::Text(p) => if ignore_case {
            unicode_str_lowercase(t) == unicode_str_lowercase(p@)
        } else {
            t == p@
        },
    }
}

/// Whether a subject element matches: missing elements never do.
pub open spec fn element_matches(e: TextElement, patterns: Seq<TextElement>, ignore_case: bool) -> bool {
    match e {
        TextElement::Missing => false,
        TextElement::Text(t) => matches_any(t@, patterns, ignore_case),
    }
}

/// The text equals a present pattern.
fn matches_one(text: &String, patterns: &TextCollection, pattern_lower: &Vec<Option<String>>, ignore_case: bool) -> (b: bool)
    requires
        pattern_lower@.len() == patterns.elements@.len(),
        forall|i: int| 0 <= i < pattern_lower@.len() ==> match (#[trigger] pattern_lower@[i], lowered(patterns.elements@)[i]) {
            (Some(a), Some(b)) => a@ == b,
            (None, None) => true,
            _ => false,
        },
    ensures
        b == matches_any(text@, patterns.elements@, ignore_case),
{
    let ps = &patterns.elements;
    let subject_lower: Vec<char> = if ignore_case {
        let l = str_lowercase(text.as_str());
        str_chars(l.as_str())
    } else {
        Vec::new()
    };
    let subject = str_chars(text.as_str());
    let mut j: usize = 0;
    while j < ps.len()
        invariant
            j <= ps@.len(),
            ps@ == patterns.elements@,
            pattern_lower@.len() == ps@.len(),
            forall|i: int| 0 <= i < pattern_lower@.len() ==> match (#[trigger] pattern_lower@[i], lowered(ps@)[i]) {
                (Some(a), Some(b)) => a@ == b,
                (None, None) => true,
                _ => false,
            },
            subject@ == text@,
            ignore_case ==> subject_lower@ == unicode_str_lowercase(text@),
            forall|k: int| 0 <= k < j ==> !pattern_hit(text@, #[trigger] ps@[k], ignore_case),
        decreases ps@.len() - j,
    {
        match &ps[j] {
            TextElement::Missing => {},
            TextElement::Text(p) => {
                let hit = if ignore_case {
                    match &pattern_lower[j] {
                        Some(lp) => {
                            let lpc = str_chars(lp.as_str());
                            chars_equal(subject_lower.as_slice(), lpc.as_slice())
                        },
                        None => false,
                    }
                } else {
                    let pc = str_chars(p.as_str());
                    chars_equal(subject.as_slice(), pc.as_slice())
                };
                if hit {
                    proof {
                        assert(pattern_hit(text@, ps@[j as int], ignore_case));
                    }
                    return true;
                }
            },
        }
        j = j + 1;
    }
    false
}

/// Tests each subject element against the whole pattern set: a subject
/// element matches when it is present and equals a present pattern
/// (after lower-casing both when `ignore_case` holds). The result has one
/// entry per subject element (one for a match, zero otherwise) and the
/// subject's shape.
pub fn evaluate_matches(subject: &TextCollection, patterns: &TextCollection, ignore_case: bool) -> (r: LogicalArray)
    ensures
        r.shape@ == subject.shape@,
        r.data@.len() == subject.elements@.len(),
        forall|i: int| 0 <= i < r.data@.len() ==> #[trigger] r.data@[i] == (if element_matches(subject.elements@[i], patterns.elements@, ignore_case) { 1u8 } else { 0u8 }),
{
    let pattern_lower = patterns.lowercased();
    let mut data: Vec<u8> = Vec::new();
    let mut i: usize = 0;
    while i < subject.elements.len()
        invariant
            i <= subject.elements@.len(),
            data@.len() == i,
            pattern_lower@.len() == patterns.elements@.len(),
            forall|k: int| 0 <= k < pattern_lower@.len() ==> match (#[trigger] pattern_lower@[k], lowered(patterns.elements@)[k]) {
                (Some(a), Some(b)) => a@ == b,
                (None, None) => true,
                _ => false,
            },
            forall|k: int| 0 <= k < i ==> #[trigger] data@[k] == (if element_matches(subject.elements@[k], patterns.elements@, ignore_case) { 1u8 } else { 0u8 }),
        decreases subject.elements@.len() - i,
    {
        let value = match &subject.elements[i] {
            TextElement::Missing => false,
            TextElement::Text(t) => matches_one(t, patterns, &pattern_lower, ignore_case),
        };
        data.push(if value { 1u8 } else { 0u8 });
        i = i + 1;
    }
    let mut shape: Vec<usize> = Vec::new();
    let mut k: usize = 0;
    while k < subject.shape.len()
        invariant
            k <= subject.shape@.len(),
            shape@ == subject.shape@.take(k as int),
        decreases subject.shape@.len() - k,
    {
        shape.push(subject.shape[k]);
        k = k + 1;
        assert(shape@ =~= subject.shape@.take(k as int));
    }
    assert(subject.shape@.take(subject.shape@.len() as int) =~= subject.shape@);
    LogicalArray { data, shape }
}


/// Ignoring case only widens a match: an element that matches exactly also
/// matches when case is ignored.
pub proof fn law_ignore_case_widens(e: TextElement, patterns: Seq<TextElement>)
    ensures
        element_matches(e, patterns, false) ==> element_matches(e, patterns, true),
{
    if element_matches(e, patterns, false) {
        let t = e->Text_0@;
        let j = choose|j: int| 0 <= j < patterns.len() && pattern_hit(t, #[trigger] patterns[j], false);
        assert(pattern_hit(t, patterns[j], true));
    }
}

/// A logical result as a value: a single element is a logical scalar, any
/// other count a logical array.
pub fn logical_result(result: LogicalArray) -> (v: Value)
    ensures
        result.data@.len() == 1 ==> v == Value::Bool(result.data@[0] != 0),
        result.data@.len() != 1 ==> v == Value::LogicalArray(result),
{
    if result.data.len() == 1 {
        Value::Bool(result.data[0] != 0)
    } else {
        Value::LogicalArray(result)
    }
}

/// The error is a `matches` error with this identifier and message.
pub open spec fn matches_error_is(e: RuntimeError, ident: Seq<char>, msg: Seq<char>) -> bool {
    &&& e.message@ == msg
    &&& opt_view(e.builtin) == Some("matches"@)
    &&& opt_view(e.identifier) == Some(ident)
}

/// `matches(str, pat, ...)` on arguments already read: the `IgnoreCase`
/// option first, then the subject, then the patterns (`Err` carrying the
/// message for an option or argument that could not be read). The result
/// is a logical scalar for a one-element subject, else a logical array
/// shaped like the subject.
pub fn matches(
    subject: &Result<TextCollection, String>,
    patterns: &Result<TextCollection, String>,
    ignore_case: &Result<bool, String>,
) -> (r: Result<Value, RuntimeError>)
    ensures
        match *ignore_case {
            Err(m) => r matches Err(e) && matches_error_is(e, "RunMat:matches:InvalidOption"@, m@),
            Ok(ic) => match *subject {
                Err(m) => r matches Err(e) && matches_error_is(e, "RunMat:matches:InvalidInput"@, m@),
                Ok(s) => match *patterns {
                    Err(m) => r matches Err(e) && matches_error_is(e, "RunMat:matches:InvalidInput"@, m@),
                    Ok(p) => r matches Ok(v) && (if s.elements@.len() == 1 {
                        v == Value::Bool(element_matches(s.elements@[0], p.elements@, ic))
                    } else {
                        &&& v matches Value::LogicalArray(a)
                        &&& v->LogicalArray_0.shape@ == s.shape@
                        &&& v->LogicalArray_0.data@.len() == s.elements@.len()
                        &&& forall|i: int| 0 <= i < s.elements@.len() ==> #[trigger] v->LogicalArray_0.data@[i] == (if element_matches(s.elements@[i], p.elements@, ic) { 1u8 } else { 0u8 })
                    }),
                },
            },
        },
{
    let ic = match ignore_case {
        Ok(b) => *b,
        Err(m) => return Err(descriptor_error_with_message(&matches_error_invalid_option(), m.clone(), "matches")),
    };
    let s = match subject {
        Ok(s) => s,
        Err(m) => return Err(descriptor_error_with_message(&matches_error_invalid_input(), m.clone(), "matches")),
    };
    let p = match patterns {
        Ok(p) => p,
        Err(m) => return Err(descriptor_error_with_message(&matches_error_invalid_input(), m.clone(), "matches")),
    };
    let arr = evaluate_matches(s, p, ic);
    Ok(logical_result(arr))
}

/// Attributes an error raised while gathering an argument to `matches`.
pub fn remap_matches_flow(err: RuntimeError) -> (e: RuntimeError)
    ensures
        e.message@ == err.message@,
        opt_view(e.identifier) == opt_view(err.identifier),
        opt_view(e.builtin) == (match err.builtin {
            Some(b) => Some(b@),
            None => Some("matches"@),
        }),
{
    map_control_flow_with_builtin(err, "matches")
}

/// Acceleration metadata of `matches`: host execution after a gather.
pub fn matches_gpu_spec() -> (g: BuiltinGpuSpec)
    ensures
        g.name@ == "matches"@,
        g.op_kind matches GpuOpKind::Custom(k) && k@ == "string-search"@,
        g.broadcast == BroadcastSemantics::Matlab,
{
    let mut g = host_gpu_spec(
        "matches",
        "string-search",
        "Executes entirely on the host; inputs are gathered from the GPU before performing equality checks.",
    );
    g.broadcast = BroadcastSemantics::Matlab;
    g
}

fn matches_error_invalid_input() -> (e: BuiltinErrorDescriptor)
    ensures
        e.code@ == "RM.MATCHES.INVALID_INPUT"@,
        e.identifier matches Some(i) && i@ == "RunMat:matches:InvalidInput"@,
        e.message@ == "matches: text and pattern inputs must be text values"@,
{
    error_descriptor(
        "RM.MATCHES.INVALID_INPUT",
        "RunMat:matches:InvalidInput",
        "Text or pattern input is not a supported text container.",
        "matches: text and pattern inputs must be text values",
    )
}

fn matches_error_invalid_option() -> (e: BuiltinErrorDescriptor)
    ensures
        e.code@ == "RM.MATCHES.INVALID_OPTION"@,
        e.identifier matches Some(i) && i@ == "RunMat:matches:InvalidOption"@,
        e.message@ == "matches: invalid option arguments"@,
{
    error_descriptor(
        "RM.MATCHES.INVALID_OPTION",
        "RunMat:matches:InvalidOption",
        "IgnoreCase option arguments are invalid or malformed.",
        "matches: invalid option arguments",
    )
}

fn matches_error_internal() -> (e: BuiltinErrorDescriptor)
    ensures
        e.code@ == "RM.MATCHES.INTERNAL"@,
        e.identifier matches Some(i) && i@ == "RunMat:matches:InternalError"@,
        e.message@ == "matches: internal error"@,
{
    error_descriptor(
        "RM.MATCHES.INTERNAL",
        "RunMat:matches:InternalError",
        "Internal logical result assembly failed.",
        "matches: internal error",
    )
}

/// Descriptor of `matches`.
pub fn matches_descriptor() -> (d: BuiltinDescriptor)
    ensures
        d.labels() == seq!["tf = matches(str, pat)"@, "tf = matches(str, pat, \"IgnoreCase\", value)"@, "tf = matches(str, pat, nameValuePairs...)"@],
        d.codes() == seq!["RM.MATCHES.INVALID_INPUT"@, "RM.MATCHES.INVALID_OPTION"@, "RM.MATCHES.INTERNAL"@],
        d.output_mode == BuiltinOutputMode::Fixed,
{
    let s0 = signature(
        "tf = matches(str, pat)",
        vec![
            param(
                "str",
                BuiltinParamType::Any,
                BuiltinParamArity::Required,
                "Text input (string/char/cell/string array).",
            ),
            param(
                "pat",
                BuiltinParamType::Any,
                BuiltinParamArity::Required,
                "Pattern text (string/char/cell/string array).",
            ),
        ],
        vec![
            param(
                "tf",
                BuiltinParamType::LogicalArray,
                BuiltinParamArity::Required,
                "Logical result indicating whether each text element equals a pattern.",
            ),
        ],
    );
    let s1 = signature(
        "tf = matches(str, pat, \"IgnoreCase\", value)",
        vec![
            param(
                "str",
                BuiltinParamType::Any,
                BuiltinParamArity::Required,
                "Text input (string/char/cell/string array).",
            ),
            param(
                "pat",
                BuiltinParamType::Any,
                BuiltinParamArity::Required,
                "Pattern text (string/char/cell/string array).",
            ),
            param_with_default(
                "name",
                BuiltinParamType::StringScalar,
                BuiltinParamArity::Required,
                "\"IgnoreCase\"",
                "Option name (`\"IgnoreCase\"`).",
            ),
            param(
                "value",
                BuiltinParamType::Any,
                BuiltinParamArity::Required,
                "Option value for `\"IgnoreCase\"`.",
            ),
        ],
        vec![
            param(
                "tf",
                BuiltinParamType::LogicalArray,
                BuiltinParamArity::Required,
                "Logical result indicating whether each text element equals a pattern.",
            ),
        ],
    );
    let s2 = signature(
        "tf = matches(str, pat, nameValuePairs...)",
        vec![
            param(
                "str",
                BuiltinParamType::Any,
                BuiltinParamArity::Required,
                "Text input (string/char/cell/string array).",
            ),
            param(
                "pat",
                BuiltinParamType::Any,
                BuiltinParamArity::Required,
                "Pattern text (string/char/cell/string array).",
            ),
            param(
                "nameValuePairs...",
                BuiltinParamType::Any,
                BuiltinParamArity::Variadic,
                "Name-value option pairs (`\"IgnoreCase\"`, value).",
            ),
        ],
        vec![
            param(
                "tf",
                BuiltinParamType::LogicalArray,
                BuiltinParamArity::Required,
                "Logical result indicating whether each text element equals a pattern.",
            ),
        ],
    );
    let d = BuiltinDescriptor {
        signatures: vec![s0, s1, s2],
        output_mode: BuiltinOutputMode::Fixed,
        completion_policy: BuiltinCompletionPolicy::Public,
        errors: vec![matches_error_invalid_input(), matches_error_invalid_option(), matches_error_internal()],
    };
    assert(d.labels() =~= seq!["tf = matches(str, pat)"@, "tf = matches(str, pat, \"IgnoreCase\", value)"@, "tf = matches(str, pat, nameValuePairs...)"@]);
    assert(d.codes() =~= seq!["RM.MATCHES.INVALID_INPUT"@, "RM.MATCHES.INVALID_OPTION"@, "RM.MATCHES.INTERNAL"@]);
    d
}

/// Fusion metadata of `matches`.
pub fn matches_fusion_spec() -> (f: BuiltinFusionSpec)
    ensures
        f.name@ == "matches"@,
{
    unfused_spec(
        "matches",
        false,
        "Text operation; not eligible for fusion and materialises host logical results.",
    )
}

} // verus!
