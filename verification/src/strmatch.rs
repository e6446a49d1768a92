//! `strmatch`: the 1-based positions of the text rows that begin with (or,
//! with the `'exact'` flag, equal) a pattern.

use vstd::prelude::*;
use crate::descriptor::{error_descriptor, host_gpu_spec, param, param_with_default, signature, unfused_spec, BuiltinCompletionPolicy, BuiltinDescriptor, BuiltinErrorDescriptor, BuiltinFusionSpec, BuiltinGpuSpec, BuiltinOutputMode, BuiltinParamArity, BuiltinParamType};
use crate::error::{descriptor_error, descriptor_error_with_message, opt_view, RuntimeError};
use crate::text::{chars_equal, chars_to_string, eq_ignore_ascii_case, eq_ignore_ascii_case_spec, push_all, str_chars};
use crate::text_utils::{TextCollection, TextElement};
use crate::value::Value;

verus! {

/// The single piece of text a value holds: a character array of at most one
/// row, a string, or a one-element string array.
pub open spec fn single_text(v: Value) -> Option<Seq<char>> {
    match v {
        Value::CharArray(ca) => if ca.rows <= 1 { Some(ca.data@) } else { None },
        Value::String(s) => Some(s@),
        Value::StringArray(sa) => if sa.data@.len() == 1 { Some(sa.data@[0]@) } else { None },
        _ => None,
    }
}

/// The characters of the single piece of text a value holds, if it holds
/// one.
pub fn text_of(v: &Value) -> (r: Option<Vec<char>>)
    ensures
        match (r, single_text(*v)) {
            (Some(a), Some(b)) => a@ == b,
            (None, None) => true,
            _ => false,
        },
{
    match v {
        Value::CharArray(ca) => {
            if ca.rows <= 1 {
                let mut out: Vec<char> = Vec::new();
                push_all(&mut out, ca.data.as_slice());
                Some(out)
            } else {
                None
            }
        },
        Value::String(s) => Some(str_chars(s.as_str())),
        Value::StringArray(sa) => {
            if sa.data.len() == 1 {
                Some(str_chars(sa.data[0].as_str()))
            } else {
                None
            }
        },
        _ => None,
    }
}

/// The error is a `strmatch` error with this identifier and message.
pub open spec fn strmatch_error_is(e: RuntimeError, ident: Seq<char>, msg: Seq<char>) -> bool {
    &&& e.message@ == msg
    &&& opt_view(e.builtin) == Some("strmatch"@)
    &&& opt_view(e.identifier) == Some(ident)
}

/// What the optional third argument asks for: `Ok(true)` for the
/// `'exact'` flag (in any letter case), `Ok(false)` when it is absent, else
/// the error's identifier and message.
pub open spec fn exact_flag(rest: Seq<Value>) -> Result<bool, (Seq<char>, Seq<char>)> {
    if rest.len() == 0 {
        Ok(false)
    } else if rest.len() == 1 {
        match single_text(rest[0]) {
            None => Err(("RunMat:strmatch:InvalidFlag"@, "strmatch: invalid match flag; supported flag is 'exact'"@)),
            Some(t) => if eq_ignore_ascii_case_spec(t, "exact"@) {
                Ok(true)
            } else {
                Err((
                    "RunMat:strmatch:InvalidFlag"@,
                    "strmatch: invalid match flag '"@ + t + "'; supported flag is 'exact'"@,
                ))
            },
        }
    } else {
        Err(("RunMat:strmatch:InvalidFlag"@, "strmatch: too many input arguments"@))
    }
}

/// Reads the optional `'exact'` flag.
pub fn parse_exact_flag(rest: &Vec<Value>) -> (r: Result<bool, RuntimeError>)
    ensures
        match exact_flag(rest@) {
            Ok(b) => r == Ok::<bool, RuntimeError>(b),
            Err((id, msg)) => r matches Err(e) && strmatch_error_is(e, id, msg),
        },
{
    if rest.len() == 0 {
        return Ok(false);
    }
    if rest.len() > 1 {
        let d = strmatch_error_invalid_flag();
        return Err(descriptor_error_with_message(&d, String::from_str("strmatch: too many input arguments"), "strmatch"));
    }
    match text_of(&rest[0]) {
        None => Err(descriptor_error(&strmatch_error_invalid_flag(), "strmatch")),
        Some(t) => {
            let exact = str_chars("exact");
            if eq_ignore_ascii_case(t.as_slice(), exact.as_slice()) {
                Ok(true)
            } else {
                let mut cs = str_chars("strmatch: invalid match flag '");
                push_all(&mut cs, t.as_slice());
                let tail = str_chars("'; supported flag is 'exact'");
                push_all(&mut cs, tail.as_slice());
                let d = strmatch_error_invalid_flag();
                Err(descriptor_error_with_message(&d, chars_to_string(cs.as_slice()), "strmatch"))
            }
        },
    }
}

/// The pattern: a single piece of text.
pub fn extract_pattern_text(value: &Value) -> (r: Result<Vec<char>, RuntimeError>)
    ensures
        match single_text(*value) {
            Some(t) => r matches Ok(p) && p@ == t,
            None => r matches Err(e) && strmatch_error_is(
                e,
                "RunMat:strmatch:InvalidInput"@,
                "strmatch: first argument must be a character vector or string scalar"@,
            ),
        },
{
    match text_of(value) {
        Some(t) => Ok(t),
        None => {
            let d = strmatch_error_invalid_input();
            Err(descriptor_error_with_message(
                &d,
                String::from_str("strmatch: first argument must be a character vector or string scalar"),
                "strmatch",
            ))
        },
    }
}

/// The element is present text that begins with `p`, or equals it when
/// `exact` holds.
pub open spec fn strmatch_hit(e: TextElement, p: Seq<char>, exact: bool) -> bool {
    match e {
        TextElement::Missing => false,
        TextElement::Text(t) => if exact {
            t@ == p
        } else {
            t@.len() >= p.len() && t@.take(p.len() as int) == p
        },
    }
}

/// The 1-based positions, in order, of the hits among the first `n`
/// elements.
pub open spec fn hit_positions(es: Seq<TextElement>, p: Seq<char>, exact: bool, n: int) -> Seq<usize>
    decreases n,
{
    if n <= 0 {
        Seq::empty()
    } else if strmatch_hit(es[n - 1], p, exact) {
        hit_positions(es, p, exact, n - 1).push(n as usize)
    } else {
        hit_positions(es, p, exact, n - 1)
    }
}

fn is_hit(e: &TextElement, pattern: &[char], exact: bool) -> (b: bool)
    ensures
        b == strmatch_hit(*e, pattern@, exact),
{
    match e {
        TextElement::Missing => false,
        TextElement::Text(t) => {
            let tc = str_chars(t.as_str());
            if exact {
                chars_equal(tc.as_slice(), pattern)
            } else if tc.len() < pattern.len() {
                false
            } else {
                let mut i: usize = 0;
                while i < pattern.len()
                    invariant
                        i <= pattern@.len() <= tc@.len(),
                        tc@ == t@,
                        !exact,
                        *e == TextElement::Text(*t),
                        forall|k: int| 0 <= k < i ==> tc@[k] == pattern@[k],
                    decreases pattern@.len() - i,
                {
                    if tc[i] != pattern[i] {
                        proof {
                            assert(tc@.take(pattern@.len() as int)[i as int] != pattern@[i as int]);
                        }
                        return false;
                    }
                    i = i + 1;
                }
                assert(tc@.take(pattern@.len() as int) =~= pattern@);
                true
            }
        },
    }
}

/// The 1-based positions of the elements that begin with the pattern (or
/// equal it, when `exact` holds), in increasing order.
pub fn strmatch_indices(entries: &TextCollection, pattern: &[char], exact: bool) -> (idx: Vec<usize>)
    requires
        entries.elements@.len() < usize::MAX,
    ensures
        idx@ == hit_positions(entries.elements@, pattern@, exact, entries.elements@.len() as int),
{
    let mut idx: Vec<usize> = Vec::new();
    let mut i: usize = 0;
    while i < entries.elements.len()
        invariant
            i <= entries.elements@.len() < usize::MAX,
            idx@ == hit_positions(entries.elements@, pattern@, exact, i as int),
        decreases entries.elements@.len() - i,
    {
        if is_hit(&entries.elements[i], pattern, exact) {
            idx.push(i + 1);
        }
        i = i + 1;
    }
    idx
}

/// `strmatch(str, arr[, flag])`: the flag is read first, then the pattern,
/// then the searched collection (`Err` carrying the message for an
/// argument that is not a text collection). The result lists the 1-based
/// positions of the matching rows.
pub fn strmatch(pattern: &Value, entries: &Result<TextCollection, String>, rest: &Vec<Value>) -> (r: Result<Vec<usize>, RuntimeError>)
    requires
        entries matches Ok(c) ==> c.elements@.len() < usize::MAX,
    ensures
        match exact_flag(rest@) {
            Err((id, msg)) => r matches Err(e) && strmatch_error_is(e, id, msg),
            Ok(exact) => match single_text(*pattern) {
                None => r matches Err(e) && strmatch_error_is(
                    e,
                    "RunMat:strmatch:InvalidInput"@,
                    "strmatch: first argument must be a character vector or string scalar"@,
                ),
                Some(p) => match *entries {
                    Err(m) => r matches Err(e) && strmatch_error_is(e, "RunMat:strmatch:InvalidInput"@, m@),
                    Ok(c) => r matches Ok(idx) && idx@ == hit_positions(c.elements@, p, exact, c.elements@.len() as int),
                },
            },
        },
{
    let exact = match parse_exact_flag(rest) {
        Ok(b) => b,
        Err(e) => return Err(e),
    };
    let p = match extract_pattern_text(pattern) {
        Ok(p) => p,
        Err(e) => return Err(e),
    };
    match entries {
        Err(m) => {
            let d = strmatch_error_invalid_input();
            Err(descriptor_error_with_message(&d, m.clone(), "strmatch"))
        },
        Ok(c) => Ok(strmatch_indices(c, p.as_slice(), exact)),
    }
}

/// Acceleration metadata of `strmatch`: text never resides on the GPU.
pub fn strmatch_gpu_spec() -> (g: BuiltinGpuSpec)
    ensures
        g.name@ == "strmatch"@,
{
    host_gpu_spec(
        "strmatch",
        "string-search",
        "Executes entirely on the host; text inputs never reside on the GPU.",
    )
}

fn strmatch_error_invalid_input() -> (e: BuiltinErrorDescriptor)
    ensures
        e.code@ == "RM.STRMATCH.INVALID_INPUT"@,
        e.identifier matches Some(i) && i@ == "RunMat:strmatch:InvalidInput"@,
        e.message@ == "strmatch: inputs must be text values"@,
{
    error_descriptor(
        "RM.STRMATCH.INVALID_INPUT",
        "RunMat:strmatch:InvalidInput",
        "Pattern or search array is not a supported text container.",
        "strmatch: inputs must be text values",
    )
}

fn strmatch_error_invalid_flag() -> (e: BuiltinErrorDescriptor)
    ensures
        e.code@ == "RM.STRMATCH.INVALID_FLAG"@,
        e.identifier matches Some(i) && i@ == "RunMat:strmatch:InvalidFlag"@,
        e.message@ == "strmatch: invalid match flag; supported flag is 'exact'"@,
{
    error_descriptor(
        "RM.STRMATCH.INVALID_FLAG",
        "RunMat:strmatch:InvalidFlag",
        "The third argument is not the 'exact' flag.",
        "strmatch: invalid match flag; supported flag is 'exact'",
    )
}

fn strmatch_error_internal() -> (e: BuiltinErrorDescriptor)
    ensures
        e.code@ == "RM.STRMATCH.INTERNAL"@,
        e.identifier matches Some(i) && i@ == "RunMat:strmatch:InternalError"@,
        e.message@ == "strmatch: internal error"@,
{
    error_descriptor(
        "RM.STRMATCH.INTERNAL",
        "RunMat:strmatch:InternalError",
        "Internal index-vector assembly failed.",
        "strmatch: internal error",
    )
}

/// Descriptor of `strmatch`.
pub fn strmatch_descriptor() -> (d: BuiltinDescriptor)
    ensures
        d.labels() == seq!["idx = strmatch(str, arr)"@, "idx = strmatch(str, arr, 'exact')"@],
        d.codes() == seq!["RM.STRMATCH.INVALID_INPUT"@, "RM.STRMATCH.INVALID_FLAG"@, "RM.STRMATCH.INTERNAL"@],
        d.output_mode == BuiltinOutputMode::Fixed,
{
    let s0 = signature(
        "idx = strmatch(str, arr)",
        vec![
            param(
                "str",
                BuiltinParamType::Any,
                BuiltinParamArity::Required,
                "Prefix (or exact) text to look for (char row vector or string scalar).",
            ),
            param(
                "arr",
                BuiltinParamType::Any,
                BuiltinParamArity::Required,
                "Array of text rows to search (cellstr, char matrix, or string array).",
            ),
        ],
        vec![
            param(
                "idx",
                BuiltinParamType::NumericArray,
                BuiltinParamArity::Required,
                "Column vector of 1-based indices of matching rows (double).",
            ),
        ],
    );
    let s1 = signature(
        "idx = strmatch(str, arr, 'exact')",
        vec![
            param(
                "str",
                BuiltinParamType::Any,
                BuiltinParamArity::Required,
                "Prefix (or exact) text to look for (char row vector or string scalar).",
            ),
            param(
                "arr",
                BuiltinParamType::Any,
                BuiltinParamArity::Required,
                "Array of text rows to search (cellstr, char matrix, or string array).",
            ),
            param_with_default(
                "flag",
                BuiltinParamType::StringScalar,
                BuiltinParamArity::Required,
                "'exact'",
                "Match mode flag; `'exact'` requires full equality.",
            ),
        ],
        vec![
            param(
                "idx",
                BuiltinParamType::NumericArray,
                BuiltinParamArity::Required,
                "Column vector of 1-based indices of matching rows (double).",
            ),
        ],
    );
    let d = BuiltinDescriptor {
        signatures: vec![s0, s1],
        output_mode: BuiltinOutputMode::Fixed,
        completion_policy: BuiltinCompletionPolicy::Public,
        errors: vec![strmatch_error_invalid_input(), strmatch_error_invalid_flag(), strmatch_error_internal()],
    };
    assert(d.labels() =~= seq!["idx = strmatch(str, arr)"@, "idx = strmatch(str, arr, 'exact')"@]);
    assert(d.codes() =~= seq!["RM.STRMATCH.INVALID_INPUT"@, "RM.STRMATCH.INVALID_FLAG"@, "RM.STRMATCH.INTERNAL"@]);
    d
}

/// Fusion metadata of `strmatch`.
pub fn strmatch_fusion_spec() -> (f: BuiltinFusionSpec)
    ensures
        f.name@ == "strmatch"@,
{
    unfused_spec(
        "strmatch",
        false,
        "Text operation; not eligible for fusion and materialises host numeric results.",
    )
}

} // verus!
