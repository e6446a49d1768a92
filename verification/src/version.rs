//! `version`: RunMat's own version text, and the dotted-version arithmetic
//! that `verLessThan` compares with.

use vstd::prelude::*;
use crate::descriptor::{error_descriptor, host_gpu_spec, param, signature, unfused_spec, BuiltinCompletionPolicy, BuiltinDescriptor, BuiltinErrorDescriptor, BuiltinFusionSpec, BuiltinGpuSpec, BuiltinOutputMode, BuiltinParamArity, BuiltinParamType};
use crate::error::{descriptor_error, opt_view, RuntimeError};
use vstd::slice::slice_subrange;
use crate::text::{
    chars_to_string, eq_ignore_ascii_case, eq_ignore_ascii_case_spec, is_ascii_digit,
    is_digit_spec, str_chars, trim_chars, trim_spec,
};
use crate::value::{CharArray, Value};

verus! {

/// RunMat's own version.
pub const RUNMAT_VERSION: &'static str = "0.5.6";

/// Release tag reported by `version('-release')`.
pub const RUNMAT_RELEASE: &'static str = "R2026a-compat";

// ---------------------------------------------------------------------
// Splitting on a separator
// ---------------------------------------------------------------------

/// The pieces of `s` between occurrences of `sep` (one piece more than
/// there are separators).
pub open spec fn split_spec(s: Seq<char>, sep: char) -> Seq<Seq<char>>
    decreases s.len(),
{
    if s.len() == 0 {
        seq![Seq::empty()]
    } else {
        let rest = split_spec(s.drop_last(), sep);
        if s.last() == sep {
            rest.push(Seq::empty())
        } else {
            rest.update(rest.len() - 1, rest.last().push(s.last()))
        }
    }
}

pub proof fn lemma_split_nonempty(s: Seq<char>, sep: char)
    ensures
        split_spec(s, sep).len() >= 1,
    decreases s.len(),
{
    if s.len() > 0 {
        lemma_split_nonempty(s.drop_last(), sep);
    }
}

/// Split `s` on every `sep`.
pub fn split_on(s: &[char], sep: char) -> (parts: Vec<Vec<char>>)
    ensures
        parts@.len() == split_spec(s@, sep).len(),
        forall|i: int| 0 <= i < parts@.len() ==> (#[trigger] parts@[i])@ == split_spec(s@, sep)[i],
{
    let mut parts: Vec<Vec<char>> = Vec::new();
    let mut current: Vec<char> = Vec::new();
    let mut i: usize = 0;
    proof {
        assert(s@.subrange(0, 0) =~= Seq::<char>::empty());
    }
    while i < s.len()
        invariant
            i <= s@.len(),
            split_spec(s@.subrange(0, i as int), sep).len() == parts@.len() + 1,
            forall|k: int| 0 <= k < parts@.len() ==> (#[trigger] parts@[k])@ == split_spec(
                s@.subrange(0, i as int),
                sep,
            )[k],
            current@ == split_spec(s@.subrange(0, i as int), sep).last(),
        decreases s@.len() - i,
    {
        let ghost prev = s@.subrange(0, i as int);
        let ghost next = s@.subrange(0, i + 1);
        proof {
            assert(next.drop_last() =~= prev);
            assert(next.last() == s@[i as int]);
            lemma_split_nonempty(prev, sep);
        }
        let c = s[i];
        if c == sep {
            let done = current;
            parts.push(done);
            current = Vec::new();
            proof {
                assert(split_spec(next, sep) == split_spec(prev, sep).push(Seq::empty()));
            }
        } else {
            current.push(c);
        }
        i = i + 1;
        proof {
            assert forall|k: int| 0 <= k < parts@.len() implies (#[trigger] parts@[k])@ == split_spec(
                s@.subrange(0, i as int),
                sep,
            )[k] by {}
        }
    }
    proof {
        assert(s@.subrange(0, s@.len() as int) =~= s@);
        lemma_split_nonempty(s@, sep);
    }
    parts.push(current);
    parts
}

// ---------------------------------------------------------------------
// Version components
// ---------------------------------------------------------------------

/// Number of leading ASCII digits of `s`.
pub open spec fn digit_prefix_len(s: Seq<char>) -> int
    decreases s.len(),
{
    if s.len() > 0 && is_digit_spec(s[0]) {
        1 + digit_prefix_len(s.drop_first())
    } else {
        0
    }
}

/// Value of an ASCII digit.
pub open spec fn digit_value(c: char) -> nat {
    (c as u32 - '0' as u32) as nat
}

/// Decimal value of a digit string (0 for the empty string).
pub open spec fn decimal_value(s: Seq<char>) -> nat
    decreases s.len(),
{
    if s.len() == 0 {
        0
    } else {
        decimal_value(s.drop_last()) * 10 + digit_value(s.last())
    }
}

/// Numeric value of one version component: its leading digits read in
/// decimal; 0 when it has none or when they exceed `u64::MAX`.
pub open spec fn component_value(part: Seq<char>) -> u64 {
    let digits = part.take(digit_prefix_len(part));
    if decimal_value(digits) <= u64::MAX {
        decimal_value(digits) as u64
    } else {
        0
    }
}

/// Parse of a dotted version: the trimmed text split on `.`, each piece
/// read by `component_value`. `None` when the text is blank or no piece
/// starts with a digit.
pub open spec fn parse_version_spec(text: Seq<char>) -> Option<Seq<u64>> {
    let t = trim_spec(text);
    let parts = split_spec(t, '.');
    if t.len() == 0 {
        None
    } else if exists|i: int| 0 <= i < parts.len() && digit_prefix_len(#[trigger] parts[i]) > 0 {
        Some(parts.map_values(|p: Seq<char>| component_value(p)))
    } else {
        None
    }
}

pub proof fn lemma_digit_prefix(s: Seq<char>)
    ensures
        0 <= digit_prefix_len(s) <= s.len(),
        forall|i: int| 0 <= i < digit_prefix_len(s) ==> is_digit_spec(#[trigger] s[i]),
        digit_prefix_len(s) < s.len() ==> !is_digit_spec(s[digit_prefix_len(s)]),
    decreases s.len(),
{
    if s.len() > 0 && is_digit_spec(s[0]) {
        lemma_digit_prefix(s.drop_first());
        assert forall|i: int| 0 <= i < digit_prefix_len(s) implies is_digit_spec(#[trigger] s[i]) by {
            if i > 0 {
                assert(s[i] == s.drop_first()[i - 1]);
            }
        }
    }
}

/// The value of one version component and whether it starts with a digit.
pub fn component(part: &[char]) -> (r: (u64, bool))
    ensures
        r.0 == component_value(part@),
        r.1 == (digit_prefix_len(part@) > 0),
{
    proof {
        lemma_digit_prefix(part@);
    }
    let mut i: usize = 0;
    let mut acc: u64 = 0;
    let mut overflow = false;
    while i < part.len()
        invariant
            i <= digit_prefix_len(part@) <= part@.len(),
            forall|k: int| 0 <= k < digit_prefix_len(part@) ==> is_digit_spec(#[trigger] part@[k]),
            digit_prefix_len(part@) < part@.len() ==> !is_digit_spec(part@[digit_prefix_len(part@)]),
            !overflow ==> acc == decimal_value(part@.take(i as int)),
            overflow ==> decimal_value(part@.take(i as int)) > u64::MAX,
        ensures
            i == digit_prefix_len(part@),
            !overflow ==> acc == decimal_value(part@.take(i as int)),
            overflow ==> decimal_value(part@.take(i as int)) > u64::MAX,
        decreases part@.len() - i,
    {
        let c = part[i];
        if !is_ascii_digit(c) {
            break;
        }
        let ghost prev = part@.take(i as int);
        let ghost next = part@.take(i + 1);
        proof {
            assert(next.drop_last() =~= prev);
            assert(next.last() == c);
        }
        let d: u32 = c as u32 - '0' as u32;
        if !overflow {
            if acc <= (u64::MAX - d as u64) / 10 {
                acc = acc * 10 + d as u64;
            } else {
                overflow = true;
                assert(decimal_value(next) > u64::MAX) by (nonlinear_arith)
                    requires
                        decimal_value(next) == decimal_value(prev) * 10 + digit_value(c),
                        acc == decimal_value(prev),
                        acc > (u64::MAX - d as u64) / 10,
                        d == digit_value(c),
                        d <= 9,
                ;
            }
        } else {
            assert(decimal_value(next) >= decimal_value(prev));
        }
        i = i + 1;
    }
    proof {
        assert(part@.take(i as int) == part@.take(digit_prefix_len(part@)));
    }
    if overflow {
        (0, i > 0)
    } else {
        (acc, i > 0)
    }
}

/// Parse a dotted version string into numeric components: each
/// component's leading ASCII digits are taken, a component without one
/// counts as 0, and `None` comes back for blank text or text with no digit.
pub fn parse_version(text: &str) -> (r: Option<Vec<u64>>)
    ensures
        match (r, parse_version_spec(text@)) {
            (Some(v), Some(s)) => v@ == s,
            (None, None) => true,
            _ => false,
        },
{
    let chars = str_chars(text);
    let trimmed = trim_chars(chars.as_slice());
    if trimmed.len() == 0 {
        return None;
    }
    let parts = split_on(trimmed.as_slice(), '.');
    let ghost sparts = split_spec(trimmed@, '.');
    let mut components: Vec<u64> = Vec::new();
    let mut saw_digit = false;
    let mut i: usize = 0;
    while i < parts.len()
        invariant
            sparts == split_spec(trimmed@, '.'),
            parts@.len() == sparts.len(),
            forall|k: int| 0 <= k < parts@.len() ==> (#[trigger] parts@[k])@ == sparts[k],
            i <= parts@.len(),
            components@.len() == i,
            forall|k: int| 0 <= k < i ==> components@[k] == component_value(#[trigger] sparts[k]),
            saw_digit == exists|k: int| 0 <= k < i && digit_prefix_len(#[trigger] sparts[k]) > 0,
        decreases parts@.len() - i,
    {
        let (value, has_digit) = component(parts[i].as_slice());
        components.push(value);
        if has_digit {
            saw_digit = true;
        }
        i = i + 1;
    }
    if saw_digit {
        assert(components@ =~= sparts.map_values(|p: Seq<char>| component_value(p)));
        Some(components)
    } else {
        None
    }
}

// ---------------------------------------------------------------------
// Comparison
// ---------------------------------------------------------------------

/// Component `i` of a version, with missing components read as 0.
pub open spec fn padded(v: Seq<u64>, i: int) -> u64 {
    if 0 <= i < v.len() {
        v[i]
    } else {
        0
    }
}

/// `a` is older than `b`: at the first component where the zero-padded
/// versions differ, `a`'s is smaller.
pub open spec fn version_lt(a: Seq<u64>, b: Seq<u64>) -> bool {
    exists|k: int|
        0 <= k && (forall|j: int| 0 <= j < k ==> padded(a, j) == padded(b, j)) && padded(a, k)
            < padded(b, k)
}

/// The zero-padded versions agree everywhere.
pub open spec fn version_eq(a: Seq<u64>, b: Seq<u64>) -> bool {
    forall|j: int| 0 <= j ==> padded(a, j) == padded(b, j)
}

/// Semantic "less than" over dotted numeric versions: the shorter version
/// is padded with zeros and components are compared in order.
pub fn version_less_than(current: &[u64], target: &[u64]) -> (r: bool)
    ensures
        r == version_lt(current@, target@),
{
    let len = if current.len() > target.len() { current.len() } else { target.len() };
    let mut i: usize = 0;
    while i < len
        invariant
            i <= len,
            len >= current@.len(),
            len >= target@.len(),
            forall|j: int| 0 <= j < i ==> padded(current@, j) == padded(target@, j),
        decreases len - i,
    {
        let a = if i < current.len() { current[i] } else { 0 };
        let b = if i < target.len() { target[i] } else { 0 };
        if a != b {
            proof {
                assert(padded(current@, i as int) == a);
                assert(padded(target@, i as int) == b);
                if a < b {
                    assert(forall|j: int| 0 <= j < i ==> padded(current@, j) == padded(target@, j));
                    assert(version_lt(current@, target@));
                }
                if a > b {
                    assert forall|k: int|
                        0 <= k && (forall|j: int|
                            0 <= j < k ==> padded(current@, j) == padded(target@, j)) implies !(
                    padded(current@, k) < padded(target@, k)) by {
                        if k > i {
                            assert(padded(current@, i as int) == padded(target@, i as int));
                        }
                    }
                }
            }
            return a < b;
        }
        i = i + 1;
    }
    proof {
        assert forall|k: int|
            0 <= k && (forall|j: int| 0 <= j < k ==> padded(current@, j) == padded(target@, j))
                implies !(padded(current@, k) < padded(target@, k)) by {}
    }
    false
}

/// `version_less_than` is irreflexive: no version is older than itself.
pub proof fn law_version_lt_irreflexive(a: Seq<u64>)
    ensures
        !version_lt(a, a),
{
}

/// `version_less_than` is transitive.
pub proof fn law_version_lt_transitive(a: Seq<u64>, b: Seq<u64>, c: Seq<u64>)
    requires
        version_lt(a, b),
        version_lt(b, c),
    ensures
        version_lt(a, c),
{
    let k1 = choose|k: int|
        0 <= k && (forall|j: int| 0 <= j < k ==> padded(a, j) == padded(b, j)) && padded(a, k)
            < padded(b, k);
    let k2 = choose|k: int|
        0 <= k && (forall|j: int| 0 <= j < k ==> padded(b, j) == padded(c, j)) && padded(b, k)
            < padded(c, k);
    let k = if k1 < k2 { k1 } else { k2 };
    assert(forall|j: int| 0 <= j < k ==> padded(a, j) == padded(c, j));
    if k1 < k2 {
        assert(padded(b, k1) == padded(c, k1));
    } else if k2 < k1 {
        assert(padded(a, k2) == padded(b, k2));
    }
    assert(padded(a, k) < padded(c, k));
}

/// Any two versions are ordered one way, the other, or equal after padding
/// with zeros, and exactly one of these holds.
pub proof fn law_version_trichotomy(a: Seq<u64>, b: Seq<u64>)
    ensures
        version_lt(a, b) || version_lt(b, a) || version_eq(a, b),
        !(version_lt(a, b) && version_lt(b, a)),
        version_eq(a, b) ==> !version_lt(a, b),
{
    if !version_eq(a, b) {
        let m = if a.len() > b.len() { a.len() as int } else { b.len() as int };
        let d = choose|j: int| 0 <= j && padded(a, j) != padded(b, j);
        // Find the first differing component by scanning up to `d`.
        let k = first_difference(a, b, d);
        if padded(a, k) < padded(b, k) {
            assert(version_lt(a, b));
        } else {
            assert(forall|j: int| 0 <= j < k ==> padded(b, j) == padded(a, j));
            assert(version_lt(b, a));
        }
    }
    if version_lt(a, b) && version_lt(b, a) {
        let k1 = choose|k: int|
            0 <= k && (forall|j: int| 0 <= j < k ==> padded(a, j) == padded(b, j)) && padded(a, k)
                < padded(b, k);
        let k2 = choose|k: int|
            0 <= k && (forall|j: int| 0 <= j < k ==> padded(b, j) == padded(a, j)) && padded(b, k)
                < padded(a, k);
        if k1 < k2 {
            assert(padded(b, k1) == padded(a, k1));
        } else if k2 < k1 {
            assert(padded(a, k2) == padded(b, k2));
        }
    }
    if version_eq(a, b) && version_lt(a, b) {
        let k1 = choose|k: int|
            0 <= k && (forall|j: int| 0 <= j < k ==> padded(a, j) == padded(b, j)) && padded(a, k)
                < padded(b, k);
        assert(padded(a, k1) == padded(b, k1));
    }
}

/// First index at or below `d` where the padded versions differ, given that
/// they differ at `d`.
proof fn first_difference(a: Seq<u64>, b: Seq<u64>, d: int) -> (k: int)
    requires
        0 <= d,
        padded(a, d) != padded(b, d),
    ensures
        0 <= k <= d,
        padded(a, k) != padded(b, k),
        forall|j: int| 0 <= j < k ==> padded(a, j) == padded(b, j),
    decreases d,
{
    if exists|j: int| 0 <= j < d && padded(a, j) != padded(b, j) {
        let j = choose|j: int| 0 <= j < d && padded(a, j) != padded(b, j);
        first_difference(a, b, j)
    } else {
        d
    }
}

// ---------------------------------------------------------------------
// The builtin
// ---------------------------------------------------------------------

/// Text of a version option: a string scalar, a 1-element string array or
/// a single char row.
pub open spec fn option_text_spec(v: Value) -> Option<Seq<char>> {
    match v {
        Value::String(s) => Some(s@),
        Value::StringArray(a) => if a.data@.len() == 1 { Some(a.data@[0]@) } else { None },
        Value::CharArray(a) => if a.rows == 1 { Some(a.data@) } else { None },
        _ => None,
    }
}

pub fn option_text(value: &Value) -> (r: Option<Vec<char>>)
    ensures
        match r {
            Some(t) => option_text_spec(*value) == Some(t@),
            None => option_text_spec(*value) is None,
        },
{
    match value {
        Value::String(text) => Some(str_chars(text.as_str())),
        Value::StringArray(array) => {
            if array.data.len() == 1 {
                Some(str_chars(array.data[0].as_str()))
            } else {
                None
            }
        },
        Value::CharArray(array) => {
            if array.rows == 1 {
                Some(slice_to_vec(array.data.as_slice()))
            } else {
                None
            }
        },
        _ => None,
    }
}

/// Copy of a character slice.
pub fn slice_to_vec(s: &[char]) -> (r: Vec<char>)
    ensures
        r@ == s@,
{
    let mut r: Vec<char> = Vec::new();
    let mut i: usize = 0;
    while i < s.len()
        invariant
            i <= s@.len(),
            r@ == s@.subrange(0, i as int),
        decreases s@.len() - i,
    {
        r.push(s[i]);
        i = i + 1;
    }
    r
}

/// RunMat's full version text, `"0.5.6 (RunMat)"`.
pub fn runmat_version_string() -> (s: String)
    ensures
        s@ == RUNMAT_VERSION@ + " (RunMat)"@,
{
    let v = String::from_str(RUNMAT_VERSION);
    v.concat(" (RunMat)")
}

fn version_error_invalid_option_descriptor() -> (e: BuiltinErrorDescriptor)
    ensures
        e.code@ == "RM.VERSION.INVALID_OPTION"@,
        e.identifier matches Some(i) && i@ == "RunMat:version:InvalidOption"@,
        e.message@ == "version: option must be '-release'"@,
{
    error_descriptor(
        "RM.VERSION.INVALID_OPTION",
        "RunMat:version:InvalidOption",
        "The option argument is not the recognized text '-release'.",
        "version: option must be '-release'",
    )
}

fn version_error_too_many_inputs_descriptor() -> (e: BuiltinErrorDescriptor)
    ensures
        e.code@ == "RM.VERSION.TOO_MANY_INPUTS"@,
        e.identifier matches Some(i) && i@ == "RunMat:version:TooManyInputs"@,
        e.message@ == "version: too many input arguments"@,
{
    error_descriptor(
        "RM.VERSION.TOO_MANY_INPUTS",
        "RunMat:version:TooManyInputs",
        "More than one input argument is provided.",
        "version: too many input arguments",
    )
}

/// Outcome of `version(args...)`.
pub open spec fn version_spec(args: Seq<Value>, r: Result<Value, RuntimeError>) -> bool {
    if args.len() > 1 {
        r matches Err(e) && opt_view(e.identifier) == Some("RunMat:version:TooManyInputs"@)
    } else if args.len() == 0 {
        r matches Ok(Value::CharArray(a)) && a.wf() && a.rows == 1 && a.data@ == RUNMAT_VERSION@
            + " (RunMat)"@
    } else if option_text_spec(args[0]) matches Some(t) && eq_ignore_ascii_case_spec(
        t,
        "-release"@,
    ) {
        r matches Ok(Value::CharArray(a)) && a.wf() && a.rows == 1 && a.data@ == RUNMAT_RELEASE@
    } else {
        r matches Err(e) && opt_view(e.identifier) == Some("RunMat:version:InvalidOption"@)
    }
}

/// `v = version` and `v = version('-release')`: RunMat's own version text
/// or release tag as a char row. The option is matched ignoring ASCII case;
/// anything else is rejected.
pub fn dispatch_version(args: &Vec<Value>) -> (r: Result<Value, RuntimeError>)
    ensures
        version_spec(args@, r),
{
    if args.len() > 1 {
        let d = version_error_too_many_inputs_descriptor();
        return Err(descriptor_error(&d, "version"));
    }
    if args.len() == 0 {
        let s = runmat_version_string();
        let chars = str_chars(s.as_str());
        return Ok(Value::CharArray(CharArray::new_row(chars.as_slice())));
    }
    let release = str_chars("-release");
    match option_text(&args[0]) {
        Some(text) => {
            if eq_ignore_ascii_case(text.as_slice(), release.as_slice()) {
                let tag = str_chars(RUNMAT_RELEASE);
                return Ok(Value::CharArray(CharArray::new_row(tag.as_slice())));
            }
        },
        None => {},
    }
    let d = version_error_invalid_option_descriptor();
    Err(descriptor_error(&d, "version"))
}

/// Acceleration metadata of `version`: a host-side identity query.
pub fn version_gpu_spec() -> (g: BuiltinGpuSpec)
    ensures
        g.name@ == "version"@,
{
    host_gpu_spec(
        "version",
        "introspection",
        "Runtime identity query; no tensor inputs and no GPU execution path.",
    )
}

/// Descriptor of `version`.
pub fn version_descriptor() -> (d: BuiltinDescriptor)
    ensures
        d.labels() == seq!["v = version"@, "v = version('-release')"@],
        d.codes() == seq!["RM.VERSION.INVALID_OPTION"@, "RM.VERSION.TOO_MANY_INPUTS"@],
        d.output_mode == BuiltinOutputMode::Fixed,
{
    let bare = signature(
        "v = version",
        Vec::new(),
        vec![
            param(
                "v",
                BuiltinParamType::StringScalar,
                BuiltinParamArity::Required,
                "RunMat version text as a char row vector.",
            ),
        ],
    );
    let s0 = signature(
        "v = version('-release')",
        vec![
            param(
                "option",
                BuiltinParamType::StringScalar,
                BuiltinParamArity::Optional,
                "`'-release'` selects the RunMat release tag substring.",
            ),
        ],
        vec![
            param(
                "v",
                BuiltinParamType::StringScalar,
                BuiltinParamArity::Required,
                "RunMat version text as a char row vector.",
            ),
        ],
    );
    let d = BuiltinDescriptor {
        signatures: vec![bare, s0],
        output_mode: BuiltinOutputMode::Fixed,
        completion_policy: BuiltinCompletionPolicy::Public,
        errors: vec![version_error_invalid_option_descriptor(), version_error_too_many_inputs_descriptor()],
    };
    assert(d.labels() =~= seq!["v = version"@, "v = version('-release')"@]);
    assert(d.codes() =~= seq!["RM.VERSION.INVALID_OPTION"@, "RM.VERSION.TOO_MANY_INPUTS"@]);
    d
}

/// Fusion metadata of `version`.
pub fn version_fusion_spec() -> (f: BuiltinFusionSpec)
    ensures
        f.name@ == "version"@,
{
    unfused_spec(
        "version",
        false,
        "Identity query executed on the host; never fusible.",
    )
}


} // verus!
