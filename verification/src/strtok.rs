//! `strtok`: split off the leading token of a text.

use vstd::prelude::*;
use crate::descriptor::{error_descriptor, BuiltinErrorDescriptor};
use crate::error::{descriptor_error, opt_view, RuntimeError};
use crate::text::{chars_to_string, is_whitespace, str_chars, unicode_white_space};
use crate::value::{CharArray, Value};

verus! {

/// Whether `c` delimits tokens: a member of the given set, or Unicode
/// whitespace when no set is given.
pub open spec fn is_delimiter(delimiters: Option<Seq<char>>, c: char) -> bool {
    match delimiters {
        Some(set) => set.contains(c),
        None => unicode_white_space(c),
    }
}

/// `start..end` is the leading token of `s`: everything before `start` is a
/// delimiter, `s[start]` is not, no delimiter lies in `start..end`, and
/// `s[end]`, if any, is one.
pub open spec fn is_token_span(
    s: Seq<char>,
    delimiters: Option<Seq<char>>,
    start: int,
    end: int,
) -> bool {
    &&& 0 <= start <= end <= s.len()
    &&& forall|i: int| 0 <= i < start ==> is_delimiter(delimiters, #[trigger] s[i])
    &&& start < s.len() ==> !is_delimiter(delimiters, s[start])
    &&& forall|i: int| start <= i < end ==> !is_delimiter(delimiters, #[trigger] s[i])
    &&& end < s.len() ==> is_delimiter(delimiters, s[end])
}

/// A text has one leading-token span.
pub proof fn lemma_token_span_unique(
    s: Seq<char>,
    delimiters: Option<Seq<char>>,
    start1: int,
    end1: int,
    start2: int,
    end2: int,
)
    requires
        is_token_span(s, delimiters, start1, end1),
        is_token_span(s, delimiters, start2, end2),
    ensures
        start1 == start2,
        end1 == end2,
{
    if start1 < start2 {
        assert(is_delimiter(delimiters, s[start1]));
    }
    if start2 < start1 {
        assert(is_delimiter(delimiters, s[start2]));
    }
    if end1 < end2 {
        assert(!is_delimiter(delimiters, s[end1]));
    }
    if end2 < end1 {
        assert(!is_delimiter(delimiters, s[end2]));
    }
}

pub open spec fn opt_seq(delimiters: Option<&[char]>) -> Option<Seq<char>> {
    match delimiters {
        Some(d) => Some(d@),
        None => None,
    }
}

fn delimiter_at(c: char, delimiters: Option<&[char]>) -> (b: bool)
    ensures
        b == is_delimiter(opt_seq(delimiters), c),
{
    match delimiters {
        Some(set) => {
            let mut i: usize = 0;
            while i < set.len()
                invariant
                    delimiters == Some(set),
                    i <= set@.len(),
                    forall|j: int| 0 <= j < i ==> set@[j] != c,
                decreases set@.len() - i,
            {
                if set[i] == c {
                    assert(set@[i as int] == c);
                    assert(set@.contains(c));
                    return true;
                }
                i = i + 1;
            }
            false
        },
        None => is_whitespace(c),
    }
}

/// Split off the leading token: leading delimiters are skipped, the token
/// runs up to the next delimiter, and the remainder starts at that
/// delimiter. The default delimiters are Unicode whitespace; an empty or
/// all-delimiter text gives an empty token and an empty remainder.
pub fn split_token(input: &str, delimiters: Option<&[char]>) -> (r: (String, String))
    ensures
        exists|start: int, end: int|
            is_token_span(input@, opt_seq(delimiters), start, end) && r.0@ == input@.subrange(
                start,
                end,
            ) && r.1@ == input@.subrange(end, input@.len() as int),
{
    let chars = str_chars(input);
    let ghost d = opt_seq(delimiters);
    let n = chars.len();
    let mut start: usize = 0;
    while start < n
        invariant
            chars@ == input@,
            n == chars@.len(),
            start <= n,
            d == opt_seq(delimiters),
            forall|i: int| 0 <= i < start ==> is_delimiter(d, #[trigger] chars@[i]),
        ensures
            start <= n,
            forall|i: int| 0 <= i < start ==> is_delimiter(d, #[trigger] chars@[i]),
            start < n ==> !is_delimiter(d, chars@[start as int]),
        decreases n - start,
    {
        if !delimiter_at(chars[start], delimiters) {
            break;
        }
        start = start + 1;
    }
    let mut end: usize = start;
    while end < n
        invariant
            chars@ == input@,
            n == chars@.len(),
            start <= end <= n,
            d == opt_seq(delimiters),
            forall|i: int| start <= i < end ==> !is_delimiter(d, #[trigger] chars@[i]),
        ensures
            start <= end <= n,
            forall|i: int| start <= i < end ==> !is_delimiter(d, #[trigger] chars@[i]),
            end < n ==> is_delimiter(d, chars@[end as int]),
        decreases n - end,
    {
        if delimiter_at(chars[end], delimiters) {
            break;
        }
        end = end + 1;
    }
    let token = chars_to_string(vstd::slice::slice_subrange(chars.as_slice(), start, end));
    let remain = chars_to_string(vstd::slice::slice_subrange(chars.as_slice(), end, n));
    assert(is_token_span(input@, d, start as int, end as int));
    (token, remain)
}

/// The text of a char row vector, string scalar or 1-element string array.
pub open spec fn text_of(v: Value) -> Option<Seq<char>> {
    match v {
        Value::CharArray(a) => if a.rows <= 1 { Some(a.data@) } else { None },
        Value::String(s) => Some(s@),
        Value::StringArray(a) => if a.data@.len() == 1 { Some(a.data@[0]@) } else { None },
        _ => None,
    }
}

/// Whether a value is string-typed text (string scalar or string array).
pub open spec fn is_string_text(v: Value) -> bool {
    v is String || v is StringArray
}

/// The text of `value` and whether it was a string (not char) value.
pub fn text_argument(value: &Value) -> (r: Option<(Vec<char>, bool)>)
    ensures
        match r {
            Some((t, as_string)) => text_of(*value) == Some(t@) && as_string == is_string_text(*value),
            None => text_of(*value) is None,
        },
{
    match value {
        Value::CharArray(chars) => {
            if chars.rows <= 1 {
                let mut d: Vec<char> = Vec::new();
                let mut i: usize = 0;
                while i < chars.data.len()
                    invariant
                        i <= chars.data@.len(),
                        d@ == chars.data@.subrange(0, i as int),
                    decreases chars.data@.len() - i,
                {
                    d.push(chars.data[i]);
                    i = i + 1;
                }
                Some((d, false))
            } else {
                None
            }
        },
        Value::String(text) => Some((str_chars(text.as_str()), true)),
        Value::StringArray(array) => {
            if array.data.len() == 1 {
                Some((str_chars(array.data[0].as_str()), true))
            } else {
                None
            }
        },
        _ => None,
    }
}

/// Output value for a piece of text: a string scalar when the input was a
/// string, otherwise a char row (0-by-0 when empty).
pub fn text_value(text: &str, as_string: bool) -> (v: Value)
    ensures
        text_value_spec(text@, as_string, v),
{
    if as_string {
        Value::String(String::from_str(text))
    } else {
        let chars = str_chars(text);
        if chars.len() == 0 {
            Value::CharArray(CharArray::empty())
        } else {
            Value::CharArray(CharArray::new_row(chars.as_slice()))
        }
    }
}

pub open spec fn strtok_result_spec(
    input: Seq<char>,
    delimiters: Option<Seq<char>>,
    as_string: bool,
    outputs: (Value, Value),
) -> bool {
    exists|start: int, end: int|
        is_token_span(input, delimiters, start, end) && text_value_spec(
            input.subrange(start, end),
            as_string,
            outputs.0,
        ) && text_value_spec(input.subrange(end, input.len() as int), as_string, outputs.1)
}

/// `v` is the output value of `text_value(text, as_string)`.
pub open spec fn text_value_spec(text: Seq<char>, as_string: bool, v: Value) -> bool {
    if as_string {
        v matches Value::String(s) && s@ == text
    } else if text.len() == 0 {
        v matches Value::CharArray(a) && a.rows == 0 && a.cols == 0 && a.data@.len() == 0
    } else {
        v matches Value::CharArray(a) && a.rows == 1 && a.cols == text.len() && a.data@ == text
    }
}

/// Error raised when the text argument is not a char row or string scalar.
pub fn strtok_error_invalid_input() -> (e: RuntimeError)
    ensures
        e.message@ == "strtok: input must be a character vector or string scalar"@,
        opt_view(e.identifier) == Some("RunMat:strtok:InvalidInput"@),
        opt_view(e.builtin) == Some("strtok"@),
{
    let d = strtok_error_descriptor_invalid_input();
    descriptor_error(&d, "strtok")
}

/// Error raised when the delimiter argument is not text, or when too many
/// arguments are given.
pub fn strtok_error_invalid_delimiter() -> (e: RuntimeError)
    ensures
        e.message@ == "strtok: delimiters must be a character vector or string scalar"@,
        opt_view(e.identifier) == Some("RunMat:strtok:InvalidDelimiter"@),
        opt_view(e.builtin) == Some("strtok"@),
{
    let d = strtok_error_descriptor_invalid_delimiter();
    descriptor_error(&d, "strtok")
}

fn strtok_error_descriptor_invalid_input() -> (e: BuiltinErrorDescriptor)
    ensures
        e.code@ == "RM.STRTOK.INVALID_INPUT"@,
        e.identifier matches Some(i) && i@ == "RunMat:strtok:InvalidInput"@,
        e.message@ == "strtok: input must be a character vector or string scalar"@,
{
    error_descriptor(
        "RM.STRTOK.INVALID_INPUT",
        "RunMat:strtok:InvalidInput",
        "The input is not a char row vector or string scalar.",
        "strtok: input must be a character vector or string scalar",
    )
}

fn strtok_error_descriptor_invalid_delimiter() -> (e: BuiltinErrorDescriptor)
    ensures
        e.code@ == "RM.STRTOK.INVALID_DELIMITER"@,
        e.identifier matches Some(i) && i@ == "RunMat:strtok:InvalidDelimiter"@,
        e.message@ == "strtok: delimiters must be a character vector or string scalar"@,
{
    error_descriptor(
        "RM.STRTOK.INVALID_DELIMITER",
        "RunMat:strtok:InvalidDelimiter",
        "The delimiter argument is not a char row vector or string scalar.",
        "strtok: delimiters must be a character vector or string scalar",
    )
}

/// Outcome of `strtok`: invalid text and invalid or surplus delimiter
/// arguments are rejected; otherwise both outputs come from the leading
/// token span, in the class of the input.
pub open spec fn strtok_spec(
    text: Value,
    rest: Seq<Value>,
    r: Result<(Value, Value), RuntimeError>,
) -> bool {
    if text_of(text) is None {
        r matches Err(e) && e.message@
            == "strtok: input must be a character vector or string scalar"@
    } else if rest.len() > 1 || (rest.len() == 1 && text_of(rest[0]) is None) {
        r matches Err(e) && e.message@
            == "strtok: delimiters must be a character vector or string scalar"@
    } else {
        r matches Ok(outputs) && strtok_result_spec(
            text_of(text)->0,
            if rest.len() == 1 { Some(text_of(rest[0])->0) } else { None },
            is_string_text(text),
            outputs,
        )
    }
}

/// `[token, remain] = strtok(str)` / `strtok(str, delimiters)`: both outputs
/// keep the class of the input (string in, string out; char in, char out).
pub fn strtok(text: &Value, rest: &Vec<Value>) -> (r: Result<(Value, Value), RuntimeError>)
    ensures
        strtok_spec(*text, rest@, r),
{
    let (chars, as_string) = match text_argument(text) {
        Some(t) => t,
        None => return Err(strtok_error_invalid_input()),
    };
    if rest.len() > 1 {
        return Err(strtok_error_invalid_delimiter());
    }
    let delimiters: Option<Vec<char>> = if rest.len() == 1 {
        match text_argument(&rest[0]) {
            Some((d, _)) => Some(d),
            None => return Err(strtok_error_invalid_delimiter()),
        }
    } else {
        None
    };
    let input = chars_to_string(chars.as_slice());
    let (token, remain) = match &delimiters {
        Some(d) => split_token(input.as_str(), Some(d.as_slice())),
        None => split_token(input.as_str(), None),
    };
    let first = text_value(token.as_str(), as_string);
    let second = text_value(remain.as_str(), as_string);
    Ok((first, second))
}

} // verus!
