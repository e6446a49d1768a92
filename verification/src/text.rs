//! Character and string helpers shared by the text builtins.

use vstd::prelude::*;

verus! {

/// Unicode `White_Space` property of a character: tab, line feed, vertical
/// tab, form feed, carriage return, space, next line, no-break space, ogham
/// space mark, the spaces from en quad to hair space, line and paragraph
/// separators, narrow no-break space, medium mathematical space and
/// ideographic space.
pub open spec fn unicode_white_space(c: char) -> bool {
    ||| '\u{9}' <= c <= '\u{D}'
    ||| c == ' '
    ||| c == '\u{85}'
    ||| c == '\u{A0}'
    ||| c == '\u{1680}'
    ||| '\u{2000}' <= c <= '\u{200A}'
    ||| c == '\u{2028}'
    ||| c == '\u{2029}'
    ||| c == '\u{202F}'
    ||| c == '\u{205F}'
    ||| c == '\u{3000}'
}

/// Whether `c` has the Unicode `White_Space` property.
pub fn is_whitespace(c: char) -> (b: bool)
    ensures
        b == unicode_white_space(c),
{
    ('\u{9}' <= c && c <= '\u{D}') || c == ' ' || c == '\u{85}' || c == '\u{A0}' || c == '\u{1680}'
        || ('\u{2000}' <= c && c <= '\u{200A}') || c == '\u{2028}' || c == '\u{2029}' || c == '\u{202F}'
        || c == '\u{205F}' || c == '\u{3000}'
}

/// ASCII decimal digit `'0'..='9'`.
pub open spec fn is_digit_spec(c: char) -> bool {
    '0' <= c && c <= '9'
}

pub fn is_ascii_digit(c: char) -> (b: bool)
    ensures
        b == is_digit_spec(c),
{
    '0' <= c && c <= '9'
}

/// The characters of a string slice, in order.
pub fn str_chars(s: &str) -> (r: Vec<char>)
    ensures
        r@ == s@,
{
    let n = s.unicode_len();
    let mut r: Vec<char> = Vec::new();
    let mut i: usize = 0;
    while i < n
        invariant
            n == s@.len(),
            i <= n,
            r@ == s@.subrange(0, i as int),
        decreases n - i,
    {
        let c = s.get_char(i);
        r.push(c);
        i = i + 1;
    }
    r
}

/// Calls `Iterator::collect` on the characters of `cs` into a `String`.
/// Claimed: the string holds exactly the given characters in order.
#[verifier::external_body]
pub fn chars_to_string(cs: &[char]) -> (s: String)
    ensures
        s@ == cs@,
{
    cs.iter().collect()
}

} // verus!

verus! {

/// `s` with leading and trailing Unicode whitespace removed, as `str::trim`
/// documents it.
pub open spec fn trim_spec(s: Seq<char>) -> Seq<char> {
    if leading_ws(s) <= trailing_ws_start(s) {
        s.subrange(leading_ws(s), trailing_ws_start(s))
    } else {
        Seq::empty()
    }
}

/// Number of leading whitespace characters of `s`.
pub open spec fn leading_ws(s: Seq<char>) -> int
    decreases s.len(),
{
    if s.len() > 0 && unicode_white_space(s[0]) {
        1 + leading_ws(s.drop_first())
    } else {
        0
    }
}

/// Start of the trailing whitespace run of `s` (or 0 when `s` is all
/// whitespace).
pub open spec fn trailing_ws_start(s: Seq<char>) -> int
    decreases s.len(),
{
    if s.len() > 0 && unicode_white_space(s.last()) {
        trailing_ws_start(s.drop_last())
    } else {
        s.len() as int
    }
}

pub proof fn lemma_leading_ws(s: Seq<char>)
    ensures
        0 <= leading_ws(s) <= s.len(),
        forall|i: int| 0 <= i < leading_ws(s) ==> unicode_white_space(#[trigger] s[i]),
        leading_ws(s) < s.len() ==> !unicode_white_space(s[leading_ws(s)]),
    decreases s.len(),
{
    if s.len() > 0 && unicode_white_space(s[0]) {
        lemma_leading_ws(s.drop_first());
        assert forall|i: int| 0 <= i < leading_ws(s) implies unicode_white_space(#[trigger] s[i]) by {
            if i > 0 {
                assert(s[i] == s.drop_first()[i - 1]);
            }
        }
    }
}

pub proof fn lemma_trailing_ws(s: Seq<char>)
    ensures
        0 <= trailing_ws_start(s) <= s.len(),
        forall|i: int| trailing_ws_start(s) <= i < s.len() ==> unicode_white_space(#[trigger] s[i]),
        trailing_ws_start(s) > 0 ==> !unicode_white_space(s[trailing_ws_start(s) - 1]),
    decreases s.len(),
{
    if s.len() > 0 && unicode_white_space(s.last()) {
        lemma_trailing_ws(s.drop_last());
        assert forall|i: int| trailing_ws_start(s) <= i < s.len() implies unicode_white_space(#[trigger] s[i]) by {
            if i < s.len() - 1 {
                assert(s[i] == s.drop_last()[i]);
            }
        }
    }
}

/// The characters of `s` without leading and trailing Unicode whitespace.
pub fn trim_chars(s: &[char]) -> (r: Vec<char>)
    ensures
        r@ == trim_spec(s@),
{
    proof {
        lemma_leading_ws(s@);
        lemma_trailing_ws(s@);
    }
    let n = s.len();
    let mut end: usize = n;
    while end > 0
        invariant
            end <= n == s@.len(),
            forall|i: int| end <= i < n ==> unicode_white_space(#[trigger] s@[i]),
            0 <= trailing_ws_start(s@) <= end,
        ensures
            end == trailing_ws_start(s@),
        decreases end,
    {
        proof {
            lemma_trailing_ws(s@);
        }
        if !is_whitespace(s[end - 1]) {
            proof {
                if (end as int) > trailing_ws_start(s@) {
                    assert(unicode_white_space(s@[end - 1]));
                }
            }
            break;
        }
        proof {
            if end - 1 < trailing_ws_start(s@) {
                assert(!unicode_white_space(s@[trailing_ws_start(s@) - 1]));
                assert(trailing_ws_start(s@) - 1 < end);
            }
        }
        end = end - 1;
    }
    let mut start: usize = 0;
    while start < end
        invariant
            start <= end,
            end == trailing_ws_start(s@),
            end <= n == s@.len(),
            forall|i: int| 0 <= i < start ==> unicode_white_space(#[trigger] s@[i]),
            start <= leading_ws(s@),
        ensures
            start == if leading_ws(s@) <= end { leading_ws(s@) } else { end as int },
        decreases end - start,
    {
        proof {
            lemma_leading_ws(s@);
            lemma_trailing_ws(s@);
        }
        if !is_whitespace(s[start]) {
            break;
        }
        proof {
            if start == leading_ws(s@) && start < n {
                assert(!unicode_white_space(s@[leading_ws(s@)]));
            }
        }
        start = start + 1;
    }
    proof {
        // An all-whitespace text leaves no trailing start above zero.
        if leading_ws(s@) > end {
            if end > 0 {
                assert(unicode_white_space(s@[end - 1]));
            }
            assert(end == 0);
        }
    }
    let mut r: Vec<char> = Vec::new();
    let mut i: usize = start;
    while i < end
        invariant
            start <= i <= end <= n == s@.len(),
            r@ == s@.subrange(start as int, i as int),
        decreases end - i,
    {
        r.push(s[i]);
        i = i + 1;
    }
    r
}

} // verus!

verus! {

/// Code point of `c` with ASCII upper-case letters mapped to lower case.
pub open spec fn ascii_fold(c: char) -> u32 {
    if 'A' <= c && c <= 'Z' {
        (c as u32 + 32) as u32
    } else {
        c as u32
    }
}

/// Equality of two texts ignoring ASCII case (as `str::eq_ignore_ascii_case`
/// documents it).
pub open spec fn eq_ignore_ascii_case_spec(a: Seq<char>, b: Seq<char>) -> bool {
    a.len() == b.len() && forall|i: int| 0 <= i < a.len() ==> ascii_fold(#[trigger] a[i])
        == ascii_fold(b[i])
}

pub fn fold_ascii(c: char) -> (r: u32)
    ensures
        r == ascii_fold(c),
{
    let v = c as u32;
    if 'A' <= c && c <= 'Z' {
        v + 32
    } else {
        v
    }
}

pub fn eq_ignore_ascii_case(a: &[char], b: &[char]) -> (r: bool)
    ensures
        r == eq_ignore_ascii_case_spec(a@, b@),
{
    if a.len() != b.len() {
        return false;
    }
    let mut i: usize = 0;
    while i < a.len()
        invariant
            a@.len() == b@.len(),
            i <= a@.len(),
            forall|j: int| 0 <= j < i ==> ascii_fold(#[trigger] a@[j]) == ascii_fold(b@[j]),
        decreases a@.len() - i,
    {
        if fold_ascii(a[i]) != fold_ascii(b[i]) {
            return false;
        }
        i = i + 1;
    }
    true
}

/// Unicode lower-case mapping of one character, as `char::to_lowercase`
/// yields it.
pub uninterp spec fn unicode_lowercase(c: char) -> Seq<char>;

/// Calls `char::to_lowercase` and collects the characters it yields.
/// Claimed: the result is the Unicode lower-case mapping of `c`, which the
/// contract only names.
#[verifier::external_body]
pub(crate) fn char_lowercase(c: char) -> (r: Vec<char>)
    ensures
        r@ == unicode_lowercase(c),
{
    c.to_lowercase().collect()
}

/// Unicode lower-casing of a whole text, as `str::to_lowercase` returns it.
pub uninterp spec fn unicode_str_lowercase(s: Seq<char>) -> Seq<char>;

/// Calls `str::to_lowercase`. Claimed: the result is the Unicode
/// lower-casing of the text, which the contract only names.
#[verifier::external_body]
pub(crate) fn str_lowercase(s: &str) -> (r: String)
    ensures
        r@ == unicode_str_lowercase(s@),
{
    s.to_lowercase()
}

/// Whether two texts hold the same characters.
pub fn chars_equal(a: &[char], b: &[char]) -> (r: bool)
    ensures
        r == (a@ == b@),
{
    if a.len() != b.len() {
        return false;
    }
    let mut i: usize = 0;
    while i < a.len()
        invariant
            a@.len() == b@.len(),
            i <= a@.len(),
            forall|j: int| 0 <= j < i ==> a@[j] == b@[j],
        decreases a@.len() - i,
    {
        if a[i] != b[i] {
            return false;
        }
        i = i + 1;
    }
    assert(a@ =~= b@);
    true
}

} // verus!

verus! {

/// Concatenation of `piece(0) + piece(1) + ... + piece(k - 1)`.
pub open spec fn join_pieces(k: int, piece: spec_fn(int) -> Seq<char>) -> Seq<char>
    decreases k,
{
    if k <= 0 {
        Seq::empty()
    } else {
        join_pieces(k - 1, piece) + piece(k - 1)
    }
}

/// `field` right-aligned in `width` columns (never truncated).
pub open spec fn right_align(field: Seq<char>, width: int) -> Seq<char> {
    if field.len() < width {
        Seq::new((width - field.len()) as nat, |i: int| ' ') + field
    } else {
        field
    }
}

/// Append `t` to `out`.
pub fn push_all(out: &mut Vec<char>, t: &[char])
    ensures
        final(out)@ == old(out)@ + t@,
{
    let mut i: usize = 0;
    let ghost start = out@;
    while i < t.len()
        invariant
            i <= t@.len(),
            out@ == start + t@.subrange(0, i as int),
        decreases t@.len() - i,
    {
        out.push(t[i]);
        i = i + 1;
    }
}

/// Append `field` right-aligned in `width` columns to `out`.
pub fn push_right_aligned(out: &mut Vec<char>, field: &[char], width: usize)
    ensures
        final(out)@ == old(out)@ + right_align(field@, width as int),
{
    let ghost start = out@;
    if field.len() < width {
        let mut k: usize = 0;
        let pad = width - field.len();
        while k < pad
            invariant
                k <= pad,
                out@ == start + Seq::new(k as nat, |i: int| ' '),
            decreases pad - k,
        {
            out.push(' ');
            proof {
                assert(Seq::new(k as nat, |i: int| ' ').push(' ') =~= Seq::new(
                    (k + 1) as nat,
                    |i: int| ' ',
                ));
            }
            k = k + 1;
        }
    }
    push_all(out, field);
    proof {
        assert(out@ =~= start + right_align(field@, width as int));
    }
}

} // verus!
