//! `str2num`: numbers written as text — a literal, a scalar arithmetic
//! expression, or a bracketed matrix of them.
//!
//! Parsing is here: the text is read into expression trees, whose numeric
//! literals are positions in the text. Evaluating them (doubles) is the
//! caller's.

use vstd::prelude::*;
use crate::descriptor::{error_descriptor, host_gpu_spec, param, signature, unfused_spec, BuiltinCompletionPolicy, BuiltinDescriptor, BuiltinErrorDescriptor, BuiltinFusionSpec, BuiltinGpuSpec, BuiltinOutputMode, BuiltinParamArity, BuiltinParamType};
use crate::error::{descriptor_error_with_message, map_control_flow_with_builtin, opt_view, RuntimeError};
use crate::text::{chars_to_string, is_whitespace, leading_ws, lemma_leading_ws, lemma_trailing_ws, str_chars, trailing_ws_start, trim_chars, trim_spec, unicode_white_space};
use crate::value::Value;

verus! {

/// An arithmetic expression read from text.
pub enum Expr {
    /// A numeric literal: the characters from the first position up to the
    /// second.
    Number(usize, usize),
    Inf,
    NaN,
    Neg(Box<Expr>),
    Add(Box<Expr>, Box<Expr>),
    Sub(Box<Expr>, Box<Expr>),
    Mul(Box<Expr>, Box<Expr>),
    Div(Box<Expr>, Box<Expr>),
    Pow(Box<Expr>, Box<Expr>),
}

/// First position at or after `pos` that is not whitespace.
pub open spec fn ws_end(c: Seq<char>, pos: int) -> int
    decreases c.len() - pos,
{
    if 0 <= pos < c.len() && unicode_white_space(c[pos]) {
        ws_end(c, pos + 1)
    } else {
        pos
    }
}

pub proof fn lemma_ws_end(c: Seq<char>, pos: int)
    requires
        0 <= pos <= c.len(),
    ensures
        pos <= ws_end(c, pos) <= c.len(),
        forall|k: int| pos <= k < ws_end(c, pos) ==> unicode_white_space(#[trigger] c[k]),
        ws_end(c, pos) < c.len() ==> !unicode_white_space(c[ws_end(c, pos)]),
    decreases c.len() - pos,
{
    if pos < c.len() && unicode_white_space(c[pos]) {
        lemma_ws_end(c, pos + 1);
    }
}

pub open spec fn is_ascii_digit_spec(ch: char) -> bool {
    '0' <= ch && ch <= '9'
}

pub open spec fn is_ascii_alpha_spec(ch: char) -> bool {
    ('a' <= ch && ch <= 'z') || ('A' <= ch && ch <= 'Z')
}

/// The character at `pos`, if any.
pub open spec fn char_at(c: Seq<char>, pos: int) -> Option<char> {
    if 0 <= pos < c.len() {
        Some(c[pos])
    } else {
        None
    }
}

/// End of the run of ASCII digits starting at `pos`.
pub open spec fn digits_end(c: Seq<char>, pos: int) -> int
    decreases c.len() - pos,
{
    if 0 <= pos < c.len() && is_ascii_digit_spec(c[pos]) {
        digits_end(c, pos + 1)
    } else {
        pos
    }
}

/// End of the run of ASCII letters, digits and underscores starting at `pos`.
pub open spec fn word_end(c: Seq<char>, pos: int) -> int
    decreases c.len() - pos,
{
    if 0 <= pos < c.len() && (is_ascii_alpha_spec(c[pos]) || is_ascii_digit_spec(c[pos]) || c[pos] == '_') {
        word_end(c, pos + 1)
    } else {
        pos
    }
}

/// End of the mantissa of a numeric literal starting at `pos`: digits,
/// then a decimal point and digits.
pub open spec fn mantissa_end(c: Seq<char>, pos: int) -> int {
    let p1 = digits_end(c, pos);
    if char_at(c, p1) == Some('.') {
        digits_end(c, p1 + 1)
    } else {
        p1
    }
}

/// End of a numeric literal starting at `pos`: the mantissa, then an
/// exponent (`e` or `E`, an optional sign and at least one digit) if one
/// follows.
pub open spec fn number_end(c: Seq<char>, pos: int) -> int {
    let p2 = mantissa_end(c, pos);
    if char_at(c, p2) == Some('e') || char_at(c, p2) == Some('E') {
        let m = if char_at(c, p2 + 1) == Some('+') || char_at(c, p2 + 1) == Some('-') { p2 + 2 } else { p2 + 1 };
        if 0 <= m < c.len() && is_ascii_digit_spec(c[m]) {
            digits_end(c, m)
        } else {
            p2
        }
    } else {
        p2
    }
}

/// A numeric literal at `pos`: its mantissa must hold a digit, as the
/// decimal grammar of doubles asks.
pub open spec fn p_number(c: Seq<char>, pos: int) -> Option<(Expr, int)> {
    let e = number_end(c, pos);
    if exists|k: int| pos <= k < mantissa_end(c, pos) && is_ascii_digit_spec(#[trigger] c[k]) {
        Some((Expr::Number(pos as usize, e as usize), e))
    } else {
        None
    }
}

/// ASCII lower-case form of a letter.
pub open spec fn ascii_lower(ch: char) -> char {
    if 'A' <= ch && ch <= 'Z' {
        ((ch as u32) + 32) as char
    } else {
        ch
    }
}

/// The word `w` is `target` up to ASCII case.
pub open spec fn word_is(w: Seq<char>, target: Seq<char>) -> bool {
    w.len() == target.len() && forall|k: int| 0 <= k < w.len() ==> ascii_lower(#[trigger] w[k]) == target[k]
}

/// A word at `pos`: `inf` or `nan`, in any ASCII case.
pub open spec fn p_word(c: Seq<char>, pos: int) -> Option<(Expr, int)> {
    let e = word_end(c, pos);
    let w = c.subrange(pos, e);
    if word_is(w, seq!['i', 'n', 'f']) {
        Some((Expr::Inf, e))
    } else if word_is(w, seq!['n', 'a', 'n']) {
        Some((Expr::NaN, e))
    } else {
        None
    }
}

/// A sum or difference of terms, left to right.
pub open spec fn p_expr(c: Seq<char>, pos: int) -> Option<(Expr, int)>
    decreases c.len() - pos, 7int,
{
    if pos < 0 || pos > c.len() {
        None
    } else {
        match p_term(c, pos) {
            None => None,
            Some((t, p)) => if p <= pos || p > c.len() {
                None
            } else {
                p_expr_rest(c, t, p)
            },
        }
    }
}

/// The terms that follow `acc` from `pos` on.
pub open spec fn p_expr_rest(c: Seq<char>, acc: Expr, pos: int) -> Option<(Expr, int)>
    decreases c.len() - pos, 8int,
{
    if pos < 0 || pos > c.len() {
        None
    } else {
        let q = ws_end(c, pos);
        proof {
            lemma_ws_end(c, pos);
        }
        if char_at(c, q) == Some('+') || char_at(c, q) == Some('-') {
            match p_term(c, q + 1) {
                None => None,
                Some((t, p)) => if p <= pos || p > c.len() {
                    None
                } else if c[q] == '+' {
                    p_expr_rest(c, Expr::Add(Box::new(acc), Box::new(t)), p)
                } else {
                    p_expr_rest(c, Expr::Sub(Box::new(acc), Box::new(t)), p)
                },
            }
        } else {
            Some((acc, q))
        }
    }
}

/// A product or quotient of factors, left to right.
pub open spec fn p_term(c: Seq<char>, pos: int) -> Option<(Expr, int)>
    decreases c.len() - pos, 5int,
{
    if pos < 0 || pos > c.len() {
        None
    } else {
        match p_unary(c, pos) {
            None => None,
            Some((u, p)) => if p <= pos || p > c.len() {
                None
            } else {
                p_term_rest(c, u, p)
            },
        }
    }
}

/// The factors that follow `acc` from `pos` on.
pub open spec fn p_term_rest(c: Seq<char>, acc: Expr, pos: int) -> Option<(Expr, int)>
    decreases c.len() - pos, 6int,
{
    if pos < 0 || pos > c.len() {
        None
    } else {
        let q = ws_end(c, pos);
        proof {
            lemma_ws_end(c, pos);
        }
        if char_at(c, q) == Some('*') || char_at(c, q) == Some('/') {
            match p_unary(c, q + 1) {
                None => None,
                Some((u, p)) => if p <= pos || p > c.len() {
                    None
                } else if c[q] == '*' {
                    p_term_rest(c, Expr::Mul(Box::new(acc), Box::new(u)), p)
                } else {
                    p_term_rest(c, Expr::Div(Box::new(acc), Box::new(u)), p)
                },
            }
        } else {
            Some((acc, q))
        }
    }
}

/// A factor with any number of leading signs.
pub open spec fn p_unary(c: Seq<char>, pos: int) -> Option<(Expr, int)>
    decreases c.len() - pos, 4int,
{
    if pos < 0 || pos > c.len() {
        None
    } else {
        let q = ws_end(c, pos);
        proof {
            lemma_ws_end(c, pos);
        }
        if char_at(c, q) == Some('+') {
            p_unary(c, q + 1)
        } else if char_at(c, q) == Some('-') {
            match p_unary(c, q + 1) {
                None => None,
                Some((u, p)) => Some((Expr::Neg(Box::new(u)), p)),
            }
        } else {
            p_power(c, q)
        }
    }
}

/// An atom, raised to a signed factor when `^` follows (right to left).
pub open spec fn p_power(c: Seq<char>, pos: int) -> Option<(Expr, int)>
    decreases c.len() - pos, 3int,
{
    if pos < 0 || pos > c.len() {
        None
    } else {
        match p_atom(c, pos) {
            None => None,
            Some((a, p)) => if p <= pos || p > c.len() {
                None
            } else {
                let q = ws_end(c, p);
                proof {
                    lemma_ws_end(c, p);
                }
                if char_at(c, q) == Some('^') {
                    match p_unary(c, q + 1) {
                        None => None,
                        Some((u, p2)) => Some((Expr::Pow(Box::new(a), Box::new(u)), p2)),
                    }
                } else {
                    Some((a, q))
                }
            },
        }
    }
}

/// A parenthesised expression, a numeric literal or a word.
pub open spec fn p_atom(c: Seq<char>, pos: int) -> Option<(Expr, int)>
    decreases c.len() - pos, 2int,
{
    if pos < 0 || pos > c.len() {
        None
    } else {
        let q = ws_end(c, pos);
        proof {
            lemma_ws_end(c, pos);
        }
        if q >= c.len() {
            None
        } else if c[q] == '(' {
            match p_expr(c, q + 1) {
                None => None,
                Some((e, p)) => {
                    let r = ws_end(c, p);
                    if char_at(c, r) == Some(')') {
                        Some((e, r + 1))
                    } else {
                        None
                    }
                },
            }
        } else if is_ascii_digit_spec(c[q]) || c[q] == '.' {
            p_number(c, q)
        } else if is_ascii_alpha_spec(c[q]) {
            p_word(c, q)
        } else {
            None
        }
    }
}

/// The whole text as one expression, with nothing but whitespace after it.
pub open spec fn full_expression(c: Seq<char>) -> Option<Expr> {
    match p_expr(c, 0) {
        Some((e, p)) => if ws_end(c, p) == c.len() {
            Some(e)
        } else {
            None
        },
        None => None,
    }
}


/// `a + b` when `op` is `+`, `a - b` otherwise.
pub open spec fn sum_or_difference(op: char, a: Expr, b: Expr) -> Expr {
    if op == '+' {
        Expr::Add(Box::new(a), Box::new(b))
    } else {
        Expr::Sub(Box::new(a), Box::new(b))
    }
}

proof fn lemma_term_rest_span(c: Seq<char>, acc: Expr, pos: int)
    requires
        0 <= pos <= c.len(),
    ensures
        p_term_rest(c, acc, pos) matches Some((_, p)) ==> pos <= p <= c.len(),
    decreases c.len() - pos,
{
    let q = ws_end(c, pos);
    lemma_ws_end(c, pos);
    if char_at(c, q) == Some('*') || char_at(c, q) == Some('/') {
        if let Some((u, p)) = p_unary(c, q + 1) {
            if pos < p <= c.len() {
                if c[q] == '*' {
                    lemma_term_rest_span(c, Expr::Mul(Box::new(acc), Box::new(u)), p);
                } else {
                    lemma_term_rest_span(c, Expr::Div(Box::new(acc), Box::new(u)), p);
                }
            }
        }
    }
}

/// A term read from `pos` ends after `pos` and within the text.
proof fn lemma_term_span(c: Seq<char>, pos: int)
    ensures
        p_term(c, pos) matches Some((_, p)) ==> 0 <= pos < p <= c.len(),
{
    if 0 <= pos <= c.len() {
        if let Some((u, p)) = p_unary(c, pos) {
            if pos < p <= c.len() {
                lemma_term_rest_span(c, u, p);
            }
        }
    }
}

/// Sums and differences group to the left: where the text from `pos` holds
/// three terms `t1`, `t2`, `t3` joined by the signs `op1` and `op2` (each
/// `+` or `-`, with any whitespace around them) and no further sign
/// follows, the expression read is `(t1 op1 t2) op2 t3`; so `10-2-3` reads
/// as `(10-2)-3` and `1-2+3` as `(1-2)+3`. When only whitespace follows the
/// third term, that is what the whole text reads as.
pub proof fn law_sums_associate_left(
    c: Seq<char>,
    pos: int,
    t1: Expr,
    i: int,
    op1: char,
    t2: Expr,
    j: int,
    op2: char,
    t3: Expr,
    k: int,
)
    requires
        p_term(c, pos) == Some((t1, i)),
        char_at(c, ws_end(c, i)) == Some(op1),
        op1 == '+' || op1 == '-',
        p_term(c, ws_end(c, i) + 1) == Some((t2, j)),
        char_at(c, ws_end(c, j)) == Some(op2),
        op2 == '+' || op2 == '-',
        p_term(c, ws_end(c, j) + 1) == Some((t3, k)),
        char_at(c, ws_end(c, k)) != Some('+'),
        char_at(c, ws_end(c, k)) != Some('-'),
    ensures
        p_expr(c, pos) == Some((sum_or_difference(op2, sum_or_difference(op1, t1, t2), t3), ws_end(c, k))),
        pos == 0 && ws_end(c, ws_end(c, k)) == c.len() ==> full_expression(c) == Some(
            sum_or_difference(op2, sum_or_difference(op1, t1, t2), t3),
        ),
{
    lemma_term_span(c, pos);
    lemma_ws_end(c, i);
    let q1 = ws_end(c, i);
    lemma_term_span(c, q1 + 1);
    lemma_ws_end(c, j);
    let q2 = ws_end(c, j);
    lemma_term_span(c, q2 + 1);
    lemma_ws_end(c, k);
    let e1 = sum_or_difference(op1, t1, t2);
    let e2 = sum_or_difference(op2, e1, t3);
    assert(p_expr_rest(c, e2, k) == Some((e2, ws_end(c, k))));
    assert(p_expr_rest(c, e1, j) == p_expr_rest(c, e2, k));
    assert(p_expr_rest(c, t1, i) == p_expr_rest(c, e1, j));
    assert(p_expr(c, pos) == p_expr_rest(c, t1, i));
}

/// `a * b` when `op` is `*`, `a / b` otherwise.
pub open spec fn product_or_quotient(op: char, a: Expr, b: Expr) -> Expr {
    if op == '*' {
        Expr::Mul(Box::new(a), Box::new(b))
    } else {
        Expr::Div(Box::new(a), Box::new(b))
    }
}

proof fn lemma_unary_span(c: Seq<char>, pos: int)
    ensures
        p_unary(c, pos) matches Some((_, p)) ==> 0 <= pos < p <= c.len(),
    decreases c.len() - pos, 4int,
{
    if 0 <= pos <= c.len() {
        let q = ws_end(c, pos);
        lemma_ws_end(c, pos);
        if char_at(c, q) == Some('+') || char_at(c, q) == Some('-') {
            lemma_unary_span(c, q + 1);
        } else {
            lemma_power_span(c, q);
        }
    }
}

proof fn lemma_power_span(c: Seq<char>, pos: int)
    ensures
        p_power(c, pos) matches Some((_, p)) ==> 0 <= pos < p <= c.len(),
    decreases c.len() - pos, 3int,
{
    if 0 <= pos <= c.len() {
        if let Some((a, p)) = p_atom(c, pos) {
            if pos < p <= c.len() {
                let q = ws_end(c, p);
                lemma_ws_end(c, p);
                if char_at(c, q) == Some('^') {
                    lemma_unary_span(c, q + 1);
                }
            }
        }
    }
}

/// Products and quotients group to the left: where the text from `pos`
/// holds three signed factors `u1`, `u2`, `u3` joined by `op1` and `op2`
/// (each `*` or `/`, with any whitespace around them) and no further `*`
/// or `/` follows, the term read is `(u1 op1 u2) op2 u3`; so `8/4/2` reads
/// as `(8/4)/2`.
pub proof fn law_products_associate_left(
    c: Seq<char>,
    pos: int,
    u1: Expr,
    i: int,
    op1: char,
    u2: Expr,
    j: int,
    op2: char,
    u3: Expr,
    k: int,
)
    requires
        p_unary(c, pos) == Some((u1, i)),
        char_at(c, ws_end(c, i)) == Some(op1),
        op1 == '*' || op1 == '/',
        p_unary(c, ws_end(c, i) + 1) == Some((u2, j)),
        char_at(c, ws_end(c, j)) == Some(op2),
        op2 == '*' || op2 == '/',
        p_unary(c, ws_end(c, j) + 1) == Some((u3, k)),
        char_at(c, ws_end(c, k)) != Some('*'),
        char_at(c, ws_end(c, k)) != Some('/'),
    ensures
        p_term(c, pos) == Some((product_or_quotient(op2, product_or_quotient(op1, u1, u2), u3), ws_end(c, k))),
{
    lemma_unary_span(c, pos);
    lemma_ws_end(c, i);
    let q1 = ws_end(c, i);
    lemma_unary_span(c, q1 + 1);
    lemma_ws_end(c, j);
    let q2 = ws_end(c, j);
    lemma_unary_span(c, q2 + 1);
    lemma_ws_end(c, k);
    let e1 = product_or_quotient(op1, u1, u2);
    let e2 = product_or_quotient(op2, e1, u3);
    assert(p_term_rest(c, e2, k) == Some((e2, ws_end(c, k))));
    assert(p_term_rest(c, e1, j) == p_term_rest(c, e2, k));
    assert(p_term_rest(c, u1, i) == p_term_rest(c, e1, j));
    assert(p_term(c, pos) == p_term_rest(c, u1, i));
}

proof fn lemma_digits_end(c: Seq<char>, pos: int)
    requires
        0 <= pos <= c.len(),
    ensures
        pos <= digits_end(c, pos) <= c.len(),
        forall|k: int| pos <= k < digits_end(c, pos) ==> is_ascii_digit_spec(#[trigger] c[k]),
        digits_end(c, pos) < c.len() ==> !is_ascii_digit_spec(c[digits_end(c, pos)]),
    decreases c.len() - pos,
{
    if pos < c.len() && is_ascii_digit_spec(c[pos]) {
        lemma_digits_end(c, pos + 1);
    }
}

proof fn lemma_word_end(c: Seq<char>, pos: int)
    requires
        0 <= pos <= c.len(),
    ensures
        pos <= word_end(c, pos) <= c.len(),
    decreases c.len() - pos,
{
    if 0 <= pos < c.len() && (is_ascii_alpha_spec(c[pos]) || is_ascii_digit_spec(c[pos]) || c[pos] == '_') {
        lemma_word_end(c, pos + 1);
    }
}

fn ascii_digit(ch: char) -> (b: bool)
    ensures
        b == is_ascii_digit_spec(ch),
{
    '0' <= ch && ch <= '9'
}

fn ascii_alpha(ch: char) -> (b: bool)
    ensures
        b == is_ascii_alpha_spec(ch),
{
    ('a' <= ch && ch <= 'z') || ('A' <= ch && ch <= 'Z')
}

/// `ch` is the lower-case ASCII letter `target` up to case.
fn lower_is(ch: char, target: char) -> (b: bool)
    requires
        'a' <= target && target <= 'z',
    ensures
        b == (ascii_lower(ch) == target),
{
    if 'A' <= ch && ch <= 'Z' {
        (ch as u32) + 32 == (target as u32)
    } else {
        ch == target
    }
}

/// Reads an arithmetic expression from characters, left to right.
pub struct ExprParser<'a> {
    pub chars: &'a [char],
    pub pos: usize,
}

impl<'a> ExprParser<'a> {
    /// The character at the current position, if any.
    pub fn peek(&self) -> (r: Option<char>)
        ensures
            r == char_at(self.chars@, self.pos as int),
            self.chars@.len() <= usize::MAX,
    {
        if self.pos < self.chars.len() {
            Some(self.chars[self.pos])
        } else {
            None
        }
    }

    /// Moves past whitespace.
    pub fn skip_whitespace(&mut self)
        requires
            old(self).pos <= old(self).chars@.len(),
        ensures
            final(self).chars@ == old(self).chars@,
            final(self).pos == ws_end(old(self).chars@, old(self).pos as int),
    {
        proof {
            lemma_ws_end(self.chars@, self.pos as int);
        }
        while self.pos < self.chars.len() && is_whitespace(self.chars[self.pos])
            invariant
                self.chars@ == old(self).chars@,
                old(self).pos <= self.pos <= self.chars@.len(),
                ws_end(self.chars@, self.pos as int) == ws_end(old(self).chars@, old(self).pos as int),
            decreases self.chars@.len() - self.pos,
        {
            self.pos = self.pos + 1;
        }
    }

    /// Reads a sum or difference of terms.
    pub fn parse_expr(&mut self) -> (r: Option<Expr>)
        requires
            old(self).pos <= old(self).chars@.len(),
        ensures
            final(self).chars@ == old(self).chars@,
            old(self).pos <= final(self).pos <= final(self).chars@.len(),
            r is Some ==> final(self).pos > old(self).pos,
            match p_expr(old(self).chars@, old(self).pos as int) {
                Some((e, p)) => r == Some(e) && final(self).pos == p,
                None => r is None,
            },
        decreases old(self).chars@.len() - old(self).pos, 7int,
    {
        let ghost c = self.chars@;
        let ghost start = self.pos as int;
        let mut value = match self.parse_term() {
            Some(t) => t,
            None => return None,
        };
        loop
            invariant
                self.chars@ == c,
                c == old(self).chars@,
                start == old(self).pos,
                start < self.pos <= c.len(),
                p_expr(c, start) == p_expr_rest(c, value, self.pos as int),
            decreases c.len() - self.pos,
        {
            let ghost at_pos = self.pos as int;
            self.skip_whitespace();
            proof {
                lemma_ws_end(c, at_pos);
            }
            match self.peek() {
                Some('+') => {
                    self.pos = self.pos + 1;
                    let t = match self.parse_term() {
                        Some(t) => t,
                        None => return None,
                    };
                    value = Expr::Add(Box::new(value), Box::new(t));
                },
                Some('-') => {
                    self.pos = self.pos + 1;
                    let t = match self.parse_term() {
                        Some(t) => t,
                        None => return None,
                    };
                    value = Expr::Sub(Box::new(value), Box::new(t));
                },
                _ => return Some(value),
            }
        }
    }

    /// Reads a product or quotient of factors.
    pub fn parse_term(&mut self) -> (r: Option<Expr>)
        requires
            old(self).pos <= old(self).chars@.len(),
        ensures
            final(self).chars@ == old(self).chars@,
            old(self).pos <= final(self).pos <= final(self).chars@.len(),
            r is Some ==> final(self).pos > old(self).pos,
            match p_term(old(self).chars@, old(self).pos as int) {
                Some((e, p)) => r == Some(e) && final(self).pos == p,
                None => r is None,
            },
        decreases old(self).chars@.len() - old(self).pos, 5int,
    {
        let ghost c = self.chars@;
        let ghost start = self.pos as int;
        let mut value = match self.parse_unary() {
            Some(u) => u,
            None => return None,
        };
        loop
            invariant
                self.chars@ == c,
                c == old(self).chars@,
                start == old(self).pos,
                start < self.pos <= c.len(),
                p_term(c, start) == p_term_rest(c, value, self.pos as int),
            decreases c.len() - self.pos,
        {
            let ghost at_pos = self.pos as int;
            self.skip_whitespace();
            proof {
                lemma_ws_end(c, at_pos);
            }
            match self.peek() {
                Some('*') => {
                    self.pos = self.pos + 1;
                    let u = match self.parse_unary() {
                        Some(u) => u,
                        None => return None,
                    };
                    value = Expr::Mul(Box::new(value), Box::new(u));
                },
                Some('/') => {
                    self.pos = self.pos + 1;
                    let u = match self.parse_unary() {
                        Some(u) => u,
                        None => return None,
                    };
                    value = Expr::Div(Box::new(value), Box::new(u));
                },
                _ => return Some(value),
            }
        }
    }

    /// Reads a factor with any number of leading signs.
    pub fn parse_unary(&mut self) -> (r: Option<Expr>)
        requires
            old(self).pos <= old(self).chars@.len(),
        ensures
            final(self).chars@ == old(self).chars@,
            old(self).pos <= final(self).pos <= final(self).chars@.len(),
            r is Some ==> final(self).pos > old(self).pos,
            match p_unary(old(self).chars@, old(self).pos as int) {
                Some((e, p)) => r == Some(e) && final(self).pos == p,
                None => r is None,
            },
        decreases old(self).chars@.len() - old(self).pos, 4int,
    {
        let ghost c = self.chars@;
        let ghost start = self.pos as int;
        self.skip_whitespace();
        proof {
            lemma_ws_end(c, start);
        }
        match self.peek() {
            Some('+') => {
                self.pos = self.pos + 1;
                self.parse_unary()
            },
            Some('-') => {
                self.pos = self.pos + 1;
                match self.parse_unary() {
                    Some(u) => Some(Expr::Neg(Box::new(u))),
                    None => None,
                }
            },
            _ => self.parse_power(),
        }
    }

    /// Reads an atom, raised to a signed factor when `^` follows.
    pub fn parse_power(&mut self) -> (r: Option<Expr>)
        requires
            old(self).pos <= old(self).chars@.len(),
        ensures
            final(self).chars@ == old(self).chars@,
            old(self).pos <= final(self).pos <= final(self).chars@.len(),
            r is Some ==> final(self).pos > old(self).pos,
            match p_power(old(self).chars@, old(self).pos as int) {
                Some((e, p)) => r == Some(e) && final(self).pos == p,
                None => r is None,
            },
        decreases old(self).chars@.len() - old(self).pos, 3int,
    {
        let ghost c = self.chars@;
        let base = match self.parse_atom() {
            Some(a) => a,
            None => return None,
        };
        let ghost after_atom = self.pos as int;
        self.skip_whitespace();
        proof {
            lemma_ws_end(c, after_atom);
        }
        if self.peek() == Some('^') {
            self.pos = self.pos + 1;
            let exponent = match self.parse_unary() {
                Some(u) => u,
                None => return None,
            };
            return Some(Expr::Pow(Box::new(base), Box::new(exponent)));
        }
        Some(base)
    }

    /// Reads a parenthesised expression, a numeric literal or a word.
    pub fn parse_atom(&mut self) -> (r: Option<Expr>)
        requires
            old(self).pos <= old(self).chars@.len(),
        ensures
            final(self).chars@ == old(self).chars@,
            old(self).pos <= final(self).pos <= final(self).chars@.len(),
            r is Some ==> final(self).pos > old(self).pos,
            match p_atom(old(self).chars@, old(self).pos as int) {
                Some((e, p)) => r == Some(e) && final(self).pos == p,
                None => r is None,
            },
        decreases old(self).chars@.len() - old(self).pos, 2int,
    {
        let ghost c = self.chars@;
        let ghost start = self.pos as int;
        self.skip_whitespace();
        proof {
            lemma_ws_end(c, start);
        }
        let ch = match self.peek() {
            Some(ch) => ch,
            None => return None,
        };
        if ch == '(' {
            self.pos = self.pos + 1;
            let value = match self.parse_expr() {
                Some(v) => v,
                None => return None,
            };
            let ghost after = self.pos as int;
            self.skip_whitespace();
            proof {
                lemma_ws_end(c, after);
            }
            if self.peek() == Some(')') {
                self.pos = self.pos + 1;
                Some(value)
            } else {
                None
            }
        } else if ascii_digit(ch) || ch == '.' {
            self.parse_number()
        } else if ascii_alpha(ch) {
            self.parse_word()
        } else {
            None
        }
    }

    /// Reads a numeric literal: digits, a decimal point and digits, and an
    /// exponent when one follows. The literal is kept when its mantissa has
    /// a digit, the condition under which the decimal grammar of doubles
    /// accepts it.
    pub fn parse_number(&mut self) -> (r: Option<Expr>)
        requires
            old(self).pos <= old(self).chars@.len(),
        ensures
            final(self).chars@ == old(self).chars@,
            old(self).pos <= final(self).pos <= final(self).chars@.len(),
            r is Some ==> final(self).pos > old(self).pos,
            match p_number(old(self).chars@, old(self).pos as int) {
                Some((e, p)) => r == Some(e) && final(self).pos == p,
                None => r is None,
            },
    {
        let ghost c = self.chars@;
        let start = self.pos;
        proof {
            lemma_digits_end(c, start as int);
        }
        while self.pos < self.chars.len() && ascii_digit(self.chars[self.pos])
            invariant
                self.chars@ == c,
                start <= self.pos <= c.len(),
                digits_end(c, self.pos as int) == digits_end(c, start as int),
            decreases c.len() - self.pos,
        {
            self.pos = self.pos + 1;
        }
        if self.peek() == Some('.') {
            self.pos = self.pos + 1;
            let ghost after_point = self.pos as int;
            proof {
                lemma_digits_end(c, after_point);
            }
            while self.pos < self.chars.len() && ascii_digit(self.chars[self.pos])
                invariant
                    self.chars@ == c,
                    after_point <= self.pos <= c.len(),
                    digits_end(c, self.pos as int) == digits_end(c, after_point),
                decreases c.len() - self.pos,
            {
                self.pos = self.pos + 1;
            }
        }
        let mant_end = self.pos;
        assert(mant_end as int == mantissa_end(c, start as int));
        let e = self.peek();
        if e == Some('e') || e == Some('E') {
            let mark = self.pos;
            self.pos = self.pos + 1;
            let sign = self.peek();
            if sign == Some('+') || sign == Some('-') {
                self.pos = self.pos + 1;
            }
            let d = self.peek();
            if d.is_some() && ascii_digit(d.unwrap()) {
                let ghost m = self.pos as int;
                proof {
                    lemma_digits_end(c, m);
                }
                while self.pos < self.chars.len() && ascii_digit(self.chars[self.pos])
                    invariant
                        self.chars@ == c,
                        m <= self.pos <= c.len(),
                        digits_end(c, self.pos as int) == digits_end(c, m),
                    decreases c.len() - self.pos,
                {
                    self.pos = self.pos + 1;
                }
            } else {
                self.pos = mark;
            }
        }
        assert(self.pos as int == number_end(c, start as int));
        let mut k = start;
        let mut has_digit = false;
        while k < mant_end
            invariant
                start <= k <= mant_end <= c.len(),
                self.chars@ == c,
                has_digit == exists|j: int| start <= j < k && is_ascii_digit_spec(#[trigger] c[j]),
            decreases mant_end - k,
        {
            if ascii_digit(self.chars[k]) {
                has_digit = true;
            }
            k = k + 1;
        }
        if has_digit {
            Some(Expr::Number(start, self.pos))
        } else {
            None
        }
    }

    /// Reads a word: `inf` or `nan`, in any ASCII case.
    pub fn parse_word(&mut self) -> (r: Option<Expr>)
        requires
            old(self).pos <= old(self).chars@.len(),
        ensures
            final(self).chars@ == old(self).chars@,
            old(self).pos <= final(self).pos <= final(self).chars@.len(),
            r is Some ==> final(self).pos > old(self).pos,
            match p_word(old(self).chars@, old(self).pos as int) {
                Some((e, p)) => r == Some(e) && final(self).pos == p,
                None => r is None,
            },
    {
        let ghost c = self.chars@;
        let start = self.pos;
        proof {
            lemma_word_end(c, start as int);
        }
        while self.pos < self.chars.len() && (ascii_alpha(self.chars[self.pos]) || ascii_digit(self.chars[self.pos])
            || self.chars[self.pos] == '_')
            invariant
                self.chars@ == c,
                start <= self.pos <= c.len(),
                word_end(c, self.pos as int) == word_end(c, start as int),
            decreases c.len() - self.pos,
        {
            self.pos = self.pos + 1;
        }
        let ghost w = c.subrange(start as int, self.pos as int);
        if self.pos - start == 3 {
            let a = self.chars[start];
            let b = self.chars[start + 1];
            let d = self.chars[start + 2];
            proof {
                assert(w[0] == c[start as int]);
                assert(w[1] == c[start + 1]);
                assert(w[2] == c[start + 2]);
            }
            if lower_is(a, 'i') && lower_is(b, 'n') && lower_is(d, 'f') {
                assert(word_is(w, seq!['i', 'n', 'f']));
                return Some(Expr::Inf);
            }
            if lower_is(a, 'n') && lower_is(b, 'a') && lower_is(d, 'n') {
                assert(word_is(w, seq!['n', 'a', 'n']));
                return Some(Expr::NaN);
            }
            proof {
                if word_is(w, seq!['i', 'n', 'f']) {
                    assert(ascii_lower(w[0]) == 'i');
                    assert(ascii_lower(w[1]) == 'n');
                    assert(ascii_lower(w[2]) == 'f');
                }
                if word_is(w, seq!['n', 'a', 'n']) {
                    assert(ascii_lower(w[0]) == 'n');
                    assert(ascii_lower(w[1]) == 'a');
                    assert(ascii_lower(w[2]) == 'n');
                }
            }
        }
        None
    }
}

/// Reads the whole text as one expression.
pub fn parse_full_expression(text: &[char]) -> (r: Option<Expr>)
    ensures
        r == full_expression(text@),
{
    let mut parser = ExprParser { chars: text, pos: 0 };
    let value = match parser.parse_expr() {
        Some(v) => v,
        None => return None,
    };
    parser.skip_whitespace();
    if parser.pos == text.len() {
        Some(value)
    } else {
        None
    }
}


/// Parenthesis depth before position `i`: each `(` opens one level, each
/// `)` closes one, never below zero.
pub open spec fn paren_depth(c: Seq<char>, i: int) -> nat
    decreases i,
{
    if i <= 0 {
        0
    } else {
        let d = paren_depth(c, i - 1);
        let ch = c[i - 1];
        if ch == '(' {
            d + 1
        } else if ch == ')' {
            if d > 0 {
                (d - 1) as nat
            } else {
                0
            }
        } else {
            d
        }
    }
}

/// Position `i` holds a separator outside any parentheses.
pub open spec fn is_cut(c: Seq<char>, seps: Seq<char>, i: int) -> bool {
    c[i] != '(' && c[i] != ')' && paren_depth(c, i) == 0 && seps.contains(c[i])
}

/// The first `n` characters split at their cuts (the cut characters
/// dropped); there is always at least one part.
pub open spec fn split_parts(c: Seq<char>, seps: Seq<char>, n: int) -> Seq<Seq<char>>
    decreases n,
{
    if n <= 0 {
        seq![Seq::<char>::empty()]
    } else {
        let prev = split_parts(c, seps, n - 1);
        if is_cut(c, seps, n - 1) {
            prev.push(Seq::<char>::empty())
        } else {
            prev.update(prev.len() - 1, prev.last().push(c[n - 1]))
        }
    }
}

pub open spec fn views(p: Seq<Vec<char>>) -> Seq<Seq<char>> {
    p.map_values(|v: Vec<char>| v@)
}

proof fn lemma_split_parts_len(c: Seq<char>, seps: Seq<char>, n: int)
    ensures
        split_parts(c, seps, n).len() >= 1,
    decreases n,
{
    if n > 0 {
        lemma_split_parts_len(c, seps, n - 1);
    }
}

proof fn lemma_paren_depth_bound(c: Seq<char>, i: int)
    ensures
        paren_depth(c, i) <= if i < 0 { 0 } else { i },
    decreases i,
{
    if i > 0 {
        lemma_paren_depth_bound(c, i - 1);
    }
}

/// Splits the text at the separators that stand outside parentheses.
pub fn split_top_level(text: &[char], separators: &[char]) -> (parts: Vec<Vec<char>>)
    ensures
        views(parts@) == split_parts(text@, separators@, text@.len() as int),
{
    let mut parts: Vec<Vec<char>> = Vec::new();
    let mut current: Vec<char> = Vec::new();
    let mut depth: usize = 0;
    let mut i: usize = 0;
    let n = text.len();
    while i < n
        invariant
            n == text@.len(),
            i <= n,
            depth == paren_depth(text@, i as int),
            views(parts@).push(current@) == split_parts(text@, separators@, i as int),
        decreases n - i,
    {
        let ch = text[i];
        proof {
            lemma_paren_depth_bound(text@, i as int);
            lemma_split_parts_len(text@, separators@, i as int);
        }
        let ghost prev = split_parts(text@, separators@, i as int);
        if ch == '(' {
            depth = depth + 1;
            current.push(ch);
        } else if ch == ')' {
            if depth > 0 {
                depth = depth - 1;
            }
            current.push(ch);
        } else {
            let mut is_sep = false;
            let mut k: usize = 0;
            while k < separators.len()
                invariant
                    k <= separators@.len(),
                    is_sep == exists|j: int| 0 <= j < k && separators@[j] == ch,
                decreases separators@.len() - k,
            {
                if separators[k] == ch {
                    is_sep = true;
                }
                k = k + 1;
            }
            if depth == 0 && is_sep {
                proof {
                    assert(separators@.contains(ch));
                }
                parts.push(current);
                current = Vec::new();
                proof {
                    assert(views(parts@) =~= prev);
                }
            } else {
                proof {
                    if separators@.contains(ch) {
                        let j = choose|j: int| 0 <= j < separators@.len() && separators@[j] == ch;
                        assert(is_sep);
                    }
                }
                current.push(ch);
            }
        }
        i = i + 1;
        proof {
            assert(views(parts@).push(current@) =~= split_parts(text@, separators@, i as int));
        }
    }
    let ghost before = parts@;
    parts.push(current);
    proof {
        assert(views(parts@) =~= views(before).push(current@));
    }
    parts
}

/// Number of cuts among the first `n` characters.
pub open spec fn cut_count(c: Seq<char>, seps: Seq<char>, n: int) -> nat
    decreases n,
{
    if n <= 0 {
        0
    } else {
        cut_count(c, seps, n - 1) + if is_cut(c, seps, n - 1) { 1nat } else { 0nat }
    }
}

/// The first `n` characters with the cuts left out.
pub open spec fn uncut_text(c: Seq<char>, seps: Seq<char>, n: int) -> Seq<char>
    decreases n,
{
    if n <= 0 {
        Seq::empty()
    } else if is_cut(c, seps, n - 1) {
        uncut_text(c, seps, n - 1)
    } else {
        uncut_text(c, seps, n - 1).push(c[n - 1])
    }
}

proof fn lemma_split_parts_keep_text(c: Seq<char>, seps: Seq<char>, n: int)
    ensures
        split_parts(c, seps, n).len() == cut_count(c, seps, n) + 1,
        split_parts(c, seps, n).flatten_alt() == uncut_text(c, seps, n),
    decreases n,
{
    if n <= 0 {
        let p = split_parts(c, seps, n);
        assert(p.drop_last() =~= Seq::<Seq<char>>::empty());
        assert(p.drop_last().flatten_alt() =~= Seq::<char>::empty());
        assert(p.last() =~= Seq::<char>::empty());
        assert(p.flatten_alt() =~= Seq::<char>::empty());
    } else {
        lemma_split_parts_keep_text(c, seps, n - 1);
        let prev = split_parts(c, seps, n - 1);
        let p = split_parts(c, seps, n);
        if is_cut(c, seps, n - 1) {
            assert(p.drop_last() =~= prev);
            assert(p.flatten_alt() =~= uncut_text(c, seps, n));
        } else {
            assert(p.drop_last() =~= prev.drop_last());
            assert(p.flatten_alt() =~= uncut_text(c, seps, n));
        }
    }
}

/// Splitting keeps the text: there is one part more than there are cuts,
/// and the parts joined back give the text with only its cuts left out.
pub proof fn law_split_top_level_keeps_text(c: Seq<char>, seps: Seq<char>)
    ensures
        split_parts(c, seps, c.len() as int).len() == cut_count(c, seps, c.len() as int) + 1,
        split_parts(c, seps, c.len() as int).flatten() == uncut_text(c, seps, c.len() as int),
{
    lemma_split_parts_keep_text(c, seps, c.len() as int);
    split_parts(c, seps, c.len() as int).lemma_flatten_and_flatten_alt_are_equivalent();
}

pub open spec fn is_binop(ch: char) -> bool {
    ch == '+' || ch == '-' || ch == '*' || ch == '/' || ch == '^'
}

/// `+ - * / ^`.
pub fn is_binary_operator(ch: char) -> (b: bool)
    ensures
        b == is_binop(ch),
{
    ch == '+' || ch == '-' || ch == '*' || ch == '/' || ch == '^'
}

/// Last character of `cur` that is not whitespace.
pub open spec fn prev_nonblank(cur: Seq<char>) -> Option<char> {
    let t = trailing_ws_start(cur);
    if t > 0 {
        Some(cur[t - 1])
    } else {
        None
    }
}

/// Whitespace before position `j` of the row ends an element of `cur`:
/// never after an operator or `(`, or before `* / ^ )`; before `+` or `-`
/// only when the sign is attached to what follows it.
pub open spec fn element_boundary(c: Seq<char>, cur: Seq<char>, j: int) -> bool {
    match prev_nonblank(cur) {
        None => false,
        Some(p) => if is_binop(p) || p == '(' {
            false
        } else {
            let next = c[j];
            if next == '*' || next == '/' || next == '^' || next == ')' {
                false
            } else if next == '+' || next == '-' {
                j + 1 < c.len() && !unicode_white_space(c[j + 1]) && !is_binop(c[j + 1])
            } else {
                true
            }
        },
    }
}

/// The elements read so far, completed with the one in progress.
pub open spec fn finish_row(depth: nat, cur: Seq<char>, els: Seq<Seq<char>>) -> Option<Seq<Seq<char>>> {
    if depth != 0 {
        None
    } else if trim_spec(cur).len() > 0 {
        Some(els.push(cur))
    } else {
        Some(els)
    }
}

/// The elements of a bracketed row read from position `i` on, given the
/// parenthesis depth, the element in progress and the elements read.
/// Commas outside parentheses end elements; so does whitespace outside
/// parentheses where `element_boundary` holds; other whitespace becomes
/// one space. A comma after an empty element, or an unbalanced `)` or `(`,
/// fails.
pub open spec fn row_scan(c: Seq<char>, i: int, depth: nat, cur: Seq<char>, els: Seq<Seq<char>>) -> Option<Seq<Seq<char>>>
    decreases c.len() - i,
{
    if i < 0 || i >= c.len() {
        finish_row(depth, cur, els)
    } else {
        let ch = c[i];
        if ch == '(' {
            row_scan(c, i + 1, depth + 1, cur.push(ch), els)
        } else if ch == ')' {
            if depth == 0 {
                None
            } else {
                row_scan(c, i + 1, (depth - 1) as nat, cur.push(ch), els)
            }
        } else if ch == ',' && depth == 0 {
            if trim_spec(cur).len() == 0 {
                None
            } else {
                row_scan(c, i + 1, depth, Seq::empty(), els.push(cur))
            }
        } else if unicode_white_space(ch) && depth == 0 {
            let j = ws_end(c, i);
            proof {
                lemma_ws_end(c, i + 1);
            }
            if j >= c.len() {
                finish_row(depth, cur, els)
            } else if element_boundary(c, cur, j) {
                if trim_spec(cur).len() == 0 {
                    None
                } else {
                    row_scan(c, j, depth, Seq::empty(), els.push(cur))
                }
            } else {
                row_scan(c, j, depth, if cur.len() > 0 { cur.push(' ') } else { cur }, els)
            }
        } else {
            row_scan(c, i + 1, depth, cur.push(ch), els)
        }
    }
}

/// Last character of `cur` that is not whitespace.
fn last_non_blank(cur: &Vec<char>) -> (r: Option<char>)
    ensures
        r == prev_nonblank(cur@),
{
    proof {
        lemma_trailing_ws(cur@);
    }
    let mut t: usize = cur.len();
    while t > 0 && is_whitespace(cur[t - 1])
        invariant
            t <= cur@.len(),
            trailing_ws_start(cur@) <= t,
            forall|k: int| t <= k < cur@.len() ==> unicode_white_space(#[trigger] cur@[k]),
        decreases t,
    {
        proof {
            lemma_trailing_ws(cur@);
        }
        t = t - 1;
    }
    proof {
        if t > trailing_ws_start(cur@) {
            assert(unicode_white_space(cur@[t - 1]));
        }
    }
    if t > 0 {
        Some(cur[t - 1])
    } else {
        None
    }
}

/// The text holds something other than whitespace.
fn has_non_blank(cur: &Vec<char>) -> (b: bool)
    ensures
        b == (trim_spec(cur@).len() > 0),
{
    let t = trim_chars(cur.as_slice());
    t.len() > 0
}

/// Splits one bracketed row into element texts.
pub fn split_row_elements(row: &[char]) -> (r: Option<Vec<Vec<char>>>)
    ensures
        match row_scan(row@, 0, 0, Seq::empty(), Seq::empty()) {
            Some(els) => r matches Some(v) && views(v@) == els,
            None => r is None,
        },
{
    let ghost c = row@;
    let n = row.len();
    let mut elements: Vec<Vec<char>> = Vec::new();
    let mut current: Vec<char> = Vec::new();
    let mut depth: usize = 0;
    let mut i: usize = 0;
    assert(views(elements@) =~= Seq::<Seq<char>>::empty());
    while i < n
        invariant
            n == c.len(),
            c == row@,
            i <= n,
            depth <= i,
            row_scan(c, 0, 0, Seq::empty(), Seq::empty()) == row_scan(
                c,
                i as int,
                depth as nat,
                current@,
                views(elements@),
            ),
        ensures
            row_scan(c, 0, 0, Seq::empty(), Seq::empty()) == finish_row(depth as nat, current@, views(elements@)),
        decreases n - i,
    {
        let ch = row[i];
        if ch == '(' {
            depth = depth + 1;
            current.push(ch);
            i = i + 1;
        } else if ch == ')' {
            if depth == 0 {
                return None;
            }
            depth = depth - 1;
            current.push(ch);
            i = i + 1;
        } else if ch == ',' && depth == 0 {
            if !has_non_blank(&current) {
                return None;
            }
            let ghost before = elements@;
            elements.push(current);
            current = Vec::new();
            proof {
                assert(views(elements@) =~= views(before).push(views(elements@).last()));
            }
            i = i + 1;
        } else if is_whitespace(ch) && depth == 0 {
            let mut j = i;
            while j < n && is_whitespace(row[j])
                invariant
                    n == c.len(),
                    c == row@,
                    i <= j <= n,
                    ws_end(c, j as int) == ws_end(c, i as int),
                decreases n - j,
            {
                j = j + 1;
            }
            proof {
                lemma_ws_end(c, i as int);
                lemma_ws_end(c, j as int);
            }
            if j >= n {
                break;
            }
            let prev = last_non_blank(&current);
            let next = row[j];
            let boundary = match prev {
                None => false,
                Some(p) => {
                    if is_binary_operator(p) || p == '(' {
                        false
                    } else if next == '*' || next == '/' || next == '^' || next == ')' {
                        false
                    } else if next == '+' || next == '-' {
                        j + 1 < n && !is_whitespace(row[j + 1]) && !is_binary_operator(row[j + 1])
                    } else {
                        true
                    }
                },
            };
            assert(boundary == element_boundary(c, current@, j as int));
            if boundary {
                if !has_non_blank(&current) {
                    return None;
                }
                let ghost before = elements@;
                elements.push(current);
                current = Vec::new();
                proof {
                    assert(views(elements@) =~= views(before).push(views(elements@).last()));
                }
            } else if current.len() > 0 {
                current.push(' ');
            }
            i = j;
        } else {
            current.push(ch);
            i = i + 1;
        }
    }
    if depth != 0 {
        return None;
    }
    if has_non_blank(&current) {
        let ghost before = elements@;
        elements.push(current);
        proof {
            assert(views(elements@) =~= views(before).push(views(elements@).last()));
        }
    }
    Some(elements)
}


/// No `)` of the row closes below depth zero, and every `(` is closed.
pub open spec fn parens_balanced_from(c: Seq<char>, i: int) -> bool {
    &&& forall|j: int| i <= j < c.len() && c[j] == ')' ==> paren_depth(c, j) > 0
    &&& paren_depth(c, c.len() as int) == 0
}

/// Every comma of the row from `i` on stands inside parentheses.
pub open spec fn no_top_comma_from(c: Seq<char>, i: int) -> bool {
    forall|j: int| i <= j < c.len() && c[j] == ',' ==> paren_depth(c, j) > 0
}

/// The characters of `s` other than whitespace.
pub open spec fn solid(s: Seq<char>) -> Seq<char>
    decreases s.len(),
{
    if s.len() == 0 {
        Seq::empty()
    } else if unicode_white_space(s.last()) {
        solid(s.drop_last())
    } else {
        solid(s.drop_last()).push(s.last())
    }
}

/// The characters of the row from `i` on, other than whitespace and the
/// commas outside parentheses.
pub open spec fn row_solid(c: Seq<char>, i: int) -> Seq<char>
    decreases c.len() - i,
{
    if i < 0 || i >= c.len() {
        Seq::empty()
    } else if unicode_white_space(c[i]) || (c[i] == ',' && paren_depth(c, i) == 0) {
        row_solid(c, i + 1)
    } else {
        seq![c[i]] + row_solid(c, i + 1)
    }
}

proof fn lemma_solid_add(a: Seq<char>, b: Seq<char>)
    ensures
        solid(a + b) == solid(a) + solid(b),
    decreases b.len(),
{
    if b.len() == 0 {
        assert(a + b =~= a);
        assert(solid(a) + solid(b) =~= solid(a));
    } else {
        lemma_solid_add(a, b.drop_last());
        assert((a + b).drop_last() =~= a + b.drop_last());
        assert((a + b).last() == b.last());
        assert(solid(a + b) =~= solid(a) + solid(b));
    }
}

proof fn lemma_solid_push(s: Seq<char>, ch: char)
    ensures
        solid(s.push(ch)) == if unicode_white_space(ch) { solid(s) } else { solid(s).push(ch) },
{
    assert(s.push(ch).drop_last() =~= s);
}

proof fn lemma_solid_all_blank(s: Seq<char>)
    requires
        forall|k: int| 0 <= k < s.len() ==> unicode_white_space(#[trigger] s[k]),
    ensures
        solid(s) == Seq::<char>::empty(),
    decreases s.len(),
{
    if s.len() > 0 {
        assert forall|k: int| 0 <= k < s.drop_last().len() implies unicode_white_space(#[trigger] s.drop_last()[k]) by {
            assert(s.drop_last()[k] == s[k]);
        }
        lemma_solid_all_blank(s.drop_last());
    }
}

/// A text whose trim is empty has nothing but whitespace.
proof fn lemma_solid_blank(s: Seq<char>)
    requires
        trim_spec(s).len() == 0,
    ensures
        solid(s) == Seq::<char>::empty(),
{
    lemma_leading_ws(s);
    lemma_trailing_ws(s);
    assert forall|k: int| 0 <= k < s.len() implies unicode_white_space(#[trigger] s[k]) by {
        if !unicode_white_space(s[k]) {
            assert(leading_ws(s) <= k);
            assert(k < trailing_ws_start(s));
            assert(trim_spec(s).len() == trailing_ws_start(s) - leading_ws(s));
        }
    }
    lemma_solid_all_blank(s);
}

/// A text with a character other than whitespace has a nonempty trim.
proof fn lemma_prev_nonblank_trim(s: Seq<char>)
    requires
        prev_nonblank(s) is Some,
    ensures
        trim_spec(s).len() > 0,
{
    lemma_leading_ws(s);
    lemma_trailing_ws(s);
    let k = trailing_ws_start(s) - 1;
    assert(!unicode_white_space(s[k]));
    assert(leading_ws(s) <= k);
}

/// Whitespace between `i` and `j` changes neither the depth nor what the
/// rest of the row holds besides whitespace.
proof fn lemma_blank_run(c: Seq<char>, i: int, j: int)
    requires
        0 <= i <= j <= c.len(),
        forall|k: int| i <= k < j ==> unicode_white_space(#[trigger] c[k]),
    ensures
        paren_depth(c, j) == paren_depth(c, i),
        row_solid(c, i) == row_solid(c, j),
    decreases j - i,
{
    if i < j {
        lemma_blank_run(c, i + 1, j);
        assert(unicode_white_space(c[i]));
    }
}

proof fn lemma_row_scan(c: Seq<char>, i: int, depth: nat, cur: Seq<char>, els: Seq<Seq<char>>)
    requires
        0 <= i <= c.len(),
        depth == paren_depth(c, i),
        forall|k: int| 0 <= k < els.len() ==> trim_spec(#[trigger] els[k]).len() > 0,
    ensures
        row_scan(c, i, depth, cur, els) matches Some(out) ==> {
            &&& parens_balanced_from(c, i)
            &&& forall|k: int| 0 <= k < out.len() ==> trim_spec(#[trigger] out[k]).len() > 0
            &&& solid(out.flatten_alt()) == solid(els.flatten_alt()) + solid(cur) + row_solid(c, i)
        },
        parens_balanced_from(c, i) && no_top_comma_from(c, i) ==> row_scan(c, i, depth, cur, els) is Some,
    decreases c.len() - i,
{
    let n = c.len() as int;
    if i >= n {
        lemma_finish_row(c, depth, cur, els);
    } else {
        let ch = c[i];
        assert(paren_depth(c, i + 1) == if ch == '(' {
            depth + 1int
        } else if ch == ')' {
            if depth > 0 { (depth - 1) as int } else { 0 }
        } else {
            depth as int
        });
        if ch == '(' {
            lemma_row_scan(c, i + 1, depth + 1, cur.push(ch), els);
            lemma_solid_push(cur, ch);
            assert(row_solid(c, i) == seq![ch] + row_solid(c, i + 1));
            assert(solid(els.flatten_alt()) + solid(cur.push(ch)) + row_solid(c, i + 1)
                =~= solid(els.flatten_alt()) + solid(cur) + row_solid(c, i));
        } else if ch == ')' {
            if depth > 0 {
                lemma_row_scan(c, i + 1, (depth - 1) as nat, cur.push(ch), els);
                lemma_solid_push(cur, ch);
                assert(row_solid(c, i) == seq![ch] + row_solid(c, i + 1));
                assert(solid(els.flatten_alt()) + solid(cur.push(ch)) + row_solid(c, i + 1)
                    =~= solid(els.flatten_alt()) + solid(cur) + row_solid(c, i));
            }
        } else if ch == ',' && depth == 0 {
            if trim_spec(cur).len() > 0 {
                let els2 = els.push(cur);
                assert forall|k: int| 0 <= k < els2.len() implies trim_spec(#[trigger] els2[k]).len() > 0 by {
                    if k < els.len() {
                        assert(els2[k] == els[k]);
                    }
                }
                lemma_row_scan(c, i + 1, depth, Seq::empty(), els2);
                assert(els2.drop_last() =~= els);
                assert(els2.flatten_alt() == els.flatten_alt() + cur);
                lemma_solid_add(els.flatten_alt(), cur);
                assert(solid(Seq::<char>::empty()) == Seq::<char>::empty());
                assert(row_solid(c, i) == row_solid(c, i + 1));
                assert(solid(els2.flatten_alt()) + solid(Seq::<char>::empty()) + row_solid(c, i + 1)
                    =~= solid(els.flatten_alt()) + solid(cur) + row_solid(c, i));
            }
        } else if unicode_white_space(ch) && depth == 0 {
            let j = ws_end(c, i);
            lemma_ws_end(c, i);
            lemma_blank_run(c, i, j);
            assert forall|k: int| i <= k < j implies !(c[k] == ')' || c[k] == ',') by {
                assert(unicode_white_space(c[k]));
            }
            if j >= n {
                lemma_finish_row(c, depth, cur, els);
            } else if element_boundary(c, cur, j) {
                lemma_prev_nonblank_trim(cur);
                let els2 = els.push(cur);
                assert forall|k: int| 0 <= k < els2.len() implies trim_spec(#[trigger] els2[k]).len() > 0 by {
                    if k < els.len() {
                        assert(els2[k] == els[k]);
                    }
                }
                lemma_row_scan(c, j, depth, Seq::empty(), els2);
                assert(els2.drop_last() =~= els);
                assert(els2.flatten_alt() == els.flatten_alt() + cur);
                lemma_solid_add(els.flatten_alt(), cur);
                assert(solid(Seq::<char>::empty()) == Seq::<char>::empty());
                assert(solid(els2.flatten_alt()) + solid(Seq::<char>::empty()) + row_solid(c, j)
                    =~= solid(els.flatten_alt()) + solid(cur) + row_solid(c, i));
            } else {
                let cur2 = if cur.len() > 0 { cur.push(' ') } else { cur };
                lemma_row_scan(c, j, depth, cur2, els);
                lemma_solid_push(cur, ' ');
            }
        } else {
            lemma_row_scan(c, i + 1, depth, cur.push(ch), els);
            if unicode_white_space(ch) {
                lemma_solid_push(cur, ch);
                assert(row_solid(c, i) == row_solid(c, i + 1));
            } else {
                lemma_solid_push(cur, ch);
                assert(row_solid(c, i) == seq![ch] + row_solid(c, i + 1));
                assert(solid(els.flatten_alt()) + solid(cur.push(ch)) + row_solid(c, i + 1)
                    =~= solid(els.flatten_alt()) + solid(cur) + row_solid(c, i));
            }
        }
    }
}

proof fn lemma_finish_row(c: Seq<char>, depth: nat, cur: Seq<char>, els: Seq<Seq<char>>)
    requires
        depth == paren_depth(c, c.len() as int),
        forall|k: int| 0 <= k < els.len() ==> trim_spec(#[trigger] els[k]).len() > 0,
    ensures
        finish_row(depth, cur, els) matches Some(out) ==> {
            &&& depth == 0
            &&& forall|k: int| 0 <= k < out.len() ==> trim_spec(#[trigger] out[k]).len() > 0
            &&& solid(out.flatten_alt()) == solid(els.flatten_alt()) + solid(cur)
        },
        depth == 0 ==> finish_row(depth, cur, els) is Some,
{
    if depth == 0 {
        if trim_spec(cur).len() > 0 {
            let els2 = els.push(cur);
            assert forall|k: int| 0 <= k < els2.len() implies trim_spec(#[trigger] els2[k]).len() > 0 by {
                if k < els.len() {
                    assert(els2[k] == els[k]);
                }
            }
            assert(els2.drop_last() =~= els);
            lemma_solid_add(els.flatten_alt(), cur);
        } else {
            lemma_solid_blank(cur);
            assert(solid(els.flatten_alt()) + solid(cur) =~= solid(els.flatten_alt()));
        }
    }
}

/// What splitting a row gives: it succeeds only on a row whose parentheses
/// balance, and always on such a row whose commas all stand inside
/// parentheses; no element is blank; and the elements hold, in order, every
/// character of the row but whitespace and the commas outside parentheses.
pub proof fn law_split_row_elements(c: Seq<char>)
    ensures
        row_scan(c, 0, 0, Seq::empty(), Seq::empty()) matches Some(els) ==> {
            &&& parens_balanced_from(c, 0)
            &&& forall|k: int| 0 <= k < els.len() ==> trim_spec(#[trigger] els[k]).len() > 0
            &&& solid(els.flatten()) == row_solid(c, 0)
        },
        parens_balanced_from(c, 0) && no_top_comma_from(c, 0) ==> row_scan(c, 0, 0, Seq::empty(), Seq::empty()) is Some,
{
    let empty_els = Seq::<Seq<char>>::empty();
    lemma_row_scan(c, 0, 0, Seq::empty(), empty_els);
    if let Some(els) = row_scan(c, 0, 0, Seq::empty(), empty_els) {
        els.lemma_flatten_and_flatten_alt_are_equivalent();
        assert(empty_els.flatten_alt() =~= Seq::<char>::empty());
        assert(solid(Seq::<char>::empty()) =~= Seq::<char>::empty());
        assert(solid(empty_els.flatten_alt()) + solid(Seq::<char>::empty()) + row_solid(c, 0) =~= row_solid(c, 0));
    }
}

/// An element of a bracketed matrix: its text, trimmed, and the expression
/// read from it.
pub struct Element {
    pub text: Vec<char>,
    pub expr: Expr,
}

/// Numbers read from text.
pub enum ParsedNumeric {
    /// One expression.
    Scalar(Element),
    /// A matrix given by its rows of elements, all of `cols` elements.
    Matrix { rows_data: Vec<Vec<Element>>, rows: usize, cols: usize },
}

/// The element texts of a row, each trimmed and read as an expression;
/// none if one cannot be read.
pub open spec fn row_exprs(els: Seq<Seq<char>>) -> Option<Seq<(Seq<char>, Expr)>>
    decreases els.len(),
{
    if els.len() == 0 {
        Some(Seq::empty())
    } else {
        match row_exprs(els.drop_last()) {
            None => None,
            Some(prev) => {
                let t = trim_spec(els.last());
                match full_expression(t) {
                    None => None,
                    Some(e) => Some(prev.push((t, e))),
                }
            },
        }
    }
}

/// The rows of a matrix body split into row texts: blank rows and rows
/// without elements are left out; none if a row cannot be read.
pub open spec fn matrix_rows(parts: Seq<Seq<char>>) -> Option<Seq<Seq<(Seq<char>, Expr)>>>
    decreases parts.len(),
{
    if parts.len() == 0 {
        Some(Seq::empty())
    } else {
        match matrix_rows(parts.drop_last()) {
            None => None,
            Some(prev) => {
                let t = trim_spec(parts.last());
                if t.len() == 0 {
                    Some(prev)
                } else {
                    match row_scan(t, 0, 0, Seq::empty(), Seq::empty()) {
                        None => None,
                        Some(els) => match row_exprs(els) {
                            None => None,
                            Some(row) => if row.len() > 0 {
                                Some(prev.push(row))
                            } else {
                                Some(prev)
                            },
                        },
                    }
                }
            },
        }
    }
}

pub open spec fn element_view(e: Element) -> (Seq<char>, Expr) {
    (e.text@, e.expr)
}

pub open spec fn row_view(r: Vec<Element>) -> Seq<(Seq<char>, Expr)> {
    r@.map_values(|e: Element| element_view(e))
}

/// The row separators of a matrix body: `;` and newline.
pub open spec fn row_separators() -> Seq<char> {
    seq![';', '\n']
}

/// What `parse_matrix_body` returns: the rows read, when all have as many
/// elements as the first (an empty matrix when there is none).
pub open spec fn matrix_outcome(body: Seq<char>, r: Option<ParsedNumeric>) -> bool {
    match matrix_rows(split_parts(body, row_separators(), body.len() as int)) {
        None => r is None,
        Some(rows) => if rows.len() == 0 {
            r matches Some(ParsedNumeric::Matrix { rows_data, rows: nr, cols: nc }) && nr == 0 && nc == 0
                && rows_data@.len() == 0
        } else if exists|k: int| 0 <= k < rows.len() && (#[trigger] rows[k]).len() != rows[0].len() {
            r is None
        } else {
            r matches Some(ParsedNumeric::Matrix { rows_data, rows: nr, cols: nc }) && nr == rows.len() && nc
                == rows[0].len() && rows_data@.map_values(|v: Vec<Element>| row_view(v)) == rows
        },
    }
}

/// Reads each element text of a row as an expression.
fn read_row(els: Vec<Vec<char>>) -> (r: Option<Vec<Element>>)
    ensures
        match row_exprs(views(els@)) {
            Some(row) => r matches Some(v) && row_view(v) == row,
            None => r is None,
        },
{
    let mut row: Vec<Element> = Vec::new();
    let mut k: usize = 0;
    while k < els.len()
        invariant
            k <= els@.len(),
            row_exprs(views(els@).take(k as int)) == Some(row_view(row)),
        decreases els@.len() - k,
    {
        let t = trim_chars(els[k].as_slice());
        let e = match parse_full_expression(t.as_slice()) {
            Some(e) => e,
            None => {
                proof {
                    lemma_row_exprs_none(views(els@), k as int + 1);
                    assert(views(els@).take(k + 1).drop_last() =~= views(els@).take(k as int));
                }
                return None;
            },
        };
        let ghost before = row;
        row.push(Element { text: t, expr: e });
        proof {
            assert(views(els@).take(k + 1).drop_last() =~= views(els@).take(k as int));
            assert(row_view(row) =~= row_view(before).push(element_view(row@.last())));
        }
        k = k + 1;
    }
    assert(views(els@).take(els@.len() as int) =~= views(els@));
    Some(row)
}

/// Once an element fails, the whole row fails.
proof fn lemma_row_exprs_none(els: Seq<Seq<char>>, k: int)
    requires
        1 <= k <= els.len(),
        row_exprs(els.take(k)) is None,
    ensures
        row_exprs(els) is None,
    decreases els.len() - k,
{
    if k < els.len() {
        assert(els.take(k + 1).drop_last() =~= els.take(k));
        lemma_row_exprs_none(els, k + 1);
    } else {
        assert(els.take(k) =~= els);
    }
}

/// Once a row fails, the whole matrix fails.
proof fn lemma_matrix_rows_none(parts: Seq<Seq<char>>, k: int)
    requires
        1 <= k <= parts.len(),
        matrix_rows(parts.take(k)) is None,
    ensures
        matrix_rows(parts) is None,
    decreases parts.len() - k,
{
    if k < parts.len() {
        assert(parts.take(k + 1).drop_last() =~= parts.take(k));
        lemma_matrix_rows_none(parts, k + 1);
    } else {
        assert(parts.take(k) =~= parts);
    }
}

/// Reads a bracketed matrix body: rows split at `;` and newlines, elements
/// at commas and whitespace.
pub fn parse_matrix_body(body: &[char]) -> (r: Option<ParsedNumeric>)
    ensures
        matrix_outcome(body@, r),
{
    let seps: Vec<char> = vec![';', '\n'];
    assert(seps@ =~= row_separators());
    let parts = split_top_level(body, seps.as_slice());
    let ghost pv = views(parts@);
    let mut rows_data: Vec<Vec<Element>> = Vec::new();
    let mut k: usize = 0;
    while k < parts.len()
        invariant
            k <= parts@.len(),
            pv == views(parts@),
            pv == split_parts(body@, row_separators(), body@.len() as int),
            matrix_rows(pv.take(k as int)) == Some(rows_data@.map_values(|v: Vec<Element>| row_view(v))),
        decreases parts@.len() - k,
    {
        let ghost before = rows_data@;
        proof {
            assert(pv.take(k + 1).drop_last() =~= pv.take(k as int));
            assert(pv.take(k + 1).last() == pv[k as int]);
        }
        let row_text = trim_chars(parts[k].as_slice());
        if row_text.len() > 0 {
            let elements = match split_row_elements(row_text.as_slice()) {
                Some(e) => e,
                None => {
                    proof {
                        lemma_matrix_rows_none(pv, k as int + 1);
                    }
                    return None;
                },
            };
            let row = match read_row(elements) {
                Some(r) => r,
                None => {
                    proof {
                        lemma_matrix_rows_none(pv, k as int + 1);
                    }
                    return None;
                },
            };
            if row.len() > 0 {
                rows_data.push(row);
                proof {
                    assert(rows_data@.map_values(|v: Vec<Element>| row_view(v)) =~= before.map_values(
                        |v: Vec<Element>| row_view(v),
                    ).push(row_view(rows_data@.last())));
                }
            }
        }
        k = k + 1;
    }
    assert(pv.take(parts@.len() as int) =~= pv);
    let ghost rows = rows_data@.map_values(|v: Vec<Element>| row_view(v));
    if rows_data.len() == 0 {
        return Some(ParsedNumeric::Matrix { rows_data, rows: 0, cols: 0 });
    }
    let cols = rows_data[0].len();
    let mut r: usize = 0;
    while r < rows_data.len()
        invariant
            r <= rows_data@.len(),
            rows == rows_data@.map_values(|v: Vec<Element>| row_view(v)),
            matrix_rows(split_parts(body@, row_separators(), body@.len() as int)) == Some(rows),
            rows_data@.len() > 0,
            cols == rows_data@[0]@.len(),
            forall|j: int| 0 <= j < r ==> (#[trigger] rows[j]).len() == rows[0].len(),
        decreases rows_data@.len() - r,
    {
        if rows_data[r].len() != cols {
            proof {
                assert(rows[r as int].len() != rows[0].len());
            }
            return None;
        }
        r = r + 1;
    }
    let nrows = rows_data.len();
    Some(ParsedNumeric::Matrix { rows_data, rows: nrows, cols })
}

/// What `parse_numeric_source` returns for a text: for `[...]`, the matrix
/// of its body (none when the body holds a bracket or the closing bracket
/// is missing); otherwise the text read as one expression; none for blank
/// text.
pub open spec fn numeric_source_outcome(text: Seq<char>, r: Option<ParsedNumeric>) -> bool {
    let t = trim_spec(text);
    if t.len() == 0 {
        r is None
    } else if t[0] == '[' {
        if t.len() < 2 || t.last() != ']' {
            r is None
        } else {
            let body = t.subrange(1, t.len() - 1);
            if body.contains('[') || body.contains(']') {
                r is None
            } else {
                matrix_outcome(body, r)
            }
        }
    } else {
        match full_expression(t) {
            None => r is None,
            Some(e) => r matches Some(ParsedNumeric::Scalar(el)) && el.text@ == t && el.expr == e,
        }
    }
}

/// Reads text as numbers: a bracketed matrix or one expression.
pub fn parse_numeric_source(text: &[char]) -> (r: Option<ParsedNumeric>)
    ensures
        numeric_source_outcome(text@, r),
{
    let trimmed = trim_chars(text);
    if trimmed.len() == 0 {
        return None;
    }
    if trimmed[0] == '[' {
        let n = trimmed.len();
        if n < 2 || trimmed[n - 1] != ']' {
            return None;
        }
        let mut body: Vec<char> = Vec::new();
        let mut has_bracket = false;
        let mut i: usize = 1;
        while i < n - 1
            invariant
                1 <= i <= n - 1,
                n == trimmed@.len(),
                body@ == trimmed@.subrange(1, i as int),
                has_bracket == (body@.contains('[') || body@.contains(']')),
            decreases n - 1 - i,
        {
            let ch = trimmed[i];
            let ghost before = body@;
            body.push(ch);
            proof {
                assert forall|x: char| body@.contains(x) <==> (before.contains(x) || x == ch) by {
                    if body@.contains(x) {
                        let j = choose|j: int| 0 <= j < body@.len() && body@[j] == x;
                        if j < before.len() {
                            assert(before[j] == x);
                        }
                    }
                    if before.contains(x) {
                        let j = choose|j: int| 0 <= j < before.len() && before[j] == x;
                        assert(body@[j] == x);
                    }
                    if x == ch {
                        assert(body@[before.len() as int] == x);
                    }
                }
            }
            if ch == '[' || ch == ']' {
                has_bracket = true;
            }
            i = i + 1;
        }
        if has_bracket {
            return None;
        }
        return parse_matrix_body(body.as_slice());
    }
    match parse_full_expression(trimmed.as_slice()) {
        Some(e) => Some(ParsedNumeric::Scalar(Element { text: trimmed, expr: e })),
        None => None,
    }
}

/// What `str2num` does with a value: numbers read from its text, or the
/// text itself when it cannot be read, for evaluation elsewhere.
pub enum Str2NumPlan {
    Parsed(ParsedNumeric),
    Delegate(Vec<char>),
}

/// The text of a string scalar, a one-element string array or a character
/// row (or empty character array).
pub open spec fn text_of(v: Value) -> Option<Seq<char>> {
    match v {
        Value::String(s) => Some(s@),
        Value::StringArray(sa) => if sa.data@.len() == 1 {
            Some(sa.data@[0]@)
        } else {
            None
        },
        Value::CharArray(ca) => if ca.rows <= 1 {
            Some(ca.data@)
        } else {
            None
        },
        _ => None,
    }
}

/// The text of a value `str2num` accepts.
pub fn extract_text(value: &Value) -> (r: Option<Vec<char>>)
    ensures
        match text_of(*value) {
            Some(t) => r matches Some(v) && v@ == t,
            None => r is None,
        },
{
    match value {
        Value::String(s) => Some(str_chars(s.as_str())),
        Value::StringArray(sa) => {
            if sa.data.len() == 1 {
                Some(str_chars(sa.data[0].as_str()))
            } else {
                None
            }
        },
        Value::CharArray(ca) => {
            if ca.rows <= 1 {
                let mut v: Vec<char> = Vec::new();
                let mut i: usize = 0;
                while i < ca.data.len()
                    invariant
                        i <= ca.data@.len(),
                        v@ == ca.data@.take(i as int),
                    decreases ca.data@.len() - i,
                {
                    v.push(ca.data[i]);
                    i = i + 1;
                    assert(v@ =~= ca.data@.take(i as int));
                }
                assert(ca.data@.take(ca.data@.len() as int) =~= ca.data@);
                Some(v)
            } else {
                None
            }
        },
        _ => None,
    }
}

/// `str2num(chr)`: none for a value that is not text (the caller reports
/// it with `invalid_input` and the value's description); otherwise the
/// numbers read from its text, or the text for evaluation elsewhere.
pub fn str2num(value: &Value) -> (r: Option<Str2NumPlan>)
    ensures
        match text_of(*value) {
            None => r is None,
            Some(t) => r matches Some(plan) && match plan {
                Str2NumPlan::Parsed(p) => numeric_source_outcome(t, Some(p)),
                Str2NumPlan::Delegate(d) => d@ == t && numeric_source_outcome(t, None),
            },
        },
{
    let text = match extract_text(value) {
        Some(t) => t,
        None => return None,
    };
    match parse_numeric_source(text.as_slice()) {
        Some(p) => Some(Str2NumPlan::Parsed(p)),
        None => Some(Str2NumPlan::Delegate(text)),
    }
}

/// The error is the invalid-input error of `str2num` with the given message.
pub open spec fn str2num_error_is(e: RuntimeError, msg: Seq<char>) -> bool {
    &&& e.message@ == msg
    &&& opt_view(e.builtin) == Some("str2num"@)
    &&& opt_view(e.identifier) == Some("RunMat:str2num:InvalidInput"@)
}

/// Error for a value that is not text, given the value's description.
pub fn invalid_input(description: &str) -> (e: RuntimeError)
    ensures
        str2num_error_is(
            e,
            "str2num: input must be a character row vector or string scalar (got "@ + description@ + ")"@,
        ),
{
    let mut cs = str_chars("str2num: input must be a character row vector or string scalar (got ");
    let d = str_chars(description);
    let ghost head = cs@;
    let mut i: usize = 0;
    while i < d.len()
        invariant
            i <= d@.len(),
            cs@ == head + d@.take(i as int),
        decreases d@.len() - i,
    {
        cs.push(d[i]);
        i = i + 1;
        assert(cs@ =~= head + d@.take(i as int));
    }
    let ghost mid = cs@;
    cs.push(')');
    assert(d@.take(d@.len() as int) =~= d@);
    proof {
        reveal_strlit(")");
        assert(cs@ =~= head + d@ + ")"@);
    }
    let desc = str2num_error_invalid_input();
    descriptor_error_with_message(&desc, chars_to_string(cs.as_slice()), "str2num")
}

/// Attributes an error raised while gathering the argument to `str2num`.
pub fn remap_str2num_flow(err: RuntimeError) -> (e: RuntimeError)
    ensures
        e.message@ == err.message@,
        opt_view(e.identifier) == opt_view(err.identifier),
        opt_view(e.builtin) == (match err.builtin {
            Some(b) => Some(b@),
            None => Some("str2num"@),
        }),
{
    map_control_flow_with_builtin(err, "str2num")
}

fn str2num_error_invalid_input() -> (e: BuiltinErrorDescriptor)
    ensures
        e.code@ == "RM.STR2NUM.INVALID_INPUT"@,
        e.identifier matches Some(i) && i@ == "RunMat:str2num:InvalidInput"@,
        e.message@ == "str2num: input must be a character row vector or string scalar"@,
{
    error_descriptor(
        "RM.STR2NUM.INVALID_INPUT",
        "RunMat:str2num:InvalidInput",
        "Input is not a character row vector or string scalar.",
        "str2num: input must be a character row vector or string scalar",
    )
}

/// Descriptor of `str2num`.
pub fn str2num_descriptor() -> (d: BuiltinDescriptor)
    ensures
        d.labels() == seq!["X = str2num(chr)"@],
        d.codes() == seq!["RM.STR2NUM.INVALID_INPUT"@],
        d.output_mode == BuiltinOutputMode::Fixed,
{
    let s0 = signature(
        "X = str2num(chr)",
        vec![
            param(
                "chr",
                BuiltinParamType::Any,
                BuiltinParamArity::Required,
                "Character row vector or string scalar containing a numeric literal or expression.",
            ),
        ],
        vec![
            param(
                "X",
                BuiltinParamType::NumericArray,
                BuiltinParamArity::Required,
                "Numeric result, or a 0x0 empty double when evaluation fails.",
            ),
        ],
    );
    let d = BuiltinDescriptor {
        signatures: vec![s0],
        output_mode: BuiltinOutputMode::Fixed,
        completion_policy: BuiltinCompletionPolicy::Public,
        errors: vec![str2num_error_invalid_input()],
    };
    assert(d.labels() =~= seq!["X = str2num(chr)"@]);
    assert(d.codes() =~= seq!["RM.STR2NUM.INVALID_INPUT"@]);
    d
}

/// Acceleration metadata of `str2num`.
pub fn str2num_gpu_spec() -> (g: BuiltinGpuSpec)
    ensures
        g.name@ == "str2num"@,
{
    host_gpu_spec(
        "str2num",
        "conversion",
        "Parses text on the CPU; GPU-resident inputs are gathered before conversion.",
    )
}

/// Fusion metadata of `str2num`.
pub fn str2num_fusion_spec() -> (f: BuiltinFusionSpec)
    ensures
        f.name@ == "str2num"@,
{
    unfused_spec(
        "str2num",
        true,
        "Conversion builtin; not eligible for fusion and materialises host-side doubles.",
    )
}


} // verus!
