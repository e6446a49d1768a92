//! `dec2bin`: binary digits of nonnegative integers as a char matrix.

use vstd::prelude::*;
use crate::descriptor::{
    error_descriptor, param, signature, BuiltinCompletionPolicy, BuiltinDescriptor,
    BuiltinErrorDescriptor, BuiltinOutputMode, BuiltinParamArity, BuiltinParamType,
};
use crate::digits::{
    base_digits, base_text, binary_text, digit_char, digits_text, digits_value,
    lemma_base_digits, repeat, repeat_char,
};
use crate::error::{
    descriptor_error, descriptor_error_with_message, map_control_flow_with_builtin, opt_view, RuntimeError,
};
use crate::value::CharArray;
use crate::text::{chars_to_string, push_all, str_chars};
use vstd::arithmetic::power2::{lemma2_to64, lemma2_to64_rest, lemma_pow2_unfold, pow2};

verus! {

/// Width of the rows: the widest binary text, at least the requested
/// width, and at least one.
pub open spec fn row_width(values: Seq<u64>, requested_width: nat) -> nat {
    let natural = max_binary_len(values);
    let w = if natural > requested_width { natural } else { requested_width };
    if w > 1 { w } else { 1 }
}

/// Length of the longest binary text among `values` (0 when empty).
pub open spec fn max_binary_len(values: Seq<u64>) -> nat
    decreases values.len(),
{
    if values.len() == 0 {
        0
    } else {
        let rest = max_binary_len(values.drop_last());
        let l = binary_text(values.last() as nat).len();
        if l > rest { l } else { rest }
    }
}

pub proof fn lemma_max_binary_len(values: Seq<u64>)
    ensures
        forall|i: int| 0 <= i < values.len() ==> binary_text(#[trigger] values[i] as nat).len()
            <= max_binary_len(values),
        values.len() > 0 ==> exists|i: int| 0 <= i < values.len() && binary_text(
            #[trigger] values[i] as nat,
        ).len() == max_binary_len(values),
    decreases values.len(),
{
    if values.len() > 0 {
        lemma_max_binary_len(values.drop_last());
        assert forall|i: int| 0 <= i < values.len() implies binary_text(#[trigger] values[i] as nat).len()
            <= max_binary_len(values) by {
            if i < values.len() - 1 {
                assert(values[i] == values.drop_last()[i]);
            }
        }
        if values.len() > 1 && max_binary_len(values.drop_last()) >= binary_text(values.last() as nat).len() {
            let j = choose|j: int| 0 <= j < values.drop_last().len() && binary_text(
                #[trigger] values.drop_last()[j] as nat,
            ).len() == max_binary_len(values.drop_last());
            assert(values[j] == values.drop_last()[j]);
        } else {
            assert(binary_text(values[values.len() - 1] as nat).len() == max_binary_len(values));
        }
    }
}

/// Row `i` of the output: the binary text of `values[i]` zero-padded on the
/// left to `width`.
pub open spec fn binary_row(v: u64, width: nat) -> Seq<char> {
    let t = binary_text(v as nat);
    repeat_char('0', (width - t.len()) as nat) + t
}

/// Value of a text of binary digits.
pub open spec fn binary_value(s: Seq<char>) -> nat
    decreases s.len(),
{
    if s.len() == 0 {
        0
    } else {
        binary_value(s.drop_last()) * 2 + if s.last() == '1' { 1nat } else { 0nat }
    }
}

/// Assemble the char output: one row per value (in order), each zero-padded
/// on the left to the common width `row_width`; no values give a 0-by-0
/// array.
pub fn format_binary_rows(values: &[u64], requested_width: usize) -> (r: CharArray)
    requires
        values@.len() * (if requested_width > 64 { requested_width as int } else { 64int })
            <= usize::MAX,
    ensures
        r.wf(),
        values@.len() == 0 ==> r.rows == 0 && r.cols == 0,
        values@.len() > 0 ==> r.rows == values@.len() && r.cols == row_width(
            values@,
            requested_width as nat,
        ),
        values@.len() > 0 ==> forall|i: int|
            0 <= i < values@.len() ==> #[trigger] r.row(i) == binary_row(values@[i], r.cols as nat),
{
    if values.len() == 0 {
        return CharArray::empty();
    }
    let mut digits: Vec<Vec<char>> = Vec::new();
    let mut natural: usize = 0;
    let mut i: usize = 0;
    while i < values.len()
        invariant
            i <= values@.len(),
            digits@.len() == i,
            forall|k: int| 0 <= k < i ==> (#[trigger] digits@[k])@ == binary_text(values@[k] as nat),
            natural == max_binary_len(values@.take(i as int)),
            natural <= 64,
        decreases values@.len() - i,
    {
        let t = base_text(values[i], 2);
        proof {
            lemma_binary_text_short(values@[i as int]);
            assert(values@.take(i + 1).drop_last() =~= values@.take(i as int));
        }
        if t.len() > natural {
            natural = t.len();
        }
        digits.push(t);
        i = i + 1;
    }
    proof {
        assert(values@.take(values@.len() as int) =~= values@);
    }
    let mut width = if natural > requested_width { natural } else { requested_width };
    if width < 1 {
        width = 1;
    }
    let mut chars: Vec<char> = Vec::new();
    let mut r: usize = 0;
    proof {
        lemma_max_binary_len(values@);
        assert(values@.len() * width <= usize::MAX) by (nonlinear_arith)
            requires
                values@.len() * (if requested_width > 64 { requested_width as int } else { 64int })
                    <= usize::MAX,
                width <= (if requested_width > 64 { requested_width as int } else { 64int }),
        ;
    }
    while r < values.len()
        invariant
            r <= values@.len(),
            digits@.len() == values@.len(),
            forall|k: int| 0 <= k < values@.len() ==> (#[trigger] digits@[k])@ == binary_text(values@[k] as nat),
            forall|k: int| 0 <= k < values@.len() ==> binary_text(#[trigger] values@[k] as nat).len() <= width,
            values@.len() * width <= usize::MAX,
            chars@.len() == r * width,
            forall|k: int| 0 <= k < r ==> chars@.subrange(k * width, k * width + width) == binary_row(
                #[trigger] values@[k],
                width as nat,
            ),
        decreases values@.len() - r,
    {
        let text = &digits[r];
        proof {
            assert(binary_text(values@[r as int] as nat).len() <= width);
        }
        let pad = repeat('0', width - text.len());
        let ghost before = chars@;
        let mut k: usize = 0;
        while k < pad.len()
            invariant
                k <= pad@.len(),
                chars@ == before + pad@.subrange(0, k as int),
            decreases pad@.len() - k,
        {
            chars.push(pad[k]);
            k = k + 1;
        }
        let mut k: usize = 0;
        while k < text.len()
            invariant
                k <= text@.len(),
                chars@ == before + pad@ + text@.subrange(0, k as int),
            decreases text@.len() - k,
        {
            chars.push(text[k]);
            k = k + 1;
        }
        proof {
            assert(chars@ =~= before + binary_row(values@[r as int], width as nat));
            assert(r * width + width == (r + 1) * width) by (nonlinear_arith);
            assert forall|j: int| 0 <= j < r + 1 implies chars@.subrange(j * width, j * width + width)
                == binary_row(#[trigger] values@[j], width as nat) by {
                if j < r {
                    assert(j * width + width <= r * width) by (nonlinear_arith)
                        requires
                            j < r,
                    ;
                    assert(chars@.subrange(j * width, j * width + width) =~= before.subrange(
                        j * width,
                        j * width + width,
                    ));
                } else {
                    assert(chars@.subrange(j * width, j * width + width) =~= binary_row(
                        values@[j],
                        width as nat,
                    ));
                }
            }
            assert((r + 1) * width <= values@.len() * width) by (nonlinear_arith)
                requires
                    r + 1 <= values@.len(),
            ;
        }
        r = r + 1;
    }
    let out = CharArray { data: chars, rows: values.len(), cols: width };
    proof {
        assert forall|i: int| 0 <= i < values@.len() implies #[trigger] out.row(i) == binary_row(
            values@[i],
            out.cols as nat,
        ) by {
            assert(out.row(i) == chars@.subrange(i * width, i * width + width));
        }
    }
    out
}

/// The binary text of a `u64` has at most 64 digits.
proof fn lemma_binary_text_short(v: u64)
    ensures
        1 <= binary_text(v as nat).len() <= 64,
{
    lemma2_to64_rest();
    lemma_binary_digits_count(v as nat, 64);
}

proof fn lemma_binary_digits_count(n: nat, k: nat)
    requires
        n < pow2(k),
    ensures
        base_digits(n, 2).len() <= if k == 0 { 1 } else { k },
        base_digits(n, 2).len() >= 1,
    decreases n,
{
    if n >= 2 {
        assert(k >= 1) by {
            if k == 0 {
                lemma2_to64();
            }
        }
        if k > 0 {
            lemma_pow2_unfold(k);
        }
        lemma_binary_digits_count(n / 2, (k - 1) as nat);
        if k == 1 {
            lemma2_to64();
        }
    }
}


proof fn lemma_binary_value_append(a: Seq<char>, b: Seq<char>)
    ensures
        binary_value(a + b) == binary_value(a) * pow2(b.len()) + binary_value(b),
    decreases b.len(),
{
    if b.len() == 0 {
        assert(a + b =~= a);
        lemma2_to64();
        assert(binary_value(a) * 1 == binary_value(a)) by (nonlinear_arith);
    } else {
        assert((a + b).drop_last() =~= a + b.drop_last());
        lemma_binary_value_append(a, b.drop_last());
        lemma_pow2_unfold(b.len());
        let bit: nat = if b.last() == '1' { 1nat } else { 0nat };
        assert(binary_value(a + b) == binary_value(a + b.drop_last()) * 2 + bit);
        assert(binary_value(b) == binary_value(b.drop_last()) * 2 + bit);
        assert(binary_value(a) * pow2(b.len()) == (binary_value(a) * pow2((b.len() - 1) as nat)) * 2)
            by (nonlinear_arith)
            requires
                pow2(b.len()) == 2 * pow2((b.len() - 1) as nat),
        ;
    }
}

proof fn lemma_zeros_value(k: nat)
    ensures
        binary_value(repeat_char('0', k)) == 0,
    decreases k,
{
    if k > 0 {
        assert(repeat_char('0', k).drop_last() =~= repeat_char('0', (k - 1) as nat));
        lemma_zeros_value((k - 1) as nat);
    }
}

proof fn lemma_binary_digits_text_value(ds: Seq<nat>)
    requires
        forall|i: int| 0 <= i < ds.len() ==> #[trigger] ds[i] < 2,
    ensures
        binary_value(digits_text(ds)) == digits_value(ds, 2),
    decreases ds.len(),
{
    if ds.len() > 0 {
        assert(digits_text(ds).drop_last() =~= digits_text(ds.drop_last()));
        lemma_binary_digits_text_value(ds.drop_last());
        let d = ds.last();
        assert(d < 2);
        assert(digit_char(0) == '0' && digit_char(1) == '1') by {
            assert((48u8 as char) == '0');
            assert((49u8 as char) == '1');
        }
        assert(digits_text(ds).last() == digit_char(d));
    }
}

/// Each row of `dec2bin`'s output, read as a binary numeral, is the value it
/// was made from: zero padding never changes the value.
pub proof fn law_binary_row_denotes_value(v: u64, width: nat)
    ensures
        binary_value(binary_row(v, width)) == v,
{
    let ds = base_digits(v as nat, 2);
    lemma_base_digits(v as nat, 2);
    lemma_binary_digits_text_value(ds);
    let t = binary_text(v as nat);
    let zs = repeat_char('0', (width - t.len()) as nat);
    lemma_binary_value_append(zs, t);
    lemma_zeros_value((width - t.len()) as nat);
    assert(0 * pow2(t.len()) == 0) by (nonlinear_arith);
}

// ---------------------------------------------------------------------
// Errors and descriptor
// ---------------------------------------------------------------------

fn dec2bin_error_invalid_input() -> (e: BuiltinErrorDescriptor)
    ensures
        e.code@ == "RM.DEC2BIN.INVALID_INPUT"@,
        e.identifier matches Some(i) && i@ == "RunMat:dec2bin:InvalidInput"@,
        e.message@ == "dec2bin: input must contain finite nonnegative integers"@,
{
    error_descriptor(
        "RM.DEC2BIN.INVALID_INPUT",
        "RunMat:dec2bin:InvalidInput",
        "Input is not a nonnegative, finite numeric/logical value (or exceeds 2^53).",
        "dec2bin: input must contain finite nonnegative integers",
    )
}

fn dec2bin_error_invalid_width() -> (e: BuiltinErrorDescriptor)
    ensures
        e.code@ == "RM.DEC2BIN.INVALID_WIDTH"@,
        e.identifier matches Some(i) && i@ == "RunMat:dec2bin:InvalidWidth"@,
        e.message@ == "dec2bin: invalid width argument"@,
{
    error_descriptor(
        "RM.DEC2BIN.INVALID_WIDTH",
        "RunMat:dec2bin:InvalidWidth",
        "Width argument is not a finite nonnegative numeric scalar, or too many arguments.",
        "dec2bin: invalid width argument",
    )
}

fn dec2bin_error_internal() -> (e: BuiltinErrorDescriptor)
    ensures
        e.code@ == "RM.DEC2BIN.INTERNAL"@,
        e.identifier matches Some(i) && i@ == "RunMat:dec2bin:InternalError"@,
{
    error_descriptor(
        "RM.DEC2BIN.INTERNAL",
        "RunMat:dec2bin:InternalError",
        "Internal char-array assembly failed.",
        "dec2bin: internal error",
    )
}

/// Error for an invalid `dec2bin` input, with the given message.
pub fn invalid_input(message: String) -> (e: RuntimeError)
    ensures
        e.message@ == message@,
        opt_view(e.builtin) == Some("dec2bin"@),
        opt_view(e.identifier) == Some("RunMat:dec2bin:InvalidInput"@),
{
    let d = dec2bin_error_invalid_input();
    descriptor_error_with_message(&d, message, "dec2bin")
}

/// Error for an invalid width argument, with the given message.
pub fn invalid_width(message: String) -> (e: RuntimeError)
    ensures
        e.message@ == message@,
        opt_view(e.builtin) == Some("dec2bin"@),
        opt_view(e.identifier) == Some("RunMat:dec2bin:InvalidWidth"@),
{
    let d = dec2bin_error_invalid_width();
    descriptor_error_with_message(&d, message, "dec2bin")
}

/// An error raised while gathering an argument, attributed to `dec2bin`.
pub fn remap_dec2bin_flow(err: RuntimeError) -> (e: RuntimeError)
    ensures
        e.message@ == err.message@,
        opt_view(e.identifier) == opt_view(err.identifier),
        opt_view(e.builtin) == (match err.builtin {
            Some(b) => Some(b@),
            None => Some("dec2bin"@),
        }),
{
    map_control_flow_with_builtin(err, "dec2bin")
}


/// A number as `dec2bin` reads it, once rounded (ties away from zero).
#[derive(PartialEq, Eq, Structural, Clone, Copy, Debug)]
pub enum NumberClass {
    /// Infinite or NaN.
    NotFinite,
    /// Rounds below zero.
    Negative,
    /// Rounds above 2^53, the largest exactly representable integer.
    TooLarge,
    /// Rounds to this integer.
    Whole(u64),
}

/// The message for a number that is not a usable nonnegative integer.
pub open spec fn class_message(c: NumberClass) -> Seq<char> {
    match c {
        NumberClass::NotFinite => "dec2bin: input must be finite"@,
        NumberClass::Negative => "dec2bin: input must be nonnegative"@,
        _ => "dec2bin: input exceeds the largest exactly representable integer (2^53)"@,
    }
}

/// The integer a number denotes, or the input error for it.
pub fn to_nonnegative_integer(c: NumberClass) -> (r: Result<u64, RuntimeError>)
    ensures
        match c {
            NumberClass::Whole(v) => r == Ok::<u64, RuntimeError>(v),
            _ => r matches Err(e) && e.message@ == class_message(c) && opt_view(e.identifier) == Some(
                "RunMat:dec2bin:InvalidInput"@,
            ),
        },
{
    match c {
        NumberClass::Whole(v) => Ok(v),
        NumberClass::NotFinite => Err(invalid_input(String::from_str("dec2bin: input must be finite"))),
        NumberClass::Negative => Err(invalid_input(String::from_str("dec2bin: input must be nonnegative"))),
        NumberClass::TooLarge => Err(invalid_input(
            String::from_str("dec2bin: input exceeds the largest exactly representable integer (2^53)"),
        )),
    }
}

/// The value `dec2bin` converts, as it reads it.
pub enum IntegerInput {
    /// A real double or integer scalar.
    Scalar(NumberClass),
    /// A logical scalar.
    Bool(bool),
    /// A real or logical array, element by element (column-major).
    Array(Vec<NumberClass>),
    /// Anything else, with its debug description.
    Other(String),
}

/// Index of the first element that is not a whole number, or the length.
pub open spec fn first_bad(cs: Seq<NumberClass>, n: int) -> int
    decreases n,
{
    if n <= 0 {
        0
    } else if first_bad(cs, n - 1) < n - 1 {
        first_bad(cs, n - 1)
    } else if cs[n - 1] is Whole {
        n
    } else {
        n - 1
    }
}

/// The nonnegative integers to convert, in order, or the error for the
/// first element that is not one.
#[verifier::loop_isolation(false)]
pub fn extract_nonnegative_integers(input: &IntegerInput) -> (r: Result<Vec<u64>, RuntimeError>)
    ensures
        match *input {
            IntegerInput::Scalar(c) => match c {
                NumberClass::Whole(v) => r matches Ok(vs) && vs@ == seq![v],
                _ => r matches Err(e) && e.message@ == class_message(c),
            },
            IntegerInput::Bool(b) => r matches Ok(vs) && vs@ == seq![if b { 1u64 } else { 0u64 }],
            IntegerInput::Array(cs) => {
                let k = first_bad(cs@, cs@.len() as int);
                if k < cs@.len() {
                    r matches Err(e) && e.message@ == class_message(cs@[k])
                } else {
                    r matches Ok(vs) && vs@.len() == cs@.len() && forall|i: int|
                        0 <= i < cs@.len() ==> cs@[i] == NumberClass::Whole(#[trigger] vs@[i])
                }
            },
            IntegerInput::Other(desc) => r matches Err(e) && e.message@
                == "dec2bin: input must contain finite nonnegative integers (got "@ + desc@ + ")"@,
        },
        r matches Err(e) ==> opt_view(e.identifier) == Some("RunMat:dec2bin:InvalidInput"@),
{
    match input {
        IntegerInput::Scalar(c) => match to_nonnegative_integer(*c) {
            Ok(v) => {
                let vs = vec![v];
                assert(vs@ =~= seq![v]);
                Ok(vs)
            },
            Err(e) => Err(e),
        },
        IntegerInput::Bool(b) => {
            let vs = vec![if *b { 1u64 } else { 0u64 }];
            assert(vs@ =~= seq![if *b { 1u64 } else { 0u64 }]);
            Ok(vs)
        },
        IntegerInput::Array(cs) => {
            let mut vs: Vec<u64> = Vec::new();
            let mut i: usize = 0;
            while i < cs.len()
                invariant
                    i <= cs@.len(),
                    first_bad(cs@, i as int) == i,
                    vs@.len() == i,
                    forall|j: int| 0 <= j < i ==> cs@[j] == NumberClass::Whole(#[trigger] vs@[j]),
                decreases cs@.len() - i,
            {
                match to_nonnegative_integer(cs[i]) {
                    Ok(v) => {
                        vs.push(v);
                    },
                    Err(e) => {
                        proof {
                            assert(first_bad(cs@, i + 1) == i);
                            lemma_first_bad_stays(cs@, (i + 1) as int, cs@.len() as int);
                        }
                        return Err(e);
                    },
                }
                i = i + 1;
            }
            Ok(vs)
        },
        IntegerInput::Other(desc) => {
            let mut cs = str_chars("dec2bin: input must contain finite nonnegative integers (got ");
            let d = str_chars(desc.as_str());
            push_all(&mut cs, d.as_slice());
            let t = str_chars(")");
            push_all(&mut cs, t.as_slice());
            Err(invalid_input(chars_to_string(cs.as_slice())))
        },
    }
}

proof fn lemma_first_bad_stays(cs: Seq<NumberClass>, a: int, m: int)
    requires
        1 <= a <= m,
        first_bad(cs, a) < a,
    ensures
        first_bad(cs, m) == first_bad(cs, a),
    decreases m - a,
{
    if m > a {
        lemma_first_bad_stays(cs, a, m - 1);
    }
}

/// The optional width argument as `dec2bin` reads it.
pub enum WidthArg {
    /// A real scalar: the width it rounds to when finite and nonnegative.
    Scalar(Option<usize>),
    /// Anything else.
    Other,
}

/// The requested minimum width: zero without an argument, else the one
/// width argument, or the width error.
pub fn parse_width_args(args: &Vec<WidthArg>) -> (r: Result<usize, RuntimeError>)
    ensures
        args@.len() == 0 ==> r == Ok::<usize, RuntimeError>(0usize),
        args@.len() > 1 ==> (r matches Err(e) && e.message@ == "dec2bin: too many input arguments"@),
        args@.len() == 1 ==> match args@[0] {
            WidthArg::Scalar(Some(w)) => r == Ok::<usize, RuntimeError>(w),
            _ => r matches Err(e) && e.message@ == "dec2bin: invalid width argument"@,
        },
        r matches Err(e) ==> opt_view(e.identifier) == Some("RunMat:dec2bin:InvalidWidth"@),
{
    if args.len() == 0 {
        return Ok(0);
    }
    if args.len() > 1 {
        return Err(invalid_width(String::from_str("dec2bin: too many input arguments")));
    }
    match &args[0] {
        WidthArg::Scalar(Some(w)) => Ok(*w),
        _ => Err(invalid_width(String::from_str("dec2bin: invalid width argument"))),
    }
}

/// The requested width the arguments give, if they are valid.
pub open spec fn width_of(args: Seq<WidthArg>) -> Option<usize> {
    if args.len() == 0 {
        Some(0usize)
    } else if args.len() == 1 {
        match args[0] {
            WidthArg::Scalar(Some(w)) => Some(w),
            _ => None,
        }
    } else {
        None
    }
}

/// The integers an input denotes, if every element is a whole
/// nonnegative number.
pub open spec fn integers_of(input: IntegerInput) -> Option<Seq<u64>> {
    match input {
        IntegerInput::Scalar(c) => match c {
            NumberClass::Whole(v) => Some(seq![v]),
            _ => None,
        },
        IntegerInput::Bool(b) => Some(seq![if b { 1u64 } else { 0u64 }]),
        IntegerInput::Array(cs) => if first_bad(cs@, cs@.len() as int) < cs@.len() {
            None
        } else {
            Some(Seq::new(cs@.len(), |i: int| cs@[i]->Whole_0))
        },
        IntegerInput::Other(_) => None,
    }
}

/// `dec2bin(D, n...)` on arguments already read: the width arguments are
/// checked first, then the values; the rows are the binary texts of the
/// values, zero-padded to a common width. A character array too large to
/// address is the internal error.
pub fn dec2bin(input: &IntegerInput, widths: &Vec<WidthArg>) -> (r: Result<CharArray, RuntimeError>)
    ensures
        match width_of(widths@) {
            None => r matches Err(e) && opt_view(e.identifier) == Some("RunMat:dec2bin:InvalidWidth"@),
            Some(w) => match integers_of(*input) {
                None => r matches Err(e) && opt_view(e.identifier) == Some("RunMat:dec2bin:InvalidInput"@),
                Some(vs) => if vs.len() * (if w > 64 { w as int } else { 64int }) <= usize::MAX {
                    r matches Ok(ca) && ca.wf() && (if vs.len() == 0 {
                        ca.rows == 0 && ca.cols == 0
                    } else {
                        &&& ca.rows == vs.len()
                        &&& ca.cols == row_width(vs, w as nat)
                        &&& forall|i: int| 0 <= i < vs.len() ==> #[trigger] ca.row(i) == binary_row(vs[i], ca.cols as nat)
                    })
                } else {
                    r matches Err(e) && opt_view(e.identifier) == Some("RunMat:dec2bin:InternalError"@)
                },
            },
        },
{
    let w = match parse_width_args(widths) {
        Ok(w) => w,
        Err(e) => return Err(e),
    };
    let values = match extract_nonnegative_integers(input) {
        Ok(v) => v,
        Err(e) => {
            proof {
                if let IntegerInput::Array(cs) = input {
                    assert(first_bad(cs@, cs@.len() as int) < cs@.len());
                }
            }
            return Err(e);
        },
    };
    proof {
        if let IntegerInput::Array(cs) = input {
            if first_bad(cs@, cs@.len() as int) >= cs@.len() {
                assert(values@ =~= Seq::new(cs@.len(), |i: int| cs@[i]->Whole_0));
            }
        }
    }
    let per_row: usize = if w > 64 { w } else { 64 };
    match values.len().checked_mul(per_row) {
        Some(_) => Ok(format_binary_rows(values.as_slice(), w)),
        None => Err(descriptor_error(&dec2bin_error_internal(), "dec2bin")),
    }
}

/// Descriptor of `dec2bin`.
pub fn dec2bin_descriptor() -> (d: BuiltinDescriptor)
    ensures
        d.labels() == seq!["str = dec2bin(D)"@, "str = dec2bin(D, n)"@],
        d.codes() == seq![
            "RM.DEC2BIN.INVALID_INPUT"@,
            "RM.DEC2BIN.INVALID_WIDTH"@,
            "RM.DEC2BIN.INTERNAL"@,
        ],
        d.output_mode == BuiltinOutputMode::Fixed,
{
    let output = || param(
        "str",
        BuiltinParamType::Any,
        BuiltinParamArity::Required,
        "Character array of binary digits.",
    );
    let input_d = || param(
        "D",
        BuiltinParamType::Any,
        BuiltinParamArity::Required,
        "Nonnegative integer value(s).",
    );
    let s1 = signature("str = dec2bin(D)", vec![input_d()], vec![output()]);
    let s2 = signature(
        "str = dec2bin(D, n)",
        vec![
            input_d(),
            param(
                "n",
                BuiltinParamType::IntegerScalar,
                BuiltinParamArity::Required,
                "Minimum number of binary digits (zero-pads, never truncates).",
            ),
        ],
        vec![output()],
    );
    let d = BuiltinDescriptor {
        signatures: vec![s1, s2],
        output_mode: BuiltinOutputMode::Fixed,
        completion_policy: BuiltinCompletionPolicy::Public,
        errors: vec![
            dec2bin_error_invalid_input(),
            dec2bin_error_invalid_width(),
            dec2bin_error_internal(),
        ],
    };
    assert(d.labels() =~= seq!["str = dec2bin(D)"@, "str = dec2bin(D, n)"@]);
    assert(d.codes() =~= seq![
        "RM.DEC2BIN.INVALID_INPUT"@,
        "RM.DEC2BIN.INVALID_WIDTH"@,
        "RM.DEC2BIN.INTERNAL"@,
    ]);
    d
}

} // verus!
