//! `datestr`: render a serial date number as text, on the proleptic
//! Gregorian calendar.

use vstd::prelude::*;
use crate::descriptor::{
    error_descriptor, param, param_with_default, signature, BuiltinCompletionPolicy,
    BuiltinDescriptor, BuiltinErrorDescriptor, BuiltinOutputMode, BuiltinParamArity,
    BuiltinParamType,
};
use crate::digits::{zero_pad, zero_padded};
use crate::error::{descriptor_error_with_message, opt_view, RuntimeError};
use crate::text::{chars_to_string, str_chars};
use crate::strmatch::{single_text, text_of};
use crate::value::Value;

verus! {

// ---------------------------------------------------------------------
// The calendar
// ---------------------------------------------------------------------

/// Gregorian leap year.
pub open spec fn is_leap_year(y: int) -> bool {
    (y % 4 == 0 && y % 100 != 0) || y % 400 == 0
}

/// Length of month `m` of year `y`.
pub open spec fn days_in_month(y: int, m: int) -> int {
    if m == 2 {
        if is_leap_year(y) { 29 } else { 28 }
    } else if m == 4 || m == 6 || m == 9 || m == 11 {
        30
    } else {
        31
    }
}

/// `y-m-d` names a day of the proleptic Gregorian calendar.
pub open spec fn is_valid_date(y: int, m: int, d: int) -> bool {
    1 <= m <= 12 && 1 <= d <= days_in_month(y, m)
}

/// Number of leap years in `1..=n` (counted with floor division, so the
/// count extends to years before 1 with the same step property).
pub open spec fn leap_years_through(n: int) -> int {
    n / 4 - n / 100 + n / 400
}

/// Days in the months before month `m` of a common year.
pub open spec fn cumulative_days(m: int) -> int {
    if m <= 1 { 0 } else if m == 2 { 31 } else if m == 3 { 59 } else if m == 4 { 90 }
    else if m == 5 { 120 } else if m == 6 { 151 } else if m == 7 { 181 } else if m == 8 { 212 }
    else if m == 9 { 243 } else if m == 10 { 273 } else if m == 11 { 304 } else { 334 }
}

/// Days in the months before month `m` of year `y`.
pub open spec fn days_before_month(y: int, m: int) -> int {
    cumulative_days(m) + if m > 2 && is_leap_year(y) { 1int } else { 0int }
}

/// Days from 0000-01-01 (proleptic Gregorian, year 0 a leap year) to
/// `y-m-d`.
pub open spec fn day_number(y: int, m: int, d: int) -> int {
    365 * y + leap_years_through(y - 1) + days_before_month(y, m) + d - 1
}

/// Days from 1970-01-01 to `y-m-d` (negative before it).
pub open spec fn days_since_epoch(y: int, m: int, d: int) -> int {
    day_number(y, m, d) - day_number(1970, 1, 1)
}

/// Integer division rounding toward zero.
pub open spec fn trunc_div(a: int, b: int) -> int {
    if a >= 0 { a / b } else { -((-a) / b) }
}

/// The day count that `days_from_civil` computes for any year, month and
/// day, in range or not.
pub open spec fn days_from_civil_formula(y: int, m: int, d: int) -> int {
    let yp = if m <= 2 { y - 1 } else { y };
    let era = yp / 400;
    let yoe = yp - era * 400;
    let mp = if m > 2 { m - 3 } else { m + 9 };
    let doy = trunc_div(153 * mp + 2, 5) + d - 1;
    let doe = yoe * 365 + yoe / 4 - yoe / 100 + doy;
    era * 146097 + doe - 719468
}

#[verifier::spinoff_prover]
proof fn lemma_leap_step(n: int)
    ensures
        leap_years_through(n) - leap_years_through(n - 1) == if is_leap_year(n) { 1int } else { 0int },
{
}

#[verifier::spinoff_prover]
proof fn lemma_era(yp: int, era: int, yoe: int)
    requires
        yp == era * 400 + yoe,
        0 <= yoe < 400,
    ensures
        365 * yp + leap_years_through(yp) == era * 146097 + 365 * yoe + yoe / 4 - yoe / 100,
        yp / 400 == era,
{
}

proof fn lemma_month_offset(m: int)
    requires
        1 <= m <= 12,
    ensures
        trunc_div(153 * (if m > 2 { m - 3 } else { m + 9 }) + 2, 5) == cumulative_days(m) - 59
            + if m <= 2 { 365int } else { 0int },
{
}

pub(crate) proof fn lemma_formula_matches_calendar(y: int, m: int, d: int)
    requires
        1 <= m <= 12,
    ensures
        days_from_civil_formula(y, m, d) == days_since_epoch(y, m, d),
{
    let yp = if m <= 2 { y - 1 } else { y };
    let era = yp / 400;
    let yoe = yp - era * 400;
    lemma_era(yp, era, yoe);
    lemma_leap_step(y);
    lemma_month_offset(m);
    assert(day_number(1970, 1, 1) == 719527);
}


/// Year of era of a day of a 400-year era (March-based years).
pub open spec fn yoe_of(doe: int) -> int {
    (doe - doe / 1460 + doe / 36524 - doe / 146096) / 365
}

/// First day of March-based year `yoe` of an era.
pub open spec fn year_start(yoe: int) -> int {
    365 * yoe + yoe / 4 - yoe / 100
}

/// The March-based year `yoe` (within a 400-year era) ends in a leap February.
/// March-based year `yoe` of an era ends with a 29 February.
pub open spec fn ends_in_leap_day(yoe: int) -> bool {
    (yoe + 1) % 4 == 0 && ((yoe + 1) % 100 != 0 || yoe + 1 == 400)
}

/// Length of month `mp` counted from March (0 = March, 11 = February of a
/// leap year).
pub open spec fn march_month_length(mp: int) -> int {
    if mp == 11 { 29 } else if mp == 1 || mp == 3 || mp == 6 || mp == 8 { 30 } else { 31 }
}

proof fn lemma_day_of_era(doe: u32)
    requires
        doe < 146097,
    ensures
        0 <= yoe_of(doe as int) < 400,
        year_start(yoe_of(doe as int)) <= doe,
        doe - year_start(yoe_of(doe as int)) <= 365,
        doe - year_start(yoe_of(doe as int)) == 365 ==> ends_in_leap_day(yoe_of(doe as int)),
{
    assert({
        let yoe = (doe - doe / 1460 + doe / 36524 - doe / 146096) / 365;
        let f = 365 * yoe + yoe / 4 - yoe / 100;
        &&& yoe < 400
        &&& f <= doe
        &&& doe - f <= 365
        &&& doe - f == 365 ==> ((yoe + 1) % 4 == 0 && ((yoe + 1) % 100 != 0 || yoe + 1 == 400))
    }) by (bit_vector)
        requires
            doe < 146097,
    ;
}

proof fn lemma_day_of_year(doy: u32)
    requires
        doy <= 365,
    ensures
        ({
            let mp = (5 * doy + 2) / 153;
            let off = (153 * mp + 2) / 5;
            &&& mp <= 11
            &&& off <= doy
            &&& doy - off + 1 <= march_month_length(mp)
            &&& mp == 11 && doy - off + 1 == 29 ==> doy == 365
        }),
{
    assert({
        let mp = (5 * doy + 2) / 153;
        let off = (153 * mp + 2) / 5;
        &&& mp <= 11
        &&& off <= doy
        &&& doy - off + 1 <= (if mp == 11 { 29u32 } else if mp == 1 || mp == 3 || mp == 6 || mp == 8 { 30u32 } else { 31u32 })
        &&& (mp == 11 && doy - off + 1 == 29) ==> doy == 365
    }) by (bit_vector)
        requires
            doy <= 365,
    ;
}


proof fn lemma_leap_shift(era: int, k: int)
    ensures
        is_leap_year(era * 400 + k) == is_leap_year(k),
{
}

/// Proleptic Gregorian `(year, month, day)` of the day that lies
/// `days_since_unix_epoch` days after 1970-01-01.
pub fn civil_from_days(days_since_unix_epoch: i64) -> (r: (i64, u32, u32))
    requires
        days_since_unix_epoch <= i64::MAX - 719468,
    ensures
        is_valid_date(r.0 as int, r.1 as int, r.2 as int),
        days_since_epoch(r.0 as int, r.1 as int, r.2 as int) == days_since_unix_epoch,
{
    let z = days_since_unix_epoch + 719468;
    let era: i64 = if z >= 0 { z / 146097 } else { -((-(z + 1)) / 146097) - 1 };
    let doe = z - era * 146097;
    assert(era == z / 146097 && doe == z % 146097) by {
        assert(0 <= doe < 146097);
    }
    proof {
        lemma_day_of_era(doe as u32);
    }
    let yoe = (doe - doe / 1460 + doe / 36524 - doe / 146096) / 365;
    let doy = doe - (365 * yoe + yoe / 4 - yoe / 100);
    proof {
        lemma_day_of_year(doy as u32);
    }
    let mp = (5 * doy + 2) / 153;
    let day = (doy - (153 * mp + 2) / 5 + 1) as u32;
    let month = if mp < 10 { mp + 3 } else { mp - 9 } as u32;
    let year = yoe + era * 400 + if month <= 2 { 1i64 } else { 0i64 };
    proof {
        let yp = yoe + era * 400;
        lemma_leap_shift(era as int, yoe + 1);
        lemma_formula_matches_calendar(year as int, month as int, day as int);
        lemma_era(yp as int, era as int, yoe as int);
        lemma_month_offset(month as int);
        assert(days_from_civil_formula(year as int, month as int, day as int) == z - 719468);
    }
    (year, month, day)
}


proof fn lemma_year_start_inverse(yoe: u32, doy: u32)
    requires
        yoe < 400,
        doy <= 364 || (doy == 365 && ends_in_leap_day(yoe as int)),
    ensures
        year_start(yoe as int) + doy < 146097,
        yoe_of(year_start(yoe as int) + doy) == yoe,
{
    assert((doy <= 364 || (doy == 365 && ((yoe + 1) % 4 == 0 && ((yoe + 1) % 100 != 0 || yoe
        + 1 == 400)))) ==> {
        let doe = 365 * yoe + yoe / 4 - yoe / 100 + doy;
        &&& doe < 146097
        &&& (doe - doe / 1460 + doe / 36524 - doe / 146096) / 365 == yoe
    }) by (bit_vector)
        requires
            yoe < 400,
            doy <= 365,
    ;
}

proof fn lemma_month_offset_inverse(mp: u32, day: u32)
    requires
        mp <= 11,
        1 <= day <= march_month_length(mp as int),
    ensures
        ({
            let doy = (153 * mp + 2) / 5 + day - 1;
            &&& doy <= 365
            &&& (5 * doy + 2) / 153 == mp
            &&& doy == 365 ==> mp == 11 && day == 29
            &&& mp < 11 ==> doy < 365
        }),
{
    assert({
        let doy = (153 * mp + 2) / 5 + day - 1;
        &&& doy <= 365
        &&& (5 * doy + 2) / 153 == mp
        &&& doy == 365 ==> mp == 11 && day == 29
        &&& mp < 11 ==> doy < 365
    }) by (bit_vector)
        requires
            mp <= 11,
            1 <= day,
            day <= (if mp == 11 { 29u32 } else if mp == 1 || mp == 3 || mp == 6 || mp == 8 { 30u32 } else { 31u32 }),
    ;
}

/// Decomposition of a valid date into era, day of era and March-based
/// month, as `civil_from_days` reads it back.
proof fn lemma_decompose(y: int, m: int, d: int)
    requires
        is_valid_date(y, m, d),
    ensures
        ({
            let z = days_since_epoch(y, m, d) + 719468;
            let yp = if m <= 2 { y - 1 } else { y };
            let era = yp / 400;
            let yoe = yp - era * 400;
            let mp = if m > 2 { m - 3 } else { m + 9 };
            let doe = z - era * 146097;
            &&& 0 <= doe < 146097
            &&& yoe_of(doe) == yoe
            &&& (5 * (doe - year_start(yoe)) + 2) / 153 == mp
            &&& d == doe - year_start(yoe) - (153 * mp + 2) / 5 + 1
        }),
{
    let yp = if m <= 2 { y - 1 } else { y };
    let era = yp / 400;
    let yoe = yp - era * 400;
    let mp = if m > 2 { m - 3 } else { m + 9 };
    lemma_formula_matches_calendar(y, m, d);
    lemma_era(yp, era, yoe);
    lemma_leap_shift(era, yoe + 1);
    lemma_month_offset(m);
    assert(1 <= d <= march_month_length(mp));
    lemma_month_offset_inverse(mp as u32, d as u32);
    let doy = (153 * mp + 2) / 5 + d - 1;
    lemma_year_start_inverse(yoe as u32, doy as u32);
}

/// Distinct valid dates have distinct day numbers, so a date is recovered
/// from its day count.
pub proof fn law_calendar_injective(y1: int, m1: int, d1: int, y2: int, m2: int, d2: int)
    requires
        is_valid_date(y1, m1, d1),
        is_valid_date(y2, m2, d2),
        days_since_epoch(y1, m1, d1) == days_since_epoch(y2, m2, d2),
    ensures
        y1 == y2 && m1 == m2 && d1 == d2,
{
    lemma_decompose(y1, m1, d1);
    lemma_decompose(y2, m2, d2);
    let z = days_since_epoch(y1, m1, d1) + 719468;
    let yp1 = if m1 <= 2 { y1 - 1 } else { y1 };
    let yp2 = if m2 <= 2 { y2 - 1 } else { y2 };
    let era1 = yp1 / 400;
    let era2 = yp2 / 400;
    assert(era1 == z / 146097);
    assert(era2 == z / 146097);
}



// ---------------------------------------------------------------------
// Formatting
// ---------------------------------------------------------------------

/// English three-letter abbreviation of month `m`.
pub open spec fn month_abbrev(m: int) -> Seq<char> {
    if m == 1 { seq!['J', 'a', 'n'] }
    else if m == 2 { seq!['F', 'e', 'b'] }
    else if m == 3 { seq!['M', 'a', 'r'] }
    else if m == 4 { seq!['A', 'p', 'r'] }
    else if m == 5 { seq!['M', 'a', 'y'] }
    else if m == 6 { seq!['J', 'u', 'n'] }
    else if m == 7 { seq!['J', 'u', 'l'] }
    else if m == 8 { seq!['A', 'u', 'g'] }
    else if m == 9 { seq!['S', 'e', 'p'] }
    else if m == 10 { seq!['O', 'c', 't'] }
    else if m == 11 { seq!['N', 'o', 'v'] }
    else { seq!['D', 'e', 'c'] }
}

/// Year text: four digits, zero-padded, with a leading minus sign counted
/// in the width for years before year 0.
pub open spec fn year_text(y: int) -> Seq<char> {
    if y >= 0 {
        zero_padded(y as nat, 4)
    } else {
        seq!['-'] + zero_padded((-y) as nat, 3)
    }
}

/// `f` begins with `t`.
pub open spec fn starts_with(f: Seq<char>, t: Seq<char>) -> bool {
    t.len() <= f.len() && f.take(t.len() as int) == t
}

/// Time and date fields a format is expanded against.
pub struct DateParts {
    pub year: i64,
    pub month: u32,
    pub day: u32,
    pub hour: u32,
    pub minute: u32,
    pub second: u32,
}

/// Expansion of a format against date fields: `yyyy`, `mmm`, `mm`, `dd`,
/// `HH`, `MM`, `SS` (tried in that order at each position) become the
/// year, month abbreviation, month, day, hour, minute and second; any other
/// ASCII letter makes the format invalid (`None`); other characters are
/// copied.
pub open spec fn expand_format(f: Seq<char>, p: DateParts) -> Option<Seq<char>>
    decreases f.len(),
{
    if f.len() == 0 {
        Some(Seq::empty())
    } else {
        let (piece, used) = if starts_with(f, seq!['y', 'y', 'y', 'y']) {
            (Some(year_text(p.year as int)), 4int)
        } else if starts_with(f, seq!['m', 'm', 'm']) {
            (Some(month_abbrev(p.month as int)), 3int)
        } else if starts_with(f, seq!['m', 'm']) {
            (Some(zero_padded(p.month as nat, 2)), 2int)
        } else if starts_with(f, seq!['d', 'd']) {
            (Some(zero_padded(p.day as nat, 2)), 2int)
        } else if starts_with(f, seq!['H', 'H']) {
            (Some(zero_padded(p.hour as nat, 2)), 2int)
        } else if starts_with(f, seq!['M', 'M']) {
            (Some(zero_padded(p.minute as nat, 2)), 2int)
        } else if starts_with(f, seq!['S', 'S']) {
            (Some(zero_padded(p.second as nat, 2)), 2int)
        } else if is_ascii_alpha(f[0]) {
            (None, 1int)
        } else {
            (Some(seq![f[0]]), 1int)
        };
        match piece {
            None => None,
            Some(t) => match expand_format(f.skip(used), p) {
                Some(rest) => Some(t + rest),
                None => None,
            },
        }
    }
}

/// The English three-letter month names, January first.
pub open spec fn english_month_names() -> Seq<Seq<char>> {
    seq![
        seq!['J', 'a', 'n'], seq!['F', 'e', 'b'], seq!['M', 'a', 'r'], seq!['A', 'p', 'r'],
        seq!['M', 'a', 'y'], seq!['J', 'u', 'n'], seq!['J', 'u', 'l'], seq!['A', 'u', 'g'],
        seq!['S', 'e', 'p'], seq!['O', 'c', 't'], seq!['N', 'o', 'v'], seq!['D', 'e', 'c'],
    ]
}

/// Month names in calendar order: for every month 1 to 12, the name that
/// `month_abbreviation` gives, and the text that the `mmm` token of a
/// format expands to for a date in that month, is that month's English
/// three-letter name, January first and December last.
pub proof fn law_month_names_in_calendar_order(m: u32, r: Vec<char>, p: DateParts)
    requires
        1 <= m <= 12,
        call_ensures(month_abbreviation, (m,), r),
        p.month == m,
    ensures
        r@ == english_month_names()[m - 1],
        expand_format(seq!['m', 'm', 'm'], p) == Some(english_month_names()[m - 1]),
{
    let f = seq!['m', 'm', 'm'];
    assert(starts_with(f, seq!['y', 'y', 'y', 'y']) == false);
    assert(starts_with(f, seq!['m', 'm', 'm'])) by {
        assert(f.take(3) =~= seq!['m', 'm', 'm']);
    }
    assert(f.skip(3) =~= Seq::<char>::empty());
    assert(expand_format(f.skip(3), p) == Some(Seq::<char>::empty()));
    assert(month_abbrev(m as int) + Seq::<char>::empty() =~= month_abbrev(m as int));
    assert(month_abbrev(m as int) =~= english_month_names()[m - 1]);
}

/// ASCII letter.
pub open spec fn is_ascii_alpha(c: char) -> bool {
    ('a' <= c && c <= 'z') || ('A' <= c && c <= 'Z')
}

fn has_prefix(f: &[char], at: usize, t: &[char]) -> (r: bool)
    requires
        at <= f@.len(),
    ensures
        r == starts_with(f@.skip(at as int), t@),
{
    if f.len() - at < t.len() {
        return false;
    }
    let mut k: usize = 0;
    let flen = f.len();
    while k < t.len()
        invariant
            flen == f@.len(),
            at <= f@.len(),
            at + t@.len() <= f@.len(),
            k <= t@.len(),
            forall|j: int| 0 <= j < k ==> f@[at + j] == t@[j],
        decreases t@.len() - k,
    {
        if f[at + k] != t[k] {
            assert(f@.skip(at as int).take(t@.len() as int)[k as int] != t@[k as int]);
            return false;
        }
        k = k + 1;
    }
    assert(f@.skip(at as int).take(t@.len() as int) =~= t@);
    true
}

/// The three-letter name of month `m`.
pub fn month_abbreviation(m: u32) -> (r: Vec<char>)
    ensures
        r@ == month_abbrev(m as int),
{
    let t: [char; 3] = if m == 1 { ['J', 'a', 'n'] }
        else if m == 2 { ['F', 'e', 'b'] }
        else if m == 3 { ['M', 'a', 'r'] }
        else if m == 4 { ['A', 'p', 'r'] }
        else if m == 5 { ['M', 'a', 'y'] }
        else if m == 6 { ['J', 'u', 'n'] }
        else if m == 7 { ['J', 'u', 'l'] }
        else if m == 8 { ['A', 'u', 'g'] }
        else if m == 9 { ['S', 'e', 'p'] }
        else if m == 10 { ['O', 'c', 't'] }
        else if m == 11 { ['N', 'o', 'v'] }
        else { ['D', 'e', 'c'] };
    let mut r: Vec<char> = Vec::new();
    r.push(t[0]);
    r.push(t[1]);
    r.push(t[2]);
    assert(r@ =~= month_abbrev(m as int));
    r
}

fn year_digits(y: i64) -> (r: Vec<char>)
    ensures
        r@ == year_text(y as int),
{
    if y >= 0 {
        zero_pad(y as u64, 4)
    } else {
        let magnitude: u64 = if y == i64::MIN { 9223372036854775808u64 } else { (-y) as u64 };
        let digits = zero_pad(magnitude, 3);
        let mut r: Vec<char> = Vec::new();
        r.push('-');
        let mut i: usize = 0;
        while i < digits.len()
            invariant
                i <= digits@.len(),
                r@ == seq!['-'] + digits@.subrange(0, i as int),
            decreases digits@.len() - i,
        {
            r.push(digits[i]);
            i = i + 1;
        }
        r
    }
}

fn append_chars(out: &mut Vec<char>, t: &[char])
    ensures
        final(out)@ == old(out)@ + t@,
{
    let mut i: usize = 0;
    let ghost start = out@;
    while i < t.len()
        invariant
            i <= t@.len(),
            out@ == start + t@.subrange(0, i as int),
        decreases t@.len() - i,
    {
        out.push(t[i]);
        i = i + 1;
    }
}

fn unsupported_token_message(c: char, format: &[char]) -> (r: String)
    ensures
        r@ == "datestr: unsupported format token starting at '"@ + seq![c] + "' in '"@ + format@
            + "'"@,
{
    let mut m = str_chars("datestr: unsupported format token starting at '");
    m.push(c);
    let mid = str_chars("' in '");
    append_chars(&mut m, mid.as_slice());
    append_chars(&mut m, format);
    let end = str_chars("'");
    append_chars(&mut m, end.as_slice());
    chars_to_string(m.as_slice())
}

/// Expand the format tokens of `format` against the date fields.
pub fn format_date_parts(parts: &DateParts, format: &[char]) -> (r: Result<String, RuntimeError>)
    ensures
        match expand_format(format@, *parts) {
            Some(text) => r matches Ok(s) && s@ == text,
            None => r matches Err(e) && opt_view(e.identifier) == Some(
                "RunMat:datestr:InvalidFormat"@,
            ),
        },
{
    let mut out: Vec<char> = Vec::new();
    let mut i: usize = 0;
    let n = format.len();
    let y4 = ['y', 'y', 'y', 'y'];
    let m3 = ['m', 'm', 'm'];
    let m2 = ['m', 'm'];
    let d2 = ['d', 'd'];
    let h2 = ['H', 'H'];
    let mi2 = ['M', 'M'];
    let s2 = ['S', 'S'];
    proof {
        assert(format@.skip(0) =~= format@);
    }
    while i < n
        invariant
            n == format@.len(),
            i <= n,
            y4@ == seq!['y', 'y', 'y', 'y'],
            m3@ == seq!['m', 'm', 'm'],
            m2@ == seq!['m', 'm'],
            d2@ == seq!['d', 'd'],
            h2@ == seq!['H', 'H'],
            mi2@ == seq!['M', 'M'],
            s2@ == seq!['S', 'S'],
            expand_format(format@, *parts) == match expand_format(format@.skip(i as int), *parts) {
                Some(rest) => Some(out@ + rest),
                None => None::<Seq<char>>,
            },
        decreases n - i,
    {
        let ghost f = format@.skip(i as int);
        let used: usize;
        if has_prefix(format, i, &y4) {
            let t = year_digits(parts.year);
            append_chars(&mut out, t.as_slice());
            used = 4;
        } else if has_prefix(format, i, &m3) {
            let t = month_abbreviation(parts.month);
            append_chars(&mut out, t.as_slice());
            used = 3;
        } else if has_prefix(format, i, &m2) {
            let t = zero_pad(parts.month as u64, 2);
            append_chars(&mut out, t.as_slice());
            used = 2;
        } else if has_prefix(format, i, &d2) {
            let t = zero_pad(parts.day as u64, 2);
            append_chars(&mut out, t.as_slice());
            used = 2;
        } else if has_prefix(format, i, &h2) {
            let t = zero_pad(parts.hour as u64, 2);
            append_chars(&mut out, t.as_slice());
            used = 2;
        } else if has_prefix(format, i, &mi2) {
            let t = zero_pad(parts.minute as u64, 2);
            append_chars(&mut out, t.as_slice());
            used = 2;
        } else if has_prefix(format, i, &s2) {
            let t = zero_pad(parts.second as u64, 2);
            append_chars(&mut out, t.as_slice());
            used = 2;
        } else {
            let c = format[i];
            assert(c == f[0]);
            if ('a' <= c && c <= 'z') || ('A' <= c && c <= 'Z') {
                let message = unsupported_token_message(c, format);
                let d = datestr_error_invalid_format();
                return Err(descriptor_error_with_message(&d, message, "datestr"));
            }
            out.push(c);
            used = 1;
        }
        proof {
            assert(f.skip(used as int) =~= format@.skip(i + used));
        }
        i = i + used;
    }
    proof {
        assert(format@.skip(n as int) =~= Seq::<char>::empty());
    }
    Ok(chars_to_string(out.as_slice()))
}

/// Serial day number of 1970-01-01: serial day 1 is 01-Jan-0000.
pub const UNIX_EPOCH_SERIAL_DAY: i64 = 719529;

/// Text of serial day `serial_day` at the given time of day, expanded
/// against `format`.
pub fn format_serial_day(
    serial_day: i64,
    hour: u32,
    minute: u32,
    second: u32,
    format: &[char],
) -> (r: Result<String, RuntimeError>)
    requires
        serial_day >= i64::MIN + UNIX_EPOCH_SERIAL_DAY,
    ensures
        exists|p: DateParts|
            p.hour == hour && p.minute == minute && p.second == second && is_valid_date(
                p.year as int,
                p.month as int,
                p.day as int,
            ) && days_since_epoch(p.year as int, p.month as int, p.day as int) == serial_day
                - UNIX_EPOCH_SERIAL_DAY && match expand_format(format@, p) {
                Some(text) => r matches Ok(s) && s@ == text,
                None => r matches Err(e) && opt_view(e.identifier) == Some(
                    "RunMat:datestr:InvalidFormat"@,
                ),
            },
{
    let (year, month, day) = civil_from_days(serial_day - UNIX_EPOCH_SERIAL_DAY);
    let parts = DateParts { year, month, day, hour, minute, second };
    let r = format_date_parts(&parts, format);
    proof {
        assert(parts.hour == hour && parts.minute == minute && parts.second == second);
    }
    r
}


/// The time of day of a serial date: its whole day and the rounded seconds
/// into that day. A count of seconds that rounds up to a full day moves to
/// midnight of the next day. Returns the day, hour, minute and second.
pub fn split_day_seconds(day: i64, seconds: i64) -> (r: (i64, u32, u32, u32))
    requires
        0 <= seconds <= 86400,
        day < i64::MAX,
    ensures
        seconds < 86400 ==> r == (day, (seconds / 3600) as u32, ((seconds % 3600) / 60) as u32, (seconds % 60) as u32),
        seconds == 86400 ==> r == ((day + 1) as i64, 0u32, 0u32, 0u32),
{
    if seconds >= 86400 {
        return (day + 1, 0, 0, 0);
    }
    let hour = (seconds / 3600) as u32;
    let minute = ((seconds % 3600) / 60) as u32;
    let second = (seconds % 60) as u32;
    (day, hour, minute, second)
}

/// The output format: a character vector, a string or a one-element string
/// array.
pub fn format_text(value: &Value) -> (r: Result<Vec<char>, RuntimeError>)
    ensures
        match single_text(*value) {
            Some(t) => r matches Ok(f) && f@ == t,
            None => r matches Err(e) && e.message@ == "datestr: formatOut must be a character vector or string scalar"@
                && opt_view(e.identifier) == Some("RunMat:datestr:InvalidFormat"@),
        },
{
    match text_of(value) {
        Some(t) => Ok(t),
        None => Err(invalid_format(String::from_str("datestr: formatOut must be a character vector or string scalar"))),
    }
}

/// The format `datestr` applies when none is given.
pub const DEFAULT_FORMAT: &'static str = "dd-mmm-yyyy";

/// `datestr` takes one or two arguments.
pub fn check_arg_count(n: usize) -> (r: Result<(), RuntimeError>)
    ensures
        1 <= n <= 2 ==> r is Ok,
        !(1 <= n <= 2) ==> (r matches Err(e) && e.message@ == "datestr: expected datestr(t) or datestr(t, formatOut)"@
            && opt_view(e.identifier) == Some("RunMat:datestr:InvalidInput"@)),
{
    if n == 0 || n > 2 {
        Err(invalid_input(String::from_str("datestr: expected datestr(t) or datestr(t, formatOut)")))
    } else {
        Ok(())
    }
}

/// The output format: the second argument's text when there is one, else
/// the default format.
pub fn output_format(arg: Option<&Value>) -> (r: Result<Vec<char>, RuntimeError>)
    ensures
        match arg {
            None => r matches Ok(f) && f@ == DEFAULT_FORMAT@,
            Some(v) => match single_text(*v) {
                Some(t) => r matches Ok(f) && f@ == t,
                None => r matches Err(e) && opt_view(e.identifier) == Some("RunMat:datestr:InvalidFormat"@),
            },
        },
{
    match arg {
        None => Ok(str_chars(DEFAULT_FORMAT)),
        Some(v) => format_text(v),
    }
}

// ---------------------------------------------------------------------
// Errors and descriptor
// ---------------------------------------------------------------------

fn datestr_error_invalid_input() -> (e: BuiltinErrorDescriptor)
    ensures
        e.code@ == "RM.DATESTR.INVALID_INPUT"@,
        e.identifier matches Some(i) && i@ == "RunMat:datestr:InvalidInput"@,
        e.message@ == "datestr: input must be a finite numeric scalar serial date number"@,
{
    error_descriptor(
        "RM.DATESTR.INVALID_INPUT",
        "RunMat:datestr:InvalidInput",
        "The date input is not a finite numeric scalar serial date number.",
        "datestr: input must be a finite numeric scalar serial date number",
    )
}

fn datestr_error_invalid_format() -> (e: BuiltinErrorDescriptor)
    ensures
        e.code@ == "RM.DATESTR.INVALID_FORMAT"@,
        e.identifier matches Some(i) && i@ == "RunMat:datestr:InvalidFormat"@,
        e.message@ == "datestr: unsupported output format"@,
{
    error_descriptor(
        "RM.DATESTR.INVALID_FORMAT",
        "RunMat:datestr:InvalidFormat",
        "The format argument is not text or contains an unsupported token.",
        "datestr: unsupported output format",
    )
}

/// Error for an invalid date input or argument count, with the given
/// message.
pub fn invalid_input(message: String) -> (e: RuntimeError)
    ensures
        e.message@ == message@,
        opt_view(e.builtin) == Some("datestr"@),
        opt_view(e.identifier) == Some("RunMat:datestr:InvalidInput"@),
{
    let d = datestr_error_invalid_input();
    descriptor_error_with_message(&d, message, "datestr")
}

/// Error for an invalid format argument, with the given message.
pub fn invalid_format(message: String) -> (e: RuntimeError)
    ensures
        e.message@ == message@,
        opt_view(e.builtin) == Some("datestr"@),
        opt_view(e.identifier) == Some("RunMat:datestr:InvalidFormat"@),
{
    let d = datestr_error_invalid_format();
    descriptor_error_with_message(&d, message, "datestr")
}

/// Descriptor of `datestr`.
pub fn datestr_descriptor() -> (d: BuiltinDescriptor)
    ensures
        d.labels() == seq!["s = datestr(t)"@, "s = datestr(t, formatOut)"@],
        d.codes() == seq!["RM.DATESTR.INVALID_INPUT"@, "RM.DATESTR.INVALID_FORMAT"@],
        d.output_mode == BuiltinOutputMode::Fixed,
{
    let output = || param(
        "s",
        BuiltinParamType::StringScalar,
        BuiltinParamArity::Required,
        "Character row vector representation of the date.",
    );
    let t = || param(
        "t",
        BuiltinParamType::NumericScalar,
        BuiltinParamArity::Required,
        "Serial date number (scalar).",
    );
    let s1 = signature("s = datestr(t)", vec![t()], vec![output()]);
    let s2 = signature(
        "s = datestr(t, formatOut)",
        vec![
            t(),
            param_with_default(
                "formatOut",
                BuiltinParamType::StringScalar,
                BuiltinParamArity::Optional,
                "dd-mmm-yyyy",
                "Output format tokens (yyyy, mm, dd, mmm, HH, MM, SS).",
            ),
        ],
        vec![output()],
    );
    let d = BuiltinDescriptor {
        signatures: vec![s1, s2],
        output_mode: BuiltinOutputMode::Fixed,
        completion_policy: BuiltinCompletionPolicy::Public,
        errors: vec![datestr_error_invalid_input(), datestr_error_invalid_format()],
    };
    assert(d.labels() =~= seq!["s = datestr(t)"@, "s = datestr(t, formatOut)"@]);
    assert(d.codes() =~= seq!["RM.DATESTR.INVALID_INPUT"@, "RM.DATESTR.INVALID_FORMAT"@]);
    d
}

} // verus!
