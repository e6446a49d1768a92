//! `etime`: elapsed time between two date vectors. The calendar part, the
//! day count of a civil date, is integer arithmetic; the seconds are
//! combined by the caller.

use vstd::prelude::*;
use crate::datestr::{
    days_from_civil_formula, days_since_epoch, is_valid_date, law_calendar_injective,
    lemma_formula_matches_calendar, trunc_div,
};
use crate::descriptor::{
    error_descriptor, param, signature, BuiltinCompletionPolicy, BuiltinDescriptor,
    BuiltinErrorDescriptor, BuiltinOutputMode, BuiltinParamArity, BuiltinParamType,
};
use crate::error::{descriptor_error_with_message, opt_view, RuntimeError};

verus! {

/// Whether `v` fits in `i64`.
pub open spec fn fits_i64(v: int) -> bool {
    i64::MIN <= v <= i64::MAX
}

/// No intermediate value of the day-count arithmetic leaves `i64` for this
/// year, month and day: the shifted year (and, when it is negative, that
/// year less 399, from which the era is taken), the month term
/// `153 * mp + 2`, the day of the year, the day of the era, the era's first
/// day and the sums that follow.
pub open spec fn civil_fits(year: int, month: int, day: int) -> bool {
    let y = if month <= 2 { year - 1 } else { year };
    let era = y / 400;
    let yoe = y - era * 400;
    let mp = if month > 2 { month - 3 } else { month + 9 };
    let offset = trunc_div(153 * mp + 2, 5);
    let doy = offset + day - 1;
    let doe = yoe * 365 + yoe / 4 - yoe / 100 + doy;
    &&& fits_i64(y)
    &&& (y < 0 ==> fits_i64(y - 399))
    &&& fits_i64(153 * mp)
    &&& fits_i64(153 * mp + 2)
    &&& fits_i64(offset + day)
    &&& fits_i64(doy)
    &&& fits_i64(doe)
    &&& fits_i64(era * 146097)
    &&& fits_i64(era * 146097 + doe)
    &&& fits_i64(era * 146097 + doe - 719468)
}

/// The day count of `days_from_civil`, or `None` where its arithmetic
/// would leave `i64`.
pub fn checked_days_from_civil(year: i64, month: i64, day: i64) -> (r: Option<i64>)
    ensures
        r is Some <==> civil_fits(year as int, month as int, day as int),
        r is Some ==> r->0 == days_from_civil_formula(year as int, month as int, day as int),
        r is Some && 1 <= month <= 12 ==> r->0 == days_since_epoch(year as int, month as int, day as int),
{
    let y = if month <= 2 {
        match year.checked_sub(1) {
            Some(v) => v,
            None => return None,
        }
    } else {
        year
    };
    if y < 0 && y.checked_sub(399).is_none() {
        return None;
    }
    let era: i64 = if y >= 0 {
        y / 400
    } else {
        let q: i64 = (-(y + 1)) / 400;
        -q - 1
    };
    assert(era == (y as int) / 400) by {
        if y < 0 {
            let q = (-(y + 1)) / 400;
            assert(q * 400 <= -(y + 1) < q * 400 + 400);
            assert(era * 400 <= y < era * 400 + 400);
        }
    }
    assert(y - 399 <= era * 400 <= y);
    let yoe = y - era * 400;
    let mp = if month > 2 { month - 3 } else { month + 9 };
    let m153 = match mp.checked_mul(153) {
        Some(v) => v,
        None => return None,
    };
    let t = match m153.checked_add(2) {
        Some(v) => v,
        None => return None,
    };
    assert(t != i64::MIN);
    let offset: i64 = if t >= 0 { t / 5 } else { -((-t) / 5) };
    assert(offset == trunc_div(t as int, 5));
    let with_day = match offset.checked_add(day) {
        Some(v) => v,
        None => return None,
    };
    let doy = match with_day.checked_sub(1) {
        Some(v) => v,
        None => return None,
    };
    let doe = match (yoe * 365 + yoe / 4 - yoe / 100).checked_add(doy) {
        Some(v) => v,
        None => return None,
    };
    let first = match era.checked_mul(146_097) {
        Some(v) => v,
        None => return None,
    };
    let total = match first.checked_add(doe) {
        Some(v) => v,
        None => return None,
    };
    let r = total.checked_sub(719_468);
    proof {
        if 1 <= month <= 12 {
            lemma_formula_matches_calendar(year as int, month as int, day as int);
        }
    }
    r
}

/// Days from 1970-01-01 to the proleptic Gregorian date `year-month-day`.
/// Months and days outside their usual ranges are not rejected; the count
/// is then the one the formula gives.
pub fn days_from_civil(year: i64, month: i64, day: i64) -> (r: i64)
    requires
        civil_fits(year as int, month as int, day as int),
    ensures
        r == days_from_civil_formula(year as int, month as int, day as int),
        1 <= month <= 12 ==> r == days_since_epoch(year as int, month as int, day as int),
{
    match checked_days_from_civil(year, month, day) {
        Some(r) => r,
        None => {
            assert(false);
            0
        },
    }
}

/// Day counts read back: the formula of `days_from_civil` applied to a
/// valid date gives that date's day count, so `days_from_civil` undoes
/// `civil_from_days`.
pub proof fn law_days_from_civil_undoes_civil_from_days(z: int, y: int, m: int, d: int)
    requires
        is_valid_date(y, m, d),
        days_since_epoch(y, m, d) == z,
    ensures
        days_from_civil_formula(y, m, d) == z,
{
    lemma_formula_matches_calendar(y, m, d);
}

/// Dates read back: a valid date whose day count is the one
/// `days_from_civil` gives for a valid date is that date, so
/// `civil_from_days` undoes `days_from_civil`.
pub proof fn law_civil_from_days_undoes_days_from_civil(
    y: int,
    m: int,
    d: int,
    y2: int,
    m2: int,
    d2: int,
)
    requires
        is_valid_date(y, m, d),
        is_valid_date(y2, m2, d2),
        days_since_epoch(y2, m2, d2) == days_from_civil_formula(y, m, d),
    ensures
        y2 == y && m2 == m && d2 == d,
{
    lemma_formula_matches_calendar(y, m, d);
    law_calendar_injective(y, m, d, y2, m2, d2);
}

fn etime_error_invalid_input() -> (e: BuiltinErrorDescriptor)
    ensures
        e.code@ == "RM.ETIME.INVALID_INPUT"@,
        e.identifier matches Some(i) && i@ == "RunMat:etime:InvalidInput"@,
        e.message@ == "etime: each argument must be a six-element date vector [Y M D H MN S]"@,
{
    error_descriptor(
        "RM.ETIME.INVALID_INPUT",
        "RunMat:etime:InvalidInput",
        "An argument is not a finite six-element date vector [Y M D H MN S].",
        "etime: each argument must be a six-element date vector [Y M D H MN S]",
    )
}

/// Error for an invalid `etime` argument, with the given message.
pub fn invalid_input(message: String) -> (e: RuntimeError)
    ensures
        e.message@ == message@,
        opt_view(e.builtin) == Some("etime"@),
        opt_view(e.identifier) == Some("RunMat:etime:InvalidInput"@),
{
    let d = etime_error_invalid_input();
    descriptor_error_with_message(&d, message, "etime")
}

/// Descriptor of `etime`.
pub fn etime_descriptor() -> (d: BuiltinDescriptor)
    ensures
        d.labels() == seq!["s = etime(t2, t1)"@],
        d.codes() == seq!["RM.ETIME.INVALID_INPUT"@],
        d.output_mode == BuiltinOutputMode::Fixed,
{
    let s = signature(
        "s = etime(t2, t1)",
        vec![
            param(
                "t2",
                BuiltinParamType::NumericArray,
                BuiltinParamArity::Required,
                "Later date vector [Y M D H MN S].",
            ),
            param(
                "t1",
                BuiltinParamType::NumericArray,
                BuiltinParamArity::Required,
                "Earlier date vector [Y M D H MN S].",
            ),
        ],
        vec![
            param(
                "s",
                BuiltinParamType::NumericScalar,
                BuiltinParamArity::Required,
                "Elapsed seconds between the two date vectors (double).",
            ),
        ],
    );
    let d = BuiltinDescriptor {
        signatures: vec![s],
        output_mode: BuiltinOutputMode::Fixed,
        completion_policy: BuiltinCompletionPolicy::Public,
        errors: vec![etime_error_invalid_input()],
    };
    assert(d.labels() =~= seq!["s = etime(t2, t1)"@]);
    assert(d.codes() =~= seq!["RM.ETIME.INVALID_INPUT"@]);
    d
}

} // verus!
