use vstd::prelude::*;
use vstd::string::StrSliceExecFns;
use std::str::FromStr;
use cron_schedule::{Schedule, TimeUnitSpec};

verus! {

// ---------------------------------------------------------------------------
// Names for what the cron parser computes
// ---------------------------------------------------------------------------

/// Whether `cron_schedule` accepts the expression: six or seven fields, each
/// in the range of its time unit, or one of the shorthands such as `@monthly`.
pub uninterp spec fn cron_expression_valid(expression: Seq<char>) -> bool;

/// What `Schedule::next_after` returns for a valid expression and the given
/// time (nanoseconds since the Unix epoch): the time of a firing after it,
/// or `None` when its search finds none.
pub uninterp spec fn cron_next_after(expression: Seq<char>, after: u64) -> Option<u64>;

/// Whether the schedule of a valid expression runs in the given year.
pub uninterp spec fn cron_includes_year(expression: Seq<char>, year: u32) -> bool;

/// Whether the schedule of a valid expression runs in the given month (1 to 12).
pub uninterp spec fn cron_includes_month(expression: Seq<char>, month: u32) -> bool;

// ---------------------------------------------------------------------------
// The inputs on which the parser and the search panic
// ---------------------------------------------------------------------------

/// The whitespace that the parser skips around numbers.
pub open spec fn is_cron_space(c: char) -> bool {
    c == ' ' || c == '\t' || c == '\r' || c == '\n'
}

pub open spec fn is_ascii_digit(c: char) -> bool {
    '0' <= c <= '9'
}

/// At position `i` stands a `/`, then whitespace up to `j`, then a run of
/// zeros from `j` up to `k` that no further digit follows: a step of zero.
pub open spec fn zero_step_at(s: Seq<char>, i: int, j: int, k: int) -> bool {
    &&& 0 <= i < j < k <= s.len()
    &&& s[i] == '/'
    &&& forall|m: int| i < m < j ==> is_cron_space(#[trigger] s[m])
    &&& forall|m: int| j <= m < k ==> #[trigger] s[m] == '0'
    &&& (k == s.len() || !is_ascii_digit(s[k]))
}

/// The expression holds a step of zero, such as `*/0`. The parser panics on
/// such a step when it reaches it; it is refused here wherever it occurs.
pub open spec fn has_zero_step(s: Seq<char>) -> bool {
    exists|i: int, j: int, k: int| zero_step_at(s, i, j, k)
}

pub open spec fn is_leap_year(year: int) -> bool {
    year % 4 == 0 && (year % 100 != 0 || year % 400 == 0)
}

pub open spec fn year_length(year: int) -> int {
    if is_leap_year(year) { 366 } else { 365 }
}

/// The year and the (zero-based) day of that year of the day that lies
/// `days` days after 1 January of `year`.
pub open spec fn year_and_day(days: nat, year: int) -> (int, int)
    decreases days,
{
    if days < year_length(year) {
        (year, days as int)
    } else {
        year_and_day((days - year_length(year)) as nat, year + 1)
    }
}

/// The second (since the Unix epoch) from which the search for the next
/// firing after `after` nanoseconds starts.
pub open spec fn search_start(after: u64) -> nat {
    ((after - after % 1_000_000) / 1_000_000_000 + 1) as nat
}

/// The search for the next firing starts on 29 February.
pub open spec fn starts_on_leap_day(after: u64) -> bool {
    let (year, day) = year_and_day(search_start(after) / 86400, 1970);
    is_leap_year(year) && day == 59
}

/// The search for the next firing after `after` panics: it starts on
/// 29 February, the schedule runs in February, and the first year from the
/// start's year on in which the schedule runs has no 29 February (the parser
/// accepts no year after 2100).
pub open spec fn next_after_panics(expression: Seq<char>, after: u64) -> bool {
    let (year, day) = year_and_day(search_start(after) / 86400, 1970);
    &&& starts_on_leap_day(after)
    &&& cron_includes_month(expression, 2)
    &&& exists|first: u32|
        year <= first <= 2100 && #[trigger] cron_includes_year(expression, first) && !is_leap_year(
            first as int,
        ) && forall|y: u32| year <= y < first ==> !cron_includes_year(expression, y)
}

// ---------------------------------------------------------------------------
// The calls into the parser
// ---------------------------------------------------------------------------

/// Calls `<cron_schedule::Schedule as FromStr>::from_str`. Claimed: it
/// succeeds exactly on the expressions that `cron_expression_valid` names.
/// A step of zero makes it panic, so such expressions are refused. What
/// makes an expression valid (the cron grammar) is left unsaid.
#[verifier::external_body]
fn schedule_parses(expression: &str) -> (res: bool)
    requires
        !has_zero_step(expression@),
    ensures
        res == cron_expression_valid(expression@),
{
    Schedule::from_str(expression).is_ok()
}

/// Calls `Schedule::next_after` on the schedule that `from_str` parses from
/// `expression`. Claimed: the result is `cron_next_after` of the expression,
/// and a firing lies strictly after `after` (the search starts at the second
/// that follows `after` and never goes below it). The inputs on which the
/// search panics (`next_after_panics`) are refused. Which times the
/// expression selects, and the calendar arithmetic, are left unsaid.
#[verifier::external_body]
fn schedule_next_after(expression: &str, after: u64) -> (res: Option<u64>)
    requires
        !has_zero_step(expression@),
        cron_expression_valid(expression@),
        !next_after_panics(expression@, after),
    ensures
        res == cron_next_after(expression@, after),
        res matches Some(t) ==> t > after,
{
    match Schedule::from_str(expression) {
        Ok(schedule) => schedule.next_after(&after),
        Err(_) => None,
    }
}

/// Calls `years().includes(year)` on the schedule that `from_str` parses
/// from `expression`. Claimed: the result is `cron_includes_year`.
#[verifier::external_body]
fn schedule_includes_year(expression: &str, year: u32) -> (res: bool)
    requires
        !has_zero_step(expression@),
        cron_expression_valid(expression@),
    ensures
        res == cron_includes_year(expression@, year),
{
    match Schedule::from_str(expression) {
        Ok(schedule) => schedule.years().includes(year),
        Err(_) => false,
    }
}

/// Calls `months().includes(month)` on the schedule that `from_str` parses
/// from `expression`. Claimed: the result is `cron_includes_month`.
#[verifier::external_body]
fn schedule_includes_month(expression: &str, month: u32) -> (res: bool)
    requires
        !has_zero_step(expression@),
        cron_expression_valid(expression@),
    ensures
        res == cron_includes_month(expression@, month),
{
    match Schedule::from_str(expression) {
        Ok(schedule) => schedule.months().includes(month),
        Err(_) => false,
    }
}

// ---------------------------------------------------------------------------
// Verified checks around the calls
// ---------------------------------------------------------------------------

fn is_space_exec(c: char) -> (res: bool)
    ensures
        res == is_cron_space(c),
{
    c == ' ' || c == '\t' || c == '\r' || c == '\n'
}

/// Whether the expression holds a step of zero (see `has_zero_step`).
pub fn contains_zero_step(expression: &str) -> (res: bool)
    ensures
        res == has_zero_step(expression@),
{
    let len = expression.unicode_len();
    let mut i: usize = 0;
    while i < len
        invariant
            len == expression@.len(),
            i <= len,
            forall|a: int, j: int, k: int| 0 <= a < i ==> !zero_step_at(expression@, a, j, k),
        decreases len - i,
    {
        if expression.get_char(i) == '/' {
            let mut j: usize = i + 1;
            while j < len && is_space_exec(expression.get_char(j))
                invariant
                    len == expression@.len(),
                    i < j <= len,
                    forall|m: int| i < m < j ==> is_cron_space(#[trigger] expression@[m]),
                decreases len - j,
            {
                j = j + 1;
            }
            let mut k: usize = j;
            while k < len && expression.get_char(k) == '0'
                invariant
                    len == expression@.len(),
                    j <= k <= len,
                    forall|m: int| j <= m < k ==> #[trigger] expression@[m] == '0',
                decreases len - k,
            {
                k = k + 1;
            }
            let mut ends = true;
            if k < len {
                let c = expression.get_char(k);
                ends = c < '0' || c > '9';
            }
            if k > j && ends {
                proof {
                    assert(zero_step_at(expression@, i as int, j as int, k as int));
                    assert(has_zero_step(expression@));
                }
                return true;
            }
            proof {
                // the whitespace run and the zero run after this `/` are unique
                assert forall|j2: int, k2: int| !zero_step_at(expression@, i as int, j2, k2) by {
                    if zero_step_at(expression@, i as int, j2, k2) {
                        if j2 < j {
                            assert(is_cron_space(expression@[j2]));
                        } else if j2 > j {
                            assert(is_cron_space(expression@[j as int]));
                            assert(expression@[j as int] != '0');
                        }
                        if k2 < k {
                            assert(expression@[k2] == '0');
                        } else if k2 > k {
                            assert(expression@[k as int] == '0');
                        }
                    }
                }
            }
        }
        i = i + 1;
    }
    false
}

fn is_leap_year_exec(year: u64) -> (res: bool)
    ensures
        res == is_leap_year(year as int),
{
    year % 4 == 0 && (year % 100 != 0 || year % 400 == 0)
}

/// The year and day of the year of a day count since 1 January 1970.
fn year_and_day_exec(days: u64) -> (res: (u64, u64))
    requires
        days <= 1_000_000,
    ensures
        res.0 as int == year_and_day(days as nat, 1970).0,
        res.1 as int == year_and_day(days as nat, 1970).1,
        res.0 <= 1970 + days,
{
    let mut year: u64 = 1970;
    let mut rest: u64 = days;
    loop
        invariant
            year_and_day(days as nat, 1970) == year_and_day(rest as nat, year as int),
            rest <= days,
            1970 <= year <= 1970 + (days - rest),
            days <= 1_000_000,
        decreases rest,
    {
        let length: u64 = if is_leap_year_exec(year) { 366 } else { 365 };
        if rest < length {
            return (year, rest);
        }
        rest = rest - length;
        year = year + 1;
    }
}

/// Whether the search for the next firing after `after` would panic (see
/// `next_after_panics`).
pub fn next_after_would_panic(expression: &str, after: u64) -> (res: bool)
    requires
        !has_zero_step(expression@),
        cron_expression_valid(expression@),
    ensures
        res == next_after_panics(expression@, after),
{
    let start: u64 = (after - after % 1_000_000) / 1_000_000_000 + 1;
    let (year, day) = year_and_day_exec(start / 86400);
    let leap_day = is_leap_year_exec(year) && day == 59;
    if !leap_day {
        return false;
    }
    if !schedule_includes_month(expression, 2) {
        return false;
    }
    let mut y: u64 = year;
    while y <= 2100
        invariant
            !has_zero_step(expression@),
            cron_expression_valid(expression@),
            year as int == year_and_day(search_start(after) / 86400, 1970).0,
            starts_on_leap_day(after),
            cron_includes_month(expression@, 2),
            year <= y,
            y <= 2101 || y == year,
            year <= 1_000_000,
            forall|z: u32| year <= z < y ==> !cron_includes_year(expression@, z),
        decreases 2101 - y,
    {
        if schedule_includes_year(expression, y as u32) {
            let res = !is_leap_year_exec(y);
            proof {
                assert(cron_includes_year(expression@, y as u32));
                if res {
                    let first = y as u32;
                    assert(year <= first <= 2100 && cron_includes_year(expression@, first)
                        && !is_leap_year(first as int) && forall|z: u32|
                        year <= z < first ==> !cron_includes_year(expression@, z));
                }
                if !res {
                    assert forall|first: u32|
                        !(year <= first <= 2100 && #[trigger] cron_includes_year(expression@, first)
                            && !is_leap_year(first as int) && forall|z: u32|
                            year <= z < first ==> !cron_includes_year(expression@, z)) by {
                        if first > y {
                            assert(year <= y as u32 && y < first);
                        }
                    }
                }
            }
            return res;
        }
        y = y + 1;
    }
    false
}

/// Whether `cron_schedule` accepts the expression; `false` for an expression
/// with a step of zero, on which the parser either fails or panics.
pub fn cron_is_valid(expression: &str) -> (res: bool)
    ensures
        res == (!has_zero_step(expression@) && cron_expression_valid(expression@)),
{
    if contains_zero_step(expression) {
        false
    } else {
        schedule_parses(expression)
    }
}

/// The first firing of the expression's schedule strictly after `after`
/// (nanoseconds since the Unix epoch); `None` when it never fires again.
pub fn cron_next(expression: &str, after: u64) -> (res: Option<u64>)
    requires
        !has_zero_step(expression@),
        cron_expression_valid(expression@),
        !next_after_panics(expression@, after),
    ensures
        res == cron_next_after(expression@, after),
        res matches Some(t) ==> t > after,
{
    schedule_next_after(expression, after)
}

} // verus!
