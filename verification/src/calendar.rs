//! Proleptic Gregorian calendar arithmetic: day numbers relative to
//! 1970-01-01, weekdays, month lengths and shifted months.
use vstd::prelude::*;

verus! {

/// Leap years of the Gregorian calendar.
pub open spec fn is_leap_year(year: int) -> bool {
    year % 4 == 0 && (year % 100 != 0 || year % 400 == 0)
}

/// Number of days in `month` of `year`; 0 for a month outside 1..=12.
pub open spec fn month_length(year: int, month: int) -> int {
    if month == 1 || month == 3 || month == 5 || month == 7 || month == 8 || month == 10 || month == 12 {
        31
    } else if month == 4 || month == 6 || month == 9 || month == 11 {
        30
    } else if month == 2 {
        if is_leap_year(year) { 29 } else { 28 }
    } else {
        0
    }
}

pub open spec fn is_valid_date(year: int, month: int, day: int) -> bool {
    1 <= month <= 12 && 1 <= day <= month_length(year, month)
}

/// The calendar day that follows the given one.
pub open spec fn next_date(year: int, month: int, day: int) -> (int, int, int) {
    if day < month_length(year, month) {
        (year, month, day + 1)
    } else if month < 12 {
        (year, month + 1, 1)
    } else {
        (year + 1, 1, 1)
    }
}

/// Day of a March-based year (0 = March 1st) on which the month with
/// March-based index `am` starts.
pub open spec fn month_start(am: int) -> int {
    (153 * am + 2) / 5
}

/// Day of a 400-year cycle (starting March 1st of year 0 of the cycle) on
/// which the March-based year `yoe` of the cycle starts.
pub open spec fn year_start(yoe: int) -> int {
    365 * yoe + yoe / 4 - yoe / 100
}

/// Day on which year `yoe` of the cycle ends (exclusive).
pub open spec fn year_end(yoe: int) -> int {
    if yoe == 399 { 146097 } else { year_start(yoe + 1) }
}

/// Number of the day `year-month-day`, counted from 1970-01-01 (day 0).
pub open spec fn day_number(year: int, month: int, day: int) -> int {
    let y = if month <= 2 { year - 1 } else { year };
    let era = y / 400;
    let yoe = y - era * 400;
    let am = if month > 2 { month - 3 } else { month + 9 };
    let doy = month_start(am) + day - 1;
    era * 146097 + year_start(yoe) + doy - 719468
}

/// The calendar date of day number `n` (day 0 is 1970-01-01).
pub open spec fn date_of_day(n: int) -> (int, int, int) {
    let z = n + 719468;
    let era = z / 146097;
    let doe = z - era * 146097;
    let yoe = (doe - doe / 1460 + doe / 36524 - doe / 146096) / 365;
    let doy = doe - year_start(yoe);
    let mp = (5 * doy + 2) / 153;
    let day = doy - month_start(mp) + 1;
    let month = if mp < 10 { mp + 3 } else { mp - 9 };
    let year = yoe + era * 400 + if month <= 2 { 1int } else { 0int };
    (year, month, day)
}

/// Weekday of day number `n`: 0 is Sunday, 1970-01-01 was a Thursday (4).
pub open spec fn weekday_of_day(n: int) -> int {
    (n + 4) % 7
}

/// Japanese name of weekday `w` (0 = Sunday).
pub open spec fn weekday_name_of(w: int) -> Seq<char> {
    if w == 0 {
        "日"@
    } else if w == 1 {
        "月"@
    } else if w == 2 {
        "火"@
    } else if w == 3 {
        "水"@
    } else if w == 4 {
        "木"@
    } else if w == 5 {
        "金"@
    } else {
        "土"@
    }
}

proof fn lemma_year_of_era_bv(doe: u32)
    by (bit_vector)
    requires
        doe < 146097,
    ensures
        ({
            let y = (doe - doe / 1460 + doe / 36524 - doe / 146096) / 365;
            &&& y <= 399
            &&& 365 * y + y / 4 - y / 100 <= doe
            &&& (y < 399 ==> doe < 365 * (y + 1) + (y + 1) / 4 - (y + 1) / 100)
        }),
{
}

proof fn lemma_year_start_monotonic_bv(a: u32, b: u32)
    by (bit_vector)
    requires
        a <= b,
        b <= 400,
    ensures
        365 * a + a / 4 - a / 100 <= 365 * b + b / 4 - b / 100,
{
}

proof fn lemma_year_length_bv(yoe: u32)
    by (bit_vector)
    requires
        yoe < 399,
    ensures
        (365 * (yoe + 1) + (yoe + 1) / 4 - (yoe + 1) / 100) - (365 * yoe + yoe / 4 - yoe / 100) == 365
            + if (yoe + 1) % 4 == 0 && (yoe + 1) % 100 != 0 { 1int } else { 0int },
{
}

proof fn lemma_month_of_year_bv(doy: u32)
    by (bit_vector)
    requires
        doy < 366,
    ensures
        ({
            let mp = (5 * doy + 2) / 153;
            &&& mp <= 11
            &&& (153 * mp + 2) / 5 <= doy
            &&& (mp < 11 ==> doy < (153 * (mp + 1) + 2) / 5)
        }),
{
}

/// Facts about the start of each year of a cycle, as an `int` statement.
proof fn lemma_year_of_era(doe: int)
    requires
        0 <= doe < 146097,
    ensures
        ({
            let y = (doe - doe / 1460 + doe / 36524 - doe / 146096) / 365;
            &&& 0 <= y <= 399
            &&& year_start(y) <= doe < year_end(y)
        }),
{
    lemma_year_of_era_bv(doe as u32);
}

proof fn lemma_year_start_monotonic(a: int, b: int)
    requires
        0 <= a <= b <= 400,
    ensures
        year_start(a) <= year_start(b),
{
    lemma_year_start_monotonic_bv(a as u32, b as u32);
}

/// Length of each year of a cycle, and its relation to leap years.
proof fn lemma_year_length(era: int, yoe: int)
    requires
        0 <= yoe <= 399,
    ensures
        year_end(yoe) - year_start(yoe) == 365 + if is_leap_year(era * 400 + yoe + 1) { 1int } else { 0int },
        year_start(yoe) < year_end(yoe),
        year_end(yoe) <= 146097,
{
    let y = era * 400 + yoe + 1;
    assert(y % 4 == (yoe + 1) % 4);
    assert(y % 100 == (yoe + 1) % 100);
    assert(y % 400 == (yoe + 1) % 400);
    if yoe < 399 {
        lemma_year_length_bv(yoe as u32);
        lemma_year_start_monotonic(yoe + 1, 399);
        assert(year_start(399) == 145731);
    } else {
        assert(year_start(399) == 145731);
    }
}

/// The year of a cycle that contains day `doe` of the cycle is unique.
proof fn lemma_year_unique(doe: int, yoe: int)
    requires
        0 <= yoe <= 399,
        year_start(yoe) <= doe < year_end(yoe),
    ensures
        (doe - doe / 1460 + doe / 36524 - doe / 146096) / 365 == yoe,
{
    lemma_year_length(0, yoe);
    let y = (doe - doe / 1460 + doe / 36524 - doe / 146096) / 365;
    lemma_year_of_era(doe);
    if y < yoe {
        lemma_year_start_monotonic(y + 1, yoe);
    } else if y > yoe {
        lemma_year_start_monotonic(yoe + 1, y);
    }
}

/// Month boundaries within a March-based year.
proof fn lemma_month_of_year(doy: int)
    requires
        0 <= doy < 366,
    ensures
        ({
            let mp = (5 * doy + 2) / 153;
            &&& 0 <= mp <= 11
            &&& month_start(mp) <= doy
            &&& (mp < 11 ==> doy < month_start(mp + 1))
        }),
{
    lemma_month_of_year_bv(doy as u32);
}

/// Lengths of the months of a March-based year (index 0 is March).
proof fn lemma_month_starts()
    ensures
        month_start(0) == 0,
        month_start(1) == 31,
        month_start(2) == 61,
        month_start(3) == 92,
        month_start(4) == 122,
        month_start(5) == 153,
        month_start(6) == 184,
        month_start(7) == 214,
        month_start(8) == 245,
        month_start(9) == 275,
        month_start(10) == 306,
        month_start(11) == 337,
        month_start(12) == 367,
{
}

/// Day-of-year index `am` recovers the month and the day.
proof fn lemma_month_unique(am: int, doy: int)
    requires
        0 <= am <= 11,
        month_start(am) <= doy,
        doy < month_start(am + 1),
        doy < 366,
    ensures
        (5 * doy + 2) / 153 == am,
{
    lemma_month_of_year(doy);
    lemma_month_starts();
    let mp = (5 * doy + 2) / 153;
    assert(mp == am) by {
        if mp < am {
            assert(month_start(mp + 1) <= month_start(am));
        } else if mp > am {
            assert(month_start(am + 1) <= month_start(mp));
        }
    }
}

/// Quotient and remainder are determined by `x == q * d + r`.
proof fn lemma_div_unique(x: int, d: int, q: int, r: int)
    requires
        d > 0,
        0 <= r < d,
        x == q * d + r,
    ensures
        x / d == q,
        x % d == r,
{
    vstd::arithmetic::div_mod::lemma_fundamental_div_mod_converse(x, d, q, r);
}

/// Day number `n` split into its 400-year cycle, year of the cycle and day
/// of the March-based year, with the bounds that hold of them.
proof fn lemma_date_of_day_parts(n: int)
    ensures
        ({
            let z = n + 719468;
            let era = z / 146097;
            let doe = z - era * 146097;
            let yoe = (doe - doe / 1460 + doe / 36524 - doe / 146096) / 365;
            let doy = doe - year_start(yoe);
            let mp = (5 * doy + 2) / 153;
            &&& 0 <= doe < 146097
            &&& 0 <= yoe <= 399
            &&& year_start(yoe) <= doe < year_end(yoe)
            &&& 0 <= doy < year_end(yoe) - year_start(yoe)
            &&& 0 <= mp <= 11
            &&& month_start(mp) <= doy
            &&& (mp < 11 ==> doy < month_start(mp + 1))
        }),
{
    let z = n + 719468;
    let era = z / 146097;
    let doe = z - era * 146097;
    lemma_year_of_era(doe);
    let yoe = (doe - doe / 1460 + doe / 36524 - doe / 146096) / 365;
    lemma_year_length(era, yoe);
    let doy = doe - year_start(yoe);
    lemma_month_of_year(doy);
}

/// Every day number names a valid date, whose day number is that number.
pub proof fn lemma_day_number_of_date(n: int)
    ensures
        is_valid_date(date_of_day(n).0, date_of_day(n).1, date_of_day(n).2),
        day_number(date_of_day(n).0, date_of_day(n).1, date_of_day(n).2) == n,
{
    let z = n + 719468;
    let era = z / 146097;
    let doe = z - era * 146097;
    let yoe = (doe - doe / 1460 + doe / 36524 - doe / 146096) / 365;
    let doy = doe - year_start(yoe);
    let mp = (5 * doy + 2) / 153;
    lemma_date_of_day_parts(n);
    lemma_year_length(era, yoe);
    lemma_month_starts();
    let (year, month, day) = date_of_day(n);
    assert(month == if mp < 10 { mp + 3 } else { mp - 9 });
    assert(day == doy - month_start(mp) + 1);
    let y = if month <= 2 { year - 1 } else { year };
    assert(y == era * 400 + yoe);
    lemma_div_unique(y, 400, era, yoe);
    if month == 2 {
        assert(year == era * 400 + yoe + 1);
    }
    assert(is_valid_date(year, month, day));
    let am = if month > 2 { month - 3 } else { month + 9 };
    assert(am == mp);
}

/// Every valid date is the date of its day number.
pub proof fn lemma_date_of_day_number(year: int, month: int, day: int)
    requires
        is_valid_date(year, month, day),
    ensures
        date_of_day(day_number(year, month, day)) == (year, month, day),
{
    let y = if month <= 2 { year - 1 } else { year };
    let era = y / 400;
    let yoe = y - era * 400;
    let am = if month > 2 { month - 3 } else { month + 9 };
    let doy = month_start(am) + day - 1;
    lemma_month_starts();
    lemma_year_length(era, yoe);
    assert(0 <= yoe < 400);
    if month == 2 {
        assert(year == era * 400 + yoe + 1);
    }
    assert(0 <= doy < year_end(yoe) - year_start(yoe));
    let doe = year_start(yoe) + doy;
    lemma_year_unique(doe, yoe);
    lemma_month_unique(am, doy);
    let n = day_number(year, month, day);
    let z = n + 719468;
    assert(z == era * 146097 + doe);
    lemma_div_unique(z, 146097, era, doe);
    let (year2, month2, day2) = date_of_day(n);
    assert(month2 == month);
    assert(day2 == day);
    assert(year2 == year);
}

/// The last day of February is followed by March 1st.
proof fn lemma_march_first(year: int)
    ensures
        day_number(year, 3, 1) == day_number(year, 2, month_length(year, 2)) + 1,
{
    let y = year - 1;
    let era = y / 400;
    let yoe = y - era * 400;
    lemma_month_starts();
    lemma_year_length(era, yoe);
    assert(year == era * 400 + yoe + 1);
    if yoe < 399 {
        lemma_div_unique(year, 400, era, yoe + 1);
    } else {
        lemma_div_unique(year, 400, era + 1, 0);
        assert(year_start(399) == 145731);
    }
}

/// Consecutive days have consecutive day numbers.
pub proof fn lemma_next_date_number(year: int, month: int, day: int)
    requires
        is_valid_date(year, month, day),
    ensures
        is_valid_date(next_date(year, month, day).0, next_date(year, month, day).1, next_date(year, month, day).2),
        day_number(next_date(year, month, day).0, next_date(year, month, day).1, next_date(year, month, day).2)
            == day_number(year, month, day) + 1,
{
    lemma_month_starts();
    if day < month_length(year, month) {
    } else if month == 2 {
        lemma_march_first(year);
    } else if month < 12 {
    } else {
        let era = year / 400;
        assert(((year + 1) - 1) / 400 == era);
    }
}

/// Day 0 is 1970-01-01.
pub proof fn lemma_epoch()
    ensures
        day_number(1970, 1, 1) == 0,
        weekday_of_day(0) == 4,
{
    assert(year_start(369) == 134774);
    assert(month_start(10) == 306);
}

/// Shifting a date by one day gives the next calendar day.
pub proof fn lemma_shift_one_day(year: int, month: int, day: int)
    requires
        is_valid_date(year, month, day),
    ensures
        date_of_day(day_number(year, month, day) + 1) == next_date(year, month, day),
{
    lemma_next_date_number(year, month, day);
    let (ny, nm, nd) = next_date(year, month, day);
    lemma_date_of_day_number(ny, nm, nd);
}

/// Consecutive day numbers have consecutive weekdays.
pub proof fn lemma_weekday_advances(n: int)
    ensures
        weekday_of_day(n + 1) == (weekday_of_day(n) + 1) % 7,
        0 <= weekday_of_day(n) < 7,
{
}

/// Floor division by a positive divisor.
fn div_floor(a: i64, b: i64) -> (q: i64)
    requires
        b > 0,
    ensures
        q == a as int / b as int,
{
    proof {
        let (x, d) = (a as int, b as int);
        assert(i64::MIN <= x / d <= i64::MAX) by (nonlinear_arith)
            requires
                d > 0,
                i64::MIN <= x <= i64::MAX,
        ;
    }
    match a.checked_div_euclid(b) {
        Some(q) => q,
        None => 0,
    }
}

/// Number of days in `month` of `year` (0 for a month outside 1..=12).
#[verifier::rlimit(40)]
pub fn days_in_month(year: i32, month: u32) -> (r: u32)
    ensures
        r == month_length(year as int, month as int),
{
    if month == 1 || month == 3 || month == 5 || month == 7 || month == 8 || month == 10 || month == 12 {
        31
    } else if month == 4 || month == 6 || month == 9 || month == 11 {
        30
    } else if month == 2 {
        let y = year as i64;
        let r4 = y - div_floor(y, 4) * 4;
        let r100 = y - div_floor(y, 100) * 100;
        let r400 = y - div_floor(y, 400) * 400;
        if r400 == 0 || (r4 == 0 && r100 != 0) {
            29
        } else {
            28
        }
    } else {
        0
    }
}

/// Whether the year before January and February of `year` can be taken in
/// an `i32`, as the day number of such a date takes it.
pub open spec fn year_before_fits(year: int, month: int) -> bool {
    !(year == i32::MIN && month <= 2)
}

/// Day number of `year-month-day` counted from 1970-01-01; any month and
/// day are taken by the same formula.
pub fn days_from_civil(year: i32, month: u32, day: u32) -> (r: i64)
    requires
        year_before_fits(year as int, month as int),
    ensures
        r == day_number(year as int, month as int, day as int),
        -1_000_000_000_000 <= r <= 1_000_000_000_000,
{
    let y: i64 = if month <= 2 { year as i64 - 1 } else { year as i64 };
    let era = div_floor(y, 400);
    let year_of_era = y - era * 400;
    let m: i64 = month as i64;
    let adjusted_month: i64 = if m > 2 { m - 3 } else { m + 9 };
    let day_of_year = (153 * adjusted_month + 2) / 5 + day as i64 - 1;
    proof {
        assert(-5_368_710 <= era <= 5_368_710) by (nonlinear_arith)
            requires
                era == y / 400,
                -2_147_483_649 <= y <= 2_147_483_647,
        ;
        assert(-1 <= day_of_year <= 140_000_000_000) by (nonlinear_arith)
            requires
                0 <= adjusted_month <= 4_294_967_304,
                day_of_year == (153 * adjusted_month + 2) / 5 + day - 1,
                0 <= day <= 4_294_967_295,
        ;
    }
    era * 146097 + year_of_era * 365 + year_of_era / 4 - year_of_era / 100 + day_of_year - 719468
}

/// Calendar date of day number `days` (day 0 is 1970-01-01), the year
/// truncated to an `i32`.
pub fn civil_from_days(days: i64) -> (r: (i32, u32, u32))
    requires
        days <= i64::MAX - 719468,
    ensures
        r.0 == date_of_day(days as int).0 as i32,
        r.1 as int == date_of_day(days as int).1,
        r.2 as int == date_of_day(days as int).2,
{
    proof {
        lemma_date_of_day_parts(days as int);
    }
    let z = days + 719468;
    let era = div_floor(z, 146097);
    let day_of_era = z - era * 146097;
    let year_of_era = (day_of_era - day_of_era / 1460 + day_of_era / 36524 - day_of_era / 146096) / 365;
    let day_of_year = day_of_era - (365 * year_of_era + year_of_era / 4 - year_of_era / 100);
    let month_prime = (5 * day_of_year + 2) / 153;
    let day = day_of_year - (153 * month_prime + 2) / 5 + 1;
    let month = if month_prime < 10 { month_prime + 3 } else { month_prime - 9 };
    let year = year_of_era + era * 400 + if month <= 2 { 1 } else { 0 };
    (year as i32, month as u32, day as u32)
}

/// Date `diff` days after `year-month-day` (before it for a negative `diff`),
/// the year truncated to an `i32`.
pub fn shifted_date(year: i32, month: u32, day: u32, diff: i32) -> (r: (i32, u32, u32))
    requires
        year_before_fits(year as int, month as int),
    ensures
        r.0 == date_of_day(day_number(year as int, month as int, day as int) + diff).0 as i32,
        r.1 as int == date_of_day(day_number(year as int, month as int, day as int) + diff).1,
        r.2 as int == date_of_day(day_number(year as int, month as int, day as int) + diff).2,
{
    let days = days_from_civil(year, month, day);
    civil_from_days(days + diff as i64)
}

/// Weekday of `year-month-day`: 0 is Sunday, 6 is Saturday.
pub fn weekday_for(year: i32, month: u32, day: u32) -> (r: u8)
    requires
        year_before_fits(year as int, month as int),
    ensures
        r == weekday_of_day(day_number(year as int, month as int, day as int)),
        r < 7,
{
    let days = days_from_civil(year, month, day) + 4;
    let w = days - div_floor(days, 7) * 7;
    w as u8
}

/// Japanese name of a weekday (0 is Sunday).
pub fn weekday_name(weekday: u8) -> (r: &'static str)
    requires
        weekday < 7,
    ensures
        r@ == weekday_name_of(weekday as int),
{
    if weekday == 0 {
        "日"
    } else if weekday == 1 {
        "月"
    } else if weekday == 2 {
        "火"
    } else if weekday == 3 {
        "水"
    } else if weekday == 4 {
        "木"
    } else if weekday == 5 {
        "金"
    } else {
        "土"
    }
}

/// Whether the month count `year * 12 + month - 1 + diff` (the month taken
/// as an `i32`) can be computed step by step in an `i32`.
pub open spec fn month_count_fits(year: int, month: u32, diff: int) -> bool {
    let m = (month as i32) as int;
    &&& i32::MIN <= year * 12 <= i32::MAX
    &&& i32::MIN <= year * 12 + m <= i32::MAX
    &&& i32::MIN <= year * 12 + m - 1 <= i32::MAX
    &&& i32::MIN <= year * 12 + m - 1 + diff <= i32::MAX
}

/// Year and month `diff` months after `year-month`, the month taken as an
/// `i32`.
pub fn shifted_month(year: i32, month: u32, diff: i32) -> (r: (i32, u32))
    requires
        month_count_fits(year as int, month, diff as int),
    ensures
        1 <= r.1 <= 12,
        r.0 * 12 + r.1 - 1 == year * 12 + (month as i32) - 1 + diff,
{
    let total: i64 = year as i64 * 12 + (month as i32) as i64 - 1 + diff as i64;
    let y = div_floor(total, 12);
    let m = total - y * 12 + 1;
    (y as i32, m as u32)
}

} // verus!
