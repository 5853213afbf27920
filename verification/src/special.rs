//! Special conversion candidates in the manner of Mozc: dates relative to
//! the local date, four-digit dates and times, Japanese era years, results of
//! arithmetic, Unicode code points, the version string, emoticons and
//! corrections of common misreadings.
use vstd::prelude::*;

use crate::calendar::{
    date_of_day, day_number, is_valid_date, lemma_date_of_day_number, lemma_day_number_of_date, lemma_next_date_number,
    lemma_shift_one_day, month_count_fits, month_length, next_date, shifted_date, shifted_month, weekday_for,
    weekday_name, weekday_name_of, weekday_of_day, year_before_fits,
};
use crate::era::{era_candidates, era_names};
use crate::expression::{parse_complete, Expr, ExprView, ExpressionParser};
use crate::text::{
    chars_of, decimal, padded, push_chars, push_decimal, push_padded, push_signed_padded, push_str, signed_decimal,
    signed_padded, str_eq, string_of, views,
};

verus! {

/// A calendar date and clock time in the local time zone, as the clock
/// reports it (nothing checks that the fields form a valid date).
#[derive(Debug, Clone, Copy, PartialEq, Eq)]
pub struct LocalDateTime {
    year: i32,
    month: u32,
    day: u32,
    hour: u32,
    minute: u32,
    weekday: u8,
}

/// The abstract form of a [`LocalDateTime`].
pub struct LocalDateTimeView {
    pub year: int,
    pub month: int,
    pub day: int,
    pub hour: int,
    pub minute: int,
    pub weekday: int,
}

/// Years whose neighbouring months can be counted in an `i32`.
pub open spec fn year_in_range(year: int) -> bool {
    i32::MIN <= year * 12 - 3 && year * 12 + 13 <= i32::MAX
}

impl LocalDateTimeView {
    /// A valid calendar date whose neighbouring months can be counted in an
    /// `i32`.
    pub open spec fn wf(self) -> bool {
        &&& is_valid_date(self.year, self.month, self.day)
        &&& year_in_range(self.year)
    }

    /// Day number of the date (day 0 is 1970-01-01).
    pub open spec fn day_number(self) -> int {
        day_number(self.year, self.month, self.day)
    }
}

impl View for LocalDateTime {
    type V = LocalDateTimeView;

    closed spec fn view(&self) -> LocalDateTimeView {
        LocalDateTimeView {
            year: self.year as int,
            month: self.month as int,
            day: self.day as int,
            hour: self.hour as int,
            minute: self.minute as int,
            weekday: self.weekday as int,
        }
    }
}

impl LocalDateTime {
    /// The local date and time with the given fields; `weekday` counts from
    /// Sunday (0).
    pub fn new(year: i32, month: u32, day: u32, hour: u32, minute: u32, weekday: u8) -> (t: LocalDateTime)
        ensures
            t@ == (LocalDateTimeView {
                year: year as int,
                month: month as int,
                day: day as int,
                hour: hour as int,
                minute: minute as int,
                weekday: weekday as int,
            }),
    {
        LocalDateTime { year, month, day, hour, minute, weekday }
    }
}

/// Bound on how far the year moves when a date moves by `k` days.
proof fn lemma_year_drift(n: int, k: int)
    ensures
        date_of_day(n).0 - (if k >= 0 { k } else { -k }) <= date_of_day(n + k).0 <= date_of_day(n).0 + (if k
            >= 0 { k } else { -k }),
    decreases (if k >= 0 { k } else { -k }),
{
    if k > 0 {
        lemma_year_drift(n, k - 1);
        let (y, m, d) = date_of_day(n + k - 1);
        lemma_day_number_of_date(n + k - 1);
        lemma_shift_one_day(y, m, d);
    } else if k < 0 {
        lemma_year_drift(n, k + 1);
        let (y, m, d) = date_of_day(n + k);
        lemma_day_number_of_date(n + k);
        lemma_shift_one_day(y, m, d);
    }
}

/// The date `diff` days (at most a week) from a local date is a valid date
/// whose year is still an `i32`.
proof fn lemma_local_shift(t: LocalDateTimeView, diff: int)
    requires
        t.wf(),
        -7 <= diff <= 7,
    ensures
        t.year - 7 <= date_of_day(t.day_number() + diff).0 <= t.year + 7,
        i32::MIN <= date_of_day(t.day_number() + diff).0 <= i32::MAX,
        is_valid_date(
            date_of_day(t.day_number() + diff).0,
            date_of_day(t.day_number() + diff).1,
            date_of_day(t.day_number() + diff).2,
        ),
{
    lemma_date_of_day_number(t.year, t.month, t.day);
    lemma_year_drift(t.day_number(), diff);
    lemma_day_number_of_date(t.day_number() + diff);
}

/// The date in the forms `2024/03/01`, `2024-03-01`, `2024年3月1日`, the
/// first era form `令和6年3月1日` when the year has an era, and the weekday
/// `金曜日`.
pub open spec fn date_texts(year: int, month: int, day: int) -> Seq<Seq<char>> {
    let base = seq![
        signed_padded(year, 4) + "/"@ + padded(month as nat, 2) + "/"@ + padded(day as nat, 2),
        signed_padded(year, 4) + "-"@ + padded(month as nat, 2) + "-"@ + padded(day as nat, 2),
        signed_decimal(year) + "年"@ + signed_decimal(month) + "月"@ + signed_decimal(day) + "日"@,
    ];
    let with_era = if era_names(year, month).len() > 0 {
        base.push(era_names(year, month)[0] + "年"@ + signed_decimal(month) + "月"@ + signed_decimal(day) + "日"@)
    } else {
        base
    };
    with_era.push(weekday_name_of(weekday_of_day(day_number(year, month, day))) + "曜日"@)
}

/// The time in the forms `09:30`, `9時30分`, `9時半` (on the half hour),
/// `午前9時30分` and `午前9時半` (on the half hour); hours up to 29 are
/// accepted and read modulo 24 for the morning/afternoon forms. Nothing for
/// an hour from 30 or a minute from 60.
pub open spec fn time_texts(hour: int, minute: int) -> Seq<Seq<char>> {
    if hour >= 30 || minute >= 60 {
        seq![]
    } else {
        let morning = (hour % 24) * 60 + minute < 12 * 60;
        let prefix = if morning { "午前"@ } else { "午後"@ };
        let display_hour = if morning { hour % 24 } else { (hour - 12) % 24 };
        let base = seq![
            padded(hour as nat, 2) + ":"@ + padded(minute as nat, 2),
            signed_decimal(hour) + "時"@ + padded(minute as nat, 2) + "分"@,
        ];
        let base = if minute == 30 { base.push(signed_decimal(hour) + "時半"@) } else { base };
        let base = base.push(prefix + signed_decimal(display_hour) + "時"@ + signed_decimal(minute) + "分"@);
        if minute == 30 { base.push(prefix + signed_decimal(display_hour) + "時半"@) } else { base }
    }
}

fn push_text(out: &mut Vec<String>, v: &Vec<char>)
    ensures
        views(final(out)@) == views(old(out)@).push(v@),
{
    out.push(string_of(v));
    assert(views(out@) =~= views(old(out)@).push(v@));
}

/// The date forms of `year-month-day`; see [`date_texts`].
pub fn date_formats(year: i32, month: u32, day: u32) -> (r: Vec<String>)
    requires
        year_before_fits(year as int, month as int),
    ensures
        views(r@) == date_texts(year as int, month as int, day as int),
{
    let mut output: Vec<String> = Vec::new();
    let mut a: Vec<char> = Vec::new();
    push_signed_padded(&mut a, year as i64, 4);
    push_str(&mut a, "/");
    push_padded(&mut a, month as u64, 2);
    push_str(&mut a, "/");
    push_padded(&mut a, day as u64, 2);
    push_text(&mut output, &a);
    let mut b: Vec<char> = Vec::new();
    push_signed_padded(&mut b, year as i64, 4);
    push_str(&mut b, "-");
    push_padded(&mut b, month as u64, 2);
    push_str(&mut b, "-");
    push_padded(&mut b, day as u64, 2);
    push_text(&mut output, &b);
    let mut c: Vec<char> = Vec::new();
    push_decimal(&mut c, year as i64);
    push_str(&mut c, "年");
    push_decimal(&mut c, month as i64);
    push_str(&mut c, "月");
    push_decimal(&mut c, day as i64);
    push_str(&mut c, "日");
    push_text(&mut output, &c);
    let eras = era_candidates(year, month);
    if eras.len() > 0 {
        let mut e: Vec<char> = chars_of(eras[0].as_str());
        assert(e@ == era_names(year as int, month as int)[0]);
        push_str(&mut e, "年");
        push_decimal(&mut e, month as i64);
        push_str(&mut e, "月");
        push_decimal(&mut e, day as i64);
        push_str(&mut e, "日");
        push_text(&mut output, &e);
    }
    let weekday = weekday_name(weekday_for(year, month, day));
    let mut w: Vec<char> = chars_of(weekday);
    push_str(&mut w, "曜日");
    push_text(&mut output, &w);
    output
}

/// The time forms of `hour:minute`; see [`time_texts`].
pub fn time_formats(hour: u32, minute: u32) -> (r: Vec<String>)
    ensures
        views(r@) == time_texts(hour as int, minute as int),
{
    let mut output: Vec<String> = Vec::new();
    if hour >= 30 || minute >= 60 {
        assert(views(output@) =~= seq![]);
        return output;
    }
    let mut a: Vec<char> = Vec::new();
    push_padded(&mut a, hour as u64, 2);
    push_str(&mut a, ":");
    push_padded(&mut a, minute as u64, 2);
    push_text(&mut output, &a);
    let mut b: Vec<char> = Vec::new();
    push_decimal(&mut b, hour as i64);
    push_str(&mut b, "時");
    push_padded(&mut b, minute as u64, 2);
    push_str(&mut b, "分");
    push_text(&mut output, &b);
    if minute == 30 {
        let mut c: Vec<char> = Vec::new();
        push_decimal(&mut c, hour as i64);
        push_str(&mut c, "時半");
        push_text(&mut output, &c);
    }
    let morning = (hour % 24) * 60 + minute < 12 * 60;
    let prefix = if morning { "午前" } else { "午後" };
    let display_hour = if morning { hour % 24 } else { (hour - 12) % 24 };
    let mut d: Vec<char> = Vec::new();
    push_str(&mut d, prefix);
    push_decimal(&mut d, display_hour as i64);
    push_str(&mut d, "時");
    push_decimal(&mut d, minute as i64);
    push_str(&mut d, "分");
    push_text(&mut output, &d);
    if minute == 30 {
        let mut e: Vec<char> = Vec::new();
        push_str(&mut e, prefix);
        push_decimal(&mut e, display_hour as i64);
        push_str(&mut e, "時半");
        push_text(&mut output, &e);
    }
    output
}

/// Day offsets of the readings for today, tomorrow, yesterday and the days
/// around them.
pub open spec fn relative_day_of(c: Seq<char>) -> Option<i32> {
    if c == "きょう"@ {
        Some(0i32)
    } else if c == "あした"@ || c == "あす"@ {
        Some(1i32)
    } else if c == "きのう"@ || c == "さくじつ"@ {
        Some(-1i32)
    } else if c == "おととい"@ || c == "おとつい"@ || c == "いっさくじつ"@ {
        Some(-2i32)
    } else if c == "さきおととい"@ {
        Some(-3i32)
    } else if c == "あさって"@ || c == "みょうごにち"@ {
        Some(2i32)
    } else if c == "しあさって"@ {
        Some(3i32)
    } else {
        None
    }
}

/// Weekdays (0 is Sunday) of the weekday readings.
pub open spec fn weekday_target_of(c: Seq<char>) -> Option<i32> {
    if c == "にちようび"@ || c == "にちよう"@ {
        Some(0i32)
    } else if c == "げつようび"@ || c == "げつよう"@ {
        Some(1i32)
    } else if c == "かようび"@ || c == "かよう"@ {
        Some(2i32)
    } else if c == "すいようび"@ || c == "すいよう"@ {
        Some(3i32)
    } else if c == "もくようび"@ || c == "もくよう"@ {
        Some(4i32)
    } else if c == "きんようび"@ || c == "きんよう"@ {
        Some(5i32)
    } else if c == "どようび"@ || c == "どよう"@ {
        Some(6i32)
    } else {
        None
    }
}

/// Year offsets of the readings for this year, next year, last year and
/// the years around them.
pub open spec fn year_offset_of(c: Seq<char>) -> Option<i32> {
    if c == "ことし"@ {
        Some(0i32)
    } else if c == "らいねん"@ {
        Some(1i32)
    } else if c == "さくねん"@ || c == "きょねん"@ {
        Some(-1i32)
    } else if c == "おととし"@ {
        Some(-2i32)
    } else if c == "さらいねん"@ {
        Some(2i32)
    } else {
        None
    }
}

/// Month offsets of the readings for this month, next month, last month and
/// the months around them.
pub open spec fn month_offset_of(c: Seq<char>) -> Option<i32> {
    if c == "こんげつ"@ {
        Some(0i32)
    } else if c == "らいげつ"@ {
        Some(1i32)
    } else if c == "せんげつ"@ {
        Some(-1i32)
    } else if c == "せんせんげつ"@ {
        Some(-2i32)
    } else if c == "さらいげつ"@ {
        Some(2i32)
    } else {
        None
    }
}

/// Month (1..=12) that lies `diff` months after `month` of `year`.
pub open spec fn month_after(year: int, month: int, diff: int) -> int {
    (year * 12 + month - 1 + diff) % 12 + 1
}

/// The date `diff` days from the local date, its year truncated to an `i32`.
pub open spec fn day_after(t: LocalDateTimeView, diff: int) -> (int, int, int) {
    let (y, m, d) = date_of_day(t.day_number() + diff);
    ((y as i32) as int, m, d)
}

/// Whether the date `diff` days from the local date can be computed and
/// formatted: the day numbers of both dates take the year before January
/// and February in an `i32`.
pub open spec fn day_after_fits(t: LocalDateTimeView, diff: int) -> bool {
    &&& year_before_fits(t.year, t.month)
    &&& year_before_fits(day_after(t, diff).0, day_after(t, diff).1)
}

/// Whether the candidates of a reading can be computed at the local date
/// without leaving the `i32` range: the dates of the day and weekday
/// readings, the year of the year readings, and the month count of the
/// month readings.
pub open spec fn date_readings_fit(c: Seq<char>, t: LocalDateTimeView) -> bool {
    match relative_day_of(c) {
        Some(diff) => day_after_fits(t, diff as int),
        None => match weekday_target_of(c) {
            Some(target) => day_after_fits(t, (target - t.weekday) % 7),
            None => match year_offset_of(c) {
                Some(diff) => i32::MIN <= t.year + diff <= i32::MAX,
                None => match month_offset_of(c) {
                    Some(diff) => month_count_fits(t.year, t.month as u32, diff as int),
                    None => true,
                },
            },
        },
    }
}

/// Date and time candidates of a reading, relative to the local date and time.
pub open spec fn date_candidate_texts(c: Seq<char>, t: LocalDateTimeView) -> Seq<Seq<char>> {
    match relative_day_of(c) {
        Some(diff) => {
            let (y, m, d) = day_after(t, diff as int);
            date_texts(y, m, d)
        },
        None => match weekday_target_of(c) {
            Some(target) => {
                let (y, m, d) = day_after(t, (target - t.weekday) % 7);
                date_texts(y, m, d)
            },
            None => match year_offset_of(c) {
                Some(diff) => {
                    let year = t.year + diff;
                    seq![signed_decimal(year), signed_decimal(year) + "年"@] + era_names(year, 0).map_values(
                        |e: Seq<char>| e + "年"@,
                    )
                },
                None => match month_offset_of(c) {
                    Some(diff) => {
                        let month = month_after(t.year, ((t.month as u32) as i32) as int, diff as int);
                        seq![signed_decimal(month), signed_decimal(month) + "月"@]
                    },
                    None => if c == "いま"@ || c == "じこく"@ {
                        time_texts(t.hour, t.minute)
                    } else if c == "にちじ"@ || c == "なう"@ {
                        seq![
                            signed_padded(t.year, 4) + "/"@ + padded(t.month as nat, 2) + "/"@ + padded(
                                t.day as nat,
                                2,
                            ) + " "@ + padded(t.hour as nat, 2) + ":"@ + padded(t.minute as nat, 2),
                        ]
                    } else {
                        seq![]
                    },
                },
            },
        },
    }
}

fn relative_day(c: &str) -> (r: Option<i32>)
    ensures
        r == relative_day_of(c@),
{
    if str_eq(c, "きょう") {
        Some(0)
    } else if str_eq(c, "あした") || str_eq(c, "あす") {
        Some(1)
    } else if str_eq(c, "きのう") || str_eq(c, "さくじつ") {
        Some(-1)
    } else if str_eq(c, "おととい") || str_eq(c, "おとつい") || str_eq(c, "いっさくじつ") {
        Some(-2)
    } else if str_eq(c, "さきおととい") {
        Some(-3)
    } else if str_eq(c, "あさって") || str_eq(c, "みょうごにち") {
        Some(2)
    } else if str_eq(c, "しあさって") {
        Some(3)
    } else {
        None
    }
}

fn weekday_target(c: &str) -> (r: Option<i32>)
    ensures
        r == weekday_target_of(c@),
{
    if str_eq(c, "にちようび") || str_eq(c, "にちよう") {
        Some(0)
    } else if str_eq(c, "げつようび") || str_eq(c, "げつよう") {
        Some(1)
    } else if str_eq(c, "かようび") || str_eq(c, "かよう") {
        Some(2)
    } else if str_eq(c, "すいようび") || str_eq(c, "すいよう") {
        Some(3)
    } else if str_eq(c, "もくようび") || str_eq(c, "もくよう") {
        Some(4)
    } else if str_eq(c, "きんようび") || str_eq(c, "きんよう") {
        Some(5)
    } else if str_eq(c, "どようび") || str_eq(c, "どよう") {
        Some(6)
    } else {
        None
    }
}

fn year_offset(c: &str) -> (r: Option<i32>)
    ensures
        r == year_offset_of(c@),
{
    if str_eq(c, "ことし") {
        Some(0)
    } else if str_eq(c, "らいねん") {
        Some(1)
    } else if str_eq(c, "さくねん") || str_eq(c, "きょねん") {
        Some(-1)
    } else if str_eq(c, "おととし") {
        Some(-2)
    } else if str_eq(c, "さらいねん") {
        Some(2)
    } else {
        None
    }
}

fn month_offset(c: &str) -> (r: Option<i32>)
    ensures
        r == month_offset_of(c@),
{
    if str_eq(c, "こんげつ") {
        Some(0)
    } else if str_eq(c, "らいげつ") {
        Some(1)
    } else if str_eq(c, "せんげつ") {
        Some(-1)
    } else if str_eq(c, "せんせんげつ") {
        Some(-2)
    } else if str_eq(c, "さらいげつ") {
        Some(2)
    } else {
        None
    }
}

/// Each of `values` followed by `suffix`.
fn with_suffix(values: &Vec<String>, suffix: &str) -> (r: Vec<String>)
    ensures
        views(r@) == views(values@).map_values(|e: Seq<char>| e + suffix@),
{
    let mut out: Vec<String> = Vec::new();
    let mut i: usize = 0;
    while i < values.len()
        invariant
            i <= values@.len(),
            out@.len() == i,
            forall|k: int| 0 <= k < i ==> (#[trigger] out@[k])@ == values@[k]@ + suffix@,
        decreases values.len() - i,
    {
        let mut v = chars_of(values[i].as_str());
        push_str(&mut v, suffix);
        out.push(string_of(&v));
        i = i + 1;
    }
    assert(views(out@) =~= views(values@).map_values(|e: Seq<char>| e + suffix@));
    out
}

/// Whether the date after `diff` days can be computed; see [`day_after_fits`].
fn day_after_fits_at(local: &LocalDateTime, diff: i32) -> (r: bool)
    ensures
        r == day_after_fits(local@, diff as int),
{
    if local.year == i32::MIN && local.month <= 2 {
        return false;
    }
    let (year, month, _) = shifted_date(local.year, local.month, local.day, diff);
    !(year == i32::MIN && month <= 2)
}

/// Whether the candidates of `candidate` can be computed at `local`; see
/// [`date_readings_fit`].
pub fn fits_date_readings(candidate: &str, local: &LocalDateTime) -> (r: bool)
    ensures
        r == date_readings_fit(candidate@, local@),
{
    if let Some(diff) = relative_day(candidate) {
        return day_after_fits_at(local, diff);
    }
    if let Some(target) = weekday_target(candidate) {
        let x: i64 = target as i64 - local.weekday as i64;
        let diff = match x.checked_rem_euclid(7) {
            Some(d) => d as i32,
            None => 0,
        };
        return day_after_fits_at(local, diff);
    }
    if let Some(diff) = year_offset(candidate) {
        return local.year.checked_add(diff).is_some();
    }
    if let Some(diff) = month_offset(candidate) {
        let low: i64 = i32::MIN as i64;
        let high: i64 = i32::MAX as i64;
        let years: i64 = local.year as i64 * 12;
        let with_month: i64 = years + (local.month as i32) as i64;
        let total: i64 = with_month - 1 + diff as i64;
        return low <= years && years <= high && low <= with_month && with_month <= high && low <= with_month - 1
            && with_month - 1 <= high && low <= total && total <= high;
    }
    true
}

/// Date and time candidates of a reading; see [`date_candidate_texts`].
pub fn date_candidates(candidate: &str, local: LocalDateTime) -> (r: Vec<String>)
    requires
        date_readings_fit(candidate@, local@),
    ensures
        views(r@) == date_candidate_texts(candidate@, local@),
{
    if let Some(diff) = relative_day(candidate) {
        let (year, month, day) = shifted_date(local.year, local.month, local.day, diff);
        return date_formats(year, month, day);
    }
    if let Some(target) = weekday_target(candidate) {
        let x: i64 = target as i64 - local.weekday as i64;
        let diff = match x.checked_rem_euclid(7) {
            Some(d) => d as i32,
            None => 0,
        };
        let (year, month, day) = shifted_date(local.year, local.month, local.day, diff);
        return date_formats(year, month, day);
    }
    if let Some(diff) = year_offset(candidate) {
        let year = local.year + diff;
        let mut output: Vec<String> = Vec::new();
        let mut a: Vec<char> = Vec::new();
        push_decimal(&mut a, year as i64);
        push_text(&mut output, &a);
        push_str(&mut a, "年");
        push_text(&mut output, &a);
        let eras = with_suffix(&era_candidates(year, 0), "年");
        let ghost head = views(output@);
        let mut i: usize = 0;
        while i < eras.len()
            invariant
                i <= eras@.len(),
                views(output@) == head + views(eras@).take(i as int),
            decreases eras.len() - i,
        {
            let v = chars_of(eras[i].as_str());
            push_text(&mut output, &v);
            i = i + 1;
            assert(views(eras@).take(i as int) =~= views(eras@).take(i - 1).push(eras@[i - 1]@));
        }
        assert(views(eras@).take(i as int) =~= views(eras@));
        return output;
    }
    if let Some(diff) = month_offset(candidate) {
        let (_, month) = shifted_month(local.year, local.month, diff);
        let mut output: Vec<String> = Vec::new();
        let mut a: Vec<char> = Vec::new();
        push_decimal(&mut a, month as i64);
        push_text(&mut output, &a);
        push_str(&mut a, "月");
        push_text(&mut output, &a);
        return output;
    }
    if str_eq(candidate, "いま") || str_eq(candidate, "じこく") {
        return time_formats(local.hour, local.minute);
    }
    let mut output: Vec<String> = Vec::new();
    if str_eq(candidate, "にちじ") || str_eq(candidate, "なう") {
        let mut a: Vec<char> = Vec::new();
        push_signed_padded(&mut a, local.year as i64, 4);
        push_str(&mut a, "/");
        push_padded(&mut a, local.month as u64, 2);
        push_str(&mut a, "/");
        push_padded(&mut a, local.day as u64, 2);
        push_str(&mut a, " ");
        push_padded(&mut a, local.hour as u64, 2);
        push_str(&mut a, ":");
        push_padded(&mut a, local.minute as u64, 2);
        push_text(&mut output, &a);
    } else {
        assert(views(output@) =~= seq![]);
    }
    output
}

/// Full-width digits `０`..`９` become ASCII digits; other characters stay.
pub open spec fn normalize_digit(c: char) -> char {
    if '０' <= c && c <= '９' {
        ((c as int) - ('０' as int) + 48) as char
    } else {
        c
    }
}

pub open spec fn normalized_digits(s: Seq<char>) -> Seq<char> {
    s.map_values(|c: char| normalize_digit(c))
}

fn normalize_digit_char(c: char) -> (r: char)
    ensures
        r == normalize_digit(c),
{
    let code = c as u32;
    if 0xFF10 <= code && code <= 0xFF19 {
        ((code - 0xFF10) as u8 + 48) as char
    } else {
        c
    }
}

/// `candidate` with full-width digits made ASCII.
pub fn normalize_digits(candidate: &str) -> (r: Vec<char>)
    ensures
        r@ == normalized_digits(candidate@),
{
    let chars = chars_of(candidate);
    let mut out: Vec<char> = Vec::new();
    let mut i: usize = 0;
    while i < chars.len()
        invariant
            i <= chars@.len(),
            chars@ == candidate@,
            out@.len() == i,
            forall|k: int| 0 <= k < i ==> out@[k] == normalize_digit(#[trigger] chars@[k]),
        decreases chars.len() - i,
    {
        out.push(normalize_digit_char(chars[i]));
        i = i + 1;
    }
    assert(out@ =~= normalized_digits(candidate@));
    out
}

/// A four-digit reading `MMDD` or `HHMM`: the date forms `1月30日` and
/// `01/30` when it names a day of a month (in a leap year), and the time
/// forms of [`time_texts`].
pub open spec fn four_digit_texts(c: Seq<char>) -> Seq<Seq<char>> {
    let digits = normalized_digits(c);
    if digits.len() != 4 || !crate::text::all_ascii_digits(digits) {
        seq![]
    } else {
        let first = crate::text::digits_value(digits.subrange(0, 2));
        let second = crate::text::digits_value(digits.subrange(2, 4));
        let date = if 1 <= first <= 12 && 1 <= second <= month_length(2000, first) {
            seq![
                signed_decimal(first) + "月"@ + signed_decimal(second) + "日"@,
                padded(first as nat, 2) + "/"@ + padded(second as nat, 2),
            ]
        } else {
            seq![]
        };
        date + time_texts(first, second)
    }
}

/// Date and time candidates of a four-digit reading; see [`four_digit_texts`].
pub fn four_digit_candidates(candidate: &str) -> (r: Vec<String>)
    ensures
        views(r@) == four_digit_texts(candidate@),
{
    let digits = normalize_digits(candidate);
    if digits.len() != 4 {
        let v: Vec<String> = Vec::new();
        assert(views(v@) =~= seq![]);
        return v;
    }
    let mut i: usize = 0;
    while i < 4
        invariant
            i <= 4,
            digits@.len() == 4,
            digits@ == normalized_digits(candidate@),
            forall|k: int| 0 <= k < i ==> crate::text::is_ascii_digit(#[trigger] digits@[k]),
        decreases 4 - i,
    {
        if !('0' <= digits[i] && digits[i] <= '9') {
            let v: Vec<String> = Vec::new();
            assert(!crate::text::is_ascii_digit(digits@[i as int]));
            assert(!crate::text::all_ascii_digits(digits@));
            assert(views(v@) =~= seq![]);
            return v;
        }
        i = i + 1;
    }
    let ghost d = digits@;
    proof {
        reveal_with_fuel(crate::text::digits_value, 3);
        assert(d.subrange(0, 2).drop_last() =~= seq![d[0]]);
        assert(seq![d[0]].drop_last() =~= Seq::<char>::empty());
        assert(d.subrange(2, 4).drop_last() =~= seq![d[2]]);
        assert(seq![d[2]].drop_last() =~= Seq::<char>::empty());
        assert(crate::text::digits_value(d.subrange(0, 2)) == (d[0] as int - 48) * 10 + (d[1] as int - 48));
        assert(crate::text::digits_value(d.subrange(2, 4)) == (d[2] as int - 48) * 10 + (d[3] as int - 48));
        assert(crate::text::all_ascii_digits(d));
    }
    let first: u32 = (digits[0] as u32 - 48) * 10 + (digits[1] as u32 - 48);
    let second: u32 = (digits[2] as u32 - 48) * 10 + (digits[3] as u32 - 48);
    let mut output: Vec<String> = Vec::new();
    if 1 <= first && first <= 12 && 1 <= second && second <= crate::calendar::days_in_month(2000, first) {
        let mut a: Vec<char> = Vec::new();
        push_decimal(&mut a, first as i64);
        push_str(&mut a, "月");
        push_decimal(&mut a, second as i64);
        push_str(&mut a, "日");
        push_text(&mut output, &a);
        let mut b: Vec<char> = Vec::new();
        push_padded(&mut b, first as u64, 2);
        push_str(&mut b, "/");
        push_padded(&mut b, second as u64, 2);
        push_text(&mut output, &b);
    }
    let times = time_formats(first, second);
    let ghost head = views(output@);
    let mut k: usize = 0;
    while k < times.len()
        invariant
            k <= times@.len(),
            views(output@) == head + views(times@).take(k as int),
        decreases times.len() - k,
    {
        let v = chars_of(times[k].as_str());
        push_text(&mut output, &v);
        k = k + 1;
        assert(views(times@).take(k as int) =~= views(times@).take(k - 1).push(times@[k - 1]@));
    }
    assert(views(times@).take(k as int) =~= views(times@));
    output
}

/// `c` without the suffix `ねん` or `年`, if it has one of them.
pub open spec fn year_reading_body(c: Seq<char>) -> Option<Seq<char>> {
    if c.len() >= 2 && c.subrange(c.len() - 2, c.len() as int) == "ねん"@ {
        Some(c.subrange(0, c.len() - 2))
    } else if c.len() >= 1 && c.last() == '年' {
        Some(c.drop_last())
    } else {
        None
    }
}

/// A Gregorian year reading `2019ねん` or `2019年`: its era years `令和元年`,
/// `平成31年`.
pub open spec fn ad_year_texts(c: Seq<char>) -> Seq<Seq<char>> {
    match year_reading_body(c) {
        Some(body) => match crate::text::parse_i32(normalized_digits(body)) {
            Some(year) => era_names(year as int, 0).map_values(|e: Seq<char>| e + "年"@),
            None => seq![],
        },
        None => seq![],
    }
}

/// Era years of a Gregorian year reading; see [`ad_year_texts`].
pub fn ad_year_candidates(candidate: &str) -> (r: Vec<String>)
    ensures
        views(r@) == ad_year_texts(candidate@),
{
    let chars = chars_of(candidate);
    let n = chars.len();
    let mut body: Vec<char> = Vec::new();
    let suffix_length: usize = if n >= 2 && chars[n - 2] == 'ね' && chars[n - 1] == 'ん' {
        proof {
            reveal_strlit("ねん");
            assert(chars@.subrange(n - 2, n as int) =~= "ねん"@);
        }
        2
    } else if n >= 1 && chars[n - 1] == '年' {
        proof {
            reveal_strlit("ねん");
            if n >= 2 {
                assert(chars@.subrange(n - 2, n as int)[1] == chars@[n - 1]);
            }
        }
        1
    } else {
        proof {
            reveal_strlit("ねん");
            if n >= 2 && chars@.subrange(n - 2, n as int) == "ねん"@ {
                assert(chars@.subrange(n - 2, n as int)[0] == chars@[n - 2]);
                assert(chars@.subrange(n - 2, n as int)[1] == chars@[n - 1]);
            }
        }
        let v: Vec<String> = Vec::new();
        assert(views(v@) =~= seq![]);
        return v;
    };
    let mut i: usize = 0;
    while i < n - suffix_length
        invariant
            n == chars@.len(),
            suffix_length <= n,
            i <= n - suffix_length,
            body@ == normalized_digits(chars@.subrange(0, i as int)),
        decreases n - suffix_length - i,
    {
        body.push(normalize_digit_char(chars[i]));
        i = i + 1;
        assert(body@ =~= normalized_digits(chars@.subrange(0, i as int)));
    }
    assert(year_reading_body(candidate@) == Some(chars@.subrange(0, (n - suffix_length) as int))) by {
        reveal_strlit("ねん");
        if suffix_length == 1 {
            assert(chars@.drop_last() =~= chars@.subrange(0, n - 1));
        }
    }
    match crate::text::parse_i32_chars(&body) {
        Some(year) => with_suffix(&era_candidates(year, 0), "年"),
        None => {
            let v: Vec<String> = Vec::new();
            assert(views(v@) =~= seq![]);
            v
        },
    }
}

/// Full-width digits and arithmetic symbols become their ASCII forms:
/// `．` `.`, `＋` `+`, `－` and `ー` `-`, `＊` `*`, `／` and `・` `/`, `＾` `^`,
/// `（` `(`, `）` `)`.
pub open spec fn normalize_arithmetic(c: char) -> char {
    if '０' <= c && c <= '９' {
        normalize_digit(c)
    } else if c == '．' {
        '.'
    } else if c == '＋' {
        '+'
    } else if c == '－' || c == 'ー' {
        '-'
    } else if c == '＊' {
        '*'
    } else if c == '／' || c == '・' {
        '/'
    } else if c == '＾' {
        '^'
    } else if c == '（' {
        '('
    } else if c == '）' {
        ')'
    } else {
        c
    }
}

fn normalize_arithmetic_char(c: char) -> (r: char)
    ensures
        r == normalize_arithmetic(c),
{
    if '０' <= c && c <= '９' {
        normalize_digit_char(c)
    } else if c == '．' {
        '.'
    } else if c == '＋' {
        '+'
    } else if c == '－' || c == 'ー' {
        '-'
    } else if c == '＊' {
        '*'
    } else if c == '／' || c == '・' {
        '/'
    } else if c == '＾' {
        '^'
    } else if c == '（' {
        '('
    } else if c == '）' {
        ')'
    } else {
        c
    }
}

/// The arithmetic text of a reading that ends with `=` or `＝`, normalized.
pub open spec fn calculation_input(c: Seq<char>) -> Option<Seq<char>> {
    if c.len() > 0 && (c.last() == '=' || c.last() == '＝') {
        Some(c.drop_last().map_values(|x: char| normalize_arithmetic(x)))
    } else {
        None
    }
}

/// The expression that a reading such as `1+2*3=` asks to compute.
pub open spec fn calculation_expression_of(c: Seq<char>) -> Option<ExprView> {
    match calculation_input(c) {
        Some(text) => parse_complete(text),
        None => None,
    }
}

/// The expression that a reading asks to compute; see
/// [`calculation_expression_of`].
pub fn calculation_expression(candidate: &str) -> (r: Option<Expr>)
    ensures
        match calculation_expression_of(candidate@) {
            Some(e) => r matches Some(x) && x@ == e,
            None => r is None,
        },
{
    let chars = chars_of(candidate);
    let n = chars.len();
    if n == 0 || !(chars[n - 1] == '=' || chars[n - 1] == '＝') {
        return None;
    }
    let mut text: Vec<char> = Vec::new();
    let mut i: usize = 0;
    while i < n - 1
        invariant
            n == chars@.len(),
            n >= 1,
            i <= n - 1,
            text@.len() == i,
            forall|k: int| 0 <= k < i ==> text@[k] == normalize_arithmetic(#[trigger] chars@[k]),
        decreases n - 1 - i,
    {
        text.push(normalize_arithmetic_char(chars[i]));
        i = i + 1;
    }
    assert(text@ =~= chars@.drop_last().map_values(|x: char| normalize_arithmetic(x)));
    ExpressionParser::parse(text)
}

/// The result candidate of a calculation: `value` (the evaluated expression
/// as text) when the reading is an arithmetic expression.
pub open spec fn calculation_texts(c: Seq<char>, value: Option<Seq<char>>) -> Seq<Seq<char>> {
    if calculation_expression_of(c) is Some {
        match value {
            Some(v) => seq![v],
            None => seq![],
        }
    } else {
        seq![]
    }
}

pub open spec fn is_hex_digit(c: char) -> bool {
    ('0' <= c && c <= '9') || ('a' <= c && c <= 'f') || ('A' <= c && c <= 'F')
}

pub open spec fn hex_digit_value(c: char) -> int {
    if '0' <= c && c <= '9' {
        c as int - 48
    } else if 'a' <= c && c <= 'f' {
        c as int - 87
    } else {
        c as int - 55
    }
}

/// Value of a sequence of hexadecimal digits.
pub open spec fn hex_value(s: Seq<char>) -> int
    decreases s.len(),
{
    if s.len() == 0 {
        0
    } else {
        hex_value(s.drop_last()) * 16 + hex_digit_value(s.last())
    }
}

/// Unicode scalar values: code points outside the surrogate range.
pub open spec fn is_scalar_value(v: int) -> bool {
    0 <= v <= 0x10FFFF && !(0xD800 <= v <= 0xDFFF)
}

/// The digits of a code point reading `U+611B` or `u+611B`.
pub open spec fn code_point_digits(c: Seq<char>) -> Option<Seq<char>> {
    if c.len() >= 2 && (c[0] == 'U' || c[0] == 'u') && c[1] == '+' {
        Some(c.subrange(2, c.len() as int))
    } else {
        None
    }
}

/// A code point reading with one to six hexadecimal digits: the character
/// with that code point, when it is a Unicode scalar value.
pub open spec fn unicode_texts(c: Seq<char>) -> Seq<Seq<char>> {
    match code_point_digits(c) {
        Some(hex) => if 1 <= hex.len() <= 6 && (forall|i: int| 0 <= i < hex.len() ==> is_hex_digit(#[trigger] hex[i]))
            && is_scalar_value(hex_value(hex)) {
            seq![seq![hex_value(hex) as char]]
        } else {
            seq![]
        },
        None => seq![],
    }
}

/// The character with a given code point (std's `char::from_u32`): `None`
/// for a surrogate or a value above `0x10FFFF`.
#[verifier::external_body]
fn char_from_u32(value: u32) -> (r: Option<char>)
    ensures
        r == if is_scalar_value(value as int) { Some(value as char) } else { None::<char> },
{
    char::from_u32(value)
}

/// The character of a code point reading; see [`unicode_texts`].
pub fn unicode_candidate(candidate: &str) -> (r: Vec<String>)
    ensures
        views(r@) == unicode_texts(candidate@),
{
    let chars = chars_of(candidate);
    let n = chars.len();
    let mut out: Vec<String> = Vec::new();
    if !(n >= 2 && (chars[0] == 'U' || chars[0] == 'u') && chars[1] == '+') {
        assert(views(out@) =~= seq![]);
        return out;
    }
    let ghost hex = chars@.subrange(2, n as int);
    if n - 2 < 1 || n - 2 > 6 {
        assert(views(out@) =~= seq![]);
        return out;
    }
    let mut value: u32 = 0;
    let mut i: usize = 2;
    while i < n
        invariant
            n == chars@.len(),
            chars@ == candidate@,
            (chars@[0] == 'U' || chars@[0] == 'u') && chars@[1] == '+',
            out@.len() == 0,
            3 <= n <= 8,
            2 <= i <= n,
            hex == chars@.subrange(2, n as int),
            forall|k: int| 0 <= k < i - 2 ==> is_hex_digit(#[trigger] hex[k]),
            value == hex_value(hex.take(i - 2)),
            value < pow16(i - 2),
        decreases n - i,
    {
        let c = chars[i];
        let digit: u32 = if '0' <= c && c <= '9' {
            c as u32 - 48
        } else if 'a' <= c && c <= 'f' {
            c as u32 - 87
        } else if 'A' <= c && c <= 'F' {
            c as u32 - 55
        } else {
            assert(!is_hex_digit(hex[i - 2]));
            assert(views(out@) =~= seq![]);
            return out;
        };
        proof {
            let t = hex.take(i - 1);
            assert(t.drop_last() =~= hex.take(i - 2));
            assert(t.last() == c);
            lemma_pow16_step(i - 2);
        }
        value = value * 16 + digit;
        i = i + 1;
    }
    assert(hex.take(n - 2) =~= hex);
    match char_from_u32(value) {
        Some(ch) => {
            let mut v: Vec<char> = Vec::new();
            v.push(ch);
            push_text(&mut out, &v);
            assert(v@ =~= seq![hex_value(hex) as char]);
        },
        None => {
            assert(views(out@) =~= seq![]);
        },
    }
    out
}

pub open spec fn pow16(k: int) -> int
    decreases k,
{
    if k <= 0 { 1 } else { 16 * pow16(k - 1) }
}

proof fn lemma_pow16_step(k: int)
    requires
        0 <= k <= 6,
    ensures
        pow16(k + 1) == 16 * pow16(k),
        pow16(k) <= 16777216,
{
    reveal_with_fuel(pow16, 8);
}

/// The version string for the reading `ばーじょん`.
pub open spec fn version_texts(c: Seq<char>) -> Seq<Seq<char>> {
    if c == "ばーじょん"@ { seq!["Karukan 0.1.0"@] } else { seq![] }
}

/// The version candidate; see [`version_texts`].
pub fn version_candidate(candidate: &str) -> (r: Vec<String>)
    ensures
        views(r@) == version_texts(candidate@),
{
    let mut out: Vec<String> = Vec::new();
    if str_eq(candidate, "ばーじょん") {
        push_text(&mut out, &chars_of("Karukan 0.1.0"));
    } else {
        assert(views(out@) =~= seq![]);
    }
    out
}

/// Emoticons: each line holds an emoticon, a tab and its space-separated
/// readings. Lines starting with a tab are skipped. This is a small table of
/// four common emoticons, not a full emoticon dictionary: a reading that is
/// not in it gives no emoticon.
pub const EMOTICON_TSV: &'static str = "＼(^o^)／\tかおもじ にこにこ ばんざい\n(^_^)\tかおもじ にこにこ\n(>_<)\tかおもじ\n(T_T)\tかおもじ えーん\n";

/// Corrections of common misreadings: each line holds the correct word,
/// a tab, the misreading, a tab and the correct reading. Lines starting with
/// `#` are comments. This is a small table of three misreadings, not a full
/// list: a misreading that is not in it gives no correction.
pub const READING_CORRECTION_TSV: &'static str = "# word\tmisreading\treading\nアボカド\tあぼがど\tあぼかど\nシミュレーション\tしゅみれーしょん\tしみゅれーしょん\nコミュニケーション\tこみにゅけーしょん\tこみゅにけーしょん\n";

/// Emoticons of a reading; every emoticon for `かおもじ`.
pub open spec fn emoticon_texts(c: Seq<char>) -> Seq<Seq<char>> {
    if c == "かおもじ"@ {
        crate::table::table_all(EMOTICON_TSV@, '\t', 1, 0)
    } else {
        crate::table::table_lookup(EMOTICON_TSV@, '\t', c, 1, 0)
    }
}

/// Correct words for a misreading.
pub open spec fn reading_correction_texts(c: Seq<char>) -> Seq<Seq<char>> {
    crate::table::table_lookup(READING_CORRECTION_TSV@, '#', c, 1, 0)
}

fn strings_of(v: &Vec<Vec<char>>) -> (r: Vec<String>)
    ensures
        views(r@) == crate::table::char_views(v@),
{
    let mut out: Vec<String> = Vec::new();
    let mut i: usize = 0;
    while i < v.len()
        invariant
            i <= v@.len(),
            out@.len() == i,
            forall|k: int| 0 <= k < i ==> (#[trigger] out@[k])@ == v@[k]@,
        decreases v.len() - i,
    {
        out.push(string_of(&v[i]));
        i = i + 1;
    }
    assert(views(out@) =~= crate::table::char_views(v@));
    out
}

/// Emoticons of a reading; see [`emoticon_texts`].
pub fn emoticon_candidates(candidate: &str) -> (r: Vec<String>)
    ensures
        views(r@) == emoticon_texts(candidate@),
{
    let data = chars_of(EMOTICON_TSV);
    if str_eq(candidate, "かおもじ") {
        strings_of(&crate::table::all_table_values(&data, '\t', 1, 0))
    } else {
        let key = chars_of(candidate);
        strings_of(&crate::table::lookup_table(&data, '\t', &key, 1, 0))
    }
}

/// Correct words for a misreading; see [`reading_correction_texts`].
pub fn reading_correction_candidates(candidate: &str) -> (r: Vec<String>)
    ensures
        views(r@) == reading_correction_texts(candidate@),
{
    let data = chars_of(READING_CORRECTION_TSV);
    let key = chars_of(candidate);
    strings_of(&crate::table::lookup_table(&data, '#', &key, 1, 0))
}

/// The view of an optional string.
pub open spec fn text_option(o: Option<String>) -> Option<Seq<char>> {
    match o {
        Some(v) => Some(v@),
        None => None,
    }
}

/// A candidate text with its description.
pub type RewriteOutput = (String, Option<String>);

/// The abstract form of a sequence of rewrite outputs.
pub open spec fn output_view(o: Seq<RewriteOutput>) -> Seq<(Seq<char>, Option<Seq<char>>)> {
    o.map_values(
        |p: RewriteOutput|
            (
                p.0@,
                match p.1 {
                    Some(d) => Some(d@),
                    None => None::<Seq<char>>,
                },
            ),
    )
}

pub open spec fn output_texts(o: Seq<(Seq<char>, Option<Seq<char>>)>) -> Seq<Seq<char>> {
    o.map_values(|p: (Seq<char>, Option<Seq<char>>)| p.0)
}

/// `out` followed by those of `values` whose text is not yet there, each
/// with `description`.
pub open spec fn append_unique_texts(
    out: Seq<(Seq<char>, Option<Seq<char>>)>,
    values: Seq<Seq<char>>,
    description: Seq<char>,
) -> Seq<(Seq<char>, Option<Seq<char>>)>
    decreases values.len(),
{
    if values.len() == 0 {
        out
    } else {
        let prior = append_unique_texts(out, values.drop_last(), description);
        if output_texts(prior).contains(values.last()) {
            prior
        } else {
            prior.push((values.last(), Some(description)))
        }
    }
}

fn output_contains(output: &Vec<RewriteOutput>, text: &String) -> (r: bool)
    ensures
        r == output_texts(output_view(output@)).contains(text@),
{
    let mut i: usize = 0;
    while i < output.len()
        invariant
            i <= output@.len(),
            forall|k: int| 0 <= k < i ==> output@[k].0@ != text@,
        decreases output.len() - i,
    {
        if output[i].0 == *text {
            assert(output_texts(output_view(output@))[i as int] == text@);
            return true;
        }
        i = i + 1;
    }
    assert(!output_texts(output_view(output@)).contains(text@)) by {
        if output_texts(output_view(output@)).contains(text@) {
            let k = choose|k: int| 0 <= k < output@.len() && output_texts(output_view(output@))[k] == text@;
            assert(output@[k].0@ == text@);
        }
    }
    false
}

/// Appends the values whose text is not yet in `output`, with `description`.
fn append_unique(output: &mut Vec<RewriteOutput>, values: Vec<String>, description: &str)
    ensures
        output_view(final(output)@) == append_unique_texts(output_view(old(output)@), views(values@), description@),
{
    let ghost start = output_view(output@);
    let mut i: usize = 0;
    while i < values.len()
        invariant
            i <= values@.len(),
            output_view(output@) == append_unique_texts(start, views(values@).take(i as int), description@),
        decreases values.len() - i,
    {
        let ghost before = views(values@).take(i as int);
        let value = values[i].clone();
        assert(views(values@).take(i + 1).drop_last() =~= before);
        assert(views(values@).take(i + 1).last() == value@);
        if !output_contains(output, &value) {
            let ghost prior = output_view(output@);
            output.push((value, Some(String::from_str(description))));
            assert(output_view(output@) =~= prior.push((value@, Some(description@))));
        }
        i = i + 1;
    }
    assert(views(values@).take(i as int) =~= views(values@));
}

/// All special candidates of a reading at a local date and time, each with
/// its description, without repeated texts (the first occurrence stays):
/// dates (日付), four-digit dates and times (日付・時刻), era years (和暦),
/// the calculation result (計算結果), the character of a code point
/// (Unicode), the version (バージョン), emoticons (顔文字) and corrected
/// misreadings (読み訂正).
pub open spec fn rewrite_texts(
    c: Seq<char>,
    t: LocalDateTimeView,
    calculation_result: Option<Seq<char>>,
) -> Seq<(Seq<char>, Option<Seq<char>>)> {
    let o = append_unique_texts(seq![], date_candidate_texts(c, t), "日付"@);
    let o = append_unique_texts(o, four_digit_texts(c), "日付・時刻"@);
    let o = append_unique_texts(o, ad_year_texts(c), "和暦"@);
    let o = append_unique_texts(o, calculation_texts(c, calculation_result), "計算結果"@);
    let o = append_unique_texts(o, unicode_texts(c), "Unicode"@);
    let o = append_unique_texts(o, version_texts(c), "バージョン"@);
    let o = append_unique_texts(o, emoticon_texts(c), "顔文字"@);
    append_unique_texts(o, reading_correction_texts(c), "読み訂正"@)
}

/// The local date and time used when the clock cannot be read:
/// 0001-01-01 00:00, a Monday.
pub open spec fn fallback_datetime() -> LocalDateTimeView {
    LocalDateTimeView { year: 1, month: 1, day: 1, hour: 0, minute: 0, weekday: 1 }
}

/// The date readings all fit at a valid local date.
proof fn lemma_valid_date_readings_fit(c: Seq<char>, t: LocalDateTimeView)
    requires
        t.wf(),
        0 <= t.month <= u32::MAX,
        0 <= t.weekday,
    ensures
        date_readings_fit(c, t),
{
    if relative_day_of(c) is Some {
        lemma_local_shift(t, relative_day_of(c).unwrap() as int);
    } else if weekday_target_of(c) is Some {
        let diff = (weekday_target_of(c).unwrap() - t.weekday) % 7;
        lemma_local_shift(t, diff);
    }
}

/// Outputs other than the dates relative to the local date.
pub open spec fn without_dates(o: Seq<(Seq<char>, Option<Seq<char>>)>) -> Seq<(Seq<char>, Option<Seq<char>>)>
    decreases o.len(),
{
    if o.len() == 0 {
        o
    } else {
        let rest = without_dates(o.drop_last());
        if o.last().1 == Some("日付"@) { rest } else { rest.push(o.last()) }
    }
}

/// Rewriter for dates, times, arithmetic, Unicode scalar values, and bundled data tables.
#[derive(Default)]
pub struct SpecialConversionRewriter;

impl SpecialConversionRewriter {
    pub fn new() -> (r: SpecialConversionRewriter) {
        SpecialConversionRewriter
    }

    /// Name of the rewriter.
    pub fn name(&self) -> (r: &'static str)
        ensures
            r@ == "special_conversion"@,
    {
        "special_conversion"
    }

    /// Generates candidates using the supplied local time; see
    /// [`rewrite_texts`]. `calculation_result` is the value of
    /// [`calculation_expression`] of `candidate` as text, when it has one
    /// and it evaluates.
    pub fn rewrite_with_local_datetime(
        &self,
        candidate: &str,
        local_datetime: LocalDateTime,
        calculation_result: Option<String>,
    ) -> (r: Vec<RewriteOutput>)
        requires
            date_readings_fit(candidate@, local_datetime@),
        ensures
            output_view(r@) == rewrite_texts(
                candidate@,
                local_datetime@,
                text_option(calculation_result),
            ),
    {
        let ghost value = text_option(calculation_result);
        let mut output: Vec<RewriteOutput> = Vec::new();
        assert(output_view(output@) =~= seq![]);
        append_unique(&mut output, date_candidates(candidate, local_datetime), "日付");
        append_unique(&mut output, four_digit_candidates(candidate), "日付・時刻");
        append_unique(&mut output, ad_year_candidates(candidate), "和暦");
        let mut calculation: Vec<String> = Vec::new();
        if calculation_expression(candidate).is_some() {
            match calculation_result {
                Some(v) => calculation.push(v),
                None => {},
            }
        }
        assert(views(calculation@) =~= calculation_texts(candidate@, value));
        append_unique(&mut output, calculation, "計算結果");
        append_unique(&mut output, unicode_candidate(candidate), "Unicode");
        append_unique(&mut output, version_candidate(candidate), "バージョン");
        append_unique(&mut output, emoticon_candidates(candidate), "顔文字");
        append_unique(&mut output, reading_correction_candidates(candidate), "読み訂正");
        output
    }

    /// Generates candidates at the local date and time `now`; when the clock
    /// could not be read (`None`), at [`fallback_datetime`] without the
    /// relative dates.
    pub fn rewrite(&self, candidate: &str, now: Option<LocalDateTime>, calculation_result: Option<String>) -> (r: Vec<
        RewriteOutput,
    >)
        requires
            now matches Some(t) ==> date_readings_fit(candidate@, t@),
        ensures
            ({
                let value = text_option(calculation_result);
                match now {
                    Some(t) => output_view(r@) == rewrite_texts(candidate@, t@, value),
                    None => output_view(r@) == without_dates(rewrite_texts(candidate@, fallback_datetime(), value)),
                }
            }),
    {
        match now {
            Some(local_datetime) => self.rewrite_with_local_datetime(candidate, local_datetime, calculation_result),
            None => {
                let fallback = LocalDateTime { year: 1, month: 1, day: 1, hour: 0, minute: 0, weekday: 1 };
                proof {
                    assert(fallback@ == fallback_datetime());
                    assert(is_valid_date(1, 1, 1));
                    lemma_valid_date_readings_fit(candidate@, fallback@);
                }
                let all = self.rewrite_with_local_datetime(candidate, fallback, calculation_result);
                let ghost all_view = output_view(all@);
                let mut output: Vec<RewriteOutput> = Vec::new();
                let mut i: usize = 0;
                while i < all.len()
                    invariant
                        i <= all@.len(),
                        all_view == output_view(all@),
                        output_view(output@) == without_dates(all_view.take(i as int)),
                    decreases all.len() - i,
                {
                    let entry = &all[i];
                    let keep = match &entry.1 {
                        Some(d) => !str_eq(d.as_str(), "日付"),
                        None => true,
                    };
                    let ghost prior = output_view(output@);
                    assert(all_view.take(i + 1).drop_last() =~= all_view.take(i as int));
                    assert(all_view[i as int] == (entry.0@, match entry.1 { Some(d) => Some(d@), None => None::<Seq<char>> }));
                    if keep {
                        output.push((entry.0.clone(), entry.1.clone()));
                        assert(output_view(output@) =~= prior.push(all_view[i as int]));
                    }
                    i = i + 1;
                }
                assert(all_view.take(i as int) =~= all_view);
                output
            },
        }
    }
}


proof fn lemma_append_unique_distinct(
    out: Seq<(Seq<char>, Option<Seq<char>>)>,
    values: Seq<Seq<char>>,
    description: Seq<char>,
)
    requires
        output_texts(out).no_duplicates(),
        forall|i: int| 0 <= i < out.len() ==> (#[trigger] out[i]).1 is Some,
    ensures
        output_texts(append_unique_texts(out, values, description)).no_duplicates(),
        forall|i: int|
            0 <= i < append_unique_texts(out, values, description).len() ==> (#[trigger] append_unique_texts(
                out,
                values,
                description,
            )[i]).1 is Some,
    decreases values.len(),
{
    if values.len() > 0 {
        let prior = append_unique_texts(out, values.drop_last(), description);
        lemma_append_unique_distinct(out, values.drop_last(), description);
        if !output_texts(prior).contains(values.last()) {
            let next = prior.push((values.last(), Some(description)));
            assert(output_texts(next) =~= output_texts(prior).push(values.last()));
            assert forall|i: int, j: int| 0 <= i < j < output_texts(next).len() implies output_texts(next)[i]
                != output_texts(next)[j] by {
                if j == prior.len() {
                    assert(output_texts(prior)[i] == output_texts(next)[i]);
                }
            }
            assert forall|i: int| 0 <= i < next.len() implies (#[trigger] next[i]).1 is Some by {
                if i < prior.len() {
                    assert(next[i] == prior[i]);
                }
            }
        }
    }
}

/// The special candidates of a reading never repeat a text, and each comes
/// with its description.
pub proof fn lemma_rewrite_texts_distinct(c: Seq<char>, t: LocalDateTimeView, calculation_result: Option<Seq<char>>)
    ensures
        output_texts(rewrite_texts(c, t, calculation_result)).no_duplicates(),
        forall|i: int|
            0 <= i < rewrite_texts(c, t, calculation_result).len() ==> (#[trigger] rewrite_texts(
                c,
                t,
                calculation_result,
            )[i]).1 is Some,
{
    let o0: Seq<(Seq<char>, Option<Seq<char>>)> = seq![];
    assert(output_texts(o0) =~= Seq::<Seq<char>>::empty());
    lemma_append_unique_distinct(o0, date_candidate_texts(c, t), "日付"@);
    let o1 = append_unique_texts(o0, date_candidate_texts(c, t), "日付"@);
    lemma_append_unique_distinct(o1, four_digit_texts(c), "日付・時刻"@);
    let o2 = append_unique_texts(o1, four_digit_texts(c), "日付・時刻"@);
    lemma_append_unique_distinct(o2, ad_year_texts(c), "和暦"@);
    let o3 = append_unique_texts(o2, ad_year_texts(c), "和暦"@);
    lemma_append_unique_distinct(o3, calculation_texts(c, calculation_result), "計算結果"@);
    let o4 = append_unique_texts(o3, calculation_texts(c, calculation_result), "計算結果"@);
    lemma_append_unique_distinct(o4, unicode_texts(c), "Unicode"@);
    let o5 = append_unique_texts(o4, unicode_texts(c), "Unicode"@);
    lemma_append_unique_distinct(o5, version_texts(c), "バージョン"@);
    let o6 = append_unique_texts(o5, version_texts(c), "バージョン"@);
    lemma_append_unique_distinct(o6, emoticon_texts(c), "顔文字"@);
    let o7 = append_unique_texts(o6, emoticon_texts(c), "顔文字"@);
    lemma_append_unique_distinct(o7, reading_correction_texts(c), "読み訂正"@);
}

proof fn lemma_without_dates(o: Seq<(Seq<char>, Option<Seq<char>>)>)
    ensures
        forall|y: (Seq<char>, Option<Seq<char>>)| #[trigger]
            without_dates(o).contains(y) <==> (o.contains(y) && y.1 != Some("日付"@)),
        output_texts(o).no_duplicates() ==> output_texts(without_dates(o)).no_duplicates(),
    decreases o.len(),
{
    if o.len() > 0 {
        let prior = o.drop_last();
        let rest = without_dates(prior);
        lemma_without_dates(prior);
        let r = without_dates(o);
        assert forall|y: (Seq<char>, Option<Seq<char>>)| #[trigger] r.contains(y) <==> (o.contains(y) && y.1 != Some(
            "日付"@,
        )) by {
            if r.contains(y) {
                let k = choose|k: int| 0 <= k < r.len() && r[k] == y;
                if k < rest.len() {
                    assert(rest[k] == y);
                    assert(rest.contains(y));
                    let m = choose|m: int| 0 <= m < prior.len() && prior[m] == y;
                    assert(o[m] == y);
                } else {
                    assert(o[o.len() - 1] == y);
                }
            }
            if o.contains(y) && y.1 != Some("日付"@) {
                let k = choose|k: int| 0 <= k < o.len() && o[k] == y;
                if k < o.len() - 1 {
                    assert(prior[k] == y);
                    assert(prior.contains(y));
                    assert(rest.contains(y));
                    let m = choose|m: int| 0 <= m < rest.len() && rest[m] == y;
                    assert(r[m] == y);
                } else {
                    assert(r[r.len() - 1] == y);
                }
            }
        }
        if output_texts(o).no_duplicates() {
            assert(output_texts(prior).no_duplicates()) by {
                assert forall|i: int, j: int| 0 <= i < j < output_texts(prior).len() implies output_texts(prior)[i]
                    != output_texts(prior)[j] by {
                    assert(output_texts(prior)[i] == output_texts(o)[i]);
                    assert(output_texts(prior)[j] == output_texts(o)[j]);
                }
            }
            if o.last().1 != Some("日付"@) {
                let last = o.last();
                assert(output_texts(r) =~= output_texts(rest).push(last.0));
                assert forall|i: int, j: int| 0 <= i < j < output_texts(r).len() implies output_texts(r)[i]
                    != output_texts(r)[j] by {
                    if j == rest.len() {
                        let y = rest[i];
                        assert(rest.contains(y));
                        let m = choose|m: int| 0 <= m < prior.len() && prior[m] == y;
                        assert(output_texts(o)[m] == y.0);
                        assert(output_texts(o)[o.len() - 1] == last.0);
                        assert(output_texts(r)[i] == y.0);
                    } else {
                        assert(output_texts(r)[i] == output_texts(rest)[i]);
                        assert(output_texts(r)[j] == output_texts(rest)[j]);
                    }
                }
            }
        }
    }
}

/// Without a clock reading, the special candidates hold no date relative to
/// the local date, and still never repeat a text.
pub proof fn lemma_fallback_has_no_dates(c: Seq<char>, calculation_result: Option<Seq<char>>)
    ensures
        output_texts(without_dates(rewrite_texts(c, fallback_datetime(), calculation_result))).no_duplicates(),
        forall|i: int|
            0 <= i < without_dates(rewrite_texts(c, fallback_datetime(), calculation_result)).len() ==> (
            #[trigger] without_dates(rewrite_texts(c, fallback_datetime(), calculation_result))[i]).1 != Some("日付"@),
{
    let o = rewrite_texts(c, fallback_datetime(), calculation_result);
    lemma_rewrite_texts_distinct(c, fallback_datetime(), calculation_result);
    lemma_without_dates(o);
    let w = without_dates(o);
    assert forall|i: int| 0 <= i < w.len() implies (#[trigger] w[i]).1 != Some("日付"@) by {
        assert(w.contains(w[i]));
    }
}


/// A weekday reading names a date of the coming week (today included) that
/// falls on that weekday, when the local weekday is the weekday of the local
/// date.
pub proof fn lemma_weekday_reading_names_that_weekday(c: Seq<char>, t: LocalDateTimeView)
    requires
        t.wf(),
        t.weekday == weekday_of_day(t.day_number()),
        relative_day_of(c) is None,
        weekday_target_of(c) is Some,
    ensures
        ({
            let target = weekday_target_of(c).unwrap() as int;
            let n = t.day_number() + (target - t.weekday) % 7;
            &&& t.day_number() <= n < t.day_number() + 7
            &&& weekday_of_day(n) == target
            &&& date_candidate_texts(c, t).last() == weekday_name_of(target) + "曜日"@
        }),
{
    let target = weekday_target_of(c).unwrap() as int;
    let d = t.day_number();
    let w = t.weekday;
    let diff = (target - w) % 7;
    let n = d + diff;
    assert(0 <= target < 7);
    assert(0 <= diff < 7);
    assert(((d + diff) + 4) % 7 == target) by (nonlinear_arith)
        requires
            w == (d + 4) % 7,
            diff == (target - w) % 7,
            0 <= target < 7,
    ;
    lemma_local_shift(t, diff);
    lemma_day_number_of_date(n);
}

/// The relative day readings name the calendar day that many days away:
/// `あした` the next day, `きのう` the day before.
pub proof fn lemma_relative_day_reading(c: Seq<char>, t: LocalDateTimeView)
    requires
        t.wf(),
        relative_day_of(c) is Some,
    ensures
        ({
            let (y, m, d) = date_of_day(t.day_number() + relative_day_of(c).unwrap());
            &&& is_valid_date(y, m, d)
            &&& day_number(y, m, d) == t.day_number() + relative_day_of(c).unwrap()
            &&& date_candidate_texts(c, t) == date_texts(y, m, d)
        }),
        relative_day_of(c) == Some(1i32) ==> date_of_day(t.day_number() + 1) == next_date(t.year, t.month, t.day),
        relative_day_of(c) == Some(-1i32) ==> next_date(
            date_of_day(t.day_number() - 1).0,
            date_of_day(t.day_number() - 1).1,
            date_of_day(t.day_number() - 1).2,
        ) == (t.year, t.month, t.day),
{
    let diff = relative_day_of(c).unwrap() as int;
    lemma_local_shift(t, diff);
    lemma_day_number_of_date(t.day_number() + diff);
    lemma_shift_one_day(t.year, t.month, t.day);
    let (py, pm, pd) = date_of_day(t.day_number() - 1);
    lemma_day_number_of_date(t.day_number() - 1);
    lemma_shift_one_day(py, pm, pd);
    lemma_date_of_day_number(t.year, t.month, t.day);
}


/// `values`, each with the description `description`.
pub open spec fn tagged(values: Seq<Seq<char>>, description: Seq<char>) -> Seq<(Seq<char>, Option<Seq<char>>)> {
    values.map_values(|t: Seq<char>| (t, Some(description)))
}

/// `g` without every pair whose text already occurs earlier in `g`.
pub open spec fn first_occurrences(g: Seq<(Seq<char>, Option<Seq<char>>)>) -> Seq<(Seq<char>, Option<Seq<char>>)>
    decreases g.len(),
{
    if g.len() == 0 {
        g
    } else {
        let rest = first_occurrences(g.drop_last());
        if output_texts(rest).contains(g.last().0) { rest } else { rest.push(g.last()) }
    }
}

/// Every special candidate group of a reading, in order, each text with its
/// group's description, repeats included.
pub open spec fn rewrite_groups(
    c: Seq<char>,
    t: LocalDateTimeView,
    calculation_result: Option<Seq<char>>,
) -> Seq<(Seq<char>, Option<Seq<char>>)> {
    tagged(date_candidate_texts(c, t), "日付"@) + tagged(four_digit_texts(c), "日付・時刻"@) + tagged(
        ad_year_texts(c),
        "和暦"@,
    ) + tagged(calculation_texts(c, calculation_result), "計算結果"@) + tagged(unicode_texts(c), "Unicode"@)
        + tagged(version_texts(c), "バージョン"@) + tagged(emoticon_texts(c), "顔文字"@) + tagged(
        reading_correction_texts(c),
        "読み訂正"@,
    )
}

proof fn lemma_append_unique_first(g: Seq<(Seq<char>, Option<Seq<char>>)>, values: Seq<Seq<char>>, description: Seq<char>)
    ensures
        append_unique_texts(first_occurrences(g), values, description) == first_occurrences(
            g + tagged(values, description),
        ),
    decreases values.len(),
{
    if values.len() == 0 {
        assert(g + tagged(values, description) =~= g);
    } else {
        lemma_append_unique_first(g, values.drop_last(), description);
        let whole = g + tagged(values, description);
        assert(whole.drop_last() =~= g + tagged(values.drop_last(), description));
        assert(whole.last() == (values.last(), Some(description)));
    }
}

/// The special candidates are the candidate groups in order, each text with
/// its group's description, without the pairs whose text came earlier: the
/// first occurrence of a text and its description win.
pub proof fn lemma_rewrite_keeps_first_occurrences(
    c: Seq<char>,
    t: LocalDateTimeView,
    calculation_result: Option<Seq<char>>,
)
    ensures
        rewrite_texts(c, t, calculation_result) == first_occurrences(rewrite_groups(c, t, calculation_result)),
{
    let empty: Seq<(Seq<char>, Option<Seq<char>>)> = seq![];
    let g0 = empty;
    assert(first_occurrences(g0) == g0);
    lemma_append_unique_first(g0, date_candidate_texts(c, t), "日付"@);
    let g1 = g0 + tagged(date_candidate_texts(c, t), "日付"@);
    lemma_append_unique_first(g1, four_digit_texts(c), "日付・時刻"@);
    let g2 = g1 + tagged(four_digit_texts(c), "日付・時刻"@);
    lemma_append_unique_first(g2, ad_year_texts(c), "和暦"@);
    let g3 = g2 + tagged(ad_year_texts(c), "和暦"@);
    lemma_append_unique_first(g3, calculation_texts(c, calculation_result), "計算結果"@);
    let g4 = g3 + tagged(calculation_texts(c, calculation_result), "計算結果"@);
    lemma_append_unique_first(g4, unicode_texts(c), "Unicode"@);
    let g5 = g4 + tagged(unicode_texts(c), "Unicode"@);
    lemma_append_unique_first(g5, version_texts(c), "バージョン"@);
    let g6 = g5 + tagged(version_texts(c), "バージョン"@);
    lemma_append_unique_first(g6, emoticon_texts(c), "顔文字"@);
    let g7 = g6 + tagged(emoticon_texts(c), "顔文字"@);
    lemma_append_unique_first(g7, reading_correction_texts(c), "読み訂正"@);
    let g8 = g7 + tagged(reading_correction_texts(c), "読み訂正"@);
    assert(g1 =~= tagged(date_candidate_texts(c, t), "日付"@));
    assert(g8 =~= rewrite_groups(c, t, calculation_result));
}


/// The emoticons of a reading are distinct and are among the emoticons
/// listed for `かおもじ`, which are distinct too.
pub proof fn lemma_emoticons_listed(c: Seq<char>)
    ensures
        emoticon_texts("かおもじ"@).no_duplicates(),
        emoticon_texts(c).no_duplicates(),
        forall|x: Seq<char>| #[trigger] emoticon_texts(c).contains(x) ==> emoticon_texts("かおもじ"@).contains(x),
{
    crate::table::lemma_table_lookup_within_all(EMOTICON_TSV@, '\t', c, 1, 0);
}


/// The date `k` days after `year-month-day`, stepping one calendar day at a
/// time.
pub open spec fn days_later(year: int, month: int, day: int, k: nat) -> (int, int, int)
    decreases k,
{
    if k == 0 {
        (year, month, day)
    } else {
        let (y, m, d) = days_later(year, month, day, (k - 1) as nat);
        next_date(y, m, d)
    }
}

proof fn lemma_days_later(year: int, month: int, day: int, k: nat)
    requires
        is_valid_date(year, month, day),
    ensures
        is_valid_date(days_later(year, month, day, k).0, days_later(year, month, day, k).1, days_later(year, month, day, k).2),
        day_number(days_later(year, month, day, k).0, days_later(year, month, day, k).1, days_later(year, month, day, k).2)
            == day_number(year, month, day) + k,
        date_of_day(day_number(year, month, day) + k) == days_later(year, month, day, k),
    decreases k,
{
    if k > 0 {
        lemma_days_later(year, month, day, (k - 1) as nat);
        let (y, m, d) = days_later(year, month, day, (k - 1) as nat);
        lemma_next_date_number(y, m, d);
    }
    let (y, m, d) = days_later(year, month, day, k);
    lemma_date_of_day_number(y, m, d);
}

/// The dates of the candidates of a day reading at `t`, `k` days after it.
pub open spec fn dated_after(c: Seq<char>, t: LocalDateTimeView, k: nat) -> bool {
    let (y, m, d) = days_later(t.year, t.month, t.day, k);
    date_candidate_texts(c, t) == date_texts(y, m, d)
}

/// The dates of the candidates of a day reading at `t`: the date `k` days
/// before it, the one from which `k` calendar days lead to `t`.
pub open spec fn dated_before(c: Seq<char>, t: LocalDateTimeView, k: nat) -> bool {
    forall|y: int, m: int, d: int|
        is_valid_date(y, m, d) && #[trigger] days_later(y, m, d, k) == (t.year, t.month, t.day) ==> date_candidate_texts(
            c,
            t,
        ) == date_texts(y, m, d)
}

proof fn lemma_dated_after(c: Seq<char>, t: LocalDateTimeView, k: nat)
    requires
        t.wf(),
        k <= 3,
        relative_day_of(c) is Some && relative_day_of(c).unwrap() == k,
    ensures
        dated_after(c, t, k),
{
    lemma_local_shift(t, k as int);
    lemma_days_later(t.year, t.month, t.day, k);
}

proof fn lemma_dated_before(c: Seq<char>, t: LocalDateTimeView, k: nat)
    requires
        t.wf(),
        k <= 3,
        relative_day_of(c) is Some && relative_day_of(c).unwrap() == -k,
    ensures
        dated_before(c, t, k),
{
    lemma_local_shift(t, -(k as int));
    assert forall|y: int, m: int, d: int|
        is_valid_date(y, m, d) && #[trigger] days_later(y, m, d, k) == (t.year, t.month, t.day) implies date_candidate_texts(
            c,
            t,
        ) == date_texts(y, m, d) by {
        lemma_days_later(y, m, d, k);
        assert(day_number(y, m, d) == t.day_number() - k);
        lemma_date_of_day_number(y, m, d);
    }
}

proof fn lemma_relative_day_values()
    ensures
        relative_day_of("きょう"@) == Some(0i32),
        relative_day_of("あした"@) == Some(1i32),
        relative_day_of("あす"@) == Some(1i32),
        relative_day_of("きのう"@) == Some(-1i32),
        relative_day_of("さくじつ"@) == Some(-1i32),
        relative_day_of("おととい"@) == Some(-2i32),
        relative_day_of("おとつい"@) == Some(-2i32),
        relative_day_of("いっさくじつ"@) == Some(-2i32),
        relative_day_of("さきおととい"@) == Some(-3i32),
        relative_day_of("あさって"@) == Some(2i32),
        relative_day_of("みょうごにち"@) == Some(2i32),
        relative_day_of("しあさって"@) == Some(3i32),
{
    assert(relative_day_of("きょう"@) == Some(0i32)) by {
        reveal_strlit("きょう");
    }
    assert(relative_day_of("あした"@) == Some(1i32)) by {
        reveal_strlit("きょう");
        reveal_strlit("あした");
        assert("あした"@[0] != "きょう"@[0]);
    }
    assert(relative_day_of("あす"@) == Some(1i32)) by {
        reveal_strlit("きょう");
        reveal_strlit("あした");
        reveal_strlit("あす");
        assert("あす"@.len() != "きょう"@.len());
        assert("あす"@.len() != "あした"@.len());
    }
    assert(relative_day_of("きのう"@) == Some(-1i32)) by {
        reveal_strlit("きょう");
        reveal_strlit("あした");
        reveal_strlit("あす");
        reveal_strlit("きのう");
        assert("きのう"@[1] != "きょう"@[1]);
        assert("きのう"@[0] != "あした"@[0]);
        assert("きのう"@.len() != "あす"@.len());
    }
    assert(relative_day_of("さくじつ"@) == Some(-1i32)) by {
        reveal_strlit("きょう");
        reveal_strlit("あした");
        reveal_strlit("あす");
        reveal_strlit("きのう");
        reveal_strlit("さくじつ");
        assert("さくじつ"@.len() != "きょう"@.len());
        assert("さくじつ"@.len() != "あした"@.len());
        assert("さくじつ"@.len() != "あす"@.len());
        assert("さくじつ"@.len() != "きのう"@.len());
    }
    assert(relative_day_of("おととい"@) == Some(-2i32)) by {
        reveal_strlit("きょう");
        reveal_strlit("あした");
        reveal_strlit("あす");
        reveal_strlit("きのう");
        reveal_strlit("さくじつ");
        reveal_strlit("おととい");
        assert("おととい"@.len() != "きょう"@.len());
        assert("おととい"@.len() != "あした"@.len());
        assert("おととい"@.len() != "あす"@.len());
        assert("おととい"@.len() != "きのう"@.len());
        assert("おととい"@[0] != "さくじつ"@[0]);
    }
    assert(relative_day_of("おとつい"@) == Some(-2i32)) by {
        reveal_strlit("きょう");
        reveal_strlit("あした");
        reveal_strlit("あす");
        reveal_strlit("きのう");
        reveal_strlit("さくじつ");
        reveal_strlit("おととい");
        reveal_strlit("おとつい");
        assert("おとつい"@.len() != "きょう"@.len());
        assert("おとつい"@.len() != "あした"@.len());
        assert("おとつい"@.len() != "あす"@.len());
        assert("おとつい"@.len() != "きのう"@.len());
        assert("おとつい"@[0] != "さくじつ"@[0]);
        assert("おとつい"@[2] != "おととい"@[2]);
    }
    assert(relative_day_of("いっさくじつ"@) == Some(-2i32)) by {
        reveal_strlit("きょう");
        reveal_strlit("あした");
        reveal_strlit("あす");
        reveal_strlit("きのう");
        reveal_strlit("さくじつ");
        reveal_strlit("おととい");
        reveal_strlit("おとつい");
        reveal_strlit("いっさくじつ");
        assert("いっさくじつ"@.len() != "きょう"@.len());
        assert("いっさくじつ"@.len() != "あした"@.len());
        assert("いっさくじつ"@.len() != "あす"@.len());
        assert("いっさくじつ"@.len() != "きのう"@.len());
        assert("いっさくじつ"@.len() != "さくじつ"@.len());
        assert("いっさくじつ"@.len() != "おととい"@.len());
        assert("いっさくじつ"@.len() != "おとつい"@.len());
    }
    assert(relative_day_of("さきおととい"@) == Some(-3i32)) by {
        reveal_strlit("きょう");
        reveal_strlit("あした");
        reveal_strlit("あす");
        reveal_strlit("きのう");
        reveal_strlit("さくじつ");
        reveal_strlit("おととい");
        reveal_strlit("おとつい");
        reveal_strlit("いっさくじつ");
        reveal_strlit("さきおととい");
        assert("さきおととい"@.len() != "きょう"@.len());
        assert("さきおととい"@.len() != "あした"@.len());
        assert("さきおととい"@.len() != "あす"@.len());
        assert("さきおととい"@.len() != "きのう"@.len());
        assert("さきおととい"@.len() != "さくじつ"@.len());
        assert("さきおととい"@.len() != "おととい"@.len());
        assert("さきおととい"@.len() != "おとつい"@.len());
        assert("さきおととい"@[0] != "いっさくじつ"@[0]);
    }
    assert(relative_day_of("あさって"@) == Some(2i32)) by {
        reveal_strlit("きょう");
        reveal_strlit("あした");
        reveal_strlit("あす");
        reveal_strlit("きのう");
        reveal_strlit("さくじつ");
        reveal_strlit("おととい");
        reveal_strlit("おとつい");
        reveal_strlit("いっさくじつ");
        reveal_strlit("さきおととい");
        reveal_strlit("あさって");
        assert("あさって"@.len() != "きょう"@.len());
        assert("あさって"@.len() != "あした"@.len());
        assert("あさって"@.len() != "あす"@.len());
        assert("あさって"@.len() != "きのう"@.len());
        assert("あさって"@[0] != "さくじつ"@[0]);
        assert("あさって"@[0] != "おととい"@[0]);
        assert("あさって"@[0] != "おとつい"@[0]);
        assert("あさって"@.len() != "いっさくじつ"@.len());
        assert("あさって"@.len() != "さきおととい"@.len());
    }
    assert(relative_day_of("みょうごにち"@) == Some(2i32)) by {
        reveal_strlit("きょう");
        reveal_strlit("あした");
        reveal_strlit("あす");
        reveal_strlit("きのう");
        reveal_strlit("さくじつ");
        reveal_strlit("おととい");
        reveal_strlit("おとつい");
        reveal_strlit("いっさくじつ");
        reveal_strlit("さきおととい");
        reveal_strlit("あさって");
        reveal_strlit("みょうごにち");
        assert("みょうごにち"@.len() != "きょう"@.len());
        assert("みょうごにち"@.len() != "あした"@.len());
        assert("みょうごにち"@.len() != "あす"@.len());
        assert("みょうごにち"@.len() != "きのう"@.len());
        assert("みょうごにち"@.len() != "さくじつ"@.len());
        assert("みょうごにち"@.len() != "おととい"@.len());
        assert("みょうごにち"@.len() != "おとつい"@.len());
        assert("みょうごにち"@[0] != "いっさくじつ"@[0]);
        assert("みょうごにち"@[0] != "さきおととい"@[0]);
        assert("みょうごにち"@.len() != "あさって"@.len());
    }
    assert(relative_day_of("しあさって"@) == Some(3i32)) by {
        reveal_strlit("きょう");
        reveal_strlit("あした");
        reveal_strlit("あす");
        reveal_strlit("きのう");
        reveal_strlit("さくじつ");
        reveal_strlit("おととい");
        reveal_strlit("おとつい");
        reveal_strlit("いっさくじつ");
        reveal_strlit("さきおととい");
        reveal_strlit("あさって");
        reveal_strlit("みょうごにち");
        reveal_strlit("しあさって");
        assert("しあさって"@.len() != "きょう"@.len());
        assert("しあさって"@.len() != "あした"@.len());
        assert("しあさって"@.len() != "あす"@.len());
        assert("しあさって"@.len() != "きのう"@.len());
        assert("しあさって"@.len() != "さくじつ"@.len());
        assert("しあさって"@.len() != "おととい"@.len());
        assert("しあさって"@.len() != "おとつい"@.len());
        assert("しあさって"@.len() != "いっさくじつ"@.len());
        assert("しあさって"@.len() != "さきおととい"@.len());
        assert("しあさって"@.len() != "あさって"@.len());
        assert("しあさって"@.len() != "みょうごにち"@.len());
    }
}

/// The day readings name the calendar day that many days from the local
/// date: きょう the day itself, あした/あす one day later, あさって/みょうごにち
/// two, しあさって three; きのう/さくじつ the day from which one day leads to
/// the local date, おととい/おとつい/いっさくじつ two days, さきおととい three.
pub proof fn lemma_day_readings(t: LocalDateTimeView)
    requires
        t.wf(),
    ensures
        dated_after("きょう"@, t, 0),
        dated_after("あした"@, t, 1),
        dated_after("あす"@, t, 1),
        dated_after("あさって"@, t, 2),
        dated_after("みょうごにち"@, t, 2),
        dated_after("しあさって"@, t, 3),
        dated_before("きのう"@, t, 1),
        dated_before("さくじつ"@, t, 1),
        dated_before("おととい"@, t, 2),
        dated_before("おとつい"@, t, 2),
        dated_before("いっさくじつ"@, t, 2),
        dated_before("さきおととい"@, t, 3),
{
    lemma_relative_day_values();
    lemma_dated_after("きょう"@, t, 0);
    lemma_dated_after("あした"@, t, 1);
    lemma_dated_after("あす"@, t, 1);
    lemma_dated_after("あさって"@, t, 2);
    lemma_dated_after("みょうごにち"@, t, 2);
    lemma_dated_after("しあさって"@, t, 3);
    lemma_dated_before("きのう"@, t, 1);
    lemma_dated_before("さくじつ"@, t, 1);
    lemma_dated_before("おととい"@, t, 2);
    lemma_dated_before("おとつい"@, t, 2);
    lemma_dated_before("いっさくじつ"@, t, 2);
    lemma_dated_before("さきおととい"@, t, 3);
}


/// `h` with the lowercase hexadecimal letters `a`..`f` made uppercase.
pub open spec fn hex_upper(h: Seq<char>) -> Seq<char> {
    h.map_values(|c: char| if 'a' <= c && c <= 'f' { ((c as int) - 32) as char } else { c })
}

proof fn lemma_code_point_digits(prefix: Seq<char>, h: Seq<char>)
    requires
        prefix == "U+"@ || prefix == "u+"@,
    ensures
        code_point_digits(prefix + h) == Some(h),
{
    reveal_strlit("U+");
    reveal_strlit("u+");
    assert((prefix + h).subrange(2, (prefix + h).len() as int) =~= h);
}

proof fn lemma_hex_upper(h: Seq<char>)
    ensures
        hex_value(hex_upper(h)) == hex_value(h),
        hex_upper(h).len() == h.len(),
        forall|i: int| 0 <= i < h.len() ==> is_hex_digit(#[trigger] hex_upper(h)[i]) == is_hex_digit(h[i]),
    decreases h.len(),
{
    if h.len() > 0 {
        lemma_hex_upper(h.drop_last());
        assert(hex_upper(h).drop_last() =~= hex_upper(h.drop_last()));
    }
}

/// Code point readings do not depend on the case of the hexadecimal
/// letters, nor on the case of the `U` of `U+`.
pub proof fn lemma_unicode_case_insensitive(h: Seq<char>)
    ensures
        unicode_texts("U+"@ + h) == unicode_texts("U+"@ + hex_upper(h)),
        unicode_texts("u+"@ + h) == unicode_texts("U+"@ + h),
{
    lemma_code_point_digits("U+"@, h);
    lemma_code_point_digits("u+"@, h);
    lemma_code_point_digits("U+"@, hex_upper(h));
    lemma_hex_upper(h);
    let u = hex_upper(h);
    assert((forall|i: int| 0 <= i < h.len() ==> is_hex_digit(#[trigger] h[i])) <==> (forall|i: int|
        0 <= i < u.len() ==> is_hex_digit(#[trigger] u[i]))) by {
        if forall|i: int| 0 <= i < h.len() ==> is_hex_digit(#[trigger] h[i]) {
            assert forall|i: int| 0 <= i < u.len() implies is_hex_digit(#[trigger] u[i]) by {
                assert(is_hex_digit(h[i]));
            }
        }
        if forall|i: int| 0 <= i < u.len() ==> is_hex_digit(#[trigger] u[i]) {
            assert forall|i: int| 0 <= i < h.len() implies is_hex_digit(#[trigger] h[i]) by {
                assert(is_hex_digit(u[i]));
            }
        }
    }
}

/// A single hexadecimal digit names the code point of its value: the digit
/// at position `k` of `0123456789abcdef`, or of `0123456789ABCDEF`, gives
/// the character with code point `k`.
pub proof fn lemma_unicode_single_digit(k: int)
    requires
        0 <= k < 16,
    ensures
        unicode_texts("U+"@ + seq!["0123456789abcdef"@[k]]) == seq![seq![k as char]],
        unicode_texts("U+"@ + seq!["0123456789ABCDEF"@[k]]) == seq![seq![k as char]],
{
    reveal_strlit("0123456789abcdef");
    reveal_strlit("0123456789ABCDEF");
    let lower = seq!["0123456789abcdef"@[k]];
    let upper = seq!["0123456789ABCDEF"@[k]];
    lemma_code_point_digits("U+"@, lower);
    lemma_code_point_digits("U+"@, upper);
    assert(lower.drop_last() =~= Seq::<char>::empty());
    assert(upper.drop_last() =~= Seq::<char>::empty());
    assert(is_hex_digit(lower[0]) && is_hex_digit(upper[0])) by {
        assert(0 <= k < 16);
    }
    if k == 0 {
        assert(hex_digit_value(lower[0]) == 0 && hex_digit_value(upper[0]) == 0);
    } else if k == 1 {
        assert(hex_digit_value(lower[0]) == 1 && hex_digit_value(upper[0]) == 1);
    } else if k == 2 {
        assert(hex_digit_value(lower[0]) == 2 && hex_digit_value(upper[0]) == 2);
    } else if k == 3 {
        assert(hex_digit_value(lower[0]) == 3 && hex_digit_value(upper[0]) == 3);
    } else if k == 4 {
        assert(hex_digit_value(lower[0]) == 4 && hex_digit_value(upper[0]) == 4);
    } else if k == 5 {
        assert(hex_digit_value(lower[0]) == 5 && hex_digit_value(upper[0]) == 5);
    } else if k == 6 {
        assert(hex_digit_value(lower[0]) == 6 && hex_digit_value(upper[0]) == 6);
    } else if k == 7 {
        assert(hex_digit_value(lower[0]) == 7 && hex_digit_value(upper[0]) == 7);
    } else if k == 8 {
        assert(hex_digit_value(lower[0]) == 8 && hex_digit_value(upper[0]) == 8);
    } else if k == 9 {
        assert(hex_digit_value(lower[0]) == 9 && hex_digit_value(upper[0]) == 9);
    } else if k == 10 {
        assert(hex_digit_value(lower[0]) == 10 && hex_digit_value(upper[0]) == 10);
    } else if k == 11 {
        assert(hex_digit_value(lower[0]) == 11 && hex_digit_value(upper[0]) == 11);
    } else if k == 12 {
        assert(hex_digit_value(lower[0]) == 12 && hex_digit_value(upper[0]) == 12);
    } else if k == 13 {
        assert(hex_digit_value(lower[0]) == 13 && hex_digit_value(upper[0]) == 13);
    } else if k == 14 {
        assert(hex_digit_value(lower[0]) == 14 && hex_digit_value(upper[0]) == 14);
    } else if k == 15 {
        assert(hex_digit_value(lower[0]) == 15 && hex_digit_value(upper[0]) == 15);
    }
    assert(lower.last() == lower[0] && upper.last() == upper[0]);
    assert(hex_value(lower.drop_last()) == 0 && hex_value(upper.drop_last()) == 0);
    assert(hex_value(lower) == k);
    assert(hex_value(upper) == k);
}

/// Appending a hexadecimal digit to a code point reading multiplies its code
/// point by sixteen and adds the digit's own code point.
pub proof fn lemma_unicode_append_digit(h: Seq<char>, c: char, x: char, y: char)
    requires
        h.len() <= 5,
        unicode_texts("U+"@ + h) == seq![seq![x]],
        unicode_texts("U+"@ + seq![c]) == seq![seq![y]],
        is_scalar_value(16 * (x as int) + (y as int)),
    ensures
        unicode_texts("U+"@ + h.push(c)) == seq![seq![(16 * (x as int) + (y as int)) as char]],
{
    lemma_code_point_digits("U+"@, h);
    lemma_code_point_digits("U+"@, seq![c]);
    lemma_code_point_digits("U+"@, h.push(c));
    assert(seq![c].drop_last() =~= Seq::<char>::empty());
    assert(h.push(c).drop_last() =~= h);
    let hc = seq![c];
    assert(hc[0] == c);
    assert(unicode_texts("U+"@ + hc).len() == 1);
    assert(forall|i: int| 0 <= i < hc.len() ==> is_hex_digit(#[trigger] hc[i]));
    assert(is_hex_digit(hc[0]));
    assert(unicode_texts("U+"@ + h).len() == 1);
    assert(forall|i: int| 0 <= i < h.len() ==> is_hex_digit(#[trigger] h[i]));
    assert forall|i: int| 0 <= i < h.push(c).len() implies is_hex_digit(#[trigger] h.push(c)[i]) by {
        if i < h.len() {
            assert(h.push(c)[i] == h[i]);
        }
    }
    assert(hc.last() == c);
    assert(hex_value(hc.drop_last()) == 0);
    let vh = hex_value(h);
    let vc = hex_value(hc);
    assert(is_scalar_value(vh) && is_scalar_value(vc));
    assert(seq![seq![x]] == seq![seq![vh as char]]);
    assert(seq![seq![x]][0][0] == x && seq![seq![vh as char]][0][0] == vh as char);
    assert(seq![seq![y]] == seq![seq![vc as char]]);
    assert(seq![seq![y]][0][0] == y && seq![seq![vc as char]][0][0] == vc as char);
    assert(x as int == vh);
    assert(y as int == vc);
    assert(hex_value(h.push(c)) == vh * 16 + hex_digit_value(c));
}


/// The full-width form of an ASCII digit.
pub open spec fn full_width_digit(c: char) -> char {
    ((c as int) - ('0' as int) + ('０' as int)) as char
}

/// `s` with its ASCII digits written full-width.
pub open spec fn full_width_digits(s: Seq<char>) -> Seq<char> {
    s.map_values(|c: char| if '0' <= c && c <= '9' { full_width_digit(c) } else { c })
}

/// The four-digit reading of the digits `a`, `b`, `c`, `d` names the month
/// `ab` and day `cd` when that is a date of a leap year, and in any case the
/// time `ab:cd`: the date forms `M月D日` and `MM/DD` come first, then the
/// time forms. Full-width digits read as the same reading.
pub proof fn lemma_four_digit_reading(a: char, b: char, c: char, d: char)
    requires
        '0' <= a <= '9',
        '0' <= b <= '9',
        '0' <= c <= '9',
        '0' <= d <= '9',
    ensures
        ({
            let first = 10 * ((a as int) - 48) + ((b as int) - 48);
            let second = 10 * ((c as int) - 48) + ((d as int) - 48);
            let date = if is_valid_date(2000, first, second) {
                seq![
                    decimal(first as nat) + "月"@ + decimal(second as nat) + "日"@,
                    padded(first as nat, 2) + "/"@ + padded(second as nat, 2),
                ]
            } else {
                seq![]
            };
            four_digit_texts(seq![a, b, c, d]) == date + time_texts(first, second)
        }),
        four_digit_texts(full_width_digits(seq![a, b, c, d])) == four_digit_texts(seq![a, b, c, d]),
{
    let s = seq![a, b, c, d];
    assert(normalized_digits(s) =~= s);
    assert(normalized_digits(full_width_digits(s)) =~= s);
    assert(crate::text::all_ascii_digits(s));
    let first = 10 * ((a as int) - 48) + ((b as int) - 48);
    let second = 10 * ((c as int) - 48) + ((d as int) - 48);
    lemma_two_digits_value(a, b);
    lemma_two_digits_value(c, d);
    assert(s.subrange(0, 2) =~= seq![a, b]);
    assert(s.subrange(2, 4) =~= seq![c, d]);
    assert(signed_decimal(first) == decimal(first as nat));
    assert(signed_decimal(second) == decimal(second as nat));
}

proof fn lemma_two_digits_value(a: char, b: char)
    ensures
        crate::text::digits_value(seq![a, b]) == 10 * ((a as int) - 48) + ((b as int) - 48),
{
    let p = seq![a, b];
    assert(p.drop_last() =~= seq![a]);
    assert(seq![a].drop_last() =~= Seq::<char>::empty());
    assert(crate::text::digits_value(Seq::<char>::empty()) == 0);
    assert(crate::text::digits_value(seq![a]) == (a as int) - 48);
}

proof fn lemma_year_body(body: Seq<char>)
    ensures
        year_reading_body(body + "年"@) == Some(body),
        year_reading_body(body + "ねん"@) == Some(body),
{
    reveal_strlit("ねん");
    reveal_strlit("年");
    let k = body + "年"@;
    assert(k[k.len() - 1] == '年');
    if k.len() >= 2 {
        assert(k.subrange(k.len() - 2, k.len() as int)[1] == k[k.len() - 1]);
        assert(k.subrange(k.len() - 2, k.len() as int) != "ねん"@) by {
            assert("ねん"@[1] == 'ん');
        }
    }
    assert(k.drop_last() =~= body);
    let n = body + "ねん"@;
    assert(n.subrange(n.len() - 2, n.len() as int) =~= "ねん"@);
    assert(n.subrange(0, n.len() - 2) =~= body);
}

/// A year reading ending in `年` reads as the one ending in `ねん`; a year
/// written in decimal digits (ASCII or full-width) gives the era years of
/// that year, each followed by `年`.
pub proof fn lemma_year_reading(body: Seq<char>, year: nat)
    requires
        year <= i32::MAX,
    ensures
        ad_year_texts(body + "年"@) == ad_year_texts(body + "ねん"@),
        ad_year_texts(decimal(year) + "ねん"@) == era_names(year as int, 0).map_values(|e: Seq<char>| e + "年"@),
        ad_year_texts(full_width_digits(decimal(year)) + "ねん"@) == ad_year_texts(decimal(year) + "ねん"@),
{
    lemma_year_body(body);
    let digits = decimal(year);
    lemma_year_body(digits);
    lemma_year_body(full_width_digits(digits));
    lemma_decimal_digits(year);
    assert(normalized_digits(full_width_digits(digits)) =~= digits);
    assert(normalized_digits(digits) =~= digits);
    assert(digits[0] != '-' && digits[0] != '+') by {
        assert(crate::text::is_ascii_digit(digits[0]));
    }
    assert(crate::text::parse_i32(digits) == Some(year as i32));
}

proof fn lemma_decimal_digits(n: nat)
    ensures
        decimal(n).len() >= 1,
        crate::text::all_ascii_digits(decimal(n)),
        crate::text::digits_value(decimal(n)) == n,
    decreases n,
{
    if n >= 10 {
        lemma_decimal_digits(n / 10);
        let s = decimal(n);
        assert(s.drop_last() == decimal(n / 10));
        assert(s.last() == crate::text::digit_char((n % 10) as int));
        assert(crate::text::digit_char((n % 10) as int) as int == 48 + n % 10);
        assert((n / 10) * 10 + n % 10 == n);
        assert forall|i: int| 0 <= i < s.len() implies crate::text::is_ascii_digit(#[trigger] s[i]) by {
            if i < s.len() - 1 {
                assert(s[i] == decimal(n / 10)[i]);
            }
        }
    } else {
        assert(decimal(n).drop_last() =~= Seq::<char>::empty());
        assert(crate::text::digit_char(n as int) as int == 48 + n);
        assert(crate::text::digits_value(Seq::<char>::empty()) == 0);
    }
}

/// The ASCII arithmetic characters: digits, `.`, `+`, `-`, `*`, `/`, `^`,
/// `(` and `)`.
pub open spec fn is_arithmetic_ascii(c: char) -> bool {
    ('0' <= c && c <= '9') || c == '.' || c == '+' || c == '-' || c == '*' || c == '/' || c == '^' || c == '('
        || c == ')'
}

/// The full-width form of an ASCII arithmetic character.
pub open spec fn full_width_arithmetic(c: char) -> char {
    if '0' <= c && c <= '9' {
        full_width_digit(c)
    } else if c == '.' {
        '．'
    } else if c == '+' {
        '＋'
    } else if c == '-' {
        '－'
    } else if c == '*' {
        '＊'
    } else if c == '/' {
        '／'
    } else if c == '^' {
        '＾'
    } else if c == '(' {
        '（'
    } else if c == ')' {
        '）'
    } else {
        c
    }
}

/// The same character with the long vowel mark `ー` for `-` and the middle
/// dot `・` for `/`.
pub open spec fn kana_arithmetic(c: char) -> char {
    if c == '-' {
        'ー'
    } else if c == '/' {
        '・'
    } else {
        c
    }
}

/// A calculation written with full-width symbols and digits, or with `ー`
/// for minus and `・` for division, ending in `＝` or `=`, asks for the same
/// expression as the ASCII text ending in `=`, which is that text itself.
pub proof fn lemma_calculation_full_width(s: Seq<char>)
    requires
        forall|i: int| 0 <= i < s.len() ==> is_arithmetic_ascii(#[trigger] s[i]),
    ensures
        calculation_input(s.push('=')) == Some(s),
        calculation_input(s.map_values(|c: char| full_width_arithmetic(c)).push('＝')) == Some(s),
        calculation_input(s.map_values(|c: char| kana_arithmetic(c)).push('=')) == Some(s),
        calculation_expression_of(s.map_values(|c: char| full_width_arithmetic(c)).push('＝'))
            == calculation_expression_of(s.push('=')),
        calculation_expression_of(s.map_values(|c: char| kana_arithmetic(c)).push('='))
            == calculation_expression_of(s.push('=')),
{
    let w = s.map_values(|c: char| full_width_arithmetic(c));
    let k = s.map_values(|c: char| kana_arithmetic(c));
    assert(s.push('=').drop_last() =~= s);
    assert(w.push('＝').drop_last() =~= w);
    assert(k.push('=').drop_last() =~= k);
    assert(s.map_values(|x: char| normalize_arithmetic(x)) =~= s);
    assert(w.map_values(|x: char| normalize_arithmetic(x)) =~= s);
    assert(k.map_values(|x: char| normalize_arithmetic(x)) =~= s);
}

} // verus!
