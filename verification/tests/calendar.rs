use karukan::calendar::{
    civil_from_days, days_from_civil, days_in_month, shifted_date, shifted_month, weekday_for, weekday_name,
};
use karukan::era::{era_candidates, format_era};
use karukan::special::{
    ad_year_candidates, date_formats, four_digit_candidates, normalize_digits, time_formats, unicode_candidate,
    version_candidate,
};

#[test]
fn day_numbers_round_trip() {
    assert_eq!(days_from_civil(1970, 1, 1), 0);
    assert_eq!(days_from_civil(2000, 3, 1), 11017);
    assert_eq!(days_from_civil(1969, 12, 31), -1);
    for days in [-719468i64, -1, 0, 59, 11016, 11017, 19782, 2932896] {
        let (y, m, d) = civil_from_days(days);
        assert_eq!(days_from_civil(y, m, d), days);
    }
    assert_eq!(civil_from_days(19782), (2024, 2, 29));
}

#[test]
fn month_lengths_follow_the_gregorian_rules() {
    assert_eq!(days_in_month(2024, 2), 29);
    assert_eq!(days_in_month(2023, 2), 28);
    assert_eq!(days_in_month(1900, 2), 28);
    assert_eq!(days_in_month(2000, 2), 29);
    assert_eq!(days_in_month(2024, 4), 30);
    assert_eq!(days_in_month(2024, 12), 31);
    assert_eq!(days_in_month(2024, 13), 0);
}

#[test]
fn shifting_dates_and_months() {
    assert_eq!(shifted_date(2024, 2, 29, 1), (2024, 3, 1));
    assert_eq!(shifted_date(2024, 3, 1, -1), (2024, 2, 29));
    assert_eq!(shifted_date(2023, 12, 31, 1), (2024, 1, 1));
    assert_eq!(shifted_month(2024, 12, 1), (2025, 1));
    assert_eq!(shifted_month(2024, 1, -1), (2023, 12));
    assert_eq!(weekday_for(1970, 1, 1), 4);
    assert_eq!(weekday_for(2024, 2, 29), 4);
    assert_eq!(weekday_name(weekday_for(2024, 3, 4)), "月");
    assert_eq!(weekday_name(0), "日");
}

#[test]
fn date_and_time_forms() {
    assert_eq!(
        date_formats(2024, 3, 1),
        vec!["2024/03/01", "2024-03-01", "2024年3月1日", "令和6年3月1日", "金曜日"]
    );
    assert_eq!(time_formats(9, 30), vec!["09:30", "9時30分", "9時半", "午前9時30分", "午前9時半"]);
    assert_eq!(time_formats(13, 5), vec!["13:05", "13時05分", "午後1時5分"]);
    assert_eq!(time_formats(25, 0), vec!["25:00", "25時00分", "午前1時0分"]);
    assert!(time_formats(30, 0).is_empty());
    assert!(time_formats(10, 60).is_empty());
}

#[test]
fn era_labels_and_ad_years() {
    assert_eq!(format_era("令和", 1), "令和元");
    assert_eq!(format_era("令和", 6), "令和6");
    assert_eq!(era_candidates(644, 1), Vec::<String>::new());
    assert_eq!(era_candidates(2024, 1), vec!["令和6"]);
    assert_eq!(era_candidates(2019, 0), vec!["令和元", "平成31"]);
    assert!(ad_year_candidates("ねん").is_empty());
    assert_eq!(ad_year_candidates("１９８９ねん"), vec!["平成元年", "昭和64年"]);
}

#[test]
fn digits_and_single_candidates() {
    assert_eq!(normalize_digits("２０２４"), vec!['2', '0', '2', '4']);
    assert_eq!(normalize_digits("a1"), vec!['a', '1']);
    assert!(four_digit_candidates("123").is_empty());
    assert_eq!(four_digit_candidates("1231")[0], "12月31日");
    assert_eq!(unicode_candidate("U+3042"), vec!["あ"]);
    assert_eq!(unicode_candidate("U+41"), vec!["A"]);
    assert!(unicode_candidate("U+DFFF").is_empty());
    assert!(unicode_candidate("X+41").is_empty());
    assert_eq!(version_candidate("ばーじょん"), vec!["Karukan 0.1.0"]);
    assert!(version_candidate("ばーじょ").is_empty());
}

#[test]
fn era_name_counts_and_month_independence() {
    assert!(era_candidates(644, 3).is_empty());
    assert!(era_candidates(2201, 0).is_empty());
    assert_eq!(era_candidates(1868, 0), vec!["明治元", "慶応4"]);
    assert_eq!(era_candidates(2200, 0), vec!["令和182"]);
    for year in [645, 700, 1185, 1868, 1989, 2018, 2020, 2200] {
        let names = era_candidates(year, 0);
        assert!((1..=2).contains(&names.len()), "{year}");
        for month in 1..=12 {
            assert_eq!(era_candidates(year, month), names, "{year}-{month}");
        }
    }
}
