use karukan::calendar::weekday_for;
use karukan::era::era_candidates;
use karukan::expression::Expr;
use karukan::special::{calculation_expression, fits_date_readings, LocalDateTime, SpecialConversionRewriter};

fn local(year: i32, month: u32, day: u32, hour: u32, minute: u32) -> LocalDateTime {
    LocalDateTime::new(year, month, day, hour, minute, weekday_for(year, month, day))
}

fn evaluate(expression: &Expr) -> Option<f64> {
    let finite = |value: f64| value.is_finite().then_some(value);
    match expression {
        Expr::Number(digits) => digits.iter().collect::<String>().parse().ok(),
        Expr::Plus(a) => evaluate(a),
        Expr::Negate(a) => Some(-evaluate(a)?),
        Expr::Add(a, b) => finite(evaluate(a)? + evaluate(b)?),
        Expr::Subtract(a, b) => finite(evaluate(a)? - evaluate(b)?),
        Expr::Multiply(a, b) => finite(evaluate(a)? * evaluate(b)?),
        Expr::Divide(a, b) => {
            let value = evaluate(a)?;
            let divisor = evaluate(b)?;
            if divisor == 0.0 {
                None
            } else {
                finite(value / divisor)
            }
        }
        Expr::Power(a, b) => finite(evaluate(a)?.powf(evaluate(b)?)),
        Expr::Group(a) => evaluate(a),
    }
}

fn format_number(value: f64) -> String {
    if value == 0.0 {
        "0".to_string()
    } else if value.fract() == 0.0 {
        format!("{value:.0}")
    } else {
        value.to_string()
    }
}

fn calculation(candidate: &str) -> Option<String> {
    calculation_expression(candidate)
        .and_then(|expression| evaluate(&expression))
        .filter(|value| value.is_finite())
        .map(format_number)
}

fn rewrite(candidate: &str, local_datetime: LocalDateTime) -> Vec<String> {
    SpecialConversionRewriter::new()
        .rewrite_with_local_datetime(candidate, local_datetime, calculation(candidate))
        .into_iter()
        .map(|(text, _)| text)
        .collect()
}

#[test]
fn relative_dates_cross_days_months_and_leap_days() {
    let leap_day = local(2024, 2, 29, 23, 30);
    assert!(rewrite("あした", leap_day).contains(&"2024/03/01".to_string()));
    assert!(rewrite("きのう", leap_day).contains(&"2024/02/28".to_string()));
    assert!(rewrite("あした", local(2023, 12, 31, 0, 0)).contains(&"2024/01/01".to_string()));
}

#[test]
fn weekdays_years_months_and_current_datetime_are_generated() {
    let value = local(2024, 2, 29, 9, 30);
    assert!(rewrite("げつようび", value).contains(&"2024/03/04".to_string()));
    assert!(rewrite("らいねん", value).contains(&"2025年".to_string()));
    assert!(rewrite("らいげつ", value).contains(&"3月".to_string()));
    assert!(rewrite("いま", value).contains(&"09:30".to_string()));
    assert_eq!(rewrite("にちじ", value), vec!["2024/02/29 09:30"]);
}

#[test]
fn era_table_covers_taika_and_reiwa_boundaries() {
    assert_eq!(rewrite("645ねん", local(2024, 1, 1, 0, 0)), vec!["大化元年"]);
    assert_eq!(rewrite("1989ねん", local(2024, 1, 1, 0, 0)), vec!["平成元年", "昭和64年"]);
    assert_eq!(rewrite("2019ねん", local(2024, 1, 1, 0, 0)), vec!["令和元年", "平成31年"]);
    assert!(rewrite("2201ねん", local(2024, 1, 1, 0, 0)).is_empty());
    assert_eq!(era_candidates(645, 1), vec!["大化元"]);
    assert_eq!(era_candidates(2019, 4), vec!["平成31"]);
    assert_eq!(era_candidates(2019, 5), vec!["令和元"]);
}

#[test]
fn four_digit_dates_and_times_validate_boundaries() {
    let result = rewrite("0130", local(2024, 1, 1, 0, 0));
    assert!(result.contains(&"1月30日".to_string()));
    assert!(result.contains(&"01:30".to_string()));
    assert!(result.contains(&"1時半".to_string()));
    assert!(rewrite("0230", local(2024, 1, 1, 0, 0)).contains(&"02:30".to_string()));
    assert!(rewrite("2430", local(2024, 1, 1, 0, 0)).contains(&"24時半".to_string()));
    assert!(rewrite("2959", local(2024, 1, 1, 0, 0)).contains(&"29:59".to_string()));
    assert!(rewrite("3000", local(2024, 1, 1, 0, 0)).is_empty());
    assert!(rewrite("2460", local(2024, 1, 1, 0, 0)).is_empty());
    assert!(rewrite("😀", local(2024, 1, 1, 0, 0)).is_empty());
}

#[test]
fn calculations_honor_precedence_right_association_and_invalid_inputs() {
    assert_eq!(rewrite("1+2*3=", local(2024, 1, 1, 0, 0)), vec!["7"]);
    assert_eq!(rewrite("2^3^2=", local(2024, 1, 1, 0, 0)), vec!["512"]);
    assert_eq!(rewrite("(1+2)*3＝", local(2024, 1, 1, 0, 0)), vec!["9"]);
    assert_eq!(rewrite("１ー２＝", local(2024, 1, 1, 0, 0)), vec!["-1"]);
    assert_eq!(rewrite("1・2＝", local(2024, 1, 1, 0, 0)), vec!["0.5"]);
    for input in ["1/0=", "1+=", "1..2=", "1e3=", "1e309="] {
        assert!(rewrite(input, local(2024, 1, 1, 0, 0)).is_empty(), "{input}");
    }
}

#[test]
fn unicode_version_emoticon_and_reading_correction_are_generated() {
    assert_eq!(rewrite("U+611B", local(2024, 1, 1, 0, 0)), vec!["愛"]);
    assert_eq!(rewrite("u+10FFFF", local(2024, 1, 1, 0, 0)), vec!["\u{10FFFF}"]);
    for input in ["U+D800", "U+110000", "U+", "U+1234567"] {
        assert!(rewrite(input, local(2024, 1, 1, 0, 0)).is_empty(), "{input}");
    }
    assert!(rewrite("ばーじょん", local(2024, 1, 1, 0, 0)).contains(&"Karukan 0.1.0".to_string()));
    assert!(rewrite("かおもじ", local(2024, 1, 1, 0, 0)).contains(&"＼(^o^)／".to_string()));
    assert!(rewrite("にこにこ", local(2024, 1, 1, 0, 0)).contains(&"＼(^o^)／".to_string()));
    assert!(rewrite("あぼがど", local(2024, 1, 1, 0, 0)).contains(&"アボカド".to_string()));
    assert!(rewrite("しゅみれーしょん", local(2024, 1, 1, 0, 0)).contains(&"シミュレーション".to_string()));
}

#[test]
fn rewrite_texts_are_distinct_and_described() {
    let outputs = SpecialConversionRewriter::new().rewrite_with_local_datetime(
        "0130",
        local(2024, 1, 1, 0, 0),
        None,
    );
    let mut texts: Vec<&str> = outputs.iter().map(|(text, _)| text.as_str()).collect();
    let before = texts.len();
    assert!(before > 0);
    texts.sort();
    texts.dedup();
    assert_eq!(texts.len(), before);
    assert!(outputs.iter().all(|(_, description)| description.is_some()));
    assert_eq!(outputs[0], ("1月30日".to_string(), Some("日付・時刻".to_string())));
}

#[test]
fn rewrite_without_clock_drops_relative_dates() {
    let rewriter = SpecialConversionRewriter::new();
    let outputs = rewriter.rewrite("きょう", None, None);
    assert!(outputs.iter().all(|(_, description)| description.as_deref() != Some("日付")));
    let with_clock = rewriter.rewrite("きょう", Some(local(2024, 2, 29, 9, 30)), None);
    assert_eq!(with_clock[0], ("2024/02/29".to_string(), Some("日付".to_string())));
    let version = rewriter.rewrite("ばーじょん", None, None);
    assert_eq!(version, vec![("Karukan 0.1.0".to_string(), Some("バージョン".to_string()))]);
    assert_eq!(rewriter.name(), "special_conversion");
}

#[test]
fn calculation_result_is_offered_only_for_calculations() {
    let rewriter = SpecialConversionRewriter::new();
    let day = local(2024, 1, 1, 0, 0);
    let outputs = rewriter.rewrite_with_local_datetime("1+1=", day, Some("2".to_string()));
    assert_eq!(outputs, vec![("2".to_string(), Some("計算結果".to_string()))]);
    let ignored = rewriter.rewrite_with_local_datetime("あいう", day, Some("2".to_string()));
    assert!(ignored.is_empty());
}

#[test]
fn local_date_time_takes_any_fields() {
    let rewriter = SpecialConversionRewriter::new();
    // February 29th of a common year is read as March 1st.
    let invalid = LocalDateTime::new(2023, 2, 29, 0, 0, 3);
    assert_eq!(rewriter.rewrite("きょう", Some(invalid), None)[0].0, "2023/03/01");
    let thirteenth = LocalDateTime::new(2024, 13, 1, 0, 0, 1);
    assert_eq!(rewriter.rewrite("こんげつ", Some(thirteenth), None)[0].0, "1");
    let far = LocalDateTime::new(i32::MAX, 1, 1, 0, 0, 1);
    assert!(fits_date_readings("ことし", &far));
    assert!(!fits_date_readings("らいねん", &far));
    assert!(!fits_date_readings("らいげつ", &far));
    assert_eq!(rewriter.rewrite("ことし", Some(far), None)[0].0, i32::MAX.to_string());
    let first = LocalDateTime::new(i32::MIN, 1, 1, 0, 0, 1);
    assert!(!fits_date_readings("きょう", &first));
    assert!(fits_date_readings("いま", &first));
    let late = LocalDateTime::new(i32::MAX, 12, 31, 0, 0, 1);
    assert!(!fits_date_readings("あした", &late));
    assert!(fits_date_readings("きのう", &late));
}

#[test]
fn expression_syntax_keeps_every_node() {
    let parse = |s: &str| karukan::expression::ExpressionParser::parse(s.chars().collect());
    assert!(parse("1+").is_none());
    assert!(parse("1..2").is_none());
    assert!(parse("()").is_none());
    assert!(parse("").is_none());
    match parse("-(1.5)^2").unwrap() {
        Expr::Negate(inner) => match *inner {
            Expr::Power(base, exponent) => {
                assert!(matches!(*base, Expr::Group(_)));
                assert!(matches!(*exponent, Expr::Number(ref d) if d == &vec!['2']));
            }
            other => panic!("{other:?}"),
        },
        other => panic!("{other:?}"),
    }
    match parse("2^3^2").unwrap() {
        Expr::Power(_, exponent) => assert!(matches!(*exponent, Expr::Power(_, _))),
        other => panic!("{other:?}"),
    }
    match parse("8-2-1").unwrap() {
        Expr::Subtract(left, _) => assert!(matches!(*left, Expr::Subtract(_, _))),
        other => panic!("{other:?}"),
    }
    assert!(calculation_expression("1+2").is_none());
    assert!(calculation_expression("１＋２＝").is_some());
}

#[test]
fn weekday_readings_name_a_date_on_that_weekday() {
    let readings = ["にちようび", "げつようび", "かようび", "すいようび", "もくようび", "きんようび", "どようび"];
    let names = ["日曜日", "月曜日", "火曜日", "水曜日", "木曜日", "金曜日", "土曜日"];
    for day in [1u32, 2, 3, 4, 5, 6, 7] {
        let today = local(2024, 12, 25 + day.min(6), 12, 0);
        for (reading, name) in readings.iter().zip(names.iter()) {
            let texts = karukan::special::date_candidates(reading, today);
            assert_eq!(texts.last().map(String::as_str), Some(*name), "{reading}");
        }
    }
    let tomorrow = karukan::special::date_candidates("あした", local(2024, 12, 31, 0, 0));
    assert_eq!(tomorrow[0], "2025/01/01");
    let yesterday = karukan::special::date_candidates("きのう", local(2024, 3, 1, 0, 0));
    assert_eq!(yesterday[0], "2024/02/29");
}

#[test]
fn repeated_texts_keep_their_first_group() {
    // "2024" comes from the year group of ことし; no later group repeats it.
    let outputs = SpecialConversionRewriter::new().rewrite_with_local_datetime(
        "ことし",
        local(2024, 5, 1, 0, 0),
        None,
    );
    assert_eq!(outputs[0], ("2024".to_string(), Some("日付".to_string())));
    let emoticons = karukan::special::emoticon_candidates("かおもじ");
    let mut sorted = emoticons.clone();
    sorted.sort();
    sorted.dedup();
    assert_eq!(sorted.len(), emoticons.len());
    for emoticon in karukan::special::emoticon_candidates("にこにこ") {
        assert!(emoticons.contains(&emoticon));
    }
}
