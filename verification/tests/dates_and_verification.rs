use btcmap::dates::day_start_of;
use btcmap::dates::freshness_limit_of;
use btcmap::dates::FRESHNESS_WINDOW_SECONDS;
use btcmap::element::ElementKind;
use btcmap::element::OverpassElement;
use btcmap::element::Tag;
use btcmap::verification::average_date_of;

fn record(pairs: &[(&str, &str)]) -> OverpassElement {
    OverpassElement {
        kind: ElementKind::Node,
        id: 1,
        tags: pairs.iter().map(|(n, v)| Tag { name: n.to_string(), value: v.to_string() }).collect(),
        uid: 0,
        user: String::new(),
        visible: true,
        payload: String::new(),
    }
}

#[test]
fn day_start_is_midnight_utc() {
    assert_eq!(day_start_of("2023-02-25"), Some(1_677_283_200));
    assert_eq!(day_start_of("1970-01-01"), Some(0));
    assert_eq!(day_start_of("1969-12-31"), Some(-86_400));
}

#[test]
fn unreadable_days_have_no_start() {
    assert_eq!(day_start_of(""), None);
    assert_eq!(day_start_of("2023-2-5"), None);
    assert_eq!(day_start_of("2023-02-30"), None);
    assert_eq!(day_start_of("yesterday"), None);
    assert_eq!(day_start_of("2023-02-25T10:00:00Z"), None);
}

#[test]
fn freshness_limit_is_one_year_back() {
    assert_eq!(FRESHNESS_WINDOW_SECONDS, 365 * 24 * 60 * 60);
    assert_eq!(freshness_limit_of(1_677_283_200).as_deref(), Some("2022-02-25"));
    assert_eq!(freshness_limit_of(1_677_283_199).as_deref(), Some("2022-02-24"));
    assert_eq!(freshness_limit_of(31_536_000).as_deref(), Some("1970-01-01"));
    // 2024 is a leap year: 365 days before 2024-12-31 is 2024-01-01.
    assert_eq!(freshness_limit_of(1_735_603_200).as_deref(), Some("2024-01-01"));
}

#[test]
fn freshness_limit_out_of_range_is_none() {
    assert_eq!(freshness_limit_of(i64::MIN), None);
    assert_eq!(freshness_limit_of(i64::MIN + FRESHNESS_WINDOW_SECONDS - 1), None);
    assert_eq!(freshness_limit_of(i64::MAX), None);
}

#[test]
fn verification_text_is_the_latest_of_three_tags() {
    assert_eq!(record(&[]).verification_text(), "");
    assert_eq!(record(&[("survey:date", "2020-01-01")]).verification_text(), "2020-01-01");
    assert_eq!(
        record(&[("survey:date", "2020-01-01"), ("check_date", "2021-06-01")]).verification_text(),
        "2021-06-01"
    );
    assert_eq!(
        record(&[
            ("check_date:currency:XBT", "2021-05-31"),
            ("survey:date", "2020-01-01"),
            ("check_date", "2021-06-01"),
        ])
        .verification_text(),
        "2021-06-01"
    );
    assert_eq!(
        record(&[("check_date", "2023-02-15"), ("check_date:currency:XBT", "2023-02-25")])
            .verification_text(),
        "2023-02-25"
    );
}

#[test]
fn verification_date_reads_the_latest_tag() {
    let r = record(&[("check_date", "2023-02-15"), ("check_date:currency:XBT", "2023-02-25")]);
    assert_eq!(r.verification_date(), Some(1_677_283_200));
    assert_eq!(record(&[]).verification_date(), None);
    assert_eq!(record(&[("check_date", "2023")]).verification_date(), None);
}

#[test]
fn up_to_date_means_dated_after_the_limit() {
    let r = record(&[("check_date", "2023-02-15")]);
    assert!(r.up_to_date("2023-02-14"));
    assert!(!r.up_to_date("2023-02-15"));
    assert!(!r.up_to_date("2023-02-16"));
    assert!(!record(&[]).up_to_date("2000-01-01"));
    assert!(record(&[("survey:date", "2023-02-15")]).up_to_date(""));
}

#[test]
fn average_leaves_out_the_future_and_the_missing() {
    assert_eq!(average_date_of(&vec![], 100), None);
    assert_eq!(average_date_of(&vec![None, None], 100), None);
    assert_eq!(average_date_of(&vec![Some(101)], 100), None);
    assert_eq!(average_date_of(&vec![Some(100)], 100), Some(100));
    assert_eq!(average_date_of(&vec![Some(10), None, Some(1000), Some(21)], 100), Some(15));
    assert_eq!(average_date_of(&vec![Some(1), Some(2)], 100), Some(1));
}

#[test]
fn average_rounds_toward_zero() {
    assert_eq!(average_date_of(&vec![Some(-1), Some(-2)], 0), Some(-1));
    assert_eq!(average_date_of(&vec![Some(-7), Some(2)], 10), Some(-2));
    assert_eq!(average_date_of(&vec![Some(7), Some(-2)], 10), Some(2));
    assert_eq!(average_date_of(&vec![Some(-3), Some(3)], 10), Some(0));
}

#[test]
fn average_of_extreme_timestamps_does_not_overflow() {
    assert_eq!(
        average_date_of(&vec![Some(i64::MAX), Some(i64::MAX), Some(i64::MAX)], i64::MAX),
        Some(i64::MAX)
    );
    assert_eq!(
        average_date_of(&vec![Some(i64::MIN), Some(i64::MIN)], 0),
        Some(i64::MIN)
    );
    assert_eq!(average_date_of(&vec![Some(i64::MIN), Some(i64::MAX)], i64::MAX), Some(0));
}

#[test]
fn survey_goes_by_two_tags() {
    let r = record(&[("check_date:currency:XBT", "2023-02-25")]);
    assert!(r.up_to_date("2023-01-01"));
    assert!(!r.surveyed_after("2023-01-01"));
    assert!(record(&[("survey:date", "2023-02-25")]).surveyed_after("2023-01-01"));
    assert!(record(&[("check_date", "2023-02-25")]).surveyed_after("2023-01-01"));
    assert!(!record(&[("check_date", "2023-01-01")]).surveyed_after("2023-01-01"));
    assert!(record(&[("survey:date", "2020-01-01"), ("check_date", "2023-02-25")])
        .surveyed_after("2023-01-01"));
    assert!(!record(&[]).surveyed_after(""));
}
