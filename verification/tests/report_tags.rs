use btcmap::element::Element;
use btcmap::element::ElementKind;
use btcmap::element::OverpassElement;
use btcmap::element::Tag;
use btcmap::reconcile::reconcile;
use btcmap::reconcile::Summary;
use btcmap::region::region_elements;
use btcmap::region::Boundary;
use btcmap::report::aggregate;
use btcmap::report::count_tagged;
use btcmap::report::count_up_to_date;
use btcmap::report::tally;
use btcmap::report::verification_dates_of;
use btcmap::report::ReportAction;
use btcmap::report::ReportError;
use btcmap::report::ReportPolicy;
use time::Duration;
use time::OffsetDateTime;

fn tags(pairs: &[(&str, &str)]) -> Vec<Tag> {
    pairs.iter().map(|(n, v)| Tag { name: n.to_string(), value: v.to_string() }).collect()
}

fn element(id: i64, pairs: &[(&str, &str)]) -> Element {
    Element {
        data: OverpassElement {
            kind: ElementKind::Node,
            id,
            tags: tags(pairs),
            uid: 0,
            user: String::new(),
            visible: true,
            payload: format!("{{\"id\":{id}}}"),
        },
        created_at: 0,
        updated_at: 0,
        deleted_at: None,
    }
}

#[test]
fn generate_report_tags() {
    let element_1 = Element {
        data: OverpassElement {
            kind: ElementKind::Node,
            id: 25338659,
            tags: tags(&[
                ("addr:city", "Gqeberha"),
                ("addr:postcode", "6045"),
                ("addr:street", "4th Avenue"),
                ("air_conditioning", "yes"),
                ("branch", "Newton Park"),
                ("brand", "Pick n Pay"),
                ("brand:wikidata", "Q7190735"),
                ("brand:wikipedia", "en:Pick n Pay Stores"),
                ("check_date", "2023-02-15"),
                ("check_date:currency:XBT", "2023-02-25"),
                ("contact:website", "https://www.pnp.co.za/"),
                ("currency:XBT", "yes"),
                ("currency:ZAR", "yes"),
                ("diet:vegetarian", "yes"),
                ("level", "0"),
                ("name", "Pick n Pay"),
                ("payment:credit_cards", "yes"),
                ("payment:debit_cards", "yes"),
                ("payment:mastercard", "yes"),
                ("payment:visa", "yes"),
                ("phone", "+27 41 365 1268"),
                ("second_hand", "no"),
                ("shop", "supermarket"),
                ("source", "survey"),
                ("stroller", "yes"),
                ("wheelchair", "yes"),
            ]),
            uid: 18545877,
            user: "BTC Map".to_string(),
            visible: true,
            payload: "{\"type\":\"node\",\"id\":25338659}".to_string(),
        },
        created_at: 0,
        updated_at: 0,
        deleted_at: None,
    };
    let today = OffsetDateTime::now_utc().date();
    let today_plus_year = today.checked_add(Duration::days(356)).unwrap();
    let element_2 = Element {
        data: OverpassElement {
            kind: ElementKind::Node,
            id: 6402700275,
            tags: tags(&[
                ("addr:city", "Cd. Cuauhtémoc"),
                ("addr:street", "Avenida Agustín Melgar"),
                ("brand", "Elektra"),
                ("brand:wikidata", "Q1142753"),
                ("brand:wikipedia", "es:Grupo Elektra"),
                ("check_date:currency:XBT", &today_plus_year.to_string()),
                ("currency:XBT", "yes"),
                ("name", "Elektra"),
                ("payment:cash", "yes"),
                ("payment:debit_cards", "yes"),
                ("payment:lightning", "yes"),
                ("payment:lightning_contactless", "no"),
                ("payment:onchain", "yes"),
                ("shop", "department_store"),
                ("website", "https://www.elektra.mx"),
            ]),
            uid: 232801,
            user: "CENTSOARER".to_string(),
            visible: true,
            payload: "{\"type\":\"node\",\"id\":6402700275}".to_string(),
        },
        created_at: 0,
        updated_at: 0,
        deleted_at: None,
    };
    let now = OffsetDateTime::now_utc().unix_timestamp();
    let report_tags =
        btcmap::report::generate_report_tags(&vec![&element_1, &element_2], now).unwrap();

    assert_eq!(2, report_tags.total_elements);
    assert_eq!(
        "2023-02-25T00:00:00.000000000Z",
        report_tags.avg_verification_date.as_deref().unwrap(),
    );
    assert_eq!(report_tags.total_elements_onchain, 1);
    assert_eq!(report_tags.total_elements_lightning, 1);
    assert_eq!(report_tags.total_elements_lightning_contactless, 0);
    assert_eq!(report_tags.total_atms, 0);
    assert_eq!(report_tags.legacy_elements, 0);
    assert_eq!(report_tags.up_to_date_elements, 1);
    assert_eq!(report_tags.outdated_elements, 1);
}

#[test]
fn average_is_the_mean_of_the_days() {
    let a = element(1, &[("survey:date", "2023-02-24")]);
    let b = element(2, &[("check_date", "2023-02-27")]);
    let c = element(3, &[("check_date", "soon")]);
    let d = element(4, &[]);
    let members = vec![&a, &b, &c, &d];
    assert_eq!(
        verification_dates_of(&members),
        vec![Some(1_677_196_800), Some(1_677_456_000), None, None]
    );
    let tags = btcmap::report::generate_report_tags(&members, 1_700_000_000).unwrap();
    assert_eq!(tags.total_elements, 4);
    assert_eq!(tags.avg_verification_date.as_deref(), Some("2023-02-25T12:00:00.000000000Z"));
    // Tags are compared as texts: one that is no date still sorts after the limit.
    assert_eq!(tags.up_to_date_elements, 3);
    assert_eq!(tags.outdated_elements, 1);
}

#[test]
fn no_usable_date_gives_no_average() {
    let a = element(1, &[("check_date", "2999-01-01")]);
    let b = element(2, &[]);
    let tags = btcmap::report::generate_report_tags(&vec![&a, &b], 1_700_000_000).unwrap();
    assert_eq!(tags.avg_verification_date, None);
    assert_eq!(tags.up_to_date_elements, 1);
    let none = btcmap::report::generate_report_tags(&vec![], 1_700_000_000).unwrap();
    assert_eq!(none.total_elements, 0);
    assert_eq!(none.outdated_elements, 0);
    assert_eq!(none.avg_verification_date, None);
}

#[test]
fn freshness_goes_by_the_year_before_the_report() {
    // 2023-11-14T22:13:20Z; one year of 365 days before it is 2022-11-14.
    let now = 1_700_000_000;
    let on_limit = element(1, &[("survey:date", "2022-11-14")]);
    let after_limit = element(2, &[("survey:date", "2022-11-15")]);
    let old_check_new_survey = element(3, &[("check_date", "2019-05-01"), ("survey:date", "2023-01-01")]);
    let members = vec![&on_limit, &after_limit, &old_check_new_survey];
    assert_eq!(count_up_to_date(&members, "2022-11-14"), 2);
    let tags = btcmap::report::generate_report_tags(&members, now).unwrap();
    assert_eq!(tags.up_to_date_elements, 2);
    assert_eq!(tags.outdated_elements, 1);
}

#[test]
fn time_beyond_the_calendar_is_refused() {
    let a = element(1, &[]);
    assert_eq!(
        btcmap::report::generate_report_tags(&vec![&a], i64::MIN).err(),
        Some(ReportError::DateOutOfRange)
    );
    assert_eq!(
        btcmap::report::generate_report_tags(&vec![&a], i64::MAX).err(),
        Some(ReportError::DateOutOfRange)
    );
}

#[test]
fn counts_go_by_exact_tag_values() {
    let a = element(1, &[("amenity", "atm"), ("payment:bitcoin", "yes")]);
    let b = element(2, &[("amenity", "atm "), ("payment:bitcoin", "no")]);
    let c = element(3, &[("payment:lightning_contactless", "yes"), ("payment:onchain", "YES")]);
    let members = vec![&a, &b, &c];
    assert_eq!(count_tagged(&members, "amenity", "atm"), 1);
    assert_eq!(count_tagged(&members, "missing", ""), 3);
    let tags = tally(&members, "2020-01-01", Some("x".to_string()));
    assert_eq!(tags.total_elements, 3);
    assert_eq!(tags.total_atms, 1);
    assert_eq!(tags.legacy_elements, 1);
    assert_eq!(tags.total_elements_onchain, 0);
    assert_eq!(tags.total_elements_lightning, 0);
    assert_eq!(tags.total_elements_lightning_contactless, 1);
    assert_eq!(tags.up_to_date_elements, 0);
    assert_eq!(tags.outdated_elements, 3);
    assert_eq!(tags.avg_verification_date.as_deref(), Some("x"));
}

#[test]
fn first_cycle_then_whole_dataset_report() {
    let fresh = vec![OverpassElement {
        kind: ElementKind::Node,
        id: 1,
        tags: tags(&[("payment:onchain", "yes")]),
        uid: 0,
        user: String::new(),
        visible: true,
        payload: "{\"type\":\"node\",\"id\":1,\"tags\":{\"payment:onchain\":\"yes\"}}".to_string(),
    }];
    let now = 1_700_000_000;
    let plan = reconcile(&vec![], &fresh, &vec![], now).unwrap();
    assert_eq!(plan.events.len(), 1);
    assert_eq!(plan.snapshot.len(), 1);
    assert_eq!(region_elements(&plan.snapshot, &Boundary::Everywhere).len(), 1);
    let action = aggregate(
        ReportPolicy::Snapshot,
        1,
        &Boundary::Everywhere,
        &plan.snapshot,
        "2023-11-14",
        None,
        plan.summary,
        now,
    )
    .unwrap();
    match action {
        ReportAction::Insert(report) => {
            assert_eq!(report.area_id, 1);
            assert_eq!(report.date, "2023-11-14");
            assert_eq!(report.tags.total_elements, 1);
            assert_eq!(report.tags.total_elements_onchain, 1);
            assert_eq!(report.counters, Summary { created: 1, updated: 0, deleted: 0 });
        }
        other => panic!("unexpected action {other:?}"),
    }
}

#[test]
fn statistics_do_not_depend_on_the_order_of_rows() {
    let a = element(1, &[("amenity", "atm"), ("survey:date", "2023-02-24")]);
    let b = element(2, &[("payment:onchain", "yes"), ("check_date", "2023-02-27")]);
    let c = element(3, &[("payment:bitcoin", "yes"), ("check_date", "1999-01-01")]);
    let d = element(4, &[("payment:lightning", "yes")]);
    let one = btcmap::report::generate_report_tags(&vec![&a, &b, &c, &d], 1_700_000_000).unwrap();
    let other = btcmap::report::generate_report_tags(&vec![&d, &b, &a, &c], 1_700_000_000).unwrap();
    assert!(one.same_as(&other));
    assert_eq!(one.total_elements, 4);
    assert_eq!(one.up_to_date_elements, 2);
}
