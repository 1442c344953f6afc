//! Tests for the departure-board scan: namespace stripping, train-number
//! collection with the horizon rule, set semantics, and the downstream
//! service-range filter.

use opentransportdata::discovery::{
    discovery_horizon, filter_train_numbers, parse_train_numbers_before, strip_namespaces,
};

// 2024-01-01 10:00:00 UTC
const DEP_IN_TIME: &str = "2024-01-01T10:00:00Z";
// 2024-01-05 10:00:00 UTC, far beyond the horizon below
const DEP_TOO_LATE: &str = "2024-01-05T10:00:00Z";
// 04:00:00 UTC on 2024-01-02, the horizon of a cycle starting 2024-01-01
const HORIZON: i64 = 1704168000;

fn stop_event(train: &str, departure: &str) -> String {
    format!(
        "<trias:StopEvent><trias:ThisCall><trias:CallAtStop>\
         <trias:ServiceDeparture><trias:TimetabledTime>{}</trias:TimetabledTime>\
         </trias:ServiceDeparture></trias:CallAtStop></trias:ThisCall>\
         <trias:Service><trias:TrainNumber>{}</trias:TrainNumber></trias:Service>\
         </trias:StopEvent>",
        departure, train
    )
}

fn document(events: &[String]) -> String {
    format!(
        "<trias:OJP xmlns:trias=\"http://www.vdv.de/trias\">{}</trias:OJP>",
        events.concat()
    )
}

#[test]
fn collects_trains_departing_before_the_horizon() {
    let doc = document(&[
        stop_event("815", DEP_IN_TIME),
        stop_event("642", DEP_IN_TIME),
    ]);
    let numbers = parse_train_numbers_before(&doc, HORIZON);
    assert_eq!(numbers, vec!["815".to_string(), "642".to_string()]);
}

#[test]
fn drops_trains_departing_after_the_horizon() {
    let doc = document(&[
        stop_event("815", DEP_IN_TIME),
        stop_event("999", DEP_TOO_LATE),
    ]);
    let numbers = parse_train_numbers_before(&doc, HORIZON);
    assert_eq!(numbers, vec!["815".to_string()]);
}

#[test]
fn repeated_train_number_is_returned_once() {
    let doc = document(&[
        stop_event("815", DEP_IN_TIME),
        stop_event("815", DEP_IN_TIME),
        stop_event("642", DEP_IN_TIME),
        stop_event("815", DEP_IN_TIME),
    ]);
    let numbers = parse_train_numbers_before(&doc, HORIZON);
    assert_eq!(numbers, vec!["815".to_string(), "642".to_string()]);
}

#[test]
fn operating_number_elements_count_as_train_numbers() {
    let doc = document(&[stop_event("815", DEP_IN_TIME)
        .replace("TrainNumber", "OperatingNumber")]);
    let numbers = parse_train_numbers_before(&doc, HORIZON);
    assert_eq!(numbers, vec!["815".to_string()]);
}

#[test]
fn stop_event_without_departure_time_is_ignored() {
    let doc = document(&[
        "<trias:StopEvent><trias:Service><trias:TrainNumber>815</trias:TrainNumber>\
         </trias:Service></trias:StopEvent>"
            .to_string(),
        stop_event("642", DEP_IN_TIME),
    ]);
    let numbers = parse_train_numbers_before(&doc, HORIZON);
    assert_eq!(numbers, vec!["642".to_string()]);
}

#[test]
fn departure_outside_this_call_leg_is_ignored() {
    // the same shape, but the departure block sits in an onward call
    let doc = document(&[
        "<trias:StopEvent><trias:OnwardCall><trias:CallAtStop>\
         <trias:ServiceDeparture><trias:TimetabledTime>2024-01-01T10:00:00Z\
         </trias:TimetabledTime></trias:ServiceDeparture></trias:CallAtStop>\
         </trias:OnwardCall><trias:Service><trias:TrainNumber>815</trias:TrainNumber>\
         </trias:Service></trias:StopEvent>"
            .to_string(),
    ]);
    let numbers = parse_train_numbers_before(&doc, HORIZON);
    assert!(numbers.is_empty());
}

#[test]
fn unparseable_timestamp_is_ignored() {
    let doc = document(&[stop_event("815", "yesterday at ten")]);
    let numbers = parse_train_numbers_before(&doc, HORIZON);
    assert!(numbers.is_empty());
}

#[test]
fn malformed_document_returns_what_was_accumulated() {
    let good = stop_event("815", DEP_IN_TIME);
    let doc = format!(
        "<trias:OJP xmlns:trias=\"http://www.vdv.de/trias\">{}<trias:Broken</trias:OJP>",
        good
    );
    let numbers = parse_train_numbers_before(&doc, HORIZON);
    assert_eq!(numbers, vec!["815".to_string()]);
}

#[test]
fn cdata_text_is_read_like_plain_text() {
    let doc = document(&[
        "<trias:StopEvent><trias:ThisCall><trias:ServiceDeparture>\
         <trias:TimetabledTime><![CDATA[2024-01-01T10:00:00Z]]></trias:TimetabledTime>\
         </trias:ServiceDeparture></trias:ThisCall>\
         <trias:TrainNumber><![CDATA[815]]></trias:TrainNumber></trias:StopEvent>"
            .to_string(),
    ]);
    let numbers = parse_train_numbers_before(&doc, HORIZON);
    assert_eq!(numbers, vec!["815".to_string()]);
}

#[test]
fn strip_namespaces_removes_declarations_and_prefixes() {
    let input = "<t:row xmlns:t=\"urn:x\"><t:cell a:k=\"v\">1</t:cell></t:row>";
    assert_eq!(
        strip_namespaces(input),
        "<row><cell k=\"v\">1</cell></row>".to_string()
    );
}

#[test]
fn strip_namespaces_handles_default_namespace() {
    let input = "<OJP xmlns=\"http://www.vdv.de/ojp\"><a>1</a></OJP>";
    assert_eq!(strip_namespaces(input), "<OJP><a>1</a></OJP>".to_string());
}

#[test]
fn horizon_is_four_am_of_the_following_day() {
    // 2024-01-01 10:00:00 UTC -> 2024-01-02 04:00:00 UTC, zone at UTC
    assert_eq!(discovery_horizon(1704103200, 0), HORIZON);
    // just before midnight still points at the same four o'clock
    assert_eq!(discovery_horizon(1704153599, 0), HORIZON);
}

#[test]
fn horizon_respects_the_zone_offset() {
    // 2024-01-01 11:00:00 at UTC+1 -> 04:00:00 local on 2024-01-02,
    // which is 2024-01-02 03:00:00 UTC
    assert_eq!(discovery_horizon(1704103200, 3600), 1704164400);
}

#[test]
fn filter_keeps_only_the_service_ranges() {
    let numbers = vec![
        "815".to_string(),
        "599".to_string(),
        "600".to_string(),
        "649".to_string(),
        "650".to_string(),
        "800".to_string(),
        "849".to_string(),
        "850".to_string(),
        "949".to_string(),
        "950".to_string(),
        "999".to_string(),
        "1000".to_string(),
        "abc".to_string(),
        "".to_string(),
    ];
    let kept = filter_train_numbers(&numbers);
    assert_eq!(kept, vec![815, 600, 649, 800, 849, 950, 999]);
}
