//! Tests for the formation-string decoder.

use opentransportdata::parser::{parse_formation, parse_offer, parse_vehicle, parse_vehicle_type};
use opentransportdata::vehicle::{Offer, StatusFlag, VehicleType};

#[test]
fn single_second_class_vehicle() {
    let vs = parse_formation("[2:5]");
    assert_eq!(vs.len(), 1);
    let v = &vs[0];
    assert_eq!(v.vehicle_type, VehicleType::SecondClass);
    assert_eq!(v.order_number, Some(5));
    assert!(v.status.is_empty());
    assert!(v.offers.is_empty());
    assert_eq!(v.sector, None);
    assert!(!v.no_passage_left);
    assert!(!v.no_passage_right);
    assert!(v.vehicle_identifier.is_none());
}

#[test]
fn closed_first_class_with_offers() {
    let vs = parse_formation("-[1:3#BHP;NF]");
    assert_eq!(vs.len(), 1);
    let v = &vs[0];
    assert_eq!(v.status, vec![StatusFlag::Closed]);
    assert_eq!(v.vehicle_type, VehicleType::FirstClass);
    assert_eq!(v.order_number, Some(3));
    assert_eq!(v.offers, vec![Offer::Wheelchair, Offer::LowFloor]);
}

#[test]
fn sector_markers_apply_to_following_vehicles() {
    let vs = parse_formation("@A[2:1],@B[2:2]");
    assert_eq!(vs.len(), 2);
    assert_eq!(vs[0].sector, Some('A'));
    assert_eq!(vs[0].order_number, Some(1));
    assert_eq!(vs[1].sector, Some('B'));
    assert_eq!(vs[1].order_number, Some(2));
}

#[test]
fn sector_persists_until_overridden() {
    let vs = parse_formation("@A[1:1],[1:2],@B[1:3]");
    assert_eq!(vs.len(), 3);
    assert_eq!(vs[0].sector, Some('A'));
    assert_eq!(vs[1].sector, Some('A'));
    assert_eq!(vs[2].sector, Some('B'));
}

#[test]
fn empty_input_gives_no_vehicles() {
    assert!(parse_formation("").is_empty());
    assert!(parse_formation("[],,,[]").is_empty());
    assert!(parse_formation("   ").is_empty());
}

#[test]
fn vehicles_keep_source_order() {
    let vs = parse_formation("[LK],[2:7],[WR],[1:2]");
    let types: Vec<_> = vs.iter().map(|v| v.vehicle_type.clone()).collect();
    assert_eq!(
        types,
        vec![
            VehicleType::Locomotive,
            VehicleType::SecondClass,
            VehicleType::Restaurant,
            VehicleType::FirstClass,
        ]
    );
    assert_eq!(vs[1].order_number, Some(7));
    assert_eq!(vs[3].order_number, Some(2));
}

#[test]
fn stacked_status_flags() {
    let vs = parse_formation("[->=%2:9]");
    assert_eq!(vs.len(), 1);
    assert_eq!(
        vs[0].status,
        vec![
            StatusFlag::Closed,
            StatusFlag::GroupBoarding,
            StatusFlag::Reserved,
            StatusFlag::OpenUnserved,
        ]
    );
}

#[test]
fn parentheses_set_no_passage_markers() {
    let vs = parse_formation("[(2:5],[2:6)],[(2:7)#NF]");
    assert_eq!(vs.len(), 3);
    assert!(vs[0].no_passage_left);
    assert!(!vs[0].no_passage_right);
    assert!(!vs[1].no_passage_left);
    assert!(vs[1].no_passage_right);
    assert!(vs[2].no_passage_left);
    assert!(vs[2].no_passage_right);
    // parentheses are stripped before the descriptor is read
    assert_eq!(vs[0].vehicle_type, VehicleType::SecondClass);
    assert_eq!(vs[0].order_number, Some(5));
    assert_eq!(vs[2].offers, vec![Offer::LowFloor]);
}

#[test]
fn paren_in_offers_part_counts_too() {
    let vs = parse_formation("[2:5#NF)]");
    assert_eq!(vs.len(), 1);
    assert!(!vs[0].no_passage_left);
    assert!(vs[0].no_passage_right);
    assert_eq!(vs[0].offers, vec![Offer::LowFloor]);
}

#[test]
fn non_numeric_order_number_is_none() {
    let vs = parse_formation("[2:x7]");
    assert_eq!(vs.len(), 1);
    assert_eq!(vs[0].vehicle_type, VehicleType::SecondClass);
    assert_eq!(vs[0].order_number, None);
}

#[test]
fn overlarge_order_number_is_none() {
    let vs = parse_formation("[2:99999999999]");
    assert_eq!(vs.len(), 1);
    assert_eq!(vs[0].order_number, None);
}

#[test]
fn order_number_with_plus_sign_parses() {
    let vs = parse_formation("[2:+5]");
    assert_eq!(vs.len(), 1);
    assert_eq!(vs[0].order_number, Some(5));
}

#[test]
fn unknown_type_code_keeps_raw_token() {
    let vs = parse_formation("[ZZ:1]");
    assert_eq!(vs.len(), 1);
    assert_eq!(vs[0].vehicle_type, VehicleType::Unknown("ZZ".to_string()));
}

#[test]
fn unknown_offer_keeps_raw_token() {
    let vs = parse_formation("[2:1#QQ;NF]");
    assert_eq!(vs.len(), 1);
    assert_eq!(
        vs[0].offers,
        vec![Offer::Unknown("QQ".to_string()), Offer::LowFloor]
    );
}

#[test]
fn empty_offer_tokens_are_dropped() {
    let vs = parse_formation("[2:1#;;NF;;]");
    assert_eq!(vs.len(), 1);
    assert_eq!(vs[0].offers, vec![Offer::LowFloor]);
}

#[test]
fn hash_with_empty_offers_part() {
    let vs = parse_formation("[2:1#]");
    assert_eq!(vs.len(), 1);
    assert!(vs[0].offers.is_empty());
}

#[test]
fn whitespace_around_segments_is_trimmed() {
    let vs = parse_formation("[  2 : 5  ]");
    assert_eq!(vs.len(), 1);
    assert_eq!(vs[0].vehicle_type, VehicleType::SecondClass);
    // the order-number text " 5  " does not parse as a number
    assert_eq!(vs[0].order_number, None);
}

#[test]
fn unicode_whitespace_is_trimmed_like_str_trim() {
    // no-break space and ideographic space around a segment
    let vs = parse_formation("[\u{a0}2:5\u{3000}]");
    assert_eq!(vs.len(), 1);
    assert_eq!(vs[0].vehicle_type, VehicleType::SecondClass);
    assert_eq!(vs[0].order_number, Some(5));
}

#[test]
fn trailing_segment_without_delimiter_is_flushed() {
    let vs = parse_formation("2:5");
    assert_eq!(vs.len(), 1);
    assert_eq!(vs[0].vehicle_type, VehicleType::SecondClass);
    assert_eq!(vs[0].order_number, Some(5));
}

#[test]
fn vehicle_type_table_is_complete() {
    assert_eq!(parse_vehicle_type("1"), VehicleType::FirstClass);
    assert_eq!(parse_vehicle_type("2"), VehicleType::SecondClass);
    assert_eq!(parse_vehicle_type("12"), VehicleType::FirstAndSecondClass);
    assert_eq!(parse_vehicle_type("FA"), VehicleType::FamilyCar);
    assert_eq!(parse_vehicle_type("WL"), VehicleType::SleepingCar);
    assert_eq!(parse_vehicle_type("WR"), VehicleType::Restaurant);
    assert_eq!(parse_vehicle_type("W1"), VehicleType::DiningFirstClass);
    assert_eq!(parse_vehicle_type("W2"), VehicleType::DiningSecondClass);
    assert_eq!(parse_vehicle_type("LK"), VehicleType::Locomotive);
    assert_eq!(parse_vehicle_type("D"), VehicleType::BaggageCar);
    assert_eq!(parse_vehicle_type("F"), VehicleType::Fictional);
    assert_eq!(parse_vehicle_type("K"), VehicleType::Classless);
    assert_eq!(parse_vehicle_type("X"), VehicleType::Parked);
    assert_eq!(
        parse_vehicle_type("21"),
        VehicleType::Unknown("21".to_string())
    );
}

#[test]
fn offer_table_is_complete() {
    assert_eq!(parse_offer("BHP"), Offer::Wheelchair);
    assert_eq!(parse_offer("BZ"), Offer::BusinessZone);
    assert_eq!(parse_offer("FZ"), Offer::FamilyZone);
    assert_eq!(parse_offer("KW"), Offer::Stroller);
    assert_eq!(parse_offer("NF"), Offer::LowFloor);
    assert_eq!(parse_offer("VH"), Offer::BikeHooks);
    assert_eq!(parse_offer("VR"), Offer::BikeReserved);
    assert_eq!(parse_offer("nf"), Offer::Unknown("nf".to_string()));
}

#[test]
fn parse_vehicle_empty_segment_is_none() {
    assert!(parse_vehicle("", None).is_none());
    assert!(parse_vehicle("-", None).is_none());
    assert!(parse_vehicle("->=%", Some('C')).is_none());
}

#[test]
fn parse_vehicle_carries_given_sector() {
    let v = parse_vehicle("2:4", Some('C')).unwrap();
    assert_eq!(v.sector, Some('C'));
    assert_eq!(v.order_number, Some(4));
}
