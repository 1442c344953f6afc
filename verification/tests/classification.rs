//! Tests for the identity table and the three declassification policies.

use opentransportdata::classify::{
    classify_heuristic, classify_lookup, classify_with_thresholds, get_vehicle_information,
    parse_formation_short_string, remove_non_physical, rendering_hints, RenderHint, VehicleInfo,
    VehicleInfoTable,
};
use opentransportdata::formation::{
    Formation, FormationResponse, FormationVehicle, JourneyMetaInformation,
    TrainMetaInformation, TrolleyStatus, VehicleProperties,
};
use opentransportdata::parser::parse_formation;
use opentransportdata::vehicle::{Offer, StatusFlag, Vehicle, VehicleType};

fn plain_vehicle(vehicle_type: VehicleType, order_number: Option<u32>) -> Vehicle {
    Vehicle {
        sector: None,
        status: Vec::new(),
        no_passage_left: false,
        no_passage_right: false,
        vehicle_type,
        order_number,
        offers: Vec::new(),
        vehicle_identifier: None,
    }
}

fn record(number: u32, position: u32, trolley_status: Option<TrolleyStatus>) -> FormationVehicle {
    FormationVehicle {
        vehicle_identifier: None,
        position,
        number,
        vehicle_properties: Some(VehicleProperties { trolley_status }),
    }
}

fn response_with(formations: Vec<Formation>) -> FormationResponse {
    FormationResponse {
        vehicle_journey_type: String::new(),
        last_update: 0,
        journey_meta_information: JourneyMetaInformation {
            operation_date: String::new(),
            sjyid: String::new(),
        },
        train_meta_information: TrainMetaInformation {
            train_number: 815,
            to_code: String::new(),
            runs: String::new(),
        },
        formations_at_scheduled_stops: Vec::new(),
        formations,
    }
}

#[test]
fn heuristic_flags_plain_second_class() {
    let vs = vec![plain_vehicle(VehicleType::SecondClass, Some(7))];
    let out = classify_heuristic(vs);
    assert_eq!(out[0].status, vec![StatusFlag::Deklassiert]);
}

#[test]
fn heuristic_never_flags_first_class() {
    let mut v = plain_vehicle(VehicleType::FirstClass, Some(1));
    v.offers = vec![Offer::BusinessZone];
    let out = classify_heuristic(vec![v.clone()]);
    assert_eq!(out[0], v);
    // not even with retrofit offers absent and unusual amenities present
    let mut w = plain_vehicle(VehicleType::FirstClass, Some(2));
    w.offers = vec![Offer::FamilyZone, Offer::Stroller];
    let out2 = classify_heuristic(vec![w.clone()]);
    assert!(!out2[0].status.contains(&StatusFlag::Deklassiert));
}

#[test]
fn heuristic_skips_retrofit_and_closed_coaches() {
    let mut low = plain_vehicle(VehicleType::SecondClass, Some(1));
    low.offers = vec![Offer::LowFloor];
    let mut hooks = plain_vehicle(VehicleType::SecondClass, Some(2));
    hooks.offers = vec![Offer::BikeHooks];
    let mut reserved = plain_vehicle(VehicleType::SecondClass, Some(3));
    reserved.offers = vec![Offer::BikeReserved];
    let mut closed = plain_vehicle(VehicleType::SecondClass, Some(4));
    closed.status = vec![StatusFlag::Closed];
    let loco = plain_vehicle(VehicleType::Locomotive, None);
    let out = classify_heuristic(vec![low, hooks, reserved, closed, loco]);
    for v in &out {
        assert!(!v.status.contains(&StatusFlag::Deklassiert));
    }
}

#[test]
fn heuristic_is_idempotent_on_a_mixed_train() {
    let vs = parse_formation("[LK],[2:1#NF],[2:2],[1:3],[-2:4],[FA:5]");
    let once = classify_heuristic(vs);
    let twice = classify_heuristic(once.clone());
    assert_eq!(once, twice);
    // the flag was added exactly once where it was added at all
    for v in &once {
        let n = v
            .status
            .iter()
            .filter(|f| **f == StatusFlag::Deklassiert)
            .count();
        assert!(n <= 1);
    }
}

#[test]
fn threshold_policy_needs_enough_adjacent_coaches() {
    // four eligible coaches in a row, then a low-floor one
    let vs = parse_formation("[2:1],[2:2],[2:3],[2:4],[2:5#NF]");
    // a run of at least 3 is needed; the first 2 of the run are flagged
    let out = classify_with_thresholds(vs.clone(), 2, 3);
    let flagged: Vec<bool> = out
        .iter()
        .map(|v| v.status.contains(&StatusFlag::Deklassiert))
        .collect();
    assert_eq!(flagged, vec![true, true, false, false, false]);
    // a run of at least 5 never occurs here: nothing is flagged
    let out2 = classify_with_thresholds(vs, 2, 5);
    assert!(out2
        .iter()
        .all(|v| !v.status.contains(&StatusFlag::Deklassiert)));
}

#[test]
fn threshold_policy_is_idempotent() {
    let vs = parse_formation("[2:1],[2:2],[2:3],[1:4],[2:5],[2:6],[2:7]");
    let once = classify_with_thresholds(vs, 2, 3);
    let twice = classify_with_thresholds(once.clone(), 2, 3);
    assert_eq!(once, twice);
}

#[test]
fn identity_table_maps_numbers_and_declassification() {
    let train = response_with(vec![Formation {
        formation_vehicles: vec![
            record(11, 0, Some(TrolleyStatus::Deklassiert)),
            record(12, 1, Some(TrolleyStatus::Normal)),
            record(13, 2, None),
        ],
    }]);
    let table = get_vehicle_information(&train);
    assert_eq!(table.entries.len(), 3);
    assert_eq!(table.entries[0].number, 11);
    assert!(table.entries[0].deklassiert);
    assert!(!table.entries[1].deklassiert);
    assert!(!table.entries[2].deklassiert);
}

#[test]
fn identity_table_later_records_replace_earlier_ones() {
    let train = response_with(vec![
        Formation {
            formation_vehicles: vec![record(11, 0, Some(TrolleyStatus::Normal))],
        },
        Formation {
            formation_vehicles: vec![record(11, 0, Some(TrolleyStatus::Deklassiert))],
        },
    ]);
    let table = get_vehicle_information(&train);
    assert_eq!(table.entries.len(), 1);
    assert!(table.entries[0].deklassiert);
}

#[test]
fn lookup_policy_matches_by_order_number() {
    let table = VehicleInfoTable {
        entries: vec![VehicleInfo {
            number: 7,
            deklassiert: true,
            vehicle: record(7, 3, Some(TrolleyStatus::Deklassiert)),
        }],
    };
    let vs = vec![
        plain_vehicle(VehicleType::SecondClass, Some(7)),
        plain_vehicle(VehicleType::SecondClass, Some(8)),
    ];
    let out = classify_lookup(vs, &table);
    assert_eq!(out[0].status, vec![StatusFlag::Deklassiert]);
    assert!(out[0].vehicle_identifier.is_some());
    assert_eq!(out[0].vehicle_identifier.as_ref().unwrap().number, 7);
    assert!(out[1].status.is_empty());
    assert!(out[1].vehicle_identifier.is_none());
}

#[test]
fn lookup_policy_matches_unnumbered_vehicles_by_position() {
    let table = VehicleInfoTable {
        entries: vec![VehicleInfo {
            number: 91,
            deklassiert: false,
            vehicle: record(91, 0, None),
        }],
    };
    // a locomotive without an order number at list position 0
    let vs = vec![plain_vehicle(VehicleType::Locomotive, None)];
    let out = classify_lookup(vs, &table);
    assert!(out[0].status.is_empty());
    assert_eq!(out[0].vehicle_identifier.as_ref().unwrap().number, 91);
}

#[test]
fn lookup_policy_is_idempotent() {
    let table = VehicleInfoTable {
        entries: vec![
            VehicleInfo {
                number: 7,
                deklassiert: true,
                vehicle: record(7, 1, Some(TrolleyStatus::Deklassiert)),
            },
            VehicleInfo {
                number: 91,
                deklassiert: true,
                vehicle: record(91, 0, Some(TrolleyStatus::Deklassiert)),
            },
        ],
    };
    let vs = vec![
        plain_vehicle(VehicleType::Locomotive, None),
        plain_vehicle(VehicleType::SecondClass, Some(7)),
    ];
    let once = classify_lookup(vs, &table);
    let twice = classify_lookup(once.clone(), &table);
    assert_eq!(once, twice);
    assert_eq!(once[0].status, vec![StatusFlag::Deklassiert]);
    assert_eq!(once[1].status, vec![StatusFlag::Deklassiert]);
}

#[test]
fn parse_formation_short_string_decodes_and_enriches() {
    let table = VehicleInfoTable {
        entries: vec![VehicleInfo {
            number: 5,
            deklassiert: true,
            vehicle: record(5, 1, Some(TrolleyStatus::Deklassiert)),
        }],
    };
    let out = parse_formation_short_string("@A[LK],[2:5]", &table);
    assert_eq!(out.len(), 2);
    assert_eq!(out[0].vehicle_type, VehicleType::Locomotive);
    assert_eq!(out[1].vehicle_type, VehicleType::SecondClass);
    assert_eq!(out[1].status, vec![StatusFlag::Deklassiert]);
    assert_eq!(out[1].vehicle_identifier.as_ref().unwrap().number, 5);
}

#[test]
fn remove_non_physical_drops_fictional_and_parked() {
    let vs = parse_formation("[F],[2:1],[X],[LK]");
    let out = remove_non_physical(vs);
    assert_eq!(out.len(), 2);
    assert_eq!(out[0].vehicle_type, VehicleType::SecondClass);
    assert_eq!(out[1].vehicle_type, VehicleType::Locomotive);
}

#[test]
fn rendering_hints_mark_ends_and_low_floor_neighbours() {
    let vs = parse_formation("[LK],[2:1#NF],[FA:2],[2:3]");
    let hints = rendering_hints(&vs);
    assert_eq!(hints.len(), 4);
    assert_eq!(
        hints[0],
        RenderHint { is_first: true, is_last: false, after_low_floor: false }
    );
    assert_eq!(
        hints[1],
        RenderHint { is_first: false, is_last: false, after_low_floor: false }
    );
    // the family coach follows the low-floor coach
    assert_eq!(
        hints[2],
        RenderHint { is_first: false, is_last: false, after_low_floor: true }
    );
    assert_eq!(
        hints[3],
        RenderHint { is_first: false, is_last: true, after_low_floor: false }
    );
}

#[test]
fn rendering_hints_leave_vehicles_untouched() {
    let vs = parse_formation("[2:1#NF],[2:2]");
    let before = vs.clone();
    let _ = rendering_hints(&vs);
    assert_eq!(vs, before);
}
