//! Tests for fetch classification, the roster's merge/evict rules, and the
//! synchronizer's cycle logic.

use opentransportdata::formation::{
    FormationAtScheduledStop, FormationResponse, FormationShort, JourneyMetaInformation,
    ScheduledStop, StopPoint, StopTime, TrainMetaInformation,
};
use opentransportdata::roster::{classify_status, is_train_finished, FetchError, Roster};
use opentransportdata::sync::{
    SyncAction, Synchronizer, CYCLE_SLEEP_SECS, FETCH_PACING_SECS, RATE_LIMIT_PAUSE_SECS,
};

fn stop(arrival: Option<i64>, departure: Option<i64>) -> FormationAtScheduledStop {
    FormationAtScheduledStop {
        scheduled_stop: ScheduledStop {
            stop_point: StopPoint { uic: 8507000, name: "Bern".to_string() },
            stop_modifications: 0,
            stop_type: String::new(),
            stop_time: StopTime { arrival_time: arrival, departure_time: departure },
            track: "7".to_string(),
        },
        formation_short: FormationShort {
            formation_short_string: "[2:5]".to_string(),
            vehicle_goals: Vec::new(),
        },
    }
}

fn snapshot(train_number: u32, stops: Vec<FormationAtScheduledStop>) -> FormationResponse {
    FormationResponse {
        vehicle_journey_type: String::new(),
        last_update: 0,
        journey_meta_information: JourneyMetaInformation {
            operation_date: String::new(),
            sjyid: String::new(),
        },
        train_meta_information: TrainMetaInformation {
            train_number,
            to_code: String::new(),
            runs: String::new(),
        },
        formations_at_scheduled_stops: stops,
        formations: Vec::new(),
    }
}

const CYCLE_START: i64 = 1704100000;

#[test]
fn status_codes_classify_as_documented() {
    assert_eq!(classify_status(200), None);
    assert_eq!(classify_status(204), None);
    assert_eq!(classify_status(429), Some(FetchError::RateLimited));
    assert_eq!(classify_status(403), Some(FetchError::Forbidden));
    assert_eq!(classify_status(400), Some(FetchError::BadRequest));
    assert_eq!(classify_status(500), Some(FetchError::Network));
    assert_eq!(classify_status(404), Some(FetchError::Network));
}

#[test]
fn train_finished_uses_last_departure_or_arrival() {
    // last stop has only an arrival: the arrival decides
    let t = snapshot(815, vec![
        stop(None, Some(CYCLE_START + 100)),
        stop(Some(CYCLE_START - 50), None),
    ]);
    assert!(is_train_finished(&t, CYCLE_START));
    // no stop has any time: never finished
    let bare = snapshot(815, vec![stop(None, None)]);
    assert!(!is_train_finished(&bare, CYCLE_START));
    // future departure at the last stop
    let running = snapshot(815, vec![stop(None, Some(CYCLE_START + 3600))]);
    assert!(!is_train_finished(&running, CYCLE_START));
}

#[test]
fn upsert_replaces_an_entry_wholesale() {
    let mut roster = Roster::new();
    roster.upsert(snapshot(815, vec![stop(None, Some(CYCLE_START + 10))]));
    roster.upsert(snapshot(642, vec![stop(None, Some(CYCLE_START + 20))]));
    assert_eq!(roster.len(), 2);
    // a new snapshot for 815 replaces the old entry, never merges into it
    roster.upsert(snapshot(815, vec![
        stop(None, Some(CYCLE_START + 30)),
        stop(None, Some(CYCLE_START + 40)),
    ]));
    assert_eq!(roster.len(), 2);
    let entry = roster.get(815).unwrap();
    assert_eq!(entry.formations_at_scheduled_stops.len(), 2);
}

#[test]
fn evict_removes_past_trains_and_keeps_future_ones() {
    let mut roster = Roster::new();
    // its only stop's departure is one hour before the cycle's start
    roster.upsert(snapshot(815, vec![stop(None, Some(CYCLE_START - 3600))]));
    // a future departure
    roster.upsert(snapshot(642, vec![stop(None, Some(CYCLE_START + 3600))]));
    roster.evict_finished(CYCLE_START);
    assert_eq!(roster.len(), 1);
    assert!(roster.get(815).is_none());
    assert!(roster.get(642).is_some());
}

#[test]
fn discovery_failure_goes_straight_to_sleep() {
    let mut sync = Synchronizer::new();
    assert_eq!(sync.start_cycle(CYCLE_START), SyncAction::Discover);
    let action = sync.on_discovery(None);
    assert_eq!(action, SyncAction::Sleep { secs: CYCLE_SLEEP_SECS });
    assert_eq!(sync.roster.len(), 0);
}

#[test]
fn discovery_filters_to_the_service_ranges() {
    let mut sync = Synchronizer::new();
    sync.start_cycle(CYCLE_START);
    let action = sync.on_discovery(Some(vec![
        "815".to_string(),
        "700".to_string(),
        "abc".to_string(),
        "642".to_string(),
    ]));
    assert_eq!(action, SyncAction::Fetch { train: 815, delay_secs: 0 });
    assert_eq!(sync.queue, vec![815, 642]);
}

#[test]
fn fetch_cycle_merges_paces_and_sleeps() {
    let mut sync = Synchronizer::new();
    sync.start_cycle(CYCLE_START);
    sync.on_discovery(Some(vec!["815".to_string(), "642".to_string()]));
    // first train succeeds and is visible at once
    let a1 = sync.on_fetch(Ok(snapshot(815, vec![stop(None, Some(CYCLE_START + 60))])));
    assert_eq!(a1, SyncAction::Fetch { train: 642, delay_secs: FETCH_PACING_SECS });
    assert!(sync.roster.get(815).is_some());
    // second train fails with a forbidden answer: abandoned for the cycle
    let a2 = sync.on_fetch(Err(FetchError::Forbidden));
    assert_eq!(a2, SyncAction::Sleep { secs: CYCLE_SLEEP_SECS });
    assert!(sync.roster.get(642).is_none());
    assert!(sync.roster.get(815).is_some());
}

#[test]
fn rate_limited_twice_still_merges_and_never_abandons() {
    let mut sync = Synchronizer::new();
    sync.start_cycle(CYCLE_START);
    sync.on_discovery(Some(vec!["815".to_string()]));
    let a1 = sync.on_fetch(Err(FetchError::RateLimited));
    assert_eq!(a1, SyncAction::Fetch { train: 815, delay_secs: RATE_LIMIT_PAUSE_SECS });
    let a2 = sync.on_fetch(Err(FetchError::RateLimited));
    assert_eq!(a2, SyncAction::Fetch { train: 815, delay_secs: RATE_LIMIT_PAUSE_SECS });
    let a3 = sync.on_fetch(Ok(snapshot(815, vec![stop(None, Some(CYCLE_START + 60))])));
    assert_eq!(a3, SyncAction::Sleep { secs: CYCLE_SLEEP_SECS });
    // the snapshot stands merged: the train was never marked abandoned
    assert!(sync.roster.get(815).is_some());
}

#[test]
fn one_failing_train_never_aborts_the_cycle() {
    let mut sync = Synchronizer::new();
    sync.start_cycle(CYCLE_START);
    sync.on_discovery(Some(vec![
        "815".to_string(),
        "642".to_string(),
        "999".to_string(),
    ]));
    let a1 = sync.on_fetch(Err(FetchError::BadRequest));
    assert_eq!(a1, SyncAction::Fetch { train: 642, delay_secs: FETCH_PACING_SECS });
    let a2 = sync.on_fetch(Err(FetchError::Decode));
    assert_eq!(a2, SyncAction::Fetch { train: 999, delay_secs: FETCH_PACING_SECS });
    let a3 = sync.on_fetch(Ok(snapshot(999, vec![stop(None, Some(CYCLE_START + 60))])));
    assert_eq!(a3, SyncAction::Sleep { secs: CYCLE_SLEEP_SECS });
    assert_eq!(sync.roster.len(), 1);
    assert!(sync.roster.get(999).is_some());
}

#[test]
fn end_of_cycle_evicts_finished_trains() {
    let mut sync = Synchronizer::new();
    sync.start_cycle(CYCLE_START);
    sync.on_discovery(Some(vec!["815".to_string(), "642".to_string()]));
    // a train whose journey already ended an hour before the cycle start
    sync.on_fetch(Ok(snapshot(815, vec![stop(None, Some(CYCLE_START - 3600))])));
    // mid-cycle the entry is visible
    assert!(sync.roster.get(815).is_some());
    sync.on_fetch(Ok(snapshot(642, vec![stop(None, Some(CYCLE_START + 3600))])));
    // after the last train the finished entry is gone, the running one stays
    assert!(sync.roster.get(815).is_none());
    assert!(sync.roster.get(642).is_some());
}
