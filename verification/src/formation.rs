//! Plain records for a per-train formation document: the train's metadata,
//! its scheduled stops with the raw formation string at each stop, and the
//! detailed vehicle records used for identity lookup.  Schedule instants are
//! held as Unix timestamps in seconds.

use vstd::prelude::*;

verus! {

#[derive(Debug, Clone, PartialEq)]
pub struct JourneyMetaInformation {
    pub operation_date: String,
    pub sjyid: String,
}

#[derive(Debug, Clone, PartialEq)]
pub struct TrainMetaInformation {
    pub train_number: u32,
    pub to_code: String,
    pub runs: String,
}

#[derive(Debug, Clone, PartialEq)]
pub struct StopPoint {
    pub uic: u32,
    pub name: String,
}

/// Scheduled arrival and departure, as Unix timestamps in seconds.
#[derive(Debug, Clone, Copy, PartialEq, Eq, Structural)]
pub struct StopTime {
    pub arrival_time: Option<i64>,
    pub departure_time: Option<i64>,
}

#[derive(Debug, Clone, PartialEq)]
pub struct ScheduledStop {
    pub stop_point: StopPoint,
    pub stop_modifications: u32,
    pub stop_type: String,
    pub stop_time: StopTime,
    pub track: String,
}

#[derive(Debug, Clone, PartialEq)]
pub struct VehicleGoal {
    pub from_vehicle_at_position: u32,
    pub to_vehicle_at_position: u32,
    pub destination_stop_point: StopPoint,
}

#[derive(Debug, Clone, PartialEq)]
pub struct FormationShort {
    pub formation_short_string: String,
    pub vehicle_goals: Vec<VehicleGoal>,
}

#[derive(Debug, Clone, PartialEq)]
pub struct FormationAtScheduledStop {
    pub scheduled_stop: ScheduledStop,
    pub formation_short: FormationShort,
}

#[derive(Debug, Clone, Copy, PartialEq, Eq, Structural)]
pub enum TrolleyStatus {
    GeschlossenTechnisch,
    GeschlossenBetrieblich,
    RestaurantUnbedient,
    RestaurantUnbedientDeklassiert,
    Deklassiert,
    Normal,
}

#[derive(Debug, Clone, Copy, PartialEq, Eq, Structural)]
pub struct VehicleProperties {
    pub trolley_status: Option<TrolleyStatus>,
}

#[derive(Debug, Clone, PartialEq)]
pub struct VehicleIdentifier {
    pub type_code: Option<u32>,
    pub type_code_name: Option<String>,
    pub build_type_code: Option<String>,
    pub country_code: Option<String>,
    pub vehicle_number: Option<String>,
    pub check_number: Option<String>,
    pub evn: Option<String>,
    pub parent_evn: Option<String>,
    pub position: Option<u32>,
}

#[verifier::ext_equal]
pub struct VehicleIdentifierV {
    pub type_code: Option<u32>,
    pub type_code_name: Option<Seq<char>>,
    pub build_type_code: Option<Seq<char>>,
    pub country_code: Option<Seq<char>>,
    pub vehicle_number: Option<Seq<char>>,
    pub check_number: Option<Seq<char>>,
    pub evn: Option<Seq<char>>,
    pub parent_evn: Option<Seq<char>>,
    pub position: Option<u32>,
}

pub open spec fn opt_str_view(o: Option<String>) -> Option<Seq<char>> {
    match o {
        Some(s) => Some(s@),
        None => None,
    }
}

impl View for VehicleIdentifier {
    type V = VehicleIdentifierV;

    open spec fn view(&self) -> VehicleIdentifierV {
        VehicleIdentifierV {
            type_code: self.type_code,
            type_code_name: opt_str_view(self.type_code_name),
            build_type_code: opt_str_view(self.build_type_code),
            country_code: opt_str_view(self.country_code),
            vehicle_number: opt_str_view(self.vehicle_number),
            check_number: opt_str_view(self.check_number),
            evn: opt_str_view(self.evn),
            parent_evn: opt_str_view(self.parent_evn),
            position: self.position,
        }
    }
}

#[derive(Debug, Clone, PartialEq)]
pub struct FormationVehicle {
    pub vehicle_identifier: Option<VehicleIdentifier>,
    pub position: u32,
    pub number: u32,
    pub vehicle_properties: Option<VehicleProperties>,
}

#[verifier::ext_equal]
pub struct FormationVehicleV {
    pub vehicle_identifier: Option<VehicleIdentifierV>,
    pub position: u32,
    pub number: u32,
    pub vehicle_properties: Option<VehicleProperties>,
}

impl View for FormationVehicle {
    type V = FormationVehicleV;

    open spec fn view(&self) -> FormationVehicleV {
        FormationVehicleV {
            vehicle_identifier: match self.vehicle_identifier {
                Some(id) => Some(id@),
                None => None,
            },
            position: self.position,
            number: self.number,
            vehicle_properties: self.vehicle_properties,
        }
    }
}

impl FormationVehicle {
    /// Copy of the record, equal at the level of views.
    pub fn duplicate(&self) -> (r: FormationVehicle)
        ensures
            r@ == self@,
    {
        let vehicle_identifier = match &self.vehicle_identifier {
            Some(id) => Some(
                VehicleIdentifier {
                    type_code: id.type_code,
                    type_code_name: dup_opt_string(&id.type_code_name),
                    build_type_code: dup_opt_string(&id.build_type_code),
                    country_code: dup_opt_string(&id.country_code),
                    vehicle_number: dup_opt_string(&id.vehicle_number),
                    check_number: dup_opt_string(&id.check_number),
                    evn: dup_opt_string(&id.evn),
                    parent_evn: dup_opt_string(&id.parent_evn),
                    position: id.position,
                },
            ),
            None => None,
        };
        FormationVehicle {
            vehicle_identifier,
            position: self.position,
            number: self.number,
            vehicle_properties: self.vehicle_properties,
        }
    }
}

fn dup_opt_string(o: &Option<String>) -> (r: Option<String>)
    ensures
        opt_str_view(r) == opt_str_view(*o),
{
    match o {
        Some(s) => Some(s.clone()),
        None => None,
    }
}

#[derive(Debug, Clone, PartialEq)]
pub struct Formation {
    pub formation_vehicles: Vec<FormationVehicle>,
}

#[derive(Debug, Clone, PartialEq)]
pub struct FormationResponse {
    pub vehicle_journey_type: String,
    pub last_update: i64,
    pub journey_meta_information: JourneyMetaInformation,
    pub train_meta_information: TrainMetaInformation,
    pub formations_at_scheduled_stops: Vec<FormationAtScheduledStop>,
    pub formations: Vec<Formation>,
}

} // verus!
