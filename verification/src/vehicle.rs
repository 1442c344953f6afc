//! The decoded vehicle record: status flags, service-class type, amenity
//! offers and the optional link to a detailed vehicle-identity record.
//! Open-ended coded vocabularies (types, offers) carry the original token in
//! an `Unknown` variant rather than losing it.

use vstd::prelude::*;
use crate::formation::{FormationVehicle, FormationVehicleV};

verus! {

/// Operational status of one vehicle.  `Deklassiert` never appears in the
/// raw formation string; it is added by enrichment only.
#[derive(Debug, Clone, Copy, PartialEq, Eq, Structural)]
pub enum StatusFlag {
    Closed,
    GroupBoarding,
    Reserved,
    OpenUnserved,
    Deklassiert,
}

#[derive(Debug, Clone, PartialEq)]
pub enum VehicleType {
    FirstClass,
    SecondClass,
    FirstAndSecondClass,
    FamilyCar,
    SleepingCar,
    Restaurant,
    DiningFirstClass,
    DiningSecondClass,
    Locomotive,
    BaggageCar,
    Fictional,
    Classless,
    Parked,
    Unknown(String),
}

pub enum VehicleTypeV {
    FirstClass,
    SecondClass,
    FirstAndSecondClass,
    FamilyCar,
    SleepingCar,
    Restaurant,
    DiningFirstClass,
    DiningSecondClass,
    Locomotive,
    BaggageCar,
    Fictional,
    Classless,
    Parked,
    Unknown(Seq<char>),
}

impl View for VehicleType {
    type V = VehicleTypeV;

    open spec fn view(&self) -> VehicleTypeV {
        match self {
            VehicleType::FirstClass => VehicleTypeV::FirstClass,
            VehicleType::SecondClass => VehicleTypeV::SecondClass,
            VehicleType::FirstAndSecondClass => VehicleTypeV::FirstAndSecondClass,
            VehicleType::FamilyCar => VehicleTypeV::FamilyCar,
            VehicleType::SleepingCar => VehicleTypeV::SleepingCar,
            VehicleType::Restaurant => VehicleTypeV::Restaurant,
            VehicleType::DiningFirstClass => VehicleTypeV::DiningFirstClass,
            VehicleType::DiningSecondClass => VehicleTypeV::DiningSecondClass,
            VehicleType::Locomotive => VehicleTypeV::Locomotive,
            VehicleType::BaggageCar => VehicleTypeV::BaggageCar,
            VehicleType::Fictional => VehicleTypeV::Fictional,
            VehicleType::Classless => VehicleTypeV::Classless,
            VehicleType::Parked => VehicleTypeV::Parked,
            VehicleType::Unknown(raw) => VehicleTypeV::Unknown(raw@),
        }
    }
}

#[derive(Debug, Clone, PartialEq)]
pub enum Offer {
    Wheelchair,
    BusinessZone,
    FamilyZone,
    Stroller,
    LowFloor,
    BikeHooks,
    BikeReserved,
    Unknown(String),
}

pub enum OfferV {
    Wheelchair,
    BusinessZone,
    FamilyZone,
    Stroller,
    LowFloor,
    BikeHooks,
    BikeReserved,
    Unknown(Seq<char>),
}

impl View for Offer {
    type V = OfferV;

    open spec fn view(&self) -> OfferV {
        match self {
            Offer::Wheelchair => OfferV::Wheelchair,
            Offer::BusinessZone => OfferV::BusinessZone,
            Offer::FamilyZone => OfferV::FamilyZone,
            Offer::Stroller => OfferV::Stroller,
            Offer::LowFloor => OfferV::LowFloor,
            Offer::BikeHooks => OfferV::BikeHooks,
            Offer::BikeReserved => OfferV::BikeReserved,
            Offer::Unknown(raw) => OfferV::Unknown(raw@),
        }
    }
}

/// One decoded vehicle, in source order.
#[derive(Debug, Clone, PartialEq)]
pub struct Vehicle {
    pub sector: Option<char>,
    pub status: Vec<StatusFlag>,
    pub no_passage_left: bool,
    pub no_passage_right: bool,
    pub vehicle_type: VehicleType,
    pub order_number: Option<u32>,
    pub offers: Vec<Offer>,
    pub vehicle_identifier: Option<FormationVehicle>,
}

#[verifier::ext_equal]
pub struct VehicleV {
    pub sector: Option<char>,
    pub status: Seq<StatusFlag>,
    pub no_passage_left: bool,
    pub no_passage_right: bool,
    pub vehicle_type: VehicleTypeV,
    pub order_number: Option<u32>,
    pub offers: Seq<OfferV>,
    pub vehicle_identifier: Option<FormationVehicleV>,
}

impl View for Vehicle {
    type V = VehicleV;

    open spec fn view(&self) -> VehicleV {
        VehicleV {
            sector: self.sector,
            status: self.status@,
            no_passage_left: self.no_passage_left,
            no_passage_right: self.no_passage_right,
            vehicle_type: self.vehicle_type@,
            order_number: self.order_number,
            offers: self.offers@.map_values(|o: Offer| o@),
            vehicle_identifier: match self.vehicle_identifier {
                Some(fv) => Some(fv@),
                None => None,
            },
        }
    }
}

/// The views of the vehicles in `v`, in order.
pub open spec fn vehicle_views(v: Seq<Vehicle>) -> Seq<VehicleV> {
    v.map_values(|x: Vehicle| x@)
}

pub fn has_status_flag(status: &Vec<StatusFlag>, f: StatusFlag) -> (r: bool)
    ensures
        r == status@.contains(f),
{
    let mut i: usize = 0;
    while i < status.len()
        invariant
            i <= status@.len(),
            forall|k: int| 0 <= k < i ==> status@[k] != f,
        decreases status@.len() - i,
    {
        if status[i] == f {
            return true;
        }
        i = i + 1;
    }
    false
}

/// Whether the view-level offer sequence contains `LowFloor`.
pub open spec fn offers_contain_low_floor(offers: Seq<OfferV>) -> bool {
    exists|k: int| 0 <= k < offers.len() && offers[k] is LowFloor
}

pub fn has_low_floor_offer(offers: &Vec<Offer>) -> (r: bool)
    ensures
        r == offers_contain_low_floor(offers@.map_values(|o: Offer| o@)),
{
    let ghost ov = offers@.map_values(|o: Offer| o@);
    let mut i: usize = 0;
    while i < offers.len()
        invariant
            i <= offers@.len(),
            ov == offers@.map_values(|o: Offer| o@),
            forall|k: int| 0 <= k < i ==> !(ov[k] is LowFloor),
        decreases offers@.len() - i,
    {
        let hit = match offers[i] {
            Offer::LowFloor => true,
            _ => false,
        };
        proof {
            assert(ov[i as int] == offers@[i as int]@);
        }
        if hit {
            return true;
        }
        i = i + 1;
    }
    false
}

} // verus!
