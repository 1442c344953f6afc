//! Post-processing of a parsed vehicle list: the vehicle-identity table
//! drawn from a formation document, and the three swappable declassification
//! policies — the table-lookup rule, the plain heuristic rule, and its
//! parameterized-threshold variant — together with the derived rendering
//! hints.  A vehicle is never mutated in place: each policy consumes a list
//! and returns the enriched one.

use vstd::prelude::*;
use crate::formation::{FormationResponse, FormationVehicle, FormationVehicleV, TrolleyStatus};
use crate::vehicle::{
    StatusFlag, Vehicle, VehicleType, VehicleV, Offer, OfferV, vehicle_views, has_status_flag,
    offers_contain_low_floor,
};
use crate::parser::spec_parse_formation;

verus! {

/// One row of the vehicle-identity table: the vehicle's order number, whether
/// its trolley status marks it technically declassified, and the full record.
pub struct VehicleInfo {
    pub number: u32,
    pub deklassiert: bool,
    pub vehicle: FormationVehicle,
}

#[verifier::ext_equal]
pub struct VehicleInfoV {
    pub number: u32,
    pub deklassiert: bool,
    pub vehicle: FormationVehicleV,
}

impl View for VehicleInfo {
    type V = VehicleInfoV;

    open spec fn view(&self) -> VehicleInfoV {
        VehicleInfoV { number: self.number, deklassiert: self.deklassiert, vehicle: self.vehicle@ }
    }
}

/// Identity table keyed by vehicle order number; numbers are unique.
pub struct VehicleInfoTable {
    pub entries: Vec<VehicleInfo>,
}

impl View for VehicleInfoTable {
    type V = Seq<VehicleInfoV>;

    open spec fn view(&self) -> Seq<VehicleInfoV> {
        self.entries@.map_values(|e: VehicleInfo| e@)
    }
}

impl VehicleInfoTable {
    /// Numbers are unique across the table.
    pub open spec fn wf(&self) -> bool {
        forall|i: int, j: int|
            0 <= i < j < self@.len() ==> self@[i].number != self@[j].number
    }

    pub fn new() -> (t: VehicleInfoTable)
        ensures
            t@ == Seq::<VehicleInfoV>::empty(),
            t.wf(),
    {
        let t = VehicleInfoTable { entries: Vec::new() };
        proof {
            assert(t@ =~= Seq::<VehicleInfoV>::empty());
        }
        t
    }
}

/// First index holding `n`, if any.
pub open spec fn info_find(t: Seq<VehicleInfoV>, n: u32) -> Option<int>
    decreases t.len(),
{
    if t.len() == 0 {
        None
    } else if t[0].number == n {
        Some(0int)
    } else {
        match info_find(t.skip(1), n) {
            Some(j) => Some(j + 1),
            None => None,
        }
    }
}

pub proof fn lemma_info_find(t: Seq<VehicleInfoV>, n: u32)
    ensures
        match info_find(t, n) {
            Some(j) => 0 <= j < t.len() && t[j].number == n && (forall|k: int|
                0 <= k < j ==> t[k].number != n),
            None => forall|k: int| 0 <= k < t.len() ==> t[k].number != n,
        },
    decreases t.len(),
{
    if t.len() > 0 && t[0].number != n {
        lemma_info_find(t.skip(1), n);
        match info_find(t.skip(1), n) {
            Some(j) => {
                assert forall|k: int| 0 <= k < j + 1 implies t[k].number != n by {
                    if k >= 1 {
                        assert(t.skip(1)[k - 1].number != n);
                    }
                }
            },
            None => {
                assert forall|k: int| 0 <= k < t.len() implies t[k].number != n by {
                    if k >= 1 {
                        assert(t.skip(1)[k - 1].number != n);
                    }
                }
            },
        }
    }
}

/// Insert or replace the row with `e`'s number.
pub open spec fn spec_info_upsert(t: Seq<VehicleInfoV>, e: VehicleInfoV) -> Seq<VehicleInfoV> {
    match info_find(t, e.number) {
        Some(j) => t.update(j, e),
        None => t.push(e),
    }
}

/// The table row a detailed vehicle record contributes.
pub open spec fn spec_info_entry(fv: FormationVehicleV) -> VehicleInfoV {
    VehicleInfoV {
        number: fv.number,
        deklassiert: match fv.vehicle_properties {
            Some(p) => p.trolley_status == Some(TrolleyStatus::Deklassiert),
            None => false,
        },
        vehicle: fv,
    }
}

/// Fold the records of `vs` into the table, in order.
pub open spec fn spec_info_add_vehicles(
    t: Seq<VehicleInfoV>,
    vs: Seq<FormationVehicle>,
) -> Seq<VehicleInfoV>
    decreases vs.len(),
{
    if vs.len() == 0 {
        t
    } else {
        spec_info_add_vehicles(spec_info_upsert(t, spec_info_entry(vs[0]@)), vs.skip(1))
    }
}

pub open spec fn spec_vehicle_information_from(
    acc: Seq<VehicleInfoV>,
    fs: Seq<crate::formation::Formation>,
) -> Seq<VehicleInfoV>
    decreases fs.len(),
{
    if fs.len() == 0 {
        acc
    } else {
        spec_vehicle_information_from(
            spec_info_add_vehicles(acc, fs[0].formation_vehicles@),
            fs.skip(1),
        )
    }
}

/// The identity table of a whole formation document: every vehicle of every
/// formation, later records replacing earlier ones with the same number.
pub open spec fn spec_vehicle_information(fs: Seq<crate::formation::Formation>) -> Seq<
    VehicleInfoV,
> {
    spec_vehicle_information_from(Seq::<VehicleInfoV>::empty(), fs)
}

fn info_upsert(t: &mut VehicleInfoTable, e: VehicleInfo)
    requires
        old(t).wf(),
    ensures
        final(t).wf(),
        final(t)@ == spec_info_upsert(old(t)@, e@),
{
    let n = t.entries.len();
    let mut i: usize = 0;
    while i < n
        invariant
            i <= n,
            n == t.entries@.len(),
            t.wf(),
            t@ == old(t)@,
            forall|k: int| 0 <= k < i ==> t@[k].number != e@.number,
        decreases n - i,
    {
        if t.entries[i].number == e.number {
            proof {
                assert(t@[i as int].number == e@.number);
                lemma_info_find(t@, e.number);
                match info_find(t@, e@.number) {
                    Some(j) => {
                        assert(j >= i);
                        assert(j <= i);
                    },
                    None => {
                        assert(false);
                    },
                }
            }
            t.entries.set(i, e);
            proof {
                assert(t@ =~= old(t)@.update(i as int, e@));
            }
            return ;
        }
        proof {
            assert(t@[i as int] == t.entries@[i as int]@);
        }
        i = i + 1;
    }
    proof {
        lemma_info_find(t@, e.number);
        match info_find(t@, e@.number) {
            Some(j) => {
                assert(t@[j].number == e@.number);
                assert(false);
            },
            None => {},
        }
    }
    t.entries.push(e);
    proof {
        assert(t@ =~= old(t)@.push(e@));
    }
}

/// Build the identity table of a formation document: maps each vehicle's
/// order number to its record and whether it is technically declassified.
pub fn get_vehicle_information(train: &FormationResponse) -> (t: VehicleInfoTable)
    ensures
        t@ == spec_vehicle_information(train.formations@),
        t.wf(),
{
    let mut t = VehicleInfoTable::new();
    proof {
        assert(train.formations@.skip(0) =~= train.formations@);
    }
    let mut fi: usize = 0;
    while fi < train.formations.len()
        invariant
            fi <= train.formations@.len(),
            t.wf(),
            spec_vehicle_information(train.formations@) == spec_vehicle_information_from(
                t@,
                train.formations@.skip(fi as int),
            ),
        decreases train.formations@.len() - fi,
    {
        let formation = &train.formations[fi];
        let ghost fs = train.formations@.skip(fi as int);
        proof {
            assert(fs[0] == train.formations@[fi as int]);
            assert(fs.skip(1) =~= train.formations@.skip(fi + 1));
            assert(formation.formation_vehicles@.skip(0) =~= formation.formation_vehicles@);
        }
        let ghost before = t@;
        let mut vi: usize = 0;
        while vi < formation.formation_vehicles.len()
            invariant
                vi <= formation.formation_vehicles@.len(),
                t.wf(),
                spec_info_add_vehicles(before, formation.formation_vehicles@)
                    == spec_info_add_vehicles(
                    t@,
                    formation.formation_vehicles@.skip(vi as int),
                ),
            decreases formation.formation_vehicles@.len() - vi,
        {
            let fv = &formation.formation_vehicles[vi];
            let ghost vs = formation.formation_vehicles@.skip(vi as int);
            let e = VehicleInfo {
                number: fv.number,
                deklassiert: is_deklassiert_record(fv),
                vehicle: fv.duplicate(),
            };
            proof {
                assert(e@ == spec_info_entry(fv@));
                assert(vs[0] == formation.formation_vehicles@[vi as int]);
                assert(vs.skip(1) =~= formation.formation_vehicles@.skip(vi + 1));
            }
            info_upsert(&mut t, e);
            vi = vi + 1;
        }
        proof {
            assert(formation.formation_vehicles@.skip(
                formation.formation_vehicles@.len() as int,
            ).len() == 0);
            assert(t@ == spec_info_add_vehicles(before, formation.formation_vehicles@));
        }
        fi = fi + 1;
    }
    proof {
        assert(train.formations@.skip(train.formations@.len() as int).len() == 0);
    }
    t
}

fn is_deklassiert_record(fv: &FormationVehicle) -> (r: bool)
    ensures
        r == spec_info_entry(fv@).deklassiert,
{
    match &fv.vehicle_properties {
        Some(p) => match p.trolley_status {
            Some(TrolleyStatus::Deklassiert) => true,
            _ => false,
        },
        None => false,
    }
}

/// The status sequence with `Deklassiert` appended, unless already present:
/// the flag is never duplicated.
pub open spec fn spec_status_with_deklassiert(status: Seq<StatusFlag>) -> Seq<StatusFlag> {
    if status.contains(StatusFlag::Deklassiert) {
        status
    } else {
        status.push(StatusFlag::Deklassiert)
    }
}

proof fn lemma_status_push_contains(s: Seq<StatusFlag>, x: StatusFlag, y: StatusFlag)
    ensures
        s.push(x).contains(y) == (s.contains(y) || x == y),
{
    if s.contains(y) {
        let w = choose|k: int| 0 <= k < s.len() && s[k] == y;
        assert(s.push(x)[w] == y);
    }
    if x == y {
        assert(s.push(x)[s.len() as int] == y);
    }
    if s.push(x).contains(y) {
        let w = choose|k: int| 0 <= k < s.push(x).len() && s.push(x)[k] == y;
        if w < s.len() {
            assert(s[w] == y);
        }
    }
}

/// There is a declassified table row recorded at list position `i`.
pub open spec fn spec_pos_deklassiert(t: Seq<VehicleInfoV>, i: int) -> bool {
    exists|j: int| 0 <= j < t.len() && t[j].vehicle.position == i && t[j].deklassiert
}

/// Last index whose record is at list position `i`, if any.
pub open spec fn spec_pos_last(t: Seq<VehicleInfoV>, i: int) -> Option<int>
    decreases t.len(),
{
    if t.len() == 0 {
        None
    } else if t.last().vehicle.position == i {
        Some(t.len() - 1)
    } else {
        spec_pos_last(t.drop_last(), i)
    }
}

pub proof fn lemma_pos_last(t: Seq<VehicleInfoV>, i: int)
    ensures
        match spec_pos_last(t, i) {
            Some(j) => 0 <= j < t.len() && t[j].vehicle.position == i && (forall|k: int|
                j < k < t.len() ==> t[k].vehicle.position != i),
            None => forall|k: int| 0 <= k < t.len() ==> t[k].vehicle.position != i,
        },
    decreases t.len(),
{
    if t.len() > 0 && t.last().vehicle.position != i {
        lemma_pos_last(t.drop_last(), i);
        let d = t.drop_last();
        match spec_pos_last(d, i) {
            Some(j) => {
                assert(t[j] == d[j]);
                assert forall|k: int| j < k < t.len() implies t[k].vehicle.position != i by {
                    if k < t.len() - 1 {
                        assert(d[k].vehicle.position != i);
                    }
                }
            },
            None => {
                assert forall|k: int| 0 <= k < t.len() implies t[k].vehicle.position != i by {
                    if k < t.len() - 1 {
                        assert(d[k].vehicle.position != i);
                    }
                }
            },
        }
    }
}

/// Attach a table row: append `Deklassiert` when the row says so, and link
/// the detailed record.
pub open spec fn spec_apply_info(v: VehicleV, e: VehicleInfoV) -> VehicleV {
    VehicleV {
        sector: v.sector,
        status: if e.deklassiert {
            spec_status_with_deklassiert(v.status)
        } else {
            v.status
        },
        no_passage_left: v.no_passage_left,
        no_passage_right: v.no_passage_right,
        vehicle_type: v.vehicle_type,
        order_number: v.order_number,
        offers: v.offers,
        vehicle_identifier: Some(e.vehicle),
    }
}

/// The lookup policy at one list position: a vehicle with an order number is
/// looked up by it; one without is matched against the rows' recorded
/// positions, the last matching row linked and the flag added when any
/// matching row is declassified.
pub open spec fn spec_enrich_at(v: VehicleV, i: int, t: Seq<VehicleInfoV>) -> VehicleV {
    match v.order_number {
        Some(n) => match info_find(t, n) {
            Some(j) => spec_apply_info(v, t[j]),
            None => v,
        },
        None => match spec_pos_last(t, i) {
            Some(j) => VehicleV {
                sector: v.sector,
                status: if spec_pos_deklassiert(t, i) {
                    spec_status_with_deklassiert(v.status)
                } else {
                    v.status
                },
                no_passage_left: v.no_passage_left,
                no_passage_right: v.no_passage_right,
                vehicle_type: v.vehicle_type,
                order_number: v.order_number,
                offers: v.offers,
                vehicle_identifier: Some(t[j].vehicle),
            },
            None => v,
        },
    }
}

/// The lookup policy over a whole list.
pub open spec fn spec_enrich_lookup(vs: Seq<VehicleV>, t: Seq<VehicleInfoV>) -> Seq<VehicleV> {
    Seq::new(vs.len(), |i: int| spec_enrich_at(vs[i], i, t))
}

fn apply_info(v: Vehicle, e: &VehicleInfo) -> (r: Vehicle)
    ensures
        r@ == spec_apply_info(v@, e@),
{
    let Vehicle {
        sector,
        mut status,
        no_passage_left,
        no_passage_right,
        vehicle_type,
        order_number,
        offers,
        vehicle_identifier: _,
    } = v;
    if e.deklassiert && !has_status_flag(&status, StatusFlag::Deklassiert) {
        status.push(StatusFlag::Deklassiert);
    }
    Vehicle {
        sector,
        status,
        no_passage_left,
        no_passage_right,
        vehicle_type,
        order_number,
        offers,
        vehicle_identifier: Some(e.vehicle.duplicate()),
    }
}

fn enrich_vehicle(v: Vehicle, i: usize, info: &VehicleInfoTable) -> (r: Vehicle)
    ensures
        r@ == spec_enrich_at(v@, i as int, info@),
{
    let ord = v.order_number;
    match ord {
        Some(n) => {
            // look the row up by the vehicle's order number
            let m = info.entries.len();
            let mut j: usize = 0;
            while j < m
                invariant
                    j <= m,
                    m == info@.len(),
                    forall|k: int| 0 <= k < j ==> info@[k].number != n,
                decreases m - j,
            {
                if info.entries[j].number == n {
                    proof {
                        assert(info@[j as int] == info.entries@[j as int]@);
                        lemma_info_find(info@, n);
                        match info_find(info@, n) {
                            Some(w) => {
                                assert(w >= j);
                                assert(w <= j);
                            },
                            None => {
                                assert(false);
                            },
                        }
                        assert(info_find(info@, n) == Some(j as int));
                    }
                    return apply_info(v, &info.entries[j]);
                }
                proof {
                    assert(info@[j as int] == info.entries@[j as int]@);
                }
                j = j + 1;
            }
            proof {
                lemma_info_find(info@, n);
                match info_find(info@, n) {
                    Some(w) => {
                        assert(info@[w].number == n);
                        assert(false);
                    },
                    None => {},
                }
            }
            v
        },
        None => {
            // no order number: match the rows' recorded positions, as for a
            // locomotive or an unlabeled unit
            let m = info.entries.len();
            let mut last: Option<usize> = None;
            let mut dek: bool = false;
            let mut j: usize = 0;
            while j < m
                invariant
                    j <= m,
                    m == info@.len(),
                    match last {
                        Some(l) => l < j && info@[l as int].vehicle.position == i && (forall|
                            k: int,
                        |
                            l < k < j ==> info@[k].vehicle.position != i),
                        None => forall|k: int| 0 <= k < j ==> info@[k].vehicle.position != i,
                    },
                    dek == exists|k: int|
                        0 <= k < j && info@[k].vehicle.position == i && info@[k].deklassiert,
                decreases m - j,
            {
                proof {
                    assert(info@[j as int] == info.entries@[j as int]@);
                }
                if info.entries[j].vehicle.position as usize == i {
                    last = Some(j);
                    if info.entries[j].deklassiert {
                        dek = true;
                    }
                    proof {
                        if dek {
                            assert(exists|k: int|
                                0 <= k < j + 1 && info@[k].vehicle.position == i
                                    && info@[k].deklassiert);
                        }
                    }
                }
                j = j + 1;
            }
            proof {
                lemma_pos_last(info@, i as int);
            }
            match last {
                Some(l) => {
                    proof {
                        match spec_pos_last(info@, i as int) {
                            Some(w) => {
                                assert(w >= l);
                                assert(w <= l);
                            },
                            None => {
                                assert(false);
                            },
                        }
                    }
                    let Vehicle {
                        sector,
                        mut status,
                        no_passage_left,
                        no_passage_right,
                        vehicle_type,
                        order_number,
                        offers,
                        vehicle_identifier: _,
                    } = v;
                    if dek && !has_status_flag(&status, StatusFlag::Deklassiert) {
                        status.push(StatusFlag::Deklassiert);
                    }
                    Vehicle {
                        sector,
                        status,
                        no_passage_left,
                        no_passage_right,
                        vehicle_type,
                        order_number,
                        offers,
                        vehicle_identifier: Some(info.entries[l].vehicle.duplicate()),
                    }
                },
                None => {
                    proof {
                        match spec_pos_last(info@, i as int) {
                            Some(w) => {
                                assert(info@[w].vehicle.position == i);
                                assert(false);
                            },
                            None => {},
                        }
                    }
                    v
                },
            }
        },
    }
}

/// The lookup policy: enrich each vehicle from the identity table.
pub fn classify_lookup(vehicles: Vec<Vehicle>, info: &VehicleInfoTable) -> (r: Vec<Vehicle>)
    ensures
        vehicle_views(r@) == spec_enrich_lookup(vehicle_views(vehicles@), info@),
{
    let ghost orig = vehicle_views(vehicles@);
    let mut rest = vehicles;
    let mut out: Vec<Vehicle> = Vec::new();
    let mut i: usize = 0;
    proof {
        assert(vehicle_views(rest@) =~= orig.skip(0));
    }
    while rest.len() > 0
        invariant
            i == out@.len(),
            i + rest@.len() == orig.len(),
            vehicle_views(rest@) == orig.skip(i as int),
            forall|k: int| 0 <= k < i ==> vehicle_views(out@)[k] == spec_enrich_at(
                orig[k],
                k,
                info@,
            ),
        decreases rest@.len(),
    {
        let ghost prev_rest = rest@;
        let v = rest.remove(0);
        proof {
            assert(v@ == vehicle_views(prev_rest)[0]);
            assert(v@ == orig[i as int]);
            assert forall|k: int| 0 <= k < rest@.len() implies vehicle_views(rest@)[k]
                == vehicle_views(prev_rest).skip(1)[k] by {
                assert(rest@[k] == prev_rest[k + 1]);
                assert(vehicle_views(prev_rest)[k + 1] == prev_rest[k + 1]@);
            }
            assert(vehicle_views(rest@) =~= vehicle_views(prev_rest).skip(1));
            assert(orig.skip(i as int).skip(1) =~= orig.skip(i + 1));
        }
        let e = enrich_vehicle(v, i, info);
        let ghost prev_out = out@;
        out.push(e);
        proof {
            assert forall|k: int| 0 <= k < i + 1 implies vehicle_views(out@)[k]
                == spec_enrich_at(orig[k], k, info@) by {
                if k < i {
                    assert(out@[k] == prev_out[k]);
                    assert(vehicle_views(prev_out)[k] == prev_out[k]@);
                } else {
                    assert(out@[k] == e);
                }
            }
        }
        i = out.len();
    }
    proof {
        assert(vehicle_views(out@) =~= spec_enrich_lookup(orig, info@));
    }
    out
}

/// Decode a formation string and enrich the result from the identity table
/// (the lookup policy).
pub fn parse_formation_short_string(input: &str, vehicle_information: &VehicleInfoTable) -> (r:
    Vec<Vehicle>)
    ensures
        vehicle_views(r@) == spec_enrich_lookup(
            spec_parse_formation(input@),
            vehicle_information@,
        ),
{
    let vehicles = crate::parser::parse_formation(input);
    classify_lookup(vehicles, vehicle_information)
}

/// The vehicle carries a retrofit amenity: a low-floor section, bike hooks
/// or reserved bike space.
pub open spec fn spec_has_retrofit_offer(offers: Seq<OfferV>) -> bool {
    exists|k: int|
        0 <= k < offers.len() && (offers[k] is LowFloor || offers[k] is BikeHooks
            || offers[k] is BikeReserved)
}

/// The heuristic eligibility rule: a coach that is not a locomotive, carries
/// no retrofit amenity, is not closed, and is not explicitly first class is
/// presumptively a re-rated first-class unit.
pub open spec fn spec_eligible(v: VehicleV) -> bool {
    &&& !(v.vehicle_type is Locomotive)
    &&& !(v.vehicle_type is FirstClass)
    &&& !(v.vehicle_type is FirstAndSecondClass)
    &&& !(v.vehicle_type is DiningFirstClass)
    &&& !spec_has_retrofit_offer(v.offers)
    &&& !v.status.contains(StatusFlag::Closed)
}

/// The vehicle with `Deklassiert` appended to its status, never duplicated.
pub open spec fn spec_flag_deklassiert(v: VehicleV) -> VehicleV {
    VehicleV {
        sector: v.sector,
        status: spec_status_with_deklassiert(v.status),
        no_passage_left: v.no_passage_left,
        no_passage_right: v.no_passage_right,
        vehicle_type: v.vehicle_type,
        order_number: v.order_number,
        offers: v.offers,
        vehicle_identifier: v.vehicle_identifier,
    }
}

/// The heuristic policy: every eligible vehicle is flagged.
pub open spec fn spec_classify_heuristic(vs: Seq<VehicleV>) -> Seq<VehicleV> {
    Seq::new(
        vs.len(),
        |i: int|
            if spec_eligible(vs[i]) {
                spec_flag_deklassiert(vs[i])
            } else {
                vs[i]
            },
    )
}

fn has_retrofit_offer(v: &Vehicle) -> (r: bool)
    ensures
        r == spec_has_retrofit_offer(v@.offers),
{
    let mut i: usize = 0;
    while i < v.offers.len()
        invariant
            i <= v.offers@.len(),
            forall|k: int|
                0 <= k < i ==> !(v@.offers[k] is LowFloor) && !(v@.offers[k] is BikeHooks) && !(
                v@.offers[k] is BikeReserved),
        decreases v.offers@.len() - i,
    {
        let hit = match v.offers[i] {
            Offer::LowFloor => true,
            Offer::BikeHooks => true,
            Offer::BikeReserved => true,
            _ => false,
        };
        proof {
            assert(v@.offers[i as int] == v.offers@[i as int]@);
        }
        if hit {
            return true;
        }
        i = i + 1;
    }
    false
}

fn vehicle_eligible(v: &Vehicle) -> (r: bool)
    ensures
        r == spec_eligible(v@),
{
    let type_ok = match v.vehicle_type {
        VehicleType::Locomotive => false,
        VehicleType::FirstClass => false,
        VehicleType::FirstAndSecondClass => false,
        VehicleType::DiningFirstClass => false,
        _ => true,
    };
    if !type_ok {
        return false;
    }
    if has_retrofit_offer(v) {
        return false;
    }
    if has_status_flag(&v.status, StatusFlag::Closed) {
        return false;
    }
    true
}

fn flag_deklassiert_vehicle(v: Vehicle) -> (r: Vehicle)
    ensures
        r@ == spec_flag_deklassiert(v@),
{
    let Vehicle {
        sector,
        mut status,
        no_passage_left,
        no_passage_right,
        vehicle_type,
        order_number,
        offers,
        vehicle_identifier,
    } = v;
    if !has_status_flag(&status, StatusFlag::Deklassiert) {
        status.push(StatusFlag::Deklassiert);
    }
    Vehicle {
        sector,
        status,
        no_passage_left,
        no_passage_right,
        vehicle_type,
        order_number,
        offers,
        vehicle_identifier,
    }
}

/// The heuristic policy: flag every vehicle the eligibility rule accepts,
/// without ever duplicating the flag.
pub fn classify_heuristic(vehicles: Vec<Vehicle>) -> (r: Vec<Vehicle>)
    ensures
        vehicle_views(r@) == spec_classify_heuristic(vehicle_views(vehicles@)),
{
    let ghost orig = vehicle_views(vehicles@);
    let mut rest = vehicles;
    let mut out: Vec<Vehicle> = Vec::new();
    let mut i: usize = 0;
    proof {
        assert(vehicle_views(rest@) =~= orig.skip(0));
    }
    while rest.len() > 0
        invariant
            i == out@.len(),
            i + rest@.len() == orig.len(),
            vehicle_views(rest@) == orig.skip(i as int),
            forall|k: int|
                0 <= k < i ==> vehicle_views(out@)[k] == spec_classify_heuristic(orig)[k],
        decreases rest@.len(),
    {
        let ghost prev_rest = rest@;
        let v = rest.remove(0);
        proof {
            assert(v@ == vehicle_views(prev_rest)[0]);
            assert(v@ == orig[i as int]);
            assert forall|k: int| 0 <= k < rest@.len() implies vehicle_views(rest@)[k]
                == vehicle_views(prev_rest).skip(1)[k] by {
                assert(rest@[k] == prev_rest[k + 1]);
                assert(vehicle_views(prev_rest)[k + 1] == prev_rest[k + 1]@);
            }
            assert(vehicle_views(rest@) =~= vehicle_views(prev_rest).skip(1));
            assert(orig.skip(i as int).skip(1) =~= orig.skip(i + 1));
        }
        let e = if vehicle_eligible(&v) {
            flag_deklassiert_vehicle(v)
        } else {
            v
        };
        let ghost prev_out = out@;
        out.push(e);
        proof {
            assert forall|k: int| 0 <= k < i + 1 implies vehicle_views(out@)[k]
                == spec_classify_heuristic(orig)[k] by {
                if k < i {
                    assert(out@[k] == prev_out[k]);
                    assert(vehicle_views(prev_out)[k] == prev_out[k]@);
                } else {
                    assert(out@[k] == e);
                }
            }
        }
        i = out.len();
    }
    proof {
        assert(vehicle_views(out@) =~= spec_classify_heuristic(orig));
    }
    out
}

/// Start of the maximal run of eligible vehicles containing position `i`.
pub open spec fn run_start(vs: Seq<VehicleV>, i: int) -> int
    decreases i,
{
    if i <= 0 {
        0
    } else if !spec_eligible(vs[i - 1]) {
        i
    } else {
        run_start(vs, i - 1)
    }
}

/// End (exclusive) of the maximal run of eligible vehicles from position `i`.
pub open spec fn run_end(vs: Seq<VehicleV>, i: int) -> int
    decreases vs.len() - i,
{
    if i >= vs.len() {
        i
    } else if !spec_eligible(vs[i]) {
        i
    } else {
        run_end(vs, i + 1)
    }
}

pub proof fn lemma_run_start_le(vs: Seq<VehicleV>, i: int)
    requires
        0 <= i,
    ensures
        0 <= run_start(vs, i) <= i,
    decreases i,
{
    if i > 0 && spec_eligible(vs[i - 1]) {
        lemma_run_start_le(vs, i - 1);
    }
}

pub proof fn lemma_run_end_ge(vs: Seq<VehicleV>, i: int)
    requires
        i <= vs.len(),
    ensures
        i <= run_end(vs, i) <= vs.len(),
    decreases vs.len() - i,
{
    if i < vs.len() && spec_eligible(vs[i]) {
        lemma_run_end_ge(vs, i + 1);
    }
}

/// The threshold rule at position `i`: the vehicle is eligible, its run of
/// adjacent eligible vehicles is at least `min_count` long, and the vehicle
/// stands among the first `run_len` of that run.
pub open spec fn spec_threshold_flagged(
    vs: Seq<VehicleV>,
    i: int,
    run_len: int,
    min_count: int,
) -> bool {
    &&& spec_eligible(vs[i])
    &&& run_end(vs, i) - run_start(vs, i) >= min_count
    &&& i - run_start(vs, i) < run_len
}

/// The parameterized-threshold variant of the heuristic policy.
pub open spec fn spec_classify_threshold(
    vs: Seq<VehicleV>,
    run_len: int,
    min_count: int,
) -> Seq<VehicleV> {
    Seq::new(
        vs.len(),
        |i: int|
            if spec_threshold_flagged(vs, i, run_len, min_count) {
                spec_flag_deklassiert(vs[i])
            } else {
                vs[i]
            },
    )
}

/// The parameterized-threshold policy: at least `min_consecutive` adjacent
/// eligible coaches must co-occur before any is flagged, and only the first
/// `first_class_run` of such a run are flagged.
pub fn classify_with_thresholds(
    vehicles: Vec<Vehicle>,
    first_class_run: usize,
    min_consecutive: usize,
) -> (r: Vec<Vehicle>)
    ensures
        vehicle_views(r@) == spec_classify_threshold(
            vehicle_views(vehicles@),
            first_class_run as int,
            min_consecutive as int,
        ),
{
    let ghost orig = vehicle_views(vehicles@);
    let n = vehicles.len();
    // eligibility of each vehicle
    let mut elig: Vec<bool> = Vec::new();
    let mut i: usize = 0;
    while i < n
        invariant
            i <= n,
            n == vehicles@.len(),
            elig@.len() == i,
            forall|k: int| 0 <= k < i ==> elig@[k] == spec_eligible(orig[k]),
        decreases n - i,
    {
        let e = vehicle_eligible(&vehicles[i]);
        proof {
            assert(orig[i as int] == vehicles@[i as int]@);
        }
        elig.push(e);
        i = i + 1;
    }
    // run starts, left to right
    let mut rs: Vec<usize> = Vec::new();
    let mut i: usize = 0;
    while i < n
        invariant
            i <= n,
            n == vehicles@.len(),
            elig@.len() == n,
            forall|k: int| 0 <= k < n ==> elig@[k] == spec_eligible(orig[k]),
            rs@.len() == i,
            forall|k: int| 0 <= k < i ==> rs@[k] == run_start(orig, k),
        decreases n - i,
    {
        let s: usize = if i == 0 {
            0
        } else if !elig[i - 1] {
            i
        } else {
            rs[i - 1]
        };
        proof {
            if i > 0 && spec_eligible(orig[i - 1]) {
                assert(rs@[i - 1] == run_start(orig, i - 1));
            }
        }
        rs.push(s);
        i = i + 1;
    }
    // run ends and the flag decision, right to left
    let mut flags_rev: Vec<bool> = Vec::new();
    let mut j: usize = n;
    let mut ne: usize = n;
    while j > 0
        invariant
            j <= n,
            n == vehicles@.len(),
            elig@.len() == n,
            forall|k: int| 0 <= k < n ==> elig@[k] == spec_eligible(orig[k]),
            rs@.len() == n,
            forall|k: int| 0 <= k < n ==> rs@[k] == run_start(orig, k),
            ne == run_end(orig, j as int),
            flags_rev@.len() == n - j,
            forall|t: int|
                0 <= t < n - j ==> flags_rev@[t] == spec_threshold_flagged(
                    orig,
                    n - 1 - t,
                    first_class_run as int,
                    min_consecutive as int,
                ),
        decreases j,
    {
        j = j - 1;
        let cur_end: usize = if !elig[j] {
            j
        } else {
            ne
        };
        proof {
            lemma_run_start_le(orig, j as int);
            lemma_run_end_ge(orig, j + 1);
            assert(cur_end == run_end(orig, j as int));
        }
        let start = rs[j];
        let flagged = elig[j] && cur_end - start >= min_consecutive && j - start
            < first_class_run;
        flags_rev.push(flagged);
        ne = cur_end;
    }
    // build the result
    let mut rest = vehicles;
    let mut out: Vec<Vehicle> = Vec::new();
    let mut i: usize = 0;
    proof {
        assert(vehicle_views(rest@) =~= orig.skip(0));
    }
    while rest.len() > 0
        invariant
            i == out@.len(),
            i + rest@.len() == orig.len(),
            n == orig.len(),
            flags_rev@.len() == n,
            forall|t: int|
                0 <= t < n ==> flags_rev@[t] == spec_threshold_flagged(
                    orig,
                    n - 1 - t,
                    first_class_run as int,
                    min_consecutive as int,
                ),
            vehicle_views(rest@) == orig.skip(i as int),
            forall|k: int|
                0 <= k < i ==> vehicle_views(out@)[k] == spec_classify_threshold(
                    orig,
                    first_class_run as int,
                    min_consecutive as int,
                )[k],
        decreases rest@.len(),
    {
        let ghost prev_rest = rest@;
        let v = rest.remove(0);
        proof {
            assert(v@ == vehicle_views(prev_rest)[0]);
            assert(v@ == orig[i as int]);
            assert forall|k: int| 0 <= k < rest@.len() implies vehicle_views(rest@)[k]
                == vehicle_views(prev_rest).skip(1)[k] by {
                assert(rest@[k] == prev_rest[k + 1]);
                assert(vehicle_views(prev_rest)[k + 1] == prev_rest[k + 1]@);
            }
            assert(vehicle_views(rest@) =~= vehicle_views(prev_rest).skip(1));
            assert(orig.skip(i as int).skip(1) =~= orig.skip(i + 1));
        }
        let e = if flags_rev[n - 1 - i] {
            flag_deklassiert_vehicle(v)
        } else {
            v
        };
        let ghost prev_out = out@;
        out.push(e);
        proof {
            assert forall|k: int| 0 <= k < i + 1 implies vehicle_views(out@)[k]
                == spec_classify_threshold(
                orig,
                first_class_run as int,
                min_consecutive as int,
            )[k] by {
                if k < i {
                    assert(out@[k] == prev_out[k]);
                    assert(vehicle_views(prev_out)[k] == prev_out[k]@);
                } else {
                    assert(out@[k] == e);
                }
            }
        }
        i = out.len();
    }
    proof {
        assert(vehicle_views(out@) =~= spec_classify_threshold(
            orig,
            first_class_run as int,
            min_consecutive as int,
        ));
    }
    out
}

/// A vehicle that physically stands in the train: neither fictional nor
/// parked.
pub open spec fn spec_physical(v: VehicleV) -> bool {
    !(v.vehicle_type is Fictional) && !(v.vehicle_type is Parked)
}

pub open spec fn spec_physical_vehicles(vs: Seq<VehicleV>) -> Seq<VehicleV>
    decreases vs.len(),
{
    if vs.len() == 0 {
        Seq::empty()
    } else if spec_physical(vs[0]) {
        seq![vs[0]] + spec_physical_vehicles(vs.skip(1))
    } else {
        spec_physical_vehicles(vs.skip(1))
    }
}

/// Drop fictional and parked vehicles, keeping the order of the rest.
pub fn remove_non_physical(vehicles: Vec<Vehicle>) -> (r: Vec<Vehicle>)
    ensures
        vehicle_views(r@) == spec_physical_vehicles(vehicle_views(vehicles@)),
{
    let ghost orig = vehicle_views(vehicles@);
    let mut rest = vehicles;
    let mut out: Vec<Vehicle> = Vec::new();
    let ghost mut i: int = 0;
    proof {
        assert(vehicle_views(rest@) =~= orig.skip(0));
        assert(vehicle_views(out@) + spec_physical_vehicles(orig) =~= spec_physical_vehicles(
            orig,
        ));
    }
    while rest.len() > 0
        invariant
            0 <= i,
            i + rest@.len() == orig.len(),
            vehicle_views(rest@) == orig.skip(i),
            spec_physical_vehicles(orig) == vehicle_views(out@) + spec_physical_vehicles(
                orig.skip(i),
            ),
        decreases rest@.len(),
    {
        let ghost prev_rest = rest@;
        let v = rest.remove(0);
        proof {
            assert(v@ == vehicle_views(prev_rest)[0]);
            assert(v@ == orig[i]);
            assert(orig.skip(i)[0] == orig[i]);
            assert forall|k: int| 0 <= k < rest@.len() implies vehicle_views(rest@)[k]
                == vehicle_views(prev_rest).skip(1)[k] by {
                assert(rest@[k] == prev_rest[k + 1]);
                assert(vehicle_views(prev_rest)[k + 1] == prev_rest[k + 1]@);
            }
            assert(vehicle_views(rest@) =~= vehicle_views(prev_rest).skip(1));
            assert(orig.skip(i).skip(1) =~= orig.skip(i + 1));
        }
        let physical = match v.vehicle_type {
            VehicleType::Fictional => false,
            VehicleType::Parked => false,
            _ => true,
        };
        let ghost prev_out = out@;
        if physical {
            out.push(v);
            proof {
                assert forall|k: int| 0 <= k < out@.len() implies vehicle_views(out@)[k]
                    == (vehicle_views(prev_out) + seq![orig[i]])[k] by {
                    if k < prev_out.len() {
                        assert(out@[k] == prev_out[k]);
                    } else {
                        assert(out@[k]@ == orig[i]);
                    }
                }
                assert(vehicle_views(out@) =~= vehicle_views(prev_out) + seq![orig[i]]);
                assert((vehicle_views(prev_out) + seq![orig[i]]) + spec_physical_vehicles(
                    orig.skip(i + 1),
                ) =~= vehicle_views(prev_out) + (seq![orig[i]] + spec_physical_vehicles(
                    orig.skip(i + 1),
                )));
            }
        }
        proof {
            i = i + 1;
        }
    }
    proof {
        assert(spec_physical_vehicles(orig.skip(orig.len() as int)) =~= Seq::<VehicleV>::empty());
        assert(vehicle_views(out@) + Seq::<VehicleV>::empty() =~= vehicle_views(out@));
    }
    out
}

/// Read-only rendering hints for one vehicle: whether it is the physical
/// first or last car, and whether the vehicle immediately before it carried
/// a low-floor section.
#[derive(Debug, Clone, Copy, PartialEq, Eq, Structural)]
pub struct RenderHint {
    pub is_first: bool,
    pub is_last: bool,
    pub after_low_floor: bool,
}

/// Derived rendering hints, one per vehicle, computed without touching the
/// status or offer sets.
pub fn rendering_hints(vehicles: &Vec<Vehicle>) -> (r: Vec<RenderHint>)
    ensures
        r@.len() == vehicles@.len(),
        forall|i: int|
            0 <= i < r@.len() ==> r@[i] == (RenderHint {
                is_first: i == 0,
                is_last: i == vehicles@.len() - 1,
                after_low_floor: i > 0 && offers_contain_low_floor(vehicles@[i - 1]@.offers),
            }),
{
    let n = vehicles.len();
    let mut r: Vec<RenderHint> = Vec::new();
    let mut prev_low: bool = false;
    let mut i: usize = 0;
    while i < n
        invariant
            i <= n,
            n == vehicles@.len(),
            r@.len() == i,
            prev_low == (i > 0 && offers_contain_low_floor(vehicles@[i - 1]@.offers)),
            forall|k: int|
                0 <= k < i ==> r@[k] == (RenderHint {
                    is_first: k == 0,
                    is_last: k == vehicles@.len() - 1,
                    after_low_floor: k > 0 && offers_contain_low_floor(vehicles@[k - 1]@.offers),
                }),
        decreases n - i,
    {
        let h = RenderHint { is_first: i == 0, is_last: i == n - 1, after_low_floor: prev_low };
        r.push(h);
        prev_low = crate::vehicle::has_low_floor_offer(&vehicles[i].offers);
        proof {
            assert(vehicles@[i as int]@.offers == vehicles@[i as int].offers@.map_values(
                |o: Offer| o@,
            ));
        }
        i = i + 1;
    }
    r
}

proof fn lemma_with_deklassiert_idempotent(s: Seq<StatusFlag>)
    ensures
        spec_status_with_deklassiert(spec_status_with_deklassiert(s))
            == spec_status_with_deklassiert(s),
        spec_status_with_deklassiert(s).contains(StatusFlag::Deklassiert),
{
    lemma_status_push_contains(s, StatusFlag::Deklassiert, StatusFlag::Deklassiert);
}

/// Flagging a vehicle changes neither its type, its offers, nor any status
/// flag other than `Deklassiert`; in particular eligibility is preserved.
proof fn lemma_flag_preserves_eligibility(v: VehicleV)
    ensures
        spec_eligible(spec_flag_deklassiert(v)) == spec_eligible(v),
        spec_flag_deklassiert(spec_flag_deklassiert(v)) == spec_flag_deklassiert(v),
{
    lemma_status_push_contains(v.status, StatusFlag::Deklassiert, StatusFlag::Closed);
    lemma_with_deklassiert_idempotent(v.status);
}

/// Re-classifying under the heuristic policy is idempotent: the second pass
/// flags exactly the vehicles the first one flagged, and `Deklassiert` is
/// never duplicated.
pub proof fn lemma_classify_heuristic_idempotent(vs: Seq<VehicleV>)
    ensures
        spec_classify_heuristic(spec_classify_heuristic(vs)) == spec_classify_heuristic(vs),
{
    let c1 = spec_classify_heuristic(vs);
    assert forall|i: int| 0 <= i < c1.len() implies spec_classify_heuristic(c1)[i] == c1[i] by {
        lemma_flag_preserves_eligibility(vs[i]);
    }
    assert(spec_classify_heuristic(c1) =~= c1);
}

proof fn lemma_run_start_congruent(a: Seq<VehicleV>, b: Seq<VehicleV>, i: int)
    requires
        a.len() == b.len(),
        forall|k: int| 0 <= k < a.len() ==> spec_eligible(a[k]) == spec_eligible(b[k]),
        0 <= i <= a.len(),
    ensures
        run_start(a, i) == run_start(b, i),
    decreases i,
{
    if i > 0 && spec_eligible(a[i - 1]) {
        lemma_run_start_congruent(a, b, i - 1);
    }
}

proof fn lemma_run_end_congruent(a: Seq<VehicleV>, b: Seq<VehicleV>, i: int)
    requires
        a.len() == b.len(),
        forall|k: int| 0 <= k < a.len() ==> spec_eligible(a[k]) == spec_eligible(b[k]),
        0 <= i <= a.len(),
    ensures
        run_end(a, i) == run_end(b, i),
    decreases a.len() - i,
{
    if i < a.len() && spec_eligible(a[i]) {
        lemma_run_end_congruent(a, b, i + 1);
    }
}

/// Re-classifying under the parameterized-threshold policy is idempotent.
pub proof fn lemma_classify_threshold_idempotent(
    vs: Seq<VehicleV>,
    run_len: int,
    min_count: int,
)
    ensures
        spec_classify_threshold(
            spec_classify_threshold(vs, run_len, min_count),
            run_len,
            min_count,
        ) == spec_classify_threshold(vs, run_len, min_count),
{
    let c1 = spec_classify_threshold(vs, run_len, min_count);
    assert forall|k: int| 0 <= k < vs.len() implies spec_eligible(c1[k]) == spec_eligible(
        vs[k],
    ) by {
        lemma_flag_preserves_eligibility(vs[k]);
    }
    assert forall|i: int| 0 <= i < c1.len() implies spec_classify_threshold(
        c1,
        run_len,
        min_count,
    )[i] == c1[i] by {
        lemma_run_start_congruent(c1, vs, i);
        lemma_run_end_congruent(c1, vs, i);
        lemma_flag_preserves_eligibility(vs[i]);
        assert(spec_threshold_flagged(c1, i, run_len, min_count) == spec_threshold_flagged(
            vs,
            i,
            run_len,
            min_count,
        ));
    }
    assert(spec_classify_threshold(c1, run_len, min_count) =~= c1);
}

/// Re-applying the lookup policy with the same table is idempotent: the
/// flag is never duplicated, and the attached identity does not change.
pub proof fn lemma_classify_lookup_idempotent(vs: Seq<VehicleV>, t: Seq<VehicleInfoV>)
    ensures
        spec_enrich_lookup(spec_enrich_lookup(vs, t), t) == spec_enrich_lookup(vs, t),
{
    let c1 = spec_enrich_lookup(vs, t);
    assert forall|i: int| 0 <= i < c1.len() implies spec_enrich_lookup(c1, t)[i] == c1[i] by {
        let v = vs[i];
        let e1 = spec_enrich_at(v, i, t);
        assert(e1.order_number == v.order_number);
        lemma_with_deklassiert_idempotent(v.status);
        match v.order_number {
            Some(n) => {
                match info_find(t, n) {
                    Some(j) => {
                        assert(spec_enrich_at(e1, i, t) == spec_apply_info(e1, t[j]));
                    },
                    None => {},
                }
            },
            None => {},
        }
    }
    assert(spec_enrich_lookup(c1, t) =~= c1);
}

/// Under the heuristic policy, a second-class coach with no low-floor,
/// bike-hook or bike-reserved offer and not closed is flagged `Deklassiert`.
pub proof fn lemma_heuristic_flags_plain_second_class(vs: Seq<VehicleV>, i: int)
    requires
        0 <= i < vs.len(),
        vs[i].vehicle_type is SecondClass,
        !spec_has_retrofit_offer(vs[i].offers),
        !vs[i].status.contains(StatusFlag::Closed),
    ensures
        spec_classify_heuristic(vs)[i].status.contains(StatusFlag::Deklassiert),
{
    lemma_with_deklassiert_idempotent(vs[i].status);
}

/// The heuristic policy never touches a first-class coach, whatever its
/// offers.
pub proof fn lemma_heuristic_spares_first_class(vs: Seq<VehicleV>, i: int)
    requires
        0 <= i < vs.len(),
        vs[i].vehicle_type is FirstClass,
    ensures
        spec_classify_heuristic(vs)[i] == vs[i],
{
}

} // verus!
