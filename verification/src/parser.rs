//! The formation-string decoder: a small grammar over a compact textual
//! encoding of a train's composition.
//!
//! Grammar, left to right over the characters of the input:
//! - `@` followed by one character sets the active sector for all following
//!   vehicles until the next `@`.
//! - `[`, `]` and `,` are segment delimiters: each one flushes the buffered
//!   text as one vehicle segment and clears the buffer.  A buffer holding a
//!   bare status run (as in `-[1:3]`) is no segment of its own: the run is
//!   kept and prefixes the following segment.
//! - A segment's leading run of `-`, `>`, `=`, `%` stacks status flags
//!   (Closed, GroupBoarding, Reserved, OpenUnserved).
//! - The remaining body splits at the first `#` into a vehicle descriptor
//!   and an offers descriptor; `(` or `)` anywhere in either part set the
//!   no-passage markers and are then stripped.
//! - The vehicle descriptor splits at the first `:` into a type code and an
//!   order number; a non-numeric order number becomes `None` without
//!   failing the segment.
//! - The offers descriptor splits on `;`, empty tokens dropped.
//! - An empty trimmed segment produces no vehicle; parsing never fails.

use vstd::prelude::*;
use crate::chars::{
    spec_trim, spec_find_char, spec_parse_u32, str_chars, trim_chars, subvec, find_char_from,
    contains_char, parse_u32_chars, chars_to_string,
};
use crate::vehicle::{StatusFlag, VehicleType, VehicleTypeV, Offer, OfferV, Vehicle, VehicleV,
    vehicle_views};

verus! {

/// Type-code table of the vehicle descriptor.
pub open spec fn spec_parse_vehicle_type(s: Seq<char>) -> VehicleTypeV {
    if s == seq!['1'] {
        VehicleTypeV::FirstClass
    } else if s == seq!['2'] {
        VehicleTypeV::SecondClass
    } else if s == seq!['1', '2'] {
        VehicleTypeV::FirstAndSecondClass
    } else if s == seq!['F', 'A'] {
        VehicleTypeV::FamilyCar
    } else if s == seq!['W', 'L'] {
        VehicleTypeV::SleepingCar
    } else if s == seq!['W', 'R'] {
        VehicleTypeV::Restaurant
    } else if s == seq!['W', '1'] {
        VehicleTypeV::DiningFirstClass
    } else if s == seq!['W', '2'] {
        VehicleTypeV::DiningSecondClass
    } else if s == seq!['L', 'K'] {
        VehicleTypeV::Locomotive
    } else if s == seq!['D'] {
        VehicleTypeV::BaggageCar
    } else if s == seq!['F'] {
        VehicleTypeV::Fictional
    } else if s == seq!['K'] {
        VehicleTypeV::Classless
    } else if s == seq!['X'] {
        VehicleTypeV::Parked
    } else {
        VehicleTypeV::Unknown(s)
    }
}

/// Offer-code table of the offers descriptor.
pub open spec fn spec_parse_offer(s: Seq<char>) -> OfferV {
    if s == seq!['B', 'H', 'P'] {
        OfferV::Wheelchair
    } else if s == seq!['B', 'Z'] {
        OfferV::BusinessZone
    } else if s == seq!['F', 'Z'] {
        OfferV::FamilyZone
    } else if s == seq!['K', 'W'] {
        OfferV::Stroller
    } else if s == seq!['N', 'F'] {
        OfferV::LowFloor
    } else if s == seq!['V', 'H'] {
        OfferV::BikeHooks
    } else if s == seq!['V', 'R'] {
        OfferV::BikeReserved
    } else {
        OfferV::Unknown(s)
    }
}

fn chars_eq1(v: &Vec<char>, c0: char) -> (r: bool)
    ensures
        r == (v@ == seq![c0]),
{
    let r = v.len() == 1 && v[0] == c0;
    proof {
        if r {
            assert(v@ =~= seq![c0]);
        }
    }
    r
}

fn chars_eq2(v: &Vec<char>, c0: char, c1: char) -> (r: bool)
    ensures
        r == (v@ == seq![c0, c1]),
{
    let r = v.len() == 2 && v[0] == c0 && v[1] == c1;
    proof {
        if r {
            assert(v@ =~= seq![c0, c1]);
        }
    }
    r
}

fn chars_eq3(v: &Vec<char>, c0: char, c1: char, c2: char) -> (r: bool)
    ensures
        r == (v@ == seq![c0, c1, c2]),
{
    let r = v.len() == 3 && v[0] == c0 && v[1] == c1 && v[2] == c2;
    proof {
        if r {
            assert(v@ =~= seq![c0, c1, c2]);
        }
    }
    r
}

fn is_all_status(v: &Vec<char>) -> (r: bool)
    ensures
        r == all_status_chars(v@),
{
    if v.len() == 0 {
        return false;
    }
    let mut i: usize = 0;
    while i < v.len()
        invariant
            i <= v@.len(),
            forall|k: int| 0 <= k < i ==> status_char(v@[k]),
        decreases v@.len() - i,
    {
        let c = v[i];
        if !(c == '-' || c == '>' || c == '=' || c == '%') {
            return false;
        }
        i = i + 1;
    }
    true
}

fn vehicle_type_of_chars(v: &Vec<char>) -> (t: VehicleType)
    ensures
        t@ == spec_parse_vehicle_type(v@),
{
    if chars_eq1(v, '1') {
        VehicleType::FirstClass
    } else if chars_eq1(v, '2') {
        VehicleType::SecondClass
    } else if chars_eq2(v, '1', '2') {
        VehicleType::FirstAndSecondClass
    } else if chars_eq2(v, 'F', 'A') {
        VehicleType::FamilyCar
    } else if chars_eq2(v, 'W', 'L') {
        VehicleType::SleepingCar
    } else if chars_eq2(v, 'W', 'R') {
        VehicleType::Restaurant
    } else if chars_eq2(v, 'W', '1') {
        VehicleType::DiningFirstClass
    } else if chars_eq2(v, 'W', '2') {
        VehicleType::DiningSecondClass
    } else if chars_eq2(v, 'L', 'K') {
        VehicleType::Locomotive
    } else if chars_eq1(v, 'D') {
        VehicleType::BaggageCar
    } else if chars_eq1(v, 'F') {
        VehicleType::Fictional
    } else if chars_eq1(v, 'K') {
        VehicleType::Classless
    } else if chars_eq1(v, 'X') {
        VehicleType::Parked
    } else {
        VehicleType::Unknown(chars_to_string(v))
    }
}

/// Decode one type code, e.g. `"12"` to `FirstAndSecondClass`; any other
/// token is kept as `Unknown`.
pub fn parse_vehicle_type(s: &str) -> (t: VehicleType)
    ensures
        t@ == spec_parse_vehicle_type(s@),
{
    let v = str_chars(s);
    vehicle_type_of_chars(&v)
}

fn offer_of_chars(v: &Vec<char>) -> (o: Offer)
    ensures
        o@ == spec_parse_offer(v@),
{
    if chars_eq3(v, 'B', 'H', 'P') {
        Offer::Wheelchair
    } else if chars_eq2(v, 'B', 'Z') {
        Offer::BusinessZone
    } else if chars_eq2(v, 'F', 'Z') {
        Offer::FamilyZone
    } else if chars_eq2(v, 'K', 'W') {
        Offer::Stroller
    } else if chars_eq2(v, 'N', 'F') {
        Offer::LowFloor
    } else if chars_eq2(v, 'V', 'H') {
        Offer::BikeHooks
    } else if chars_eq2(v, 'V', 'R') {
        Offer::BikeReserved
    } else {
        Offer::Unknown(chars_to_string(v))
    }
}

/// Decode one offer code, e.g. `"NF"` to `LowFloor`; any other token is
/// kept as `Unknown`.
pub fn parse_offer(s: &str) -> (o: Offer)
    ensures
        o@ == spec_parse_offer(s@),
{
    let v = str_chars(s);
    offer_of_chars(&v)
}

pub open spec fn status_char(c: char) -> bool {
    c == '-' || c == '>' || c == '=' || c == '%'
}

pub open spec fn status_of_char(c: char) -> StatusFlag {
    if c == '-' {
        StatusFlag::Closed
    } else if c == '>' {
        StatusFlag::GroupBoarding
    } else if c == '=' {
        StatusFlag::Reserved
    } else {
        StatusFlag::OpenUnserved
    }
}

/// The flags named by the leading run of status characters.
pub open spec fn spec_leading_flags(s: Seq<char>) -> Seq<StatusFlag>
    decreases s.len(),
{
    if s.len() > 0 && status_char(s[0]) {
        seq![status_of_char(s[0])] + spec_leading_flags(s.skip(1))
    } else {
        Seq::empty()
    }
}

/// The parenthesis characters removed.
pub open spec fn spec_strip_parens(s: Seq<char>) -> Seq<char>
    decreases s.len(),
{
    if s.len() == 0 {
        Seq::empty()
    } else if s[0] == '(' || s[0] == ')' {
        spec_strip_parens(s.skip(1))
    } else {
        seq![s[0]] + spec_strip_parens(s.skip(1))
    }
}

fn strip_parens_chars(v: &Vec<char>) -> (r: Vec<char>)
    ensures
        r@ == spec_strip_parens(v@),
{
    let mut r: Vec<char> = Vec::new();
    let mut i: usize = 0;
    proof {
        assert(v@.skip(0) =~= v@);
        assert(Seq::<char>::empty() + spec_strip_parens(v@) =~= spec_strip_parens(v@));
    }
    while i < v.len()
        invariant
            i <= v@.len(),
            spec_strip_parens(v@) == r@ + spec_strip_parens(v@.skip(i as int)),
        decreases v@.len() - i,
    {
        let c = v[i];
        proof {
            assert(v@.skip(i as int)[0] == v@[i as int]);
            assert(v@.skip(i as int).skip(1) =~= v@.skip(i + 1));
        }
        if !(c == '(' || c == ')') {
            proof {
                assert(r@ + (seq![c] + spec_strip_parens(v@.skip(i + 1))) =~= r@.push(c)
                    + spec_strip_parens(v@.skip(i + 1)));
            }
            r.push(c);
        }
        i = i + 1;
    }
    proof {
        assert(spec_strip_parens(v@.skip(v@.len() as int)) =~= Seq::<char>::empty());
        assert(r@ + Seq::<char>::empty() =~= r@);
    }
    r
}

/// Tokens of the offers descriptor, split on `;`, empty tokens dropped.
pub open spec fn spec_offer_tokens(s: Seq<char>, buf: Seq<char>) -> Seq<OfferV>
    decreases s.len(),
{
    if s.len() == 0 {
        if buf.len() > 0 {
            seq![spec_parse_offer(buf)]
        } else {
            Seq::empty()
        }
    } else if s[0] == ';' {
        (if buf.len() > 0 {
            seq![spec_parse_offer(buf)]
        } else {
            Seq::empty()
        }) + spec_offer_tokens(s.skip(1), Seq::empty())
    } else {
        spec_offer_tokens(s.skip(1), buf.push(s[0]))
    }
}

pub open spec fn offer_views(v: Seq<Offer>) -> Seq<OfferV> {
    v.map_values(|o: Offer| o@)
}

fn split_offer_tokens(v: &Vec<char>) -> (r: Vec<Offer>)
    ensures
        offer_views(r@) == spec_offer_tokens(v@, Seq::empty()),
{
    let mut r: Vec<Offer> = Vec::new();
    let mut buf: Vec<char> = Vec::new();
    let mut i: usize = 0;
    proof {
        assert(v@.skip(0) =~= v@);
        assert(offer_views(r@) =~= Seq::<OfferV>::empty());
    }
    while i < v.len()
        invariant
            i <= v@.len(),
            spec_offer_tokens(v@, Seq::empty()) == offer_views(r@) + spec_offer_tokens(
                v@.skip(i as int),
                buf@,
            ),
        decreases v@.len() - i,
    {
        let c = v[i];
        proof {
            assert(v@.skip(i as int)[0] == v@[i as int]);
            assert(v@.skip(i as int).skip(1) =~= v@.skip(i + 1));
        }
        if c == ';' {
            if buf.len() > 0 {
                let o = offer_of_chars(&buf);
                r.push(o);
                proof {
                    assert(offer_views(r@) =~= offer_views(r@.drop_last()) + seq![o@]);
                    assert(offer_views(r@.drop_last()) + (seq![o@] + spec_offer_tokens(
                        v@.skip(i + 1),
                        Seq::<char>::empty(),
                    )) =~= offer_views(r@) + spec_offer_tokens(v@.skip(i + 1), Seq::<
                        char,
                    >::empty()));
                }
            }
            buf = Vec::new();
        } else {
            buf.push(c);
        }
        i = i + 1;
    }
    if buf.len() > 0 {
        let o = offer_of_chars(&buf);
        r.push(o);
        proof {
            assert(v@.skip(v@.len() as int).len() == 0);
            assert(offer_views(r@) =~= offer_views(r@.drop_last()) + seq![o@]);
        }
    } else {
        proof {
            assert(v@.skip(v@.len() as int).len() == 0);
            assert(offer_views(r@) + Seq::<OfferV>::empty() =~= offer_views(r@));
        }
    }
    r
}

/// One segment of the formation string, decoded to a vehicle.  `raw` is the
/// segment with surrounding whitespace already removed; an empty segment or
/// one whose body is empty after the status run produces no vehicle.
pub open spec fn spec_parse_vehicle(raw: Seq<char>, sector: Option<char>) -> Option<VehicleV> {
    if raw.len() == 0 {
        None
    } else {
        let flags = spec_leading_flags(raw);
        let body = spec_trim(raw.skip(flags.len() as int));
        if body.len() == 0 {
            None
        } else {
            let vraw = match spec_find_char(body, '#') {
                Some(j) => body.take(j),
                None => body,
            };
            let oraw = match spec_find_char(body, '#') {
                Some(j) => body.skip(j + 1),
                None => Seq::<char>::empty(),
            };
            let vclean = spec_trim(spec_strip_parens(vraw));
            let oclean = spec_trim(spec_strip_parens(oraw));
            let tpart = match spec_find_char(vclean, ':') {
                Some(j) => spec_trim(vclean.take(j)),
                None => vclean,
            };
            let ord = match spec_find_char(vclean, ':') {
                Some(j) => spec_parse_u32(vclean.skip(j + 1)),
                None => None,
            };
            Some(
                VehicleV {
                    sector,
                    status: flags,
                    no_passage_left: vraw.contains('(') || oraw.contains('('),
                    no_passage_right: vraw.contains(')') || oraw.contains(')'),
                    vehicle_type: spec_parse_vehicle_type(tpart),
                    order_number: ord,
                    offers: spec_offer_tokens(oclean, Seq::empty()),
                    vehicle_identifier: None,
                },
            )
        }
    }
}

fn parse_vehicle_chars(raw: &Vec<char>, sector: Option<char>) -> (r: Option<Vehicle>)
    ensures
        match r {
            Some(v) => spec_parse_vehicle(raw@, sector) == Some(v@),
            None => spec_parse_vehicle(raw@, sector) is None,
        },
{
    if raw.len() == 0 {
        return None;
    }
    // leading status flags
    let mut status: Vec<StatusFlag> = Vec::new();
    let mut i: usize = 0;
    proof {
        assert(raw@.skip(0) =~= raw@);
        assert(Seq::<StatusFlag>::empty() + spec_leading_flags(raw@) =~= spec_leading_flags(
            raw@,
        ));
    }
    while i < raw.len() && (raw[i] == '-' || raw[i] == '>' || raw[i] == '=' || raw[i] == '%')
        invariant
            i <= raw@.len(),
            i == status@.len(),
            spec_leading_flags(raw@) == status@ + spec_leading_flags(raw@.skip(i as int)),
        decreases raw@.len() - i,
    {
        let c = raw[i];
        let f = if c == '-' {
            StatusFlag::Closed
        } else if c == '>' {
            StatusFlag::GroupBoarding
        } else if c == '=' {
            StatusFlag::Reserved
        } else {
            StatusFlag::OpenUnserved
        };
        proof {
            assert(raw@.skip(i as int)[0] == raw@[i as int]);
            assert(raw@.skip(i as int).skip(1) =~= raw@.skip(i + 1));
            assert(status@ + (seq![f] + spec_leading_flags(raw@.skip(i + 1))) =~= status@.push(f)
                + spec_leading_flags(raw@.skip(i + 1)));
        }
        status.push(f);
        i = i + 1;
    }
    proof {
        if i < raw@.len() {
            assert(!status_char(raw@.skip(i as int)[0]));
        }
        assert(spec_leading_flags(raw@.skip(i as int)) =~= Seq::<StatusFlag>::empty());
        assert(status@ + Seq::<StatusFlag>::empty() =~= status@);
        assert(status@ == spec_leading_flags(raw@));
    }
    // body after the status run, trimmed
    let rest = subvec(raw, i, raw.len());
    let body = trim_chars(&rest);
    proof {
        assert(raw@.subrange(i as int, raw@.len() as int) =~= raw@.skip(i as int));
    }
    if body.len() == 0 {
        return None;
    }
    // split at the first '#'
    let (vraw, oraw) = match find_char_from(&body, 0, '#') {
        Some(j) => {
            proof {
                crate::chars::lemma_find_char(body@.skip(0), '#');
                assert(body@.skip(0) =~= body@);
            }
            let vp = subvec(&body, 0, j);
            let op = subvec(&body, j + 1, body.len());
            proof {
                assert(body@.subrange(0, j as int) =~= body@.take(j as int));
                assert(body@.subrange(j + 1, body@.len() as int) =~= body@.skip(j + 1));
            }
            (vp, op)
        },
        None => {
            proof {
                assert(body@.skip(0) =~= body@);
            }
            let vp = subvec(&body, 0, body.len());
            proof {
                assert(body@.subrange(0, body@.len() as int) =~= body@);
            }
            (vp, Vec::new())
        },
    };
    let no_passage_left = contains_char(&vraw, '(') || contains_char(&oraw, '(');
    let no_passage_right = contains_char(&vraw, ')') || contains_char(&oraw, ')');
    let vstrip = strip_parens_chars(&vraw);
    let vclean = trim_chars(&vstrip);
    let ostrip = strip_parens_chars(&oraw);
    let oclean = trim_chars(&ostrip);
    // split the vehicle descriptor at the first ':'
    let (tpart, order_number) = match find_char_from(&vclean, 0, ':') {
        Some(j) => {
            proof {
                assert(vclean@.skip(0) =~= vclean@);
            }
            let tp0 = subvec(&vclean, 0, j);
            let tp = trim_chars(&tp0);
            let op = subvec(&vclean, j + 1, vclean.len());
            let ord = parse_u32_chars(&op);
            proof {
                assert(vclean@.subrange(0, j as int) =~= vclean@.take(j as int));
                assert(vclean@.subrange(j + 1, vclean@.len() as int) =~= vclean@.skip(j + 1));
            }
            (tp, ord)
        },
        None => {
            proof {
                assert(vclean@.skip(0) =~= vclean@);
            }
            (vclean, None)
        },
    };
    let vehicle_type = vehicle_type_of_chars(&tpart);
    let offers = split_offer_tokens(&oclean);
    Some(
        Vehicle {
            sector,
            status,
            no_passage_left,
            no_passage_right,
            vehicle_type,
            order_number,
            offers,
            vehicle_identifier: None,
        },
    )
}

/// Decode one segment; `raw` carries its own status run and descriptors,
/// `sector` is the sector active where the segment began.
pub fn parse_vehicle(raw: &str, sector: Option<char>) -> (r: Option<Vehicle>)
    ensures
        match r {
            Some(v) => spec_parse_vehicle(raw@, sector) == Some(v@),
            None => spec_parse_vehicle(raw@, sector) is None,
        },
{
    let v = str_chars(raw);
    parse_vehicle_chars(&v, sector)
}

/// State of the segment tokenizer after some prefix of the input: the
/// buffered segment text, the active sector, whether the previous character
/// was `@`, and the vehicles already flushed.
#[verifier::ext_equal]
pub struct TokState {
    pub buf: Seq<char>,
    pub sector: Option<char>,
    pub awaiting: bool,
    pub out: Seq<VehicleV>,
}

pub open spec fn tok_init() -> TokState {
    TokState { buf: Seq::empty(), sector: None, awaiting: false, out: Seq::empty() }
}

/// Flush the buffered text as one segment.
pub open spec fn tok_flush(st: TokState) -> Seq<VehicleV> {
    st.out + match spec_parse_vehicle(spec_trim(st.buf), st.sector) {
        Some(v) => seq![v],
        None => Seq::empty(),
    }
}

/// A non-empty run of status characters and nothing else.
pub open spec fn all_status_chars(s: Seq<char>) -> bool {
    s.len() > 0 && (forall|k: int| 0 <= k < s.len() ==> status_char(s[k]))
}

pub open spec fn tok_step(st: TokState, c: char) -> TokState {
    if st.awaiting {
        TokState { buf: st.buf, sector: Some(c), awaiting: false, out: st.out }
    } else if c == '@' {
        TokState { buf: st.buf, sector: st.sector, awaiting: true, out: st.out }
    } else if c == '[' || c == ']' || c == ',' {
        // A bare status run before a delimiter names no vehicle of its own:
        // it prefixes the following segment instead.
        if all_status_chars(spec_trim(st.buf)) {
            TokState {
                buf: spec_trim(st.buf),
                sector: st.sector,
                awaiting: false,
                out: st.out,
            }
        } else {
            TokState { buf: Seq::empty(), sector: st.sector, awaiting: false, out: tok_flush(st) }
        }
    } else {
        TokState { buf: st.buf.push(c), sector: st.sector, awaiting: false, out: st.out }
    }
}

pub open spec fn tok_fold(s: Seq<char>) -> TokState {
    s.fold_left(tok_init(), |st: TokState, c: char| tok_step(st, c))
}

/// The vehicles of a whole formation string, in source order.
pub open spec fn spec_parse_formation(s: Seq<char>) -> Seq<VehicleV> {
    tok_flush(tok_fold(s))
}

/// Decode a whole formation string.  Never fails: malformed or empty
/// segments are dropped, everything else appears in source order.
pub fn parse_formation(input: &str) -> (r: Vec<Vehicle>)
    ensures
        vehicle_views(r@) == spec_parse_formation(input@),
{
    let v = str_chars(input);
    let mut out: Vec<Vehicle> = Vec::new();
    let mut buf: Vec<char> = Vec::new();
    let mut sector: Option<char> = None;
    let mut awaiting: bool = false;
    let mut i: usize = 0;
    proof {
        assert(v@.take(0) =~= Seq::<char>::empty());
        assert(Seq::<char>::empty().fold_left(
            tok_init(),
            |st: TokState, c: char| tok_step(st, c),
        ) == tok_init());
        assert(vehicle_views(out@) =~= Seq::<VehicleV>::empty());
    }
    while i < v.len()
        invariant
            i <= v@.len(),
            v@ == input@,
            tok_fold(v@.take(i as int)) == (TokState {
                buf: buf@,
                sector,
                awaiting,
                out: vehicle_views(out@),
            }),
        decreases v@.len() - i,
    {
        let c = v[i];
        proof {
            let t = v@.take(i + 1);
            assert(t.drop_last() =~= v@.take(i as int));
            assert(t.last() == v@[i as int]);
            assert(tok_fold(t) == tok_step(tok_fold(v@.take(i as int)), c));
        }
        if awaiting {
            sector = Some(c);
            awaiting = false;
        } else if c == '@' {
            awaiting = true;
        } else if c == '[' || c == ']' || c == ',' {
            let trimmed = trim_chars(&buf);
            let ghost st = tok_fold(v@.take(i as int));
            if is_all_status(&trimmed) {
                buf = trimmed;
            } else {
                match parse_vehicle_chars(&trimmed, sector) {
                    Some(veh) => {
                        out.push(veh);
                        proof {
                            assert(vehicle_views(out@) =~= vehicle_views(out@.drop_last())
                                + seq![veh@]);
                            assert(vehicle_views(out@) == tok_flush(st));
                        }
                    },
                    None => {
                        proof {
                            assert(vehicle_views(out@) + Seq::<VehicleV>::empty()
                                =~= vehicle_views(out@));
                            assert(vehicle_views(out@) == tok_flush(st));
                        }
                    },
                }
                buf = Vec::new();
            }
            proof {
                assert(tok_fold(v@.take(i + 1)) =~= (TokState {
                    buf: buf@,
                    sector,
                    awaiting,
                    out: vehicle_views(out@),
                }));
            }
        } else {
            buf.push(c);
        }
        proof {
            assert(tok_fold(v@.take(i + 1)) =~= (TokState {
                buf: buf@,
                sector,
                awaiting,
                out: vehicle_views(out@),
            }));
        }
        i = i + 1;
    }
    proof {
        assert(v@.take(v@.len() as int) =~= v@);
    }
    // final flush of the remaining buffered text
    let trimmed = trim_chars(&buf);
    let ghost st = tok_fold(v@);
    match parse_vehicle_chars(&trimmed, sector) {
        Some(veh) => {
            out.push(veh);
            proof {
                assert(vehicle_views(out@) =~= vehicle_views(out@.drop_last()) + seq![veh@]);
                assert(vehicle_views(out@) == tok_flush(st));
            }
        },
        None => {
            proof {
                assert(vehicle_views(out@) + Seq::<VehicleV>::empty() =~= vehicle_views(out@));
                assert(vehicle_views(out@) == tok_flush(st));
            }
        },
    }
    out
}

} // verus!
