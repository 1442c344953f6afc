//! Train-number discovery: a streaming, stack-based scan over a namespaced
//! departure-board document.  A textual pre-pass strips namespace
//! declarations and prefixes; the scan then walks the document's events,
//! keeps a stack of open element names, and collects the train number of
//! every stop event whose first-leg scheduled departure lies at or before
//! the horizon — each number exactly once, in order of first appearance.
//! A malformed document stops the scan; what was accumulated is returned.

use vstd::prelude::*;
use quick_xml::events::Event;
use crate::chars::{
    spec_trim, trim_chars, str_chars, chars_eq, chars_end_with_ci, ends_with_ci, subvec,
    chars_to_string, spec_parse_u32, parse_u32_chars,
};

verus! {

/// One event of the document walk; only what the scan reads is
/// distinguished.  `Text` carries both plain character data and CDATA.
pub enum XmlEvent {
    Start(Vec<char>),
    End(Vec<char>),
    Text(Vec<char>),
    Other,
    Eof,
    Malformed,
}

#[verifier::ext_equal]
pub enum XmlEventV {
    Start(Seq<char>),
    End(Seq<char>),
    Text(Seq<char>),
    Other,
    Eof,
    Malformed,
}

impl View for XmlEvent {
    type V = XmlEventV;

    open spec fn view(&self) -> XmlEventV {
        match self {
            XmlEvent::Start(name) => XmlEventV::Start(name@),
            XmlEvent::End(name) => XmlEventV::End(name@),
            XmlEvent::Text(text) => XmlEventV::Text(text@),
            XmlEvent::Other => XmlEventV::Other,
            XmlEvent::Eof => XmlEventV::Eof,
            XmlEvent::Malformed => XmlEventV::Malformed,
        }
    }
}

pub open spec fn char_seq_views(xs: Seq<Vec<char>>) -> Seq<Seq<char>> {
    xs.map_values(|x: Vec<char>| x@)
}

pub open spec fn string_views(xs: Seq<String>) -> Seq<Seq<char>> {
    xs.map_values(|s: String| s@)
}

pub open spec fn xml_event_views(xs: Seq<XmlEvent>) -> Seq<XmlEventV> {
    xs.map_values(|e: XmlEvent| e@)
}

/// State of the discovery scan: the stack of open element names, the
/// numbers collected so far, the scratch fields of the current stop event,
/// the two leg markers, and whether the scan has ended.
pub struct DiscState {
    pub stack: Vec<Vec<char>>,
    pub numbers: Vec<Vec<char>>,
    pub pending_number: Option<Vec<char>>,
    pub pending_departure: Option<i64>,
    pub in_this_call: bool,
    pub in_service_departure: bool,
    pub done: bool,
}

#[verifier::ext_equal]
pub struct DiscStateV {
    pub stack: Seq<Seq<char>>,
    pub numbers: Seq<Seq<char>>,
    pub pending_number: Option<Seq<char>>,
    pub pending_departure: Option<i64>,
    pub in_this_call: bool,
    pub in_service_departure: bool,
    pub done: bool,
}

impl View for DiscState {
    type V = DiscStateV;

    open spec fn view(&self) -> DiscStateV {
        DiscStateV {
            stack: char_seq_views(self.stack@),
            numbers: char_seq_views(self.numbers@),
            pending_number: match self.pending_number {
                Some(n) => Some(n@),
                None => None,
            },
            pending_departure: self.pending_departure,
            in_this_call: self.in_this_call,
            in_service_departure: self.in_service_departure,
            done: self.done,
        }
    }
}

pub open spec fn spec_disc_init() -> DiscStateV {
    DiscStateV {
        stack: Seq::empty(),
        numbers: Seq::empty(),
        pending_number: None,
        pending_departure: None,
        in_this_call: false,
        in_service_departure: false,
        done: false,
    }
}

pub open spec fn stop_event_name() -> Seq<char> {
    "StopEvent"@
}

pub open spec fn this_call_name() -> Seq<char> {
    "ThisCall"@
}

pub open spec fn service_departure_name() -> Seq<char> {
    "ServiceDeparture"@
}

pub open spec fn train_number_suffix() -> Seq<char> {
    "trainnumber"@
}

pub open spec fn operating_number_suffix() -> Seq<char> {
    "operatingnumber"@
}

pub open spec fn timetabled_time_suffix() -> Seq<char> {
    "timetabledtime"@
}

/// What an RFC 3339 timestamp denotes, as Unix seconds; `None` where the
/// text is not such a timestamp.  Named, not spelled out: the result is a
/// function of the characters alone.
pub uninterp spec fn rfc3339_epoch(s: Seq<char>) -> Option<i64>;

/// Relies on `chrono::DateTime::parse_from_rfc3339` and
/// `chrono::DateTime::timestamp`: parsing depends on the characters alone,
/// and the timestamp is the denoted instant as Unix seconds.
#[verifier::external_body]
fn parse_rfc3339_epoch(v: &Vec<char>) -> (r: Option<i64>)
    ensures
        r == rfc3339_epoch(v@),
{
    let s: String = v.iter().collect();
    match chrono::DateTime::parse_from_rfc3339(&s) {
        Ok(dt) => Some(dt.timestamp()),
        Err(_) => None,
    }
}

/// Relies on `std::time::SystemTime::now` and `duration_since`: the current
/// instant as Unix seconds, never negative — a clock set before 1970 reads
/// as zero, so that the call never panics.
#[verifier::external_body]
pub fn now_epoch() -> (r: i64)
    ensures
        r >= 0,
{
    match std::time::SystemTime::now().duration_since(std::time::UNIX_EPOCH) {
        Ok(d) => d.as_secs().min(i64::MAX as u64) as i64,
        Err(_) => 0,
    }
}

/// Relies on `chrono::TimeZone::offset_from_utc_datetime` for the `Local`
/// zone and `FixedOffset::local_minus_utc`: the machine zone's offset from
/// UTC at the current instant, in seconds; a `FixedOffset` always lies
/// strictly within a day.  The instant comes from the guarded clock above
/// (zero before 1970, zero where unrepresentable), so the clock cannot make
/// the call fail; chrono itself still fails on a corrupt timezone database,
/// which no caller input can exclude.
#[verifier::external_body]
pub fn local_utc_offset_seconds() -> (r: i32)
    ensures
        -86400 < r < 86400,
{
    let secs = now_epoch();
    match chrono::DateTime::from_timestamp(secs, 0) {
        Some(dt) => chrono::TimeZone::offset_from_utc_datetime(&chrono::Local, &dt.naive_utc())
            .local_minus_utc(),
        None => 0,
    }
}

/// One step of the discovery scan.
pub open spec fn spec_disc_step(st: DiscStateV, ev: XmlEventV, horizon: i64) -> DiscStateV {
    if st.done {
        st
    } else {
        match ev {
            XmlEventV::Start(name) => {
                let st1 = if name == stop_event_name() {
                    DiscStateV { pending_number: None, pending_departure: None, ..st }
                } else if name == this_call_name() {
                    DiscStateV { in_this_call: true, ..st }
                } else if name == service_departure_name() && st.in_this_call {
                    DiscStateV { in_service_departure: true, ..st }
                } else {
                    st
                };
                DiscStateV { stack: st1.stack.push(name), ..st1 }
            },
            XmlEventV::End(name) => {
                let st1 = if name == stop_event_name() {
                    match (st.pending_number, st.pending_departure) {
                        (Some(num), Some(dep)) => if dep <= horizon && !st.numbers.contains(
                            num,
                        ) {
                            DiscStateV { numbers: st.numbers.push(num), ..st }
                        } else {
                            st
                        },
                        _ => st,
                    }
                } else if name == this_call_name() {
                    DiscStateV { in_this_call: false, ..st }
                } else if name == service_departure_name() {
                    DiscStateV { in_service_departure: false, ..st }
                } else {
                    st
                };
                if st1.stack.len() > 0 {
                    DiscStateV { stack: st1.stack.drop_last(), ..st1 }
                } else {
                    st1
                }
            },
            XmlEventV::Text(text) => {
                let t = spec_trim(text);
                if t.len() == 0 || st.stack.len() == 0 {
                    st
                } else {
                    let top = st.stack.last();
                    let st1 = if ends_with_ci(top, train_number_suffix()) || ends_with_ci(
                        top,
                        operating_number_suffix(),
                    ) {
                        DiscStateV { pending_number: Some(t), ..st }
                    } else {
                        st
                    };
                    if st.in_service_departure && ends_with_ci(top, timetabled_time_suffix()) {
                        match rfc3339_epoch(t) {
                            Some(ts) => DiscStateV { pending_departure: Some(ts), ..st1 },
                            None => st1,
                        }
                    } else {
                        st1
                    }
                }
            },
            XmlEventV::Other => st,
            XmlEventV::Eof => DiscStateV { done: true, ..st },
            XmlEventV::Malformed => DiscStateV { done: true, ..st },
        }
    }
}

/// The scan state after a sequence of events.
pub open spec fn spec_disc_fold(evs: Seq<XmlEventV>, horizon: i64) -> DiscStateV
    decreases evs.len(),
{
    if evs.len() == 0 {
        spec_disc_init()
    } else {
        spec_disc_step(spec_disc_fold(evs.drop_last(), horizon), evs.last(), horizon)
    }
}

/// The numbers a sequence of events leaves collected.
pub open spec fn spec_discovered(evs: Seq<XmlEventV>, horizon: i64) -> Seq<Seq<char>> {
    spec_disc_fold(evs, horizon).numbers
}

/// No number occurs twice.
pub open spec fn numbers_distinct(numbers: Seq<Seq<char>>) -> bool {
    forall|a: int, b: int| 0 <= a < b < numbers.len() ==> numbers[a] != numbers[b]
}

/// Each step keeps the collected numbers distinct: set semantics.
pub proof fn lemma_disc_step_distinct(st: DiscStateV, ev: XmlEventV, horizon: i64)
    requires
        numbers_distinct(st.numbers),
    ensures
        numbers_distinct(spec_disc_step(st, ev, horizon).numbers),
{
    let ns = spec_disc_step(st, ev, horizon).numbers;
    if ns != st.numbers {
        match ev {
            XmlEventV::End(name) => {
                match (st.pending_number, st.pending_departure) {
                    (Some(num), Some(dep)) => {
                        assert(!st.numbers.contains(num));
                        assert forall|a: int, b: int| 0 <= a < b < ns.len() implies ns[a]
                            != ns[b] by {
                            if b == ns.len() - 1 {
                                assert(st.numbers[a] != num);
                            }
                        }
                    },
                    _ => {},
                }
            },
            _ => {},
        }
    }
}

fn vec_chars_contains(xs: &Vec<Vec<char>>, x: &Vec<char>) -> (r: bool)
    ensures
        r == char_seq_views(xs@).contains(x@),
{
    let ghost views = char_seq_views(xs@);
    let mut i: usize = 0;
    while i < xs.len()
        invariant
            i <= xs@.len(),
            forall|k: int| 0 <= k < i ==> views[k] != x@,
        decreases xs@.len() - i,
    {
        proof {
            assert(views[i as int] == xs@[i as int]@);
        }
        if chars_eq(&xs[i], x) {
            return true;
        }
        i = i + 1;
    }
    proof {
        if views.contains(x@) {
            let w = choose|k: int| 0 <= k < views.len() && views[k] == x@;
            assert(views[w] != x@);
        }
    }
    false
}

/// One step of the scan, executably.
fn disc_step(st: &mut DiscState, ev: XmlEvent, horizon: i64)
    ensures
        final(st)@ == spec_disc_step(old(st)@, ev@, horizon),
{
    if st.done {
        return ;
    }
    match ev {
        XmlEvent::Start(name) => {
            let se = str_chars("StopEvent");
            let tc = str_chars("ThisCall");
            let sd = str_chars("ServiceDeparture");
            if chars_eq(&name, &se) {
                st.pending_number = None;
                st.pending_departure = None;
            } else if chars_eq(&name, &tc) {
                st.in_this_call = true;
            } else if chars_eq(&name, &sd) && st.in_this_call {
                st.in_service_departure = true;
            }
            let ghost mid = st@;
            st.stack.push(name);
            proof {
                assert(char_seq_views(st.stack@) =~= mid.stack.push(name@)) by {
                    assert forall|k: int| 0 <= k < st.stack@.len() implies char_seq_views(
                        st.stack@,
                    )[k] == mid.stack.push(name@)[k] by {
                        if k < st.stack@.len() - 1 {
                            assert(char_seq_views(st.stack@)[k] == st.stack@[k]@);
                        }
                    }
                }
                assert(st@ =~= spec_disc_step(old(st)@, ev@, horizon));
            }
        },
        XmlEvent::End(name) => {
            let se = str_chars("StopEvent");
            let tc = str_chars("ThisCall");
            let sd = str_chars("ServiceDeparture");
            if chars_eq(&name, &se) {
                let insert: Option<Vec<char>> = match (&st.pending_number, &st.pending_departure) {
                    (Some(num), Some(dep)) => {
                        if *dep <= horizon && !vec_chars_contains(&st.numbers, num) {
                            let copy = subvec(num, 0, num.len());
                            proof {
                                assert(copy@ =~= num@);
                            }
                            Some(copy)
                        } else {
                            None
                        }
                    },
                    _ => None,
                };
                match insert {
                    Some(copy) => {
                        let ghost mid = st@;
                        st.numbers.push(copy);
                        proof {
                            assert(char_seq_views(st.numbers@) =~= mid.numbers.push(copy@)) by {
                                assert forall|k: int|
                                    0 <= k < st.numbers@.len() implies char_seq_views(
                                    st.numbers@,
                                )[k] == mid.numbers.push(copy@)[k] by {
                                    if k < st.numbers@.len() - 1 {
                                        assert(char_seq_views(st.numbers@)[k]
                                            == st.numbers@[k]@);
                                    }
                                }
                            }
                        }
                    },
                    None => {},
                }
            } else if chars_eq(&name, &tc) {
                st.in_this_call = false;
            } else if chars_eq(&name, &sd) {
                st.in_service_departure = false;
            }
            let ghost mid = st@;
            let _ = st.stack.pop();
            proof {
                if mid.stack.len() > 0 {
                    assert(char_seq_views(st.stack@) =~= mid.stack.drop_last()) by {
                        assert forall|k: int| 0 <= k < st.stack@.len() implies char_seq_views(
                            st.stack@,
                        )[k] == mid.stack.drop_last()[k] by {
                            assert(char_seq_views(st.stack@)[k] == st.stack@[k]@);
                        }
                    }
                } else {
                    assert(char_seq_views(st.stack@) =~= mid.stack);
                }
                assert(st@ =~= spec_disc_step(old(st)@, ev@, horizon));
            }
        },
        XmlEvent::Text(text) => {
            let t = trim_chars(&text);
            if t.len() == 0 || st.stack.len() == 0 {
                proof {
                    assert(st@ =~= spec_disc_step(old(st)@, ev@, horizon));
                }
                return ;
            }
            let tn = str_chars("trainnumber");
            let on = str_chars("operatingnumber");
            let tt = str_chars("timetabledtime");
            let top_index = st.stack.len() - 1;
            let is_number_elem = chars_end_with_ci(&st.stack[top_index], &tn)
                || chars_end_with_ci(&st.stack[top_index], &on);
            let is_time_elem = chars_end_with_ci(&st.stack[top_index], &tt);
            proof {
                assert(st@.stack.last() == st.stack@[top_index as int]@);
            }
            if st.in_service_departure && is_time_elem {
                match parse_rfc3339_epoch(&t) {
                    Some(ts) => {
                        st.pending_departure = Some(ts);
                    },
                    None => {},
                }
            }
            if is_number_elem {
                st.pending_number = Some(t);
            }
            proof {
                assert(st@ =~= spec_disc_step(old(st)@, ev@, horizon));
            }
        },
        XmlEvent::Other => {},
        XmlEvent::Eof => {
            st.done = true;
        },
        XmlEvent::Malformed => {
            st.done = true;
        },
    }
}

/// Whether a regular-expression pattern compiles; a function of the pattern
/// text alone.
pub uninterp spec fn regex_pattern_ok(pattern: Seq<char>) -> bool;

/// The text with every match of the pattern replaced; a function of
/// pattern, text and replacement alone.
pub uninterp spec fn regex_replaced(pattern: Seq<char>, text: Seq<char>, rep: Seq<char>) -> Seq<
    char,
>;

/// Relies on `regex::Regex::new` and `regex::Regex::replace_all`: whether a
/// pattern compiles depends on the pattern text alone, and the replacement
/// result on pattern, text and replacement alone.
#[verifier::external_body]
fn regex_replace_all(pattern: &str, text: &str, rep: &str) -> (r: Option<String>)
    ensures
        r is Some == regex_pattern_ok(pattern@),
        r matches Some(s) ==> s@ == regex_replaced(pattern@, text@, rep@),
{
    match regex::Regex::new(pattern) {
        Ok(re) => Some(re.replace_all(text, rep).into_owned()),
        Err(_) => None,
    }
}

pub open spec fn xmlns_pattern() -> Seq<char> {
    "\\sxmlns(:\\w+)?=\"[^\"]+\""@
}

pub open spec fn tag_prefix_pattern() -> Seq<char> {
    "<(/?)([A-Za-z0-9_]+):"@
}

pub open spec fn attr_prefix_pattern() -> Seq<char> {
    "(\\s)([A-Za-z0-9_]+):"@
}

/// The namespace pre-pass: declarations removed, then element and attribute
/// prefixes removed.  Where one of the fixed patterns fails to compile the
/// text is returned unchanged.
pub open spec fn spec_strip_namespaces(s: Seq<char>) -> Seq<char> {
    if regex_pattern_ok(xmlns_pattern()) && regex_pattern_ok(tag_prefix_pattern())
        && regex_pattern_ok(attr_prefix_pattern()) {
        regex_replaced(
            attr_prefix_pattern(),
            regex_replaced(
                tag_prefix_pattern(),
                regex_replaced(xmlns_pattern(), s, ""@),
                "<$1"@,
            ),
            "$1"@,
        )
    } else {
        s
    }
}

/// Strip namespace declarations and element/attribute namespace prefixes.
pub fn strip_namespaces(xml: &str) -> (r: String)
    ensures
        r@ == spec_strip_namespaces(xml@),
{
    let r1 = regex_replace_all("\\sxmlns(:\\w+)?=\"[^\"]+\"", xml, "");
    let s1 = match r1 {
        Some(s) => s,
        None => {
            return xml.to_owned();
        },
    };
    let r2 = regex_replace_all("<(/?)([A-Za-z0-9_]+):", s1.as_str(), "<$1");
    let s2 = match r2 {
        Some(s) => s,
        None => {
            return xml.to_owned();
        },
    };
    let r3 = regex_replace_all("(\\s)([A-Za-z0-9_]+):", s2.as_str(), "$1");
    match r3 {
        Some(s) => s,
        None => xml.to_owned(),
    }
}

/// The events quick_xml yields for a document, in order, up to and
/// including the first `Eof` or `Malformed`.  Named, not spelled out: over
/// a string slice the reader is deterministic, so the sequence is a
/// function of the text alone.
pub uninterp spec fn xml_events_of(text: Seq<char>) -> Seq<XmlEventV>;

#[verifier::external_type_specification]
#[verifier::external_body]
#[verifier::reject_recursive_types(R)]
pub struct ExXmlReader<R>(quick_xml::Reader<R>);

/// Relies on `quick_xml::Reader::read_event`: yields the document's next
/// event.  Only the variants the scan reads are distinguished; element
/// names come without their namespace prefix, text and CDATA come as
/// characters, errors as `Malformed`.  Nothing is promised per call — the
/// reader's position is hidden state; `xml_events` below names the
/// cumulative result.
#[verifier::external_body]
fn xml_next_event(rd: &mut quick_xml::Reader<&[u8]>) -> (ev: XmlEvent) {
    match rd.read_event() {
        Ok(Event::Start(e)) => XmlEvent::Start(e.local_name().as_ref().chars().collect()),
        Ok(Event::End(e)) => XmlEvent::End(e.local_name().as_ref().chars().collect()),
        Ok(Event::Text(e)) => XmlEvent::Text(e.as_ref().chars().collect()),
        Ok(Event::CData(e)) => XmlEvent::Text(e.as_ref().chars().collect()),
        Ok(Event::Eof) => XmlEvent::Eof,
        Ok(_) => XmlEvent::Other,
        Err(_) => XmlEvent::Malformed,
    }
}

/// Relies on `quick_xml::Reader::from_str` and `quick_xml::Reader::read_event`:
/// over a string slice the reader is deterministic in the text, so the
/// document's whole event sequence is a function of its characters alone.
/// The body only repeats the read-event call until the document ends.
#[verifier::external_body]
fn xml_events(text: &str) -> (r: Vec<XmlEvent>)
    ensures
        xml_event_views(r@) == xml_events_of(text@),
{
    let mut rd = quick_xml::Reader::from_str(text);
    let mut out: Vec<XmlEvent> = Vec::new();
    let mut done = false;
    while !done {
        let ev = xml_next_event(&mut rd);
        done = matches!(ev, XmlEvent::Eof | XmlEvent::Malformed);
        out.push(ev);
    }
    out
}

/// Scan a departure-board document and collect the train numbers of stop
/// events whose first-leg scheduled departure lies at or before `horizon`
/// (Unix seconds): exactly the numbers the scan's fold leaves collected
/// over the document's own event sequence, after the namespace pre-pass;
/// no number appears twice.
pub fn parse_train_numbers_before(xml: &str, horizon: i64) -> (r: Vec<String>)
    ensures
        string_views(r@) == spec_discovered(
            xml_events_of(spec_strip_namespaces(xml@)),
            horizon,
        ),
        numbers_distinct(string_views(r@)),
{
    let cleaned = strip_namespaces(xml);
    let mut events = xml_events(cleaned.as_str());
    let ghost all = xml_event_views(events@);
    let mut st = DiscState {
        stack: Vec::new(),
        numbers: Vec::new(),
        pending_number: None,
        pending_departure: None,
        in_this_call: false,
        in_service_departure: false,
        done: false,
    };
    let ghost mut i: int = 0;
    proof {
        assert(st@ =~= spec_disc_init());
        assert(all.take(0) =~= Seq::<XmlEventV>::empty());
    }
    while events.len() > 0
        invariant
            0 <= i,
            i + events@.len() == all.len(),
            xml_event_views(events@) == all.skip(i),
            st@ == spec_disc_fold(all.take(i), horizon),
            numbers_distinct(st@.numbers),
        decreases events@.len(),
    {
        let ghost prev = events@;
        let ev = events.remove(0);
        proof {
            assert(ev@ == xml_event_views(prev)[0]);
            assert(ev@ == all[i]);
            assert forall|k: int| 0 <= k < events@.len() implies xml_event_views(events@)[k]
                == all.skip(i + 1)[k] by {
                assert(events@[k] == prev[k + 1]);
                assert(xml_event_views(prev)[k + 1] == prev[k + 1]@);
                assert(all.skip(i)[k + 1] == all[i + 1 + k]);
            }
            assert(xml_event_views(events@) =~= all.skip(i + 1));
            let t = all.take(i + 1);
            assert(t.drop_last() =~= all.take(i));
            assert(t.last() == all[i]);
            lemma_disc_step_distinct(st@, ev@, horizon);
        }
        disc_step(&mut st, ev, horizon);
        proof {
            i = i + 1;
        }
    }
    proof {
        assert(all.take(all.len() as int) =~= all);
    }
    // hand the collected numbers out as strings
    let mut out: Vec<String> = Vec::new();
    let mut j: usize = 0;
    while j < st.numbers.len()
        invariant
            j <= st.numbers@.len(),
            out@.len() == j,
            forall|k: int| 0 <= k < j ==> out@[k]@ == st@.numbers[k],
        decreases st.numbers@.len() - j,
    {
        let s = chars_to_string(&st.numbers[j]);
        proof {
            assert(st@.numbers[j as int] == st.numbers@[j as int]@);
        }
        out.push(s);
        j = j + 1;
    }
    proof {
        assert(string_views(out@) =~= st@.numbers);
    }
    out
}

/// The inputs on which the horizon's day arithmetic stays in range: a
/// plausible zone offset (within a day) and a clock between 1970 and well
/// before the end of `i64` seconds.
pub open spec fn horizon_inputs_ok(now: i64, utc_offset_secs: i64) -> bool {
    &&& -86400 <= utc_offset_secs <= 86400
    &&& 0 <= now <= i64::MAX - 400000
    &&& now + utc_offset_secs >= 0
}

/// The discovery horizon for a cycle starting at `now`: four o'clock local
/// time on the following day, as Unix seconds, for a zone standing
/// `utc_offset_secs` ahead of UTC; `now` itself where the inputs are out
/// of range.
pub open spec fn spec_discovery_horizon(now: i64, utc_offset_secs: i64) -> i64 {
    if horizon_inputs_ok(now, utc_offset_secs) {
        ((((now + utc_offset_secs) / 86400) * 86400 + 100800) - utc_offset_secs) as i64
    } else {
        now
    }
}

pub fn discovery_horizon(now: i64, utc_offset_secs: i64) -> (r: i64)
    ensures
        r == spec_discovery_horizon(now, utc_offset_secs),
{
    if -86400 <= utc_offset_secs && utc_offset_secs <= 86400 && 0 <= now && now <= i64::MAX
        - 400000 && now + utc_offset_secs >= 0 {
        let local = now + utc_offset_secs;
        ((local / 86400) * 86400 + 100800) - utc_offset_secs
    } else {
        now
    }
}

/// Scan a departure-board document against the horizon computed from the
/// current clock and the machine zone's offset: the collected numbers are
/// the scan's fold over the document's own events, for the horizon that
/// `spec_discovery_horizon` gives some non-negative clock reading and some
/// zone offset within a day.
pub fn parse_train_numbers(xml: &str) -> (r: Vec<String>)
    ensures
        exists|now: i64, offset: i64|
            #![auto]
            now >= 0 && -86400 < offset < 86400 && string_views(r@) == spec_discovered(
                xml_events_of(spec_strip_namespaces(xml@)),
                spec_discovery_horizon(now, offset),
            ),
        numbers_distinct(string_views(r@)),
{
    let now = now_epoch();
    let offset = local_utc_offset_seconds();
    let horizon = discovery_horizon(now, offset as i64);
    let r = parse_train_numbers_before(xml, horizon);
    proof {
        assert(string_views(r@) == spec_discovered(
            xml_events_of(spec_strip_namespaces(xml@)),
            spec_discovery_horizon(now, offset as i64),
        ));
    }
    r
}

/// The service ranges the roster cares about.
pub open spec fn in_service_ranges(n: u32) -> bool {
    (600 <= n <= 649) || (800 <= n <= 849) || (950 <= n <= 999)
}

/// The numbers that parse as integers within the service ranges, in order.
pub open spec fn spec_filter_train_numbers(xs: Seq<Seq<char>>) -> Seq<u32>
    decreases xs.len(),
{
    if xs.len() == 0 {
        Seq::empty()
    } else {
        let rest = spec_filter_train_numbers(xs.skip(1));
        match spec_parse_u32(xs[0]) {
            Some(n) => if in_service_ranges(n) {
                seq![n] + rest
            } else {
                rest
            },
            None => rest,
        }
    }
}

/// Keep the discovered numbers that parse as integers in the service
/// ranges; anything else is dropped.
pub fn filter_train_numbers(numbers: &Vec<String>) -> (r: Vec<u32>)
    ensures
        r@ == spec_filter_train_numbers(string_views(numbers@)),
{
    let ghost views = string_views(numbers@);
    let mut out: Vec<u32> = Vec::new();
    let mut i: usize = 0;
    proof {
        assert(views.skip(0) =~= views);
        assert(Seq::<u32>::empty() + spec_filter_train_numbers(views)
            =~= spec_filter_train_numbers(views));
    }
    while i < numbers.len()
        invariant
            i <= numbers@.len(),
            views == string_views(numbers@),
            spec_filter_train_numbers(views) == out@ + spec_filter_train_numbers(
                views.skip(i as int),
            ),
        decreases numbers@.len() - i,
    {
        let cs = str_chars(numbers[i].as_str());
        proof {
            assert(views.skip(i as int)[0] == views[i as int]);
            assert(views[i as int] == numbers@[i as int]@);
            assert(views.skip(i as int).skip(1) =~= views.skip(i + 1));
        }
        match parse_u32_chars(&cs) {
            Some(n) => {
                if 600 <= n && n <= 649 || 800 <= n && n <= 849 || 950 <= n && n <= 999 {
                    proof {
                        assert(out@ + (seq![n] + spec_filter_train_numbers(views.skip(i + 1)))
                            =~= out@.push(n) + spec_filter_train_numbers(views.skip(i + 1)));
                    }
                    out.push(n);
                }
            },
            None => {},
        }
        i = i + 1;
    }
    proof {
        assert(spec_filter_train_numbers(views.skip(views.len() as int)) =~= Seq::<u32>::empty());
        assert(out@ + Seq::<u32>::empty() =~= out@);
    }
    out
}

} // verus!
