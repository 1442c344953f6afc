//! The shared roster of currently running trains: a map from train number
//! to its latest formation snapshot.  A successful fetch replaces the
//! train's entry wholesale; eviction removes every train whose last
//! scheduled stop lies behind the cycle's start.  Train numbers are unique
//! across the roster.

use vstd::prelude::*;
use crate::formation::{FormationResponse, FormationAtScheduledStop};

verus! {

/// Classified failure of a per-train formation fetch.
#[derive(Debug, Clone, Copy, PartialEq, Eq, Structural)]
pub enum FetchError {
    RateLimited,
    Forbidden,
    BadRequest,
    Network,
    Decode,
}

pub open spec fn spec_classify_status(status: u16) -> Option<FetchError> {
    if 200 <= status < 300 {
        None
    } else if status == 429 {
        Some(FetchError::RateLimited)
    } else if status == 403 {
        Some(FetchError::Forbidden)
    } else if status == 400 {
        Some(FetchError::BadRequest)
    } else {
        Some(FetchError::Network)
    }
}

/// Classify an HTTP status code: success gives `None`; too-many-requests,
/// forbidden and bad-request give their own errors, anything else counts
/// as a network failure.
pub fn classify_status(status: u16) -> (r: Option<FetchError>)
    ensures
        r == spec_classify_status(status),
{
    if 200 <= status && status < 300 {
        None
    } else if status == 429 {
        Some(FetchError::RateLimited)
    } else if status == 403 {
        Some(FetchError::Forbidden)
    } else if status == 400 {
        Some(FetchError::BadRequest)
    } else {
        Some(FetchError::Network)
    }
}

/// The snapshot's last scheduled instant: walking the stops from the back,
/// the first stop carrying a departure or an arrival gives its departure,
/// or failing that its arrival.
pub open spec fn spec_last_time(stops: Seq<FormationAtScheduledStop>) -> Option<i64>
    decreases stops.len(),
{
    if stops.len() == 0 {
        None
    } else {
        let t = stops.last().scheduled_stop.stop_time;
        match t.departure_time {
            Some(d) => Some(d),
            None => match t.arrival_time {
                Some(a) => Some(a),
                None => spec_last_time(stops.drop_last()),
            },
        }
    }
}

/// The train's journey lies wholly before `now`.
pub open spec fn spec_train_finished(f: FormationResponse, now: i64) -> bool {
    match spec_last_time(f.formations_at_scheduled_stops@) {
        Some(t) => t < now,
        None => false,
    }
}

/// Whether the snapshot's journey is over at `now`: its last scheduled
/// stop's departure (or arrival, if it has no departure) precedes `now`.
/// A snapshot without any scheduled time never counts as finished.
pub fn is_train_finished(train: &FormationResponse, now: i64) -> (r: bool)
    ensures
        r == spec_train_finished(*train, now),
{
    let stops = &train.formations_at_scheduled_stops;
    let mut i: usize = stops.len();
    proof {
        assert(stops@.take(stops@.len() as int) =~= stops@);
    }
    while i > 0
        invariant
            i <= stops@.len(),
            spec_last_time(stops@) == spec_last_time(stops@.take(i as int)),
        decreases i,
    {
        proof {
            assert(stops@.take(i as int).last() == stops@[i - 1]);
            assert(stops@.take(i as int).drop_last() =~= stops@.take(i - 1));
        }
        let t = &stops[i - 1].scheduled_stop.stop_time;
        match t.departure_time {
            Some(d) => {
                return d < now;
            },
            None => {
                match t.arrival_time {
                    Some(a) => {
                        return a < now;
                    },
                    None => {},
                }
            },
        }
        i = i - 1;
    }
    proof {
        assert(stops@.take(0) =~= Seq::<FormationAtScheduledStop>::empty());
    }
    false
}

/// First index whose entry carries train number `n`, if any.
pub open spec fn roster_find(entries: Seq<FormationResponse>, n: u32) -> Option<int>
    decreases entries.len(),
{
    if entries.len() == 0 {
        None
    } else if entries[0].train_meta_information.train_number == n {
        Some(0int)
    } else {
        match roster_find(entries.skip(1), n) {
            Some(j) => Some(j + 1),
            None => None,
        }
    }
}

pub proof fn lemma_roster_find(entries: Seq<FormationResponse>, n: u32)
    ensures
        match roster_find(entries, n) {
            Some(j) => 0 <= j < entries.len() && entries[j].train_meta_information.train_number
                == n && (forall|k: int|
                0 <= k < j ==> entries[k].train_meta_information.train_number != n),
            None => forall|k: int|
                0 <= k < entries.len() ==> entries[k].train_meta_information.train_number != n,
        },
    decreases entries.len(),
{
    if entries.len() > 0 && entries[0].train_meta_information.train_number != n {
        lemma_roster_find(entries.skip(1), n);
        match roster_find(entries.skip(1), n) {
            Some(j) => {
                assert forall|k: int|
                    0 <= k < j + 1 implies entries[k].train_meta_information.train_number
                    != n by {
                    if k >= 1 {
                        assert(entries.skip(1)[k - 1].train_meta_information.train_number != n);
                    }
                }
            },
            None => {
                assert forall|k: int|
                    0 <= k < entries.len() implies entries[k].train_meta_information.train_number
                    != n by {
                    if k >= 1 {
                        assert(entries.skip(1)[k - 1].train_meta_information.train_number != n);
                    }
                }
            },
        }
    }
}

/// A fetched snapshot replaces the entry with its train number wholesale,
/// or is appended when the train is new.
pub open spec fn spec_roster_upsert(
    entries: Seq<FormationResponse>,
    f: FormationResponse,
) -> Seq<FormationResponse> {
    match roster_find(entries, f.train_meta_information.train_number) {
        Some(j) => entries.update(j, f),
        None => entries.push(f),
    }
}

/// The entries whose journey is not yet over at `cutoff`, in order.
pub open spec fn spec_roster_evict(
    entries: Seq<FormationResponse>,
    cutoff: i64,
) -> Seq<FormationResponse>
    decreases entries.len(),
{
    if entries.len() == 0 {
        Seq::empty()
    } else if spec_train_finished(entries[0], cutoff) {
        spec_roster_evict(entries.skip(1), cutoff)
    } else {
        seq![entries[0]] + spec_roster_evict(entries.skip(1), cutoff)
    }
}

/// Whatever eviction keeps was already there and is not finished.
pub proof fn lemma_evict_source(entries: Seq<FormationResponse>, cutoff: i64, x: FormationResponse)
    requires
        spec_roster_evict(entries, cutoff).contains(x),
    ensures
        entries.contains(x),
        !spec_train_finished(x, cutoff),
    decreases entries.len(),
{
    if entries.len() > 0 {
        let rest = spec_roster_evict(entries.skip(1), cutoff);
        if spec_train_finished(entries[0], cutoff) {
            lemma_evict_source(entries.skip(1), cutoff, x);
            let w = choose|k: int| 0 <= k < entries.skip(1).len() && entries.skip(1)[k] == x;
            assert(entries[w + 1] == x);
        } else {
            let e = spec_roster_evict(entries, cutoff);
            let w = choose|k: int| 0 <= k < e.len() && e[k] == x;
            if w == 0 {
                assert(entries[0] == x);
            } else {
                assert(rest[w - 1] == x);
                lemma_evict_source(entries.skip(1), cutoff, x);
                let v = choose|k: int| 0 <= k < entries.skip(1).len() && entries.skip(1)[k] == x;
                assert(entries[v + 1] == x);
            }
        }
    }
}

/// After eviction no surviving entry is finished.
pub proof fn lemma_evict_no_finished(entries: Seq<FormationResponse>, cutoff: i64)
    ensures
        forall|j: int|
            0 <= j < spec_roster_evict(entries, cutoff).len() ==> !spec_train_finished(
                spec_roster_evict(entries, cutoff)[j],
                cutoff,
            ),
{
    let e = spec_roster_evict(entries, cutoff);
    assert forall|j: int| 0 <= j < e.len() implies !spec_train_finished(e[j], cutoff) by {
        assert(e.contains(e[j]));
        lemma_evict_source(entries, cutoff, e[j]);
    }
}

/// Eviction keeps every entry whose journey is not yet over.
pub proof fn lemma_evict_keeps_unfinished(
    entries: Seq<FormationResponse>,
    cutoff: i64,
    x: FormationResponse,
)
    requires
        entries.contains(x),
        !spec_train_finished(x, cutoff),
    ensures
        spec_roster_evict(entries, cutoff).contains(x),
    decreases entries.len(),
{
    if entries.len() > 0 {
        let w = choose|k: int| 0 <= k < entries.len() && entries[k] == x;
        if w == 0 {
            assert(spec_roster_evict(entries, cutoff)[0] == x);
        } else {
            assert(entries.skip(1)[w - 1] == x);
            lemma_evict_keeps_unfinished(entries.skip(1), cutoff, x);
            let rest = spec_roster_evict(entries.skip(1), cutoff);
            let v = choose|k: int| 0 <= k < rest.len() && rest[k] == x;
            if !spec_train_finished(entries[0], cutoff) {
                assert(spec_roster_evict(entries, cutoff)[v + 1] == x);
            }
        }
    }
}

/// The roster: at most one entry per train number.
pub struct Roster {
    pub entries: Vec<FormationResponse>,
}

impl View for Roster {
    type V = Seq<FormationResponse>;

    open spec fn view(&self) -> Seq<FormationResponse> {
        self.entries@
    }
}

impl Roster {
    /// Train numbers are unique across the roster.
    pub open spec fn wf(&self) -> bool {
        forall|a: int, b: int|
            0 <= a < b < self@.len() ==> self@[a].train_meta_information.train_number
                != self@[b].train_meta_information.train_number
    }

    pub fn new() -> (r: Roster)
        ensures
            r@ == Seq::<FormationResponse>::empty(),
            r.wf(),
    {
        Roster { entries: Vec::new() }
    }

    pub fn len(&self) -> (n: usize)
        ensures
            n == self@.len(),
    {
        self.entries.len()
    }

    /// The entry of one train, if present.
    pub fn get(&self, train_number: u32) -> (r: Option<&FormationResponse>)
        ensures
            match roster_find(self@, train_number) {
                Some(j) => r matches Some(f) && *f == self@[j],
                None => r is None,
            },
    {
        let mut i: usize = 0;
        while i < self.entries.len()
            invariant
                i <= self@.len(),
                forall|k: int|
                    0 <= k < i ==> self@[k].train_meta_information.train_number != train_number,
            decreases self@.len() - i,
        {
            if self.entries[i].train_meta_information.train_number == train_number {
                proof {
                    lemma_roster_find(self@, train_number);
                    match roster_find(self@, train_number) {
                        Some(j) => {
                            assert(j >= i);
                            assert(j <= i);
                        },
                        None => {
                            assert(false);
                        },
                    }
                }
                return Some(&self.entries[i]);
            }
            i = i + 1;
        }
        proof {
            lemma_roster_find(self@, train_number);
            match roster_find(self@, train_number) {
                Some(j) => {
                    assert(self@[j].train_meta_information.train_number == train_number);
                    assert(false);
                },
                None => {},
            }
        }
        None
    }

    /// Merge one fetched snapshot: the entry with its train number is
    /// replaced wholesale, a new train is appended.
    pub fn upsert(&mut self, f: FormationResponse)
        requires
            old(self).wf(),
        ensures
            final(self).wf(),
            final(self)@ == spec_roster_upsert(old(self)@, f),
    {
        let n = f.train_meta_information.train_number;
        let m = self.entries.len();
        let mut i: usize = 0;
        while i < m
            invariant
                i <= m,
                m == self@.len(),
                self@ == old(self)@,
                forall|k: int| 0 <= k < i ==> self@[k].train_meta_information.train_number != n,
            decreases m - i,
        {
            if self.entries[i].train_meta_information.train_number == n {
                proof {
                    lemma_roster_find(self@, n);
                    match roster_find(self@, n) {
                        Some(j) => {
                            assert(j >= i);
                            assert(j <= i);
                        },
                        None => {
                            assert(false);
                        },
                    }
                }
                self.entries.set(i, f);
                return ;
            }
            i = i + 1;
        }
        proof {
            lemma_roster_find(self@, n);
            match roster_find(self@, n) {
                Some(j) => {
                    assert(self@[j].train_meta_information.train_number == n);
                    assert(false);
                },
                None => {},
            }
        }
        self.entries.push(f);
    }

    /// Evict every train whose journey is over at `cutoff`.
    pub fn evict_finished(&mut self, cutoff: i64)
        requires
            old(self).wf(),
        ensures
            final(self).wf(),
            final(self)@ == spec_roster_evict(old(self)@, cutoff),
    {
        let ghost orig = self.entries@;
        let mut kept: Vec<FormationResponse> = Vec::new();
        let ghost mut i: int = 0;
        proof {
            assert(orig.skip(0) =~= orig);
            assert(kept@ + spec_roster_evict(orig, cutoff) =~= spec_roster_evict(orig, cutoff));
        }
        while self.entries.len() > 0
            invariant
                0 <= i,
                i + self.entries@.len() == orig.len(),
                self.entries@ == orig.skip(i),
                spec_roster_evict(orig, cutoff) == kept@ + spec_roster_evict(
                    orig.skip(i),
                    cutoff,
                ),
            decreases self.entries@.len(),
        {
            let f = self.entries.remove(0);
            proof {
                assert(orig.skip(i)[0] == orig[i]);
                assert(orig.skip(i).skip(1) =~= orig.skip(i + 1));
                assert(self.entries@ =~= orig.skip(i + 1));
            }
            if !is_train_finished(&f, cutoff) {
                proof {
                    assert(kept@ + (seq![orig[i]] + spec_roster_evict(orig.skip(i + 1), cutoff))
                        =~= kept@.push(orig[i]) + spec_roster_evict(orig.skip(i + 1), cutoff));
                }
                kept.push(f);
            }
            proof {
                i = i + 1;
            }
        }
        proof {
            assert(spec_roster_evict(orig.skip(orig.len() as int), cutoff) =~= Seq::<
                FormationResponse,
            >::empty());
            assert(kept@ + Seq::<FormationResponse>::empty() =~= kept@);
        }
        self.entries = kept;
        proof {
            assert forall|p: int, q: int|
                0 <= p < q < orig.len() implies orig[p].train_meta_information.train_number
                != orig[q].train_meta_information.train_number by {
                assert(old(self)@[p] == orig[p]);
                assert(old(self)@[q] == orig[q]);
            }
            let e = self@;
            assert forall|a: int, b: int|
                0 <= a < b < e.len() implies e[a].train_meta_information.train_number
                != e[b].train_meta_information.train_number by {
                lemma_evict_distinct_pair(orig, cutoff, a, b);
            }
        }
    }
}

/// Two distinct positions of an evicted roster come from two distinct
/// positions of the original, in order, so uniqueness carries over.
proof fn lemma_evict_embeds(entries: Seq<FormationResponse>, cutoff: i64, a: int, b: int)
    requires
        0 <= a < b < spec_roster_evict(entries, cutoff).len(),
    ensures
        exists|p: int, q: int|
            0 <= p < q < entries.len() && entries[p] == spec_roster_evict(entries, cutoff)[a]
                && entries[q] == spec_roster_evict(entries, cutoff)[b],
    decreases entries.len(),
{
    let e = spec_roster_evict(entries, cutoff);
    let rest = spec_roster_evict(entries.skip(1), cutoff);
    if spec_train_finished(entries[0], cutoff) {
        lemma_evict_embeds(entries.skip(1), cutoff, a, b);
        let (p, q) = choose|p: int, q: int|
            0 <= p < q < entries.skip(1).len() && entries.skip(1)[p] == rest[a]
                && entries.skip(1)[q] == rest[b];
        assert(entries[p + 1] == e[a]);
        assert(entries[q + 1] == e[b]);
    } else {
        if a == 0 {
            // e[b] comes from the tail
            assert(rest[b - 1] == e[b]);
            assert(rest.contains(rest[b - 1]));
            lemma_evict_source(entries.skip(1), cutoff, rest[b - 1]);
            let v = choose|k: int|
                0 <= k < entries.skip(1).len() && entries.skip(1)[k] == rest[b - 1];
            assert(entries[0] == e[0]);
            assert(entries[v + 1] == e[b]);
        } else {
            lemma_evict_embeds(entries.skip(1), cutoff, a - 1, b - 1);
            let (p, q) = choose|p: int, q: int|
                0 <= p < q < entries.skip(1).len() && entries.skip(1)[p] == rest[a - 1]
                    && entries.skip(1)[q] == rest[b - 1];
            assert(entries[p + 1] == e[a]);
            assert(entries[q + 1] == e[b]);
        }
    }
}

proof fn lemma_evict_distinct_pair(entries: Seq<FormationResponse>, cutoff: i64, a: int, b: int)
    requires
        forall|p: int, q: int|
            0 <= p < q < entries.len() ==> entries[p].train_meta_information.train_number
                != entries[q].train_meta_information.train_number,
        0 <= a < b < spec_roster_evict(entries, cutoff).len(),
    ensures
        spec_roster_evict(entries, cutoff)[a].train_meta_information.train_number
            != spec_roster_evict(entries, cutoff)[b].train_meta_information.train_number,
{
    lemma_evict_embeds(entries, cutoff, a, b);
}

} // verus!
