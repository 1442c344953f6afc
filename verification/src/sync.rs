//! The roster synchronizer's control logic, as a state machine from state
//! and event to next state and action.  The caller owns the outside work:
//! it performs the returned action (issue the discovery request, fetch one
//! train's formation, sleep) and hands the outcome back.  One train's
//! failure never aborts a cycle; only a failed discovery sends the cycle
//! straight to sleep with the roster untouched.

use vstd::prelude::*;
use crate::formation::FormationResponse;
use crate::roster::{
    Roster, FetchError, spec_roster_upsert, spec_roster_evict, roster_find, spec_train_finished,
    lemma_roster_find, lemma_evict_keeps_unfinished,
};
use crate::discovery::{filter_train_numbers, spec_filter_train_numbers, string_views};

verus! {

/// Wait before retrying a rate-limited train, in seconds.
pub const RATE_LIMIT_PAUSE_SECS: u64 = 60;

/// Pacing between successive train fetches, in seconds.
pub const FETCH_PACING_SECS: u64 = 12;

/// Sleep between two discovery cycles, in seconds.
pub const CYCLE_SLEEP_SECS: u64 = 3600;

#[derive(Debug, Clone, Copy, PartialEq, Eq, Structural)]
pub enum SyncPhase {
    Idle,
    AwaitingDiscovery,
    Fetching,
    Sleeping,
}

/// What the caller is asked to do next.
#[derive(Debug, Clone, Copy, PartialEq, Eq, Structural)]
pub enum SyncAction {
    Discover,
    Fetch { train: u32, delay_secs: u64 },
    Sleep { secs: u64 },
}

/// The synchronizer: the roster it owns, the start of the running cycle,
/// the trains discovered for this cycle and the position of the one being
/// fetched.
pub struct Synchronizer {
    pub roster: Roster,
    pub cycle_start: i64,
    pub queue: Vec<u32>,
    pub next_index: usize,
    pub phase: SyncPhase,
}

#[verifier::ext_equal]
pub struct SyncStateV {
    pub roster: Seq<FormationResponse>,
    pub cycle_start: i64,
    pub queue: Seq<u32>,
    pub next_index: int,
    pub phase: SyncPhase,
}

impl View for Synchronizer {
    type V = SyncStateV;

    open spec fn view(&self) -> SyncStateV {
        SyncStateV {
            roster: self.roster@,
            cycle_start: self.cycle_start,
            queue: self.queue@,
            next_index: self.next_index as int,
            phase: self.phase,
        }
    }
}

/// The fetch transition.  Rate limiting changes nothing and asks for the
/// same train again after the pause.  Otherwise a success merges the
/// snapshot (replacing the train's entry wholesale) and any other error
/// leaves the roster alone; then either the next train is asked for with
/// the pacing delay, or — after the last train — the finished entries are
/// evicted and the cycle sleeps.
pub open spec fn spec_on_fetch(
    s: SyncStateV,
    outcome: Result<FormationResponse, FetchError>,
) -> (SyncStateV, SyncAction) {
    if outcome matches Err(FetchError::RateLimited) {
        (
            s,
            SyncAction::Fetch { train: s.queue[s.next_index], delay_secs: RATE_LIMIT_PAUSE_SECS },
        )
    } else {
        let merged = match outcome {
            Ok(f) => spec_roster_upsert(s.roster, f),
            Err(_) => s.roster,
        };
        if s.next_index + 1 < s.queue.len() {
            (
                SyncStateV { roster: merged, next_index: s.next_index + 1, ..s },
                SyncAction::Fetch {
                    train: s.queue[s.next_index + 1],
                    delay_secs: FETCH_PACING_SECS,
                },
            )
        } else {
            (
                SyncStateV {
                    roster: spec_roster_evict(merged, s.cycle_start),
                    phase: SyncPhase::Sleeping,
                    ..s
                },
                SyncAction::Sleep { secs: CYCLE_SLEEP_SECS },
            )
        }
    }
}

impl Synchronizer {
    pub open spec fn wf(&self) -> bool {
        &&& self.roster.wf()
        &&& (self@.phase is Fetching ==> 0 <= self@.next_index < self@.queue.len())
    }

    pub fn new() -> (s: Synchronizer)
        ensures
            s.wf(),
            s@.phase is Idle,
            s@.roster == Seq::<FormationResponse>::empty(),
    {
        Synchronizer {
            roster: Roster::new(),
            cycle_start: 0,
            queue: Vec::new(),
            next_index: 0,
            phase: SyncPhase::Idle,
        }
    }

    /// Begin a cycle at `now`: the caller is asked to run discovery.
    /// The roster is untouched.
    pub fn start_cycle(&mut self, now: i64) -> (a: SyncAction)
        requires
            old(self).wf(),
            !(old(self)@.phase is Fetching),
        ensures
            final(self).wf(),
            final(self)@.phase is AwaitingDiscovery,
            final(self)@.cycle_start == now,
            final(self)@.roster == old(self)@.roster,
            a == SyncAction::Discover,
    {
        self.cycle_start = now;
        self.phase = SyncPhase::AwaitingDiscovery;
        SyncAction::Discover
    }

    /// Feed back the discovery outcome.  A failed discovery sends the
    /// cycle straight to sleep, roster unchanged.  A successful one fixes
    /// the cycle's queue to the numbers within the service ranges; an empty
    /// queue ends the cycle at once with eviction and sleep, otherwise the
    /// caller is asked to fetch the first train without delay.
    pub fn on_discovery(&mut self, outcome: Option<Vec<String>>) -> (a: SyncAction)
        requires
            old(self).wf(),
            old(self)@.phase is AwaitingDiscovery,
        ensures
            final(self).wf(),
            final(self)@.cycle_start == old(self)@.cycle_start,
            match outcome {
                None => {
                    &&& final(self)@.phase is Sleeping
                    &&& final(self)@.roster == old(self)@.roster
                    &&& a == (SyncAction::Sleep { secs: CYCLE_SLEEP_SECS })
                },
                Some(numbers) => {
                    let q = spec_filter_train_numbers(string_views(numbers@));
                    &&& final(self)@.queue == q
                    &&& if q.len() == 0 {
                        &&& final(self)@.phase is Sleeping
                        &&& final(self)@.roster == spec_roster_evict(
                            old(self)@.roster,
                            old(self)@.cycle_start,
                        )
                        &&& a == (SyncAction::Sleep { secs: CYCLE_SLEEP_SECS })
                    } else {
                        &&& final(self)@.phase is Fetching
                        &&& final(self)@.next_index == 0
                        &&& final(self)@.roster == old(self)@.roster
                        &&& a == (SyncAction::Fetch { train: q[0], delay_secs: 0 })
                    }
                },
            },
    {
        match outcome {
            None => {
                self.phase = SyncPhase::Sleeping;
                SyncAction::Sleep { secs: CYCLE_SLEEP_SECS }
            },
            Some(numbers) => {
                let q = filter_train_numbers(&numbers);
                self.queue = q;
                self.next_index = 0;
                if self.queue.len() == 0 {
                    self.roster.evict_finished(self.cycle_start);
                    self.phase = SyncPhase::Sleeping;
                    SyncAction::Sleep { secs: CYCLE_SLEEP_SECS }
                } else {
                    self.phase = SyncPhase::Fetching;
                    let train = self.queue[0];
                    SyncAction::Fetch { train, delay_secs: 0 }
                }
            },
        }
    }

    /// Feed back one train's fetch outcome.
    ///
    /// A rate-limited fetch leaves the whole state untouched and asks for
    /// the same train again after the back-off pause: the train is never
    /// abandoned.  A successful fetch merges the snapshot at once, visible
    /// to readers before the cycle finishes; any other error abandons the
    /// train for this cycle only.  After the last train the finished
    /// entries are evicted and the cycle sleeps.
    pub fn on_fetch(&mut self, outcome: Result<FormationResponse, FetchError>) -> (a: SyncAction)
        requires
            old(self).wf(),
            old(self)@.phase is Fetching,
        ensures
            final(self).wf(),
            final(self)@ == spec_on_fetch(old(self)@, outcome).0,
            a == spec_on_fetch(old(self)@, outcome).1,
    {
        let rate_limited = match &outcome {
            Err(FetchError::RateLimited) => true,
            _ => false,
        };
        if rate_limited {
            let train = self.queue[self.next_index];
            return SyncAction::Fetch { train, delay_secs: RATE_LIMIT_PAUSE_SECS };
        }
        match outcome {
            Ok(f) => {
                self.roster.upsert(f);
            },
            Err(_) => {},
        }
        let qlen = self.queue.len();
        if self.next_index < qlen - 1 {
            self.next_index = self.next_index + 1;
            let train = self.queue[self.next_index];
            SyncAction::Fetch { train, delay_secs: FETCH_PACING_SECS }
        } else {
            self.roster.evict_finished(self.cycle_start);
            self.phase = SyncPhase::Sleeping;
            SyncAction::Sleep { secs: CYCLE_SLEEP_SECS }
        }
    }
}

/// There is a roster entry for train `n`.
pub open spec fn roster_has_train(entries: Seq<FormationResponse>, n: u32) -> bool {
    exists|j: int|
        0 <= j < entries.len() && entries[j].train_meta_information.train_number == n
}

/// Merging a snapshot leaves its own entry in the roster.
pub proof fn lemma_upsert_has_train(entries: Seq<FormationResponse>, f: FormationResponse)
    ensures
        spec_roster_upsert(entries, f).contains(f),
        roster_has_train(spec_roster_upsert(entries, f), f.train_meta_information.train_number),
{
    let n = f.train_meta_information.train_number;
    lemma_roster_find(entries, n);
    let u = spec_roster_upsert(entries, f);
    match roster_find(entries, n) {
        Some(j) => {
            assert(u[j] == f);
        },
        None => {
            assert(u[entries.len() as int] == f);
        },
    }
}

/// A fetch rate-limited twice before succeeding still merges the train's
/// snapshot, and the train is never abandoned: each rate-limited outcome
/// leaves the state exactly as it was and asks for the same train again,
/// and the eventual success leaves the snapshot's entry in the roster.
/// The one exception is a snapshot whose journey is already over at the
/// cycle's start: the end-of-cycle eviction drops it, as it drops every
/// finished train, which is why the claim asks for an unfinished journey.
pub proof fn lemma_rate_limited_twice_then_merged(s: SyncStateV, f: FormationResponse)
    requires
        s.phase is Fetching,
        0 <= s.next_index < s.queue.len(),
        !spec_train_finished(f, s.cycle_start),
    ensures
        ({
            let (s1, a1) = spec_on_fetch(s, Err(FetchError::RateLimited));
            let (s2, a2) = spec_on_fetch(s1, Err(FetchError::RateLimited));
            let (s3, a3) = spec_on_fetch(s2, Ok(f));
            &&& s1 == s
            &&& s2 == s
            &&& a1 == (SyncAction::Fetch {
                train: s.queue[s.next_index],
                delay_secs: RATE_LIMIT_PAUSE_SECS,
            })
            &&& a2 == a1
            &&& roster_has_train(s3.roster, f.train_meta_information.train_number)
        }),
{
    let (s3, a3) = spec_on_fetch(s, Ok(f));
    if s.next_index + 1 < s.queue.len() {
        lemma_upsert_has_train(s.roster, f);
    } else {
        lemma_merged_entry_survives_eviction(s.roster, f, s.cycle_start);
    }
}

/// After a successful fetch of `f` ends the cycle, the roster holds `f`'s
/// entry as long as `f`'s journey reaches past the cycle's start.
pub proof fn lemma_merged_entry_survives_eviction(
    entries: Seq<FormationResponse>,
    f: FormationResponse,
    cutoff: i64,
)
    requires
        !spec_train_finished(f, cutoff),
    ensures
        roster_has_train(
            spec_roster_evict(spec_roster_upsert(entries, f), cutoff),
            f.train_meta_information.train_number,
        ),
{
    lemma_upsert_has_train(entries, f);
    lemma_evict_keeps_unfinished(spec_roster_upsert(entries, f), cutoff, f);
    let e = spec_roster_evict(spec_roster_upsert(entries, f), cutoff);
    let w = choose|k: int| 0 <= k < e.len() && e[k] == f;
    assert(e[w].train_meta_information.train_number == f.train_meta_information.train_number);
}

} // verus!
