//! The causal effect fence: stops the same logical action from executing twice,
//! whether the second attempt comes in the same instant or minutes later, and
//! gives every committed effect a content-addressed certificate that is
//! causally chained to what it was built on.
//!
//! An attempt passes three gates in [`prepare_effect_fence`]: the intent ledger
//! (an intent that already ran is replayed, one in flight or failed is refused,
//! otherwise the attempt takes a lease), the read set (every dependency must
//! still be at the sequence that was observed), and the reservation of the next
//! sequence number in the target domain. The caller then runs the effect and
//! reports back with [`commit_effect_cert`] or [`abort_effect`].
//!
//! State is in memory and belongs to one process. A fence that is shared
//! between threads or tasks is kept under a lock, held for the length of one
//! call and not while the effect runs.

use std::sync::Arc;
use std::time::Instant;
use vstd::prelude::*;
use vstd::string::*;
use crate::cert::{reads_view, ReadModel};
use crate::clock::counter;
use crate::hex::is_digest_text;
use crate::json::Json;
use crate::model::{aborted, admission, admitted, claim_outcome, claimable, claimed, cleared,
    commit_outcome, committed, counted, error_text, evicted, leased, live, new_fence,
    prepare_outcome, prepared, recorded_answer, reservation, reserved, room, seq_of, stale_error,
    stale_read, stale_reason, stats_line, stats_prevented, stats_total, swept, ticket_for,
    ErrorModel, FenceModel, IntentModel, Outcome};
use crate::order::{lemma_ascending_distinct, lemma_sorted, lemma_take_one_more, sorted};
use crate::strmap::StrMap;
use crate::text::append_decimal;

pub use crate::cert::{EffectCert, EffectRequest, PreparedEffect, ReadSetEntry};
pub use crate::clock::VectorClock;
pub use crate::model::{FenceConfig, FenceStats};

verus! {

/// A point in time of the machine's monotonic clock.
#[verifier::external_type_specification]
#[verifier::external_body]
pub struct ExInstant(std::time::Instant);

/// Calls `std::time::Instant::now`. Nothing is claimed of the time that it is.
#[verifier::external_body]
fn clock_start() -> (origin: Instant) {
    Instant::now()
}

/// Calls `std::time::Instant::elapsed`: the nanoseconds that have passed since
/// `origin`. Nothing is claimed of how many have passed.
#[verifier::external_body]
fn clock_read(origin: &Instant) -> (nanos: u128) {
    origin.elapsed().as_nanos()
}

/// Calls `std::sync::Arc::clone`: another handle to the same certificate.
#[verifier::external_body]
fn share(cert: &Arc<EffectCert>) -> (handle: Arc<EffectCert>)
    ensures
        handle == *cert,
{
    Arc::clone(cert)
}

/// What the ledger records of an intent.
#[derive(Debug)]
enum IntentState {
    /// An attempt holds the lease and is presumably executing.
    InFlight { lease_expires_at: u128 },
    /// The effect ran, and this is its certificate.
    Done { cert: Arc<EffectCert>, recorded_at: u128 },
    /// An attempt reported failure, or its commit was rejected.
    Failed { reason: String, recorded_at: u128 },
}

impl View for IntentState {
    type V = IntentModel;

    closed spec fn view(&self) -> IntentModel {
        match self {
            IntentState::InFlight { lease_expires_at } => IntentModel::InFlight {
                until: *lease_expires_at,
            },
            IntentState::Done { cert, recorded_at } => IntentModel::Done {
                cert: cert@,
                at: *recorded_at,
            },
            IntentState::Failed { reason, recorded_at } => IntentModel::Failed {
                reason: reason@,
                at: *recorded_at,
            },
        }
    }
}

impl IntentState {
    /// Whether the record still counts at `now`.
    fn is_live(&self, config: &FenceConfig, now: u128) -> (b: bool)
        ensures
            b == live(self@, *config, now),
    {
        match self {
            IntentState::InFlight { lease_expires_at } => now < *lease_expires_at,
            IntentState::Done { recorded_at, .. } => {
                now.saturating_sub(*recorded_at) < config.result_ttl
            },
            IntentState::Failed { recorded_at, .. } => {
                now.saturating_sub(*recorded_at) < config.result_ttl
            },
        }
    }
}

/// The fence: a sequence number for each domain, and the intent ledger.
#[derive(Debug)]
pub struct EffectFence {
    config: FenceConfig,
    origin: Instant,
    domains: StrMap<u64>,
    intents: StrMap<IntentState>,
    stats: FenceStats,
}

spec fn states_view(states: Map<Seq<char>, IntentState>) -> Map<Seq<char>, IntentModel> {
    Map::new(|k: Seq<char>| states.contains_key(k), |k: Seq<char>| states[k]@)
}

impl View for EffectFence {
    type V = FenceModel;

    closed spec fn view(&self) -> FenceModel {
        FenceModel {
            config: self.config,
            domains: self.domains@,
            intents: states_view(self.intents@),
            stats: self.stats,
        }
    }
}

/// The outcome of a successful [`prepare_effect_fence`] call.
#[derive(Debug)]
pub enum Admission {
    /// This attempt won. Execute the effect, then report back with
    /// [`commit_effect_cert`] or [`abort_effect`].
    Fresh(PreparedEffect),
    /// This intent already executed; here is its certificate. Do not run the
    /// effect again.
    Replay(Arc<EffectCert>),
}

/// What the first two gates say to an attempt.
#[derive(Debug)]
pub enum Claim {
    /// The attempt is answered.
    Answered(Result<Admission, FenceError>),
    /// The attempt holds the lease on its intent; its domain is at this
    /// sequence number.
    Leased(u64),
}

/// Rejections. Each means the same to the caller: do not run the effect, or do
/// not trust its result.
#[derive(Debug, PartialEq, Eq)]
pub enum FenceError {
    /// A domain in the read set moved past the sequence that was observed.
    ReadSetStale { domain: String, expected: u64, actual: u64 },
    /// The target domain moved between being observed and being reserved:
    /// another caller won the race.
    DomainRace { domain: String, expected: u64, actual: u64 },
    /// Another attempt holds the lease on this intent.
    IntentInFlight { intent: String },
    /// An earlier attempt at this intent finished without a recorded success,
    /// so whether the side effect fired is unknown. Fenced until cleared with
    /// [`EffectFence::clear_intent`].
    IntentFailed { intent: String, reason: String },
}

impl View for FenceError {
    type V = ErrorModel;

    open spec fn view(&self) -> ErrorModel {
        match self {
            FenceError::ReadSetStale { domain, expected, actual } => ErrorModel::ReadSetStale {
                domain: domain@,
                expected: *expected,
                actual: *actual,
            },
            FenceError::DomainRace { domain, expected, actual } => ErrorModel::DomainRace {
                domain: domain@,
                expected: *expected,
                actual: *actual,
            },
            FenceError::IntentInFlight { intent } => ErrorModel::IntentInFlight {
                intent: intent@,
            },
            FenceError::IntentFailed { intent, reason } => ErrorModel::IntentFailed {
                intent: intent@,
                reason: reason@,
            },
        }
    }
}

/// What the answer to an attempt stands for.
pub open spec fn outcome_of(answer: Result<Admission, FenceError>) -> Outcome {
    match answer {
        Ok(Admission::Fresh(ticket)) => Outcome::Fresh(ticket@),
        Ok(Admission::Replay(cert)) => Outcome::Replay(cert@),
        Err(error) => Outcome::Refused(error@),
    }
}

/// What the first two gates say stands for.
pub open spec fn claim_view(claim: Claim) -> Option<Outcome> {
    match claim {
        Claim::Answered(answer) => Some(outcome_of(answer)),
        Claim::Leased(_) => None,
    }
}

/// What the answer to a commit stands for.
pub open spec fn commit_view(answer: Result<EffectCert, FenceError>) -> Result<
    crate::cert::CertModel,
    ErrorModel,
> {
    match answer {
        Ok(cert) => Ok(cert@),
        Err(error) => Err(error@),
    }
}

impl FenceError {
    /// The text of the rejection.
    pub fn message(&self) -> (text: String)
        ensures
            text@ == error_text(self@),
    {
        let mut out: String = String::new();
        match self {
            FenceError::ReadSetStale { domain, expected, actual } => {
                out.append("read set entry for domain `");
                out.append(domain.as_str());
                out.append("` is stale: expected seq ");
                append_decimal(&mut out, *expected as u128);
                out.append(", actual ");
                append_decimal(&mut out, *actual as u128);
            },
            FenceError::DomainRace { domain, expected, actual } => {
                out.append("domain `");
                out.append(domain.as_str());
                out.append("` race: expected to reserve seq ");
                append_decimal(&mut out, *expected as u128);
                out.append(", but the domain was already at ");
                append_decimal(&mut out, *actual as u128);
            },
            FenceError::IntentInFlight { intent } => {
                out.append("intent `");
                out.append(intent.as_str());
                out.append("` is already in flight: another attempt is executing it right now");
            },
            FenceError::IntentFailed { intent, reason } => {
                out.append("intent `");
                out.append(intent.as_str());
                out.append("` previously failed (");
                out.append(reason.as_str());
                out.append(
                    "); outcome is unknown -- reconcile with the downstream system, then clear_intent to allow a retry",
                );
            },
        }
        assert(out@ =~= error_text(self@));
        out
    }
}

impl Clone for FenceError {
    fn clone(&self) -> (copy: Self)
        ensures
            copy@ == self@,
    {
        match self {
            FenceError::ReadSetStale { domain, expected, actual } => FenceError::ReadSetStale {
                domain: domain.clone(),
                expected: *expected,
                actual: *actual,
            },
            FenceError::DomainRace { domain, expected, actual } => FenceError::DomainRace {
                domain: domain.clone(),
                expected: *expected,
                actual: *actual,
            },
            FenceError::IntentInFlight { intent } => FenceError::IntentInFlight {
                intent: intent.clone(),
            },
            FenceError::IntentFailed { intent, reason } => FenceError::IntentFailed {
                intent: intent.clone(),
                reason: reason.clone(),
            },
        }
    }
}

impl Default for FenceConfig {
    /// Leases of a minute, outcomes remembered for a day.
    fn default() -> (config: Self)
        ensures
            config.lease_ttl == 60_000_000_000,
            config.result_ttl == 86_400_000_000_000,
    {
        FenceConfig { lease_ttl: 60_000_000_000, result_ttl: 86_400_000_000_000 }
    }
}

impl FenceStats {
    /// The number of attempts that were answered.
    pub fn total(&self) -> (n: u128)
        ensures
            n == stats_total(*self),
    {
        self.admitted as u128 + self.prevented()
    }

    /// The number of attempts that did not run the effect.
    pub fn prevented(&self) -> (n: u128)
        ensures
            n == stats_prevented(*self),
            n <= 5 * u64::MAX,
    {
        self.replayed as u128 + self.refused_stale as u128 + self.refused_race as u128
            + self.refused_inflight as u128 + self.refused_failed as u128
    }

    /// The counters in one line.
    pub fn log_line(&self) -> (line: String)
        ensures
            line@ == stats_line(*self),
    {
        let mut out: String = String::new();
        out.append("effectfence since boot: admitted=");
        append_decimal(&mut out, self.admitted as u128);
        out.append(" replayed=");
        append_decimal(&mut out, self.replayed as u128);
        out.append(" refused(stale=");
        append_decimal(&mut out, self.refused_stale as u128);
        out.append(" race=");
        append_decimal(&mut out, self.refused_race as u128);
        out.append(" in-flight=");
        append_decimal(&mut out, self.refused_inflight as u128);
        out.append(" failed=");
        append_decimal(&mut out, self.refused_failed as u128);
        out.append(") total=");
        append_decimal(&mut out, self.total());
        out.append(" prevented=");
        append_decimal(&mut out, self.prevented());
        assert(out@ =~= stats_line(*self));
        out
    }
}

impl EffectFence {
    /// A fence with default tunables.
    pub fn new() -> (fence: Self)
        ensures
            fence@ == new_fence(
                (FenceConfig { lease_ttl: 60_000_000_000, result_ttl: 86_400_000_000_000 }),
            ),
    {
        EffectFence::with_config(FenceConfig::default())
    }

    /// A fence with explicit tunables.
    pub fn with_config(config: FenceConfig) -> (fence: Self)
        ensures
            fence@ == new_fence(config),
    {
        let fence = EffectFence {
            config,
            origin: clock_start(),
            domains: StrMap::new(),
            intents: StrMap::new(),
            stats: FenceStats {
                admitted: 0,
                replayed: 0,
                refused_stale: 0,
                refused_race: 0,
                refused_inflight: 0,
                refused_failed: 0,
            },
        };
        assert(fence@.intents =~= Map::<Seq<char>, IntentModel>::empty());
        fence
    }

    /// The time at which the fence is asked, in nanoseconds since it was made.
    pub fn now(&self) -> (now: u128) {
        clock_read(&self.origin)
    }

    /// The current sequence number of `domain` (0 if it was never reserved).
    /// Asking does not create tracking state.
    pub fn current(&self, domain: &str) -> (seq: u64)
        ensures
            seq == seq_of(self@.domains, domain@),
    {
        match self.domains.get(domain) {
            Some(seq) => *seq,
            None => 0,
        }
    }

    /// Reserves the next sequence number of `domain`, but only if it is still
    /// at `expected_seq`: returns the new number, which the caller then owns,
    /// or the number that the domain is at instead. Of callers that expect the
    /// same number exactly one can win.
    pub fn reserve(&mut self, domain: &str, expected_seq: u64) -> (slot: Result<u64, u64>)
        requires
            expected_seq < u64::MAX,
        ensures
            slot == reservation(old(self)@, domain@, expected_seq),
            final(self)@ == reserved(old(self)@, domain@, expected_seq),
    {
        let actual: u64 = self.current(domain);
        if actual == expected_seq {
            self.domains.insert(domain.to_owned(), expected_seq + 1);
            Ok(expected_seq + 1)
        } else {
            self.domains.insert(domain.to_owned(), actual);
            Err(actual)
        }
    }

    /// The number of domains that are tracked.
    pub fn domain_count(&self) -> (n: usize)
        ensures
            n == self@.domains.len(),
    {
        self.domains.len()
    }

    /// The number of intents in the ledger, in flight or finished.
    pub fn intent_count(&self) -> (n: usize)
        ensures
            n == self@.intents.len(),
    {
        assert(self@.intents.dom() =~= self.intents@.dom());
        self.intents.len()
    }

    /// The counters since the fence was made.
    pub fn stats(&self) -> (stats: FenceStats)
        ensures
            stats == self@.stats,
    {
        self.stats
    }

    /// Forgets any record of `intent`, making it runnable again; whether there
    /// was one. Clearing an intent that did execute reopens the door to a
    /// double execution: reconcile with the downstream system first.
    pub fn clear_intent(&mut self, intent: &str) -> (removed: bool)
        ensures
            removed == old(self)@.intents.contains_key(intent@),
            final(self)@ == cleared(old(self)@, intent@),
    {
        let removed: bool = self.intents.remove(intent);
        assert(self@.intents =~= old(self)@.intents.remove(intent@));
        removed
    }

    /// Stops tracking `domain`; whether it was tracked. A reservation after
    /// that starts again at 1.
    pub fn evict_domain(&mut self, domain: &str) -> (removed: bool)
        ensures
            removed == old(self)@.domains.contains_key(domain@),
            final(self)@ == evicted(old(self)@, domain@),
    {
        self.domains.remove(domain)
    }

    /// Drops the records that no longer count, to bound memory: outcomes older
    /// than `result_ttl` and leases that expired.
    pub fn sweep(&mut self)
        ensures
            exists|now: u128| final(self)@ == #[trigger] swept(old(self)@, now),
    {
        let now: u128 = self.now();
        self.sweep_at(now);
    }

    /// [`EffectFence::sweep`] at a given time.
    pub fn sweep_at(&mut self, now: u128)
        ensures
            final(self)@ == swept(old(self)@, now),
    {
        let ghost states = self.intents@;
        let mut old_states: StrMap<IntentState> = StrMap::new();
        std::mem::swap(&mut old_states, &mut self.intents);
        let entries: Vec<(String, IntentState)> = old_states.into_entries();
        let config: FenceConfig = self.config;
        let ghost keys = sorted(states.dom());
        proof {
            lemma_sorted(states.dom());
            lemma_ascending_distinct(keys);
        }
        let mut kept: StrMap<IntentState> = StrMap::new();
        let ghost all = entries@;
        for entry in it: entries.into_iter()
            invariant
                it.seq() == all,
                all.len() == keys.len(),
                keys.no_duplicates(),
                forall|j: int|
                    0 <= j < all.len() ==> (#[trigger] all[j]).0@ == keys[j] && all[j].1
                        == states[keys[j]],
                forall|k: Seq<char>| #[trigger]
                    kept@.dom().contains(k) <==> keys.take(it.index()).contains(k) && live(
                        states[k]@,
                        config,
                        now,
                    ),
                forall|k: Seq<char>| #[trigger] kept@.dom().contains(k) ==> kept@[k] == states[k],
        {
            proof {
                assert(entry == all[it.index()]);
                lemma_take_one_more(keys, it.index());
            }
            let (intent, state) = entry;
            if state.is_live(&config, now) {
                kept.insert(intent, state);
            }
        }
        self.intents = kept;
        proof {
            assert(keys.take(keys.len() as int) =~= keys);
            let target = swept(old(self)@, now).intents;
            assert forall|k: Seq<char>| #[trigger] states.dom().contains(k) <==> keys.contains(k) by {
                assert(keys.to_set().contains(k) <==> states.dom().contains(k));
            }
            assert forall|k: Seq<char>| #[trigger] self@.intents.dom().contains(k) <==> target.dom().contains(k) by {
                assert(self.intents@.dom().contains(k) <==> self@.intents.dom().contains(k));
                assert(states.dom().contains(k) <==> keys.contains(k));
            }
            assert(self@.intents =~= target);
        }
    }

    /// Records the state of an intent.
    fn record(&mut self, intent: String, state: IntentState)
        ensures
            final(self)@ == (FenceModel {
                intents: old(self)@.intents.insert(intent@, state@),
                ..old(self)@
            }),
    {
        self.intents.insert(intent, state);
        assert(self@.intents =~= old(self)@.intents.insert(intent@, state@));
    }

    /// Drops the lease of an attempt that was refused after all.
    fn release_intent(&mut self, intent: &str)
        ensures
            final(self)@ == cleared(old(self)@, intent@),
    {
        let _ = self.clear_intent(intent);
    }

    /// The first entry of a read set that no longer holds, as a rejection.
    fn check_reads(&self, reads: &Vec<ReadSetEntry>) -> (stale: Option<FenceError>)
        ensures
            match stale {
                Some(error) => {
                    let read = stale_read(self@.domains, reads_view(reads@));
                    read is Some && error@ == stale_error(self@.domains, read->Some_0)
                },
                None => stale_read(self@.domains, reads_view(reads@)) is None,
            },
    {
        let mut i: usize = 0;
        assert(reads_view(reads@).skip(0) =~= reads_view(reads@));
        while i < reads.len()
            invariant
                i <= reads@.len(),
                stale_read(self@.domains, reads_view(reads@)) == stale_read(
                    self@.domains,
                    reads_view(reads@).skip(i as int),
                ),
            decreases reads@.len() - i,
        {
            let ghost rest = reads_view(reads@).skip(i as int);
            assert(rest[0] == reads@[i as int]@);
            assert(rest.drop_first() =~= reads_view(reads@).skip(i + 1));
            let actual: u64 = self.current(reads[i].domain.as_str());
            if actual != reads[i].seq {
                return Some(
                    FenceError::ReadSetStale {
                        domain: reads[i].domain.clone(),
                        expected: reads[i].seq,
                        actual,
                    },
                );
            }
            i = i + 1;
        }
        None
    }

    /// The first gate: answers an attempt from what the ledger records, or
    /// takes the lease on its intent.
    fn claim_intent(&mut self, intent: &String, now: u128) -> (answer: Option<
        Result<Admission, FenceError>,
    >)
        ensures
            match answer {
                Some(a) => {
                    &&& !claimable(old(self)@, intent@, now)
                    &&& outcome_of(a) == recorded_answer(old(self)@.intents[intent@], intent@)
                    &&& final(self)@ == (FenceModel {
                        stats: counted(old(self)@.stats, outcome_of(a)),
                        ..old(self)@
                    })
                },
                None => {
                    &&& claimable(old(self)@, intent@, now)
                    &&& final(self)@ == leased(old(self)@, intent@, now)
                },
            },
    {
        match self.intents.get(intent.as_str()) {
            Some(state) => {
                if state.is_live(&self.config, now) {
                    let answer: Result<Admission, FenceError> = match state {
                        IntentState::InFlight { .. } => Err(
                            FenceError::IntentInFlight { intent: intent.clone() },
                        ),
                        IntentState::Done { cert, .. } => Ok(Admission::Replay(share(cert))),
                        IntentState::Failed { reason, .. } => Err(
                            FenceError::IntentFailed {
                                intent: intent.clone(),
                                reason: reason.clone(),
                            },
                        ),
                    };
                    self.count(&answer);
                    return Some(answer);
                }
            },
            None => {},
        }
        let lease_expires_at: u128 = now.saturating_add(self.config.lease_ttl);
        self.record(intent.clone(), IntentState::InFlight { lease_expires_at });
        None
    }

    /// Whether an attempt at `now` finds room: where it would be admitted, its
    /// domain and its agent's counter can still advance.
    pub fn has_room(&self, req: &EffectRequest, now: u128) -> (b: bool)
        ensures
            b == room(self@, req@, now),
    {
        if self.current(req.domain.as_str()) < u64::MAX && req.known_clock.get(req.agent.as_str())
            < u64::MAX {
            return true;
        }
        let recorded: bool = match self.intents.get(req.intent.as_str()) {
            Some(state) => state.is_live(&self.config, now),
            None => false,
        };
        recorded || self.check_reads(&req.read_set).is_some()
    }

    /// Counts an answered attempt.
    fn count(&mut self, answer: &Result<Admission, FenceError>)
        ensures
            final(self)@ == (FenceModel {
                stats: counted(old(self)@.stats, outcome_of(*answer)),
                ..old(self)@
            }),
    {
        match answer {
            Ok(Admission::Fresh(_)) => {
                self.stats.admitted = self.stats.admitted.saturating_add(1);
            },
            Ok(Admission::Replay(_)) => {
                self.stats.replayed = self.stats.replayed.saturating_add(1);
            },
            Err(FenceError::ReadSetStale { .. }) => {
                self.stats.refused_stale = self.stats.refused_stale.saturating_add(1);
            },
            Err(FenceError::DomainRace { .. }) => {
                self.stats.refused_race = self.stats.refused_race.saturating_add(1);
            },
            Err(FenceError::IntentInFlight { .. }) => {
                self.stats.refused_inflight = self.stats.refused_inflight.saturating_add(1);
            },
            Err(FenceError::IntentFailed { .. }) => {
                self.stats.refused_failed = self.stats.refused_failed.saturating_add(1);
            },
        }
    }
}

impl Default for EffectFence {
    fn default() -> (fence: Self)
        ensures
            fence@ == new_fence(
                (FenceConfig { lease_ttl: 60_000_000_000, result_ttl: 86_400_000_000_000 }),
            ),
    {
        EffectFence::new()
    }
}

/// Whether a ticket carries a request on: all that the request says of the effect,
/// as it says it.
pub open spec fn is_ticket_for(ticket: PreparedEffect, req: EffectRequest) -> bool {
    &&& ticket.intent == req.intent
    &&& ticket.parent == req.parent
    &&& ticket.domain == req.domain
    &&& ticket.tool == req.tool
    &&& ticket.args == req.args
    &&& ticket.read_set == req.read_set
    &&& ticket.agent == req.agent
}

/// Admits `req` through the three gates: the intent ledger, the read set and the
/// reservation of its domain.
///
/// Returns [`Admission::Fresh`] with a ticket when this attempt wins, or
/// [`Admission::Replay`] with the recorded certificate when the intent already
/// executed. On a rejection the caller must not run the effect; a rejected
/// attempt leaves no lease behind.
pub fn prepare_effect_fence(fence: &mut EffectFence, req: EffectRequest) -> (answer: Result<
    Admission,
    FenceError,
>)
    requires
        forall|now: u128| #[trigger] room(old(fence)@, req@, now),
    ensures
        exists|now: u128|
            outcome_of(answer) == #[trigger] prepare_outcome(old(fence)@, req@, now)
                && final(fence)@ == prepared(old(fence)@, req@, now),
        answer matches Ok(Admission::Fresh(ticket)) ==> is_ticket_for(ticket, req),
{
    let now: u128 = fence.now();
    assert(room(fence@, req@, now));
    prepare_effect_fence_at(fence, req, now)
}

/// [`prepare_effect_fence`] for any request: there is no answer, and the fence is
/// left as it was, where the attempt would be admitted but finds no room.
pub fn try_prepare_effect_fence(fence: &mut EffectFence, req: EffectRequest) -> (answer: Option<
    Result<Admission, FenceError>,
>)
    ensures
        exists|now: u128|
            match answer {
                Some(a) => {
                    &&& room(old(fence)@, req@, now)
                    &&& outcome_of(a) == #[trigger] prepare_outcome(old(fence)@, req@, now)
                    &&& final(fence)@ == prepared(old(fence)@, req@, now)
                },
                None => !room(old(fence)@, req@, now) && final(fence)@ == old(fence)@,
            },
        answer matches Some(Ok(Admission::Fresh(ticket))) ==> is_ticket_for(ticket, req),
{
    let now: u128 = fence.now();
    let answer: Option<Result<Admission, FenceError>> = try_prepare_effect_fence_at(fence, req, now);
    assert(answer is Some ==> outcome_of(answer->Some_0) == prepare_outcome(
        old(fence)@,
        req@,
        now,
    ));
    answer
}

/// [`try_prepare_effect_fence`] at a given time.
pub fn try_prepare_effect_fence_at(fence: &mut EffectFence, req: EffectRequest, now: u128) -> (answer:
    Option<Result<Admission, FenceError>>)
    ensures
        match answer {
            Some(a) => {
                &&& room(old(fence)@, req@, now)
                &&& outcome_of(a) == prepare_outcome(old(fence)@, req@, now)
                &&& final(fence)@ == prepared(old(fence)@, req@, now)
            },
            None => !room(old(fence)@, req@, now) && final(fence)@ == old(fence)@,
        },
        answer matches Some(Ok(Admission::Fresh(ticket))) ==> is_ticket_for(ticket, req),
{
    if fence.has_room(&req, now) {
        Some(prepare_effect_fence_at(fence, req, now))
    } else {
        None
    }
}

/// [`prepare_effect_fence`] at a given time.
pub fn prepare_effect_fence_at(fence: &mut EffectFence, req: EffectRequest, now: u128) -> (answer:
    Result<Admission, FenceError>)
    requires
        room(old(fence)@, req@, now),
    ensures
        outcome_of(answer) == prepare_outcome(old(fence)@, req@, now),
        final(fence)@ == prepared(old(fence)@, req@, now),
        answer matches Ok(Admission::Fresh(ticket)) ==> is_ticket_for(ticket, req) && ticket.seq
            == seq_of(old(fence)@.domains, req.domain@) + 1,
{
    match claim_effect_at(fence, &req, now) {
        Claim::Answered(answer) => answer,
        Claim::Leased(expected_seq) => reserve_effect(fence, req, expected_seq),
    }
}

/// The first two gates of [`prepare_effect_fence`]: the intent ledger and the
/// read set. An attempt that passes them holds the lease on its intent, and goes
/// on with [`reserve_effect`].
pub fn claim_effect(fence: &mut EffectFence, req: &EffectRequest) -> (claim: Claim)
    ensures
        exists|now: u128|
            claim_view(claim) == #[trigger] claim_outcome(old(fence)@, req@, now) && final(fence)@
                == claimed(old(fence)@, req@, now),
        claim matches Claim::Leased(seq) ==> seq == seq_of(old(fence)@.domains, req@.domain),
{
    let now: u128 = fence.now();
    claim_effect_at(fence, req, now)
}

/// [`claim_effect`] at a given time.
pub fn claim_effect_at(fence: &mut EffectFence, req: &EffectRequest, now: u128) -> (claim: Claim)
    ensures
        claim_view(claim) == claim_outcome(old(fence)@, req@, now),
        claim matches Claim::Leased(seq) ==> seq == seq_of(old(fence)@.domains, req@.domain),
        final(fence)@ == claimed(old(fence)@, req@, now),
        claim is Leased && now + old(fence)@.config.lease_ttl <= u128::MAX ==> {
            &&& final(fence)@.intents.contains_key(req.intent@)
            &&& final(fence)@.intents[req.intent@] is InFlight
            &&& final(fence)@.intents[req.intent@]->until == now + old(fence)@.config.lease_ttl
        },
{
    // The ledger comes before the read set on purpose: a duplicate of an action
    // that already ran deserves its recorded outcome even if the world has
    // moved past what the duplicate read.
    match fence.claim_intent(&req.intent, now) {
        Some(answer) => {
            return Claim::Answered(answer);
        },
        None => {},
    }
    match fence.check_reads(&req.read_set) {
        Some(error) => {
            fence.release_intent(req.intent.as_str());
            let answer: Result<Admission, FenceError> = Err(error);
            fence.count(&answer);
            proof {
                let before = old(fence)@.intents;
                let lease = leased(old(fence)@, req.intent@, now).intents;
                assert(lease.remove(req.intent@) =~= before.remove(req.intent@));
            }
            Claim::Answered(answer)
        },
        None => Claim::Leased(fence.current(req.domain.as_str())),
    }
}

/// The last gate of [`prepare_effect_fence`], for an attempt that holds the lease
/// on its intent: reserves the request's domain, which was observed at
/// `expected_seq`. Where another attempt has moved the domain since, this one
/// lost the race and its lease is dropped.
pub fn reserve_effect(fence: &mut EffectFence, req: EffectRequest, expected_seq: u64) -> (answer:
    Result<Admission, FenceError>)
    requires
        expected_seq < u64::MAX,
        admission(old(fence)@, req@, expected_seq) is Fresh ==> counter(
            req.known_clock@,
            req.agent@,
        ) < u64::MAX,
    ensures
        outcome_of(answer) == admission(old(fence)@, req@, expected_seq),
        final(fence)@ == admitted(old(fence)@, req@, expected_seq),
        answer matches Ok(Admission::Fresh(ticket)) ==> is_ticket_for(ticket, req) && ticket.seq
            == expected_seq + 1,
{
    let ghost asked = req@;
    match fence.reserve(req.domain.as_str(), expected_seq) {
        Ok(seq) => {
            let mut vector_clock: VectorClock = req.known_clock;
            let _ = vector_clock.tick(req.agent.as_str());
            let ticket = PreparedEffect {
                intent: req.intent,
                parent: req.parent,
                domain: req.domain,
                seq,
                tool: req.tool,
                args: req.args,
                vector_clock,
                read_set: req.read_set,
                agent: req.agent,
            };
            assert(ticket@ == ticket_for(asked, seq));
            let answer: Result<Admission, FenceError> = Ok(Admission::Fresh(ticket));
            fence.count(&answer);
            answer
        },
        Err(actual) => {
            fence.release_intent(req.intent.as_str());
            let answer: Result<Admission, FenceError> = Err(
                FenceError::DomainRace { domain: req.domain, expected: expected_seq, actual },
            );
            fence.count(&answer);
            answer
        },
    }
}

/// Whether a certificate records a ticket and a result: every field as it is there.
pub open spec fn is_cert_of(cert: EffectCert, ticket: PreparedEffect, result: Json) -> bool {
    &&& cert.intent == ticket.intent
    &&& cert.parent == ticket.parent
    &&& cert.domain == ticket.domain
    &&& cert.seq == ticket.seq
    &&& cert.tool == ticket.tool
    &&& cert.args == ticket.args
    &&& cert.result == result
    &&& cert.vector_clock == ticket.vector_clock
    &&& cert.read_set == ticket.read_set
    &&& cert.agent == ticket.agent
}

/// Turns a ticket into a certificate once the `result` of the effect is known,
/// and records it, so that a later duplicate of the intent is replayed.
///
/// The read set is validated once more: if a dependency moved while the effect
/// ran, the commit is rejected and the intent is recorded as failed, for the
/// effect did run and must not quietly become runnable again.
pub fn commit_effect_cert(fence: &mut EffectFence, prepared: PreparedEffect, result: Json) -> (answer:
    Result<EffectCert, FenceError>)
    ensures
        commit_view(answer) == commit_outcome(old(fence)@, prepared@, result@),
        answer is Ok ==> is_digest_text(answer->Ok_0.hash@),
        answer is Ok ==> is_cert_of(answer->Ok_0, prepared, result),
        exists|now: u128|
            final(fence)@ == #[trigger] committed(old(fence)@, prepared@, result@, now),
{
    let now: u128 = fence.now();
    commit_effect_cert_at(fence, prepared, result, now)
}

/// [`commit_effect_cert`] at a given time.
pub fn commit_effect_cert_at(
    fence: &mut EffectFence,
    prepared: PreparedEffect,
    result: Json,
    now: u128,
) -> (answer: Result<EffectCert, FenceError>)
    ensures
        commit_view(answer) == commit_outcome(old(fence)@, prepared@, result@),
        answer is Ok ==> is_digest_text(answer->Ok_0.hash@),
        answer is Ok ==> is_cert_of(answer->Ok_0, prepared, result),
        final(fence)@ == committed(old(fence)@, prepared@, result@, now),
{
    match fence.check_reads(&prepared.read_set) {
        Some(error) => {
            let reason: String = stale_commit_reason(&error);
            fence.record(prepared.intent, IntentState::Failed { reason, recorded_at: now });
            Err(error)
        },
        None => {
            let intent: String = prepared.intent.clone();
            let cert: EffectCert = EffectCert::new(prepared, result);
            let recorded: Arc<EffectCert> = Arc::new(cert.clone());
            fence.record(intent, IntentState::Done { cert: recorded, recorded_at: now });
            Ok(cert)
        },
    }
}

/// Why a commit that was rejected with `error` is recorded as failed.
fn stale_commit_reason(error: &FenceError) -> (reason: String)
    requires
        error is ReadSetStale,
    ensures
        forall|domains: Map<Seq<char>, u64>, read: ReadModel|
            error@ == stale_error(domains, read) ==> reason@ == #[trigger] stale_reason(
                domains,
                read,
            ),
{
    let mut out: String = String::new();
    match error {
        FenceError::ReadSetStale { domain, expected, actual } => {
            out.append("commit rejected: read-set entry for `");
            out.append(domain.as_str());
            out.append("` went stale (expected ");
            append_decimal(&mut out, *expected as u128);
            out.append(", actual ");
            append_decimal(&mut out, *actual as u128);
            out.append(") while the effect was running");
        },
        _ => {},
    }
    out
}

/// Reports that a prepared effect failed, or that its outcome is unknown. The
/// intent stays fenced until it is cleared with [`EffectFence::clear_intent`].
pub fn abort_effect(fence: &mut EffectFence, prepared: PreparedEffect, reason: &str)
    ensures
        exists|now: u128|
            final(fence)@ == #[trigger] aborted(old(fence)@, prepared@, reason@, now),
{
    let now: u128 = fence.now();
    abort_effect_at(fence, prepared, reason, now)
}

/// [`abort_effect`] at a given time.
pub fn abort_effect_at(
    fence: &mut EffectFence,
    prepared: PreparedEffect,
    reason: &str,
    now: u128,
)
    ensures
        final(fence)@ == aborted(old(fence)@, prepared@, reason@, now),
{
    fence.record(
        prepared.intent,
        IntentState::Failed { reason: reason.to_owned(), recorded_at: now },
    );
}

} // verus!
