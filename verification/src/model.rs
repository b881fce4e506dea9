//! What a fence is and what each of its operations does, as mathematics.

use vstd::prelude::*;
use crate::cert::{minted, CertModel, ReadModel, RequestModel, TicketModel};
use crate::clock::ticked;
use crate::json::Tree;
use crate::text::decimal;

verus! {

/// Tunables of a fence. Times are in nanoseconds.
#[derive(Debug, Clone, Copy)]
pub struct FenceConfig {
    /// How long the lease on an intent in flight is honored before its holder
    /// is presumed crashed and a later attempt may take over. It must
    /// comfortably exceed the longest effect: if a holder that still runs
    /// outlives its lease, a second attempt can be admitted meanwhile.
    pub lease_ttl: u128,
    /// How long a finished intent's outcome is remembered before the intent
    /// becomes runnable again.
    pub result_ttl: u128,
}

/// How often attempts were admitted, replayed and refused since the fence was
/// made. A counter that reached its maximum stays there.
#[derive(Debug, Clone, Copy, PartialEq, Eq)]
pub struct FenceStats {
    /// Attempts that were admitted to run.
    pub admitted: u64,
    /// Duplicates that were handed a recorded result.
    pub replayed: u64,
    /// Attempts whose read set was stale.
    pub refused_stale: u64,
    /// Attempts that lost a race for their domain.
    pub refused_race: u64,
    /// Duplicates of an attempt in flight.
    pub refused_inflight: u64,
    /// Duplicates of an attempt that failed.
    pub refused_failed: u64,
}

/// What the ledger records of an intent.
#[verifier::ext_equal]
pub enum IntentModel {
    /// An attempt holds the lease until the given time.
    InFlight { until: u128 },
    /// The effect ran; this is its certificate.
    Done { cert: CertModel, at: u128 },
    /// An attempt failed, or its commit was rejected.
    Failed { reason: Seq<char>, at: u128 },
}

/// What a fence stands for.
#[verifier::ext_equal]
pub struct FenceModel {
    pub config: FenceConfig,
    /// The sequence number of each domain that is tracked.
    pub domains: Map<Seq<char>, u64>,
    /// The intent ledger.
    pub intents: Map<Seq<char>, IntentModel>,
    pub stats: FenceStats,
}

/// Why an attempt or a commit is rejected.
#[verifier::ext_equal]
pub enum ErrorModel {
    ReadSetStale { domain: Seq<char>, expected: u64, actual: u64 },
    DomainRace { domain: Seq<char>, expected: u64, actual: u64 },
    IntentInFlight { intent: Seq<char> },
    IntentFailed { intent: Seq<char>, reason: Seq<char> },
}

/// What an attempt is answered.
#[verifier::ext_equal]
pub enum Outcome {
    /// The attempt won and may run the effect.
    Fresh(TicketModel),
    /// The action already ran; this is its certificate.
    Replay(CertModel),
    /// The attempt must not run the effect.
    Refused(ErrorModel),
}

/// All counters at zero.
pub open spec fn no_stats() -> FenceStats {
    FenceStats {
        admitted: 0,
        replayed: 0,
        refused_stale: 0,
        refused_race: 0,
        refused_inflight: 0,
        refused_failed: 0,
    }
}

/// A fence that nothing has happened to yet.
pub open spec fn new_fence(config: FenceConfig) -> FenceModel {
    FenceModel { config, domains: Map::empty(), intents: Map::empty(), stats: no_stats() }
}

/// A counter that counted one more.
pub open spec fn bumped(n: u64) -> u64 {
    if n == u64::MAX {
        n
    } else {
        (n + 1) as u64
    }
}

/// The time `span` after `time`, or the end of time.
pub open spec fn later(time: u128, span: u128) -> u128 {
    if time + span > u128::MAX {
        u128::MAX
    } else {
        (time + span) as u128
    }
}

/// How long `then` is past at `now`; nothing where it is not past.
pub open spec fn age(now: u128, then: u128) -> u128 {
    if now < then {
        0
    } else {
        (now - then) as u128
    }
}

/// Whether a record still counts at `now`: a lease until it expires, an outcome
/// while it is younger than `result_ttl`.
pub open spec fn live(state: IntentModel, config: FenceConfig, now: u128) -> bool {
    match state {
        IntentModel::InFlight { until } => now < until,
        IntentModel::Done { at, .. } => age(now, at) < config.result_ttl,
        IntentModel::Failed { at, .. } => age(now, at) < config.result_ttl,
    }
}

/// A domain's sequence number: 0 where it is not tracked.
pub open spec fn seq_of(domains: Map<Seq<char>, u64>, domain: Seq<char>) -> u64 {
    if domains.contains_key(domain) {
        domains[domain]
    } else {
        0
    }
}

/// The first entry of a read set that no longer holds, if any.
pub open spec fn stale_read(
    domains: Map<Seq<char>, u64>,
    reads: Seq<ReadModel>,
) -> Option<ReadModel>
    decreases reads.len(),
{
    if reads.len() == 0 {
        None
    } else if seq_of(domains, reads[0].domain) != reads[0].seq {
        Some(reads[0])
    } else {
        stale_read(domains, reads.drop_first())
    }
}

/// The rejection for a stale entry of a read set.
pub open spec fn stale_error(domains: Map<Seq<char>, u64>, read: ReadModel) -> ErrorModel {
    ErrorModel::ReadSetStale {
        domain: read.domain,
        expected: read.seq,
        actual: seq_of(domains, read.domain),
    }
}

/// Whether nothing that counts is recorded of `intent` at `now`, so that an
/// attempt may claim it.
pub open spec fn claimable(fence: FenceModel, intent: Seq<char>, now: u128) -> bool {
    fence.intents.contains_key(intent) ==> !live(fence.intents[intent], fence.config, now)
}

/// What an attempt is answered on the ground of a record that counts.
pub open spec fn recorded_answer(state: IntentModel, intent: Seq<char>) -> Outcome {
    match state {
        IntentModel::InFlight { .. } => Outcome::Refused(ErrorModel::IntentInFlight { intent }),
        IntentModel::Done { cert, .. } => Outcome::Replay(cert),
        IntentModel::Failed { reason, .. } => Outcome::Refused(
            ErrorModel::IntentFailed { intent, reason },
        ),
    }
}

/// The statistics after one more attempt was answered `outcome`.
pub open spec fn counted(stats: FenceStats, outcome: Outcome) -> FenceStats {
    match outcome {
        Outcome::Fresh(_) => FenceStats { admitted: bumped(stats.admitted), ..stats },
        Outcome::Replay(_) => FenceStats { replayed: bumped(stats.replayed), ..stats },
        Outcome::Refused(ErrorModel::ReadSetStale { .. }) => FenceStats {
            refused_stale: bumped(stats.refused_stale),
            ..stats
        },
        Outcome::Refused(ErrorModel::DomainRace { .. }) => FenceStats {
            refused_race: bumped(stats.refused_race),
            ..stats
        },
        Outcome::Refused(ErrorModel::IntentInFlight { .. }) => FenceStats {
            refused_inflight: bumped(stats.refused_inflight),
            ..stats
        },
        Outcome::Refused(ErrorModel::IntentFailed { .. }) => FenceStats {
            refused_failed: bumped(stats.refused_failed),
            ..stats
        },
    }
}

/// The ticket of an admitted request.
pub open spec fn ticket_for(req: RequestModel, seq: u64) -> TicketModel {
    TicketModel {
        intent: req.intent,
        parent: req.parent,
        domain: req.domain,
        seq,
        tool: req.tool,
        args: req.args,
        vector_clock: ticked(req.known_clock, req.agent),
        read_set: req.read_set,
        agent: req.agent,
    }
}

/// The fence after `domain` was reserved by a caller who expected it to be at
/// `expected`: it advances by one if it was there, and is tracked either way.
pub open spec fn reserved(fence: FenceModel, domain: Seq<char>, expected: u64) -> FenceModel {
    let actual = seq_of(fence.domains, domain);
    let next = if actual == expected {
        (expected + 1) as u64
    } else {
        actual
    };
    FenceModel { domains: fence.domains.insert(domain, next), ..fence }
}

/// What a reservation is answered: the new sequence number, or the one that the
/// domain was at instead.
pub open spec fn reservation(fence: FenceModel, domain: Seq<char>, expected: u64) -> Result<
    u64,
    u64,
> {
    let actual = seq_of(fence.domains, domain);
    if actual == expected {
        Ok((expected + 1) as u64)
    } else {
        Err(actual)
    }
}

/// What an attempt that holds the lease on its intent is answered when it
/// reserves its domain at `expected`.
pub open spec fn admission(fence: FenceModel, req: RequestModel, expected: u64) -> Outcome {
    match reservation(fence, req.domain, expected) {
        Ok(seq) => Outcome::Fresh(ticket_for(req, seq)),
        Err(actual) => Outcome::Refused(
            ErrorModel::DomainRace { domain: req.domain, expected, actual },
        ),
    }
}

/// The fence after that answer. An attempt that lost the race leaves no lease.
pub open spec fn admitted(fence: FenceModel, req: RequestModel, expected: u64) -> FenceModel {
    let outcome = admission(fence, req, expected);
    let after = reserved(fence, req.domain, expected);
    FenceModel {
        intents: if outcome is Fresh {
            fence.intents
        } else {
            fence.intents.remove(req.intent)
        },
        stats: counted(fence.stats, outcome),
        ..after
    }
}

/// The fence with a lease on `intent` that starts at `now`.
pub open spec fn leased(fence: FenceModel, intent: Seq<char>, now: u128) -> FenceModel {
    FenceModel {
        intents: fence.intents.insert(
            intent,
            IntentModel::InFlight { until: later(now, fence.config.lease_ttl) },
        ),
        ..fence
    }
}

/// What an attempt at `now` is answered by the first two gates, the ledger and
/// the read set. There is no answer yet for an attempt that passes both.
pub open spec fn claim_outcome(fence: FenceModel, req: RequestModel, now: u128) -> Option<Outcome> {
    if !claimable(fence, req.intent, now) {
        Some(recorded_answer(fence.intents[req.intent], req.intent))
    } else {
        match stale_read(fence.domains, req.read_set) {
            Some(read) => Some(Outcome::Refused(stale_error(fence.domains, read))),
            None => None,
        }
    }
}

/// The fence after the first two gates. An attempt that passes them holds the
/// lease on its intent; one whose read set is stale leaves no lease.
pub open spec fn claimed(fence: FenceModel, req: RequestModel, now: u128) -> FenceModel {
    match claim_outcome(fence, req, now) {
        None => leased(fence, req.intent, now),
        Some(outcome) => FenceModel {
            intents: if claimable(fence, req.intent, now) {
                fence.intents.remove(req.intent)
            } else {
                fence.intents
            },
            stats: counted(fence.stats, outcome),
            ..fence
        },
    }
}

/// What an attempt at `now` is answered.
pub open spec fn prepare_outcome(fence: FenceModel, req: RequestModel, now: u128) -> Outcome {
    match claim_outcome(fence, req, now) {
        Some(outcome) => outcome,
        None => admission(fence, req, seq_of(fence.domains, req.domain)),
    }
}

/// The fence after an attempt at `now`. Only an admitted attempt leaves a lease
/// and advances its domain.
pub open spec fn prepared(fence: FenceModel, req: RequestModel, now: u128) -> FenceModel {
    match claim_outcome(fence, req, now) {
        Some(_) => claimed(fence, req, now),
        None => admitted(claimed(fence, req, now), req, seq_of(fence.domains, req.domain)),
    }
}

/// Whether an attempt that would be admitted at `now` finds room: its domain
/// and its agent's counter can still advance.
pub open spec fn room(fence: FenceModel, req: RequestModel, now: u128) -> bool {
    prepare_outcome(fence, req, now) is Fresh ==> {
        &&& seq_of(fence.domains, req.domain) < u64::MAX
        &&& crate::clock::counter(req.known_clock, req.agent) < u64::MAX
    }
}

/// Why a commit whose read set went stale is recorded as failed.
pub open spec fn stale_reason(domains: Map<Seq<char>, u64>, read: ReadModel) -> Seq<char> {
    "commit rejected: read-set entry for `"@ + read.domain + "` went stale (expected "@ + decimal(
        read.seq as nat,
    ) + ", actual "@ + decimal(seq_of(domains, read.domain) as nat)
        + ") while the effect was running"@
}

/// What a commit is answered: the certificate, or the rejection for the first
/// entry of the read set that no longer holds.
pub open spec fn commit_outcome(fence: FenceModel, ticket: TicketModel, result: Tree) -> Result<
    CertModel,
    ErrorModel,
> {
    match stale_read(fence.domains, ticket.read_set) {
        Some(read) => Err(stale_error(fence.domains, read)),
        None => Ok(minted(ticket, result)),
    }
}

/// The fence after a commit at `now`: the intent is done, or fenced as failed.
pub open spec fn committed(
    fence: FenceModel,
    ticket: TicketModel,
    result: Tree,
    now: u128,
) -> FenceModel {
    let state = match stale_read(fence.domains, ticket.read_set) {
        Some(read) => IntentModel::Failed { reason: stale_reason(fence.domains, read), at: now },
        None => IntentModel::Done { cert: minted(ticket, result), at: now },
    };
    FenceModel { intents: fence.intents.insert(ticket.intent, state), ..fence }
}

/// The fence after a prepared effect was reported failed at `now`.
pub open spec fn aborted(
    fence: FenceModel,
    ticket: TicketModel,
    reason: Seq<char>,
    now: u128,
) -> FenceModel {
    FenceModel {
        intents: fence.intents.insert(ticket.intent, IntentModel::Failed { reason, at: now }),
        ..fence
    }
}

/// The fence without any record of `intent`.
pub open spec fn cleared(fence: FenceModel, intent: Seq<char>) -> FenceModel {
    FenceModel { intents: fence.intents.remove(intent), ..fence }
}

/// The fence that no longer tracks `domain`.
pub open spec fn evicted(fence: FenceModel, domain: Seq<char>) -> FenceModel {
    FenceModel { domains: fence.domains.remove(domain), ..fence }
}

/// The fence with the records that still count at `now`, and no others.
pub open spec fn swept(fence: FenceModel, now: u128) -> FenceModel {
    FenceModel {
        intents: fence.intents.restrict(
            Set::new(
                |k: Seq<char>|
                    fence.intents.contains_key(k) && live(fence.intents[k], fence.config, now),
            ),
        ),
        ..fence
    }
}

/// The text of a rejection.
pub open spec fn error_text(error: ErrorModel) -> Seq<char> {
    match error {
        ErrorModel::ReadSetStale { domain, expected, actual } => {
            "read set entry for domain `"@ + domain + "` is stale: expected seq "@ + decimal(
                expected as nat,
            ) + ", actual "@ + decimal(actual as nat)
        },
        ErrorModel::DomainRace { domain, expected, actual } => {
            "domain `"@ + domain + "` race: expected to reserve seq "@ + decimal(expected as nat)
                + ", but the domain was already at "@ + decimal(actual as nat)
        },
        ErrorModel::IntentInFlight { intent } => {
            "intent `"@ + intent
                + "` is already in flight: another attempt is executing it right now"@
        },
        ErrorModel::IntentFailed { intent, reason } => {
            "intent `"@ + intent + "` previously failed ("@ + reason
                + "); outcome is unknown -- reconcile with the downstream system, then clear_intent to allow a retry"@
        },
    }
}

/// The number of attempts that were answered.
pub open spec fn stats_total(stats: FenceStats) -> int {
    stats.admitted + stats_prevented(stats)
}

/// The number of attempts that did not run the effect.
pub open spec fn stats_prevented(stats: FenceStats) -> int {
    stats.replayed + stats.refused_stale + stats.refused_race + stats.refused_inflight
        + stats.refused_failed
}

/// The statistics in one line.
pub open spec fn stats_line(stats: FenceStats) -> Seq<char> {
    "effectfence since boot: admitted="@ + decimal(stats.admitted as nat) + " replayed="@ + decimal(
        stats.replayed as nat,
    ) + " refused(stale="@ + decimal(stats.refused_stale as nat) + " race="@ + decimal(
        stats.refused_race as nat,
    ) + " in-flight="@ + decimal(stats.refused_inflight as nat) + " failed="@ + decimal(
        stats.refused_failed as nat,
    ) + ") total="@ + decimal(stats_total(stats) as nat) + " prevented="@ + decimal(
        stats_prevented(stats) as nat,
    )
}

} // verus!
