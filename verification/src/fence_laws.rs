//! What holds of fences: of single operations, of two in a row, and of whole
//! histories.

use vstd::prelude::*;
use crate::cert::{cert_valid, minted, CertModel, ReadModel, RequestModel, TicketModel};
use crate::clock::{clock_le, counter};
use crate::clock_laws::tick_moves_ahead;
use crate::json::Tree;
use crate::model::{aborted, admission, admitted, age, claim_outcome, claimable, claimed, cleared,
    commit_outcome, committed, counted, evicted, later, live, new_fence, prepare_outcome, prepared,
    reservation, reserved, seq_of, stale_error, stale_read, stale_reason, stats_total, swept,
    ticket_for, ErrorModel, FenceConfig, FenceModel, FenceStats, IntentModel, Outcome};

verus! {

/// A read set is stale exactly if some entry no longer holds, and the entry
/// that is reported is the first such.
pub proof fn first_stale_entry_is_reported(domains: Map<Seq<char>, u64>, reads: Seq<ReadModel>)
    ensures
        match stale_read(domains, reads) {
            None => forall|i: int|
                0 <= i < reads.len() ==> seq_of(domains, (#[trigger] reads[i]).domain) == reads[i].seq,
            Some(read) => exists|i: int|
                0 <= i < reads.len() && #[trigger] reads[i] == read && seq_of(domains, read.domain)
                    != read.seq && forall|j: int|
                    0 <= j < i ==> seq_of(domains, (#[trigger] reads[j]).domain) == reads[j].seq,
        },
    decreases reads.len(),
{
    if reads.len() > 0 {
        if seq_of(domains, reads[0].domain) != reads[0].seq {
            assert(reads[0] == stale_read(domains, reads)->Some_0);
        } else {
            let rest = reads.drop_first();
            first_stale_entry_is_reported(domains, rest);
            match stale_read(domains, rest) {
                None => {
                    assert forall|i: int| 0 <= i < reads.len() implies seq_of(
                        domains,
                        (#[trigger] reads[i]).domain,
                    ) == reads[i].seq by {
                        if i > 0 {
                            assert(rest[i - 1] == reads[i]);
                        }
                    }
                },
                Some(read) => {
                    let k = choose|i: int|
                        0 <= i < rest.len() && #[trigger] rest[i] == read && seq_of(
                            domains,
                            read.domain,
                        ) != read.seq && forall|j: int|
                            0 <= j < i ==> seq_of(domains, (#[trigger] rest[j]).domain)
                                == rest[j].seq;
                    assert(reads[k + 1] == read);
                    assert forall|j: int| 0 <= j < k + 1 implies seq_of(
                        domains,
                        (#[trigger] reads[j]).domain,
                    ) == reads[j].seq by {
                        if j > 0 {
                            assert(rest[j - 1] == reads[j]);
                        }
                    }
                },
            }
        }
    }
}

/// Of callers that expect the same sequence number of a domain exactly one can
/// win: after the first, the others are told the number that won.
pub proof fn one_winner_per_sequence_number(fence: FenceModel, domain: Seq<char>, expected: u64)
    requires
        expected < u64::MAX,
        reservation(fence, domain, expected) is Ok,
    ensures
        reservation(fence, domain, expected) == Ok::<u64, u64>((expected + 1) as u64),
        seq_of(reserved(fence, domain, expected).domains, domain) == expected + 1,
        reservation(reserved(fence, domain, expected), domain, expected) == Err::<u64, u64>(
            (expected + 1) as u64,
        ),
{
}

/// A reservation that lost leaves every domain at the number that it was at.
pub proof fn lost_race_moves_no_domain(
    fence: FenceModel,
    domain: Seq<char>,
    expected: u64,
    other: Seq<char>,
)
    requires
        reservation(fence, domain, expected) is Err,
    ensures
        seq_of(reserved(fence, domain, expected).domains, other) == seq_of(fence.domains, other),
{
}

/// An attempt is admitted exactly if nothing that counts is recorded of its
/// intent and its read set holds.
pub proof fn admission_rule(fence: FenceModel, req: RequestModel, now: u128)
    ensures
        prepare_outcome(fence, req, now) is Fresh <==> claimable(fence, req.intent, now)
            && stale_read(fence.domains, req.read_set) is None,
{
}

/// Where nothing that counts is recorded of an intent, an attempt is refused for
/// its read set exactly if some entry does not hold, be it behind or ahead. The
/// refusal names the first such entry, and where its domain is instead.
pub proof fn stale_read_set_is_refused(fence: FenceModel, req: RequestModel, now: u128)
    requires
        claimable(fence, req.intent, now),
    ensures
        match prepare_outcome(fence, req, now) {
            Outcome::Refused(error) => exists|i: int|
                0 <= i < req.read_set.len() && error == stale_error(
                    fence.domains,
                    #[trigger] req.read_set[i],
                ) && seq_of(fence.domains, req.read_set[i].domain) != req.read_set[i].seq && forall|
                    j: int,
                |
                    0 <= j < i ==> seq_of(fence.domains, (#[trigger] req.read_set[j]).domain)
                        == req.read_set[j].seq,
            Outcome::Fresh(_) => forall|i: int|
                0 <= i < req.read_set.len() ==> seq_of(
                    fence.domains,
                    (#[trigger] req.read_set[i]).domain,
                ) == req.read_set[i].seq,
            Outcome::Replay(_) => false,
        },
{
    first_stale_entry_is_reported(fence.domains, req.read_set);
}

/// An attempt is replayed exactly if the ledger has the certificate of its intent
/// and still remembers it, whatever else the request says. It is that certificate
/// that it gets, and neither a domain nor a record changes.
pub proof fn remembered_outcome_is_replayed(
    fence: FenceModel,
    req: RequestModel,
    now: u128,
    cert: CertModel,
)
    ensures
        prepare_outcome(fence, req, now) == Outcome::Replay(cert) <==> {
            &&& fence.intents.contains_key(req.intent)
            &&& fence.intents[req.intent] matches IntentModel::Done { cert: held, at }
            &&& held == cert
            &&& age(now, at) < fence.config.result_ttl
        },
        prepare_outcome(fence, req, now) is Replay ==> {
            &&& prepared(fence, req, now).domains == fence.domains
            &&& prepared(fence, req, now).intents == fence.intents
        },
{
}

/// A refused attempt moves no domain. Where the ledger refuses it, no record
/// changes; where its read set does, nothing is recorded of its intent, and every
/// other record stays.
pub proof fn refused_attempt_changes_nothing_else(fence: FenceModel, req: RequestModel, now: u128)
    requires
        prepare_outcome(fence, req, now) is Refused,
    ensures
        prepared(fence, req, now).domains == fence.domains,
        match prepare_outcome(fence, req, now)->Refused_0 {
            ErrorModel::IntentInFlight { .. } => prepared(fence, req, now).intents == fence.intents,
            ErrorModel::IntentFailed { .. } => prepared(fence, req, now).intents == fence.intents,
            ErrorModel::ReadSetStale { .. } => prepared(fence, req, now).intents
                == fence.intents.remove(req.intent),
            ErrorModel::DomainRace { .. } => false,
        },
{
}

/// An attempt that loses the race for its domain moves no domain, and nothing is
/// recorded of its intent. Every other record stays.
pub proof fn lost_race_changes_nothing_else(
    fence: FenceModel,
    req: RequestModel,
    expected: u64,
    other: Seq<char>,
)
    requires
        admission(fence, req, expected) is Refused,
    ensures
        admission(fence, req, expected) == Outcome::Refused(
            ErrorModel::DomainRace {
                domain: req.domain,
                expected,
                actual: seq_of(fence.domains, req.domain),
            },
        ),
        seq_of(admitted(fence, req, expected).domains, other) == seq_of(fence.domains, other),
        admitted(fence, req, expected).intents == fence.intents.remove(req.intent),
{
}

/// A decision that was based on a domain that has moved since is never acted on:
/// the attempt is not admitted, and a commit of an effect that did run is
/// rejected.
pub proof fn moved_dependency_is_rejected(
    fence: FenceModel,
    req: RequestModel,
    ticket: TicketModel,
    result: Tree,
    now: u128,
    i: int,
)
    requires
        ticket.read_set == req.read_set,
        0 <= i < req.read_set.len(),
        seq_of(fence.domains, req.read_set[i].domain) != req.read_set[i].seq,
    ensures
        !(prepare_outcome(fence, req, now) is Fresh),
        claimable(fence, req.intent, now) ==> (prepare_outcome(fence, req, now) matches Outcome::Refused(
            error,
        ) && error is ReadSetStale),
        commit_outcome(fence, ticket, result) matches Err(error) && error is ReadSetStale,
{
    first_stale_entry_is_reported(fence.domains, req.read_set);
}

/// An admitted attempt owns the next sequence number of its domain, carries its
/// parent along, and its clock is strictly ahead of what its agent knew.
pub proof fn admission_advances_cause(fence: FenceModel, req: RequestModel, now: u128)
    requires
        prepare_outcome(fence, req, now) is Fresh,
        seq_of(fence.domains, req.domain) < u64::MAX,
        counter(req.known_clock, req.agent) < u64::MAX,
    ensures
        ({
            let ticket = prepare_outcome(fence, req, now)->Fresh_0;
            let after = prepared(fence, req, now);
            &&& ticket.seq == seq_of(fence.domains, req.domain) + 1
            &&& seq_of(after.domains, req.domain) == ticket.seq
            &&& ticket.intent == req.intent
            &&& ticket.parent == req.parent
            &&& clock_le(req.known_clock, ticket.vector_clock)
            &&& !clock_le(ticket.vector_clock, req.known_clock)
            &&& counter(ticket.vector_clock, req.agent) == counter(req.known_clock, req.agent) + 1
        }),
{
    tick_moves_ahead(req.known_clock, req.agent);
}

/// While an attempt holds its lease, every other attempt at the same intent is
/// refused as in flight.
pub proof fn duplicate_in_flight_is_refused(
    fence: FenceModel,
    first: RequestModel,
    now: u128,
    second: RequestModel,
    then: u128,
)
    requires
        prepare_outcome(fence, first, now) is Fresh,
        second.intent == first.intent,
        then < later(now, fence.config.lease_ttl),
    ensures
        prepare_outcome(prepared(fence, first, now), second, then) == Outcome::Refused(
            ErrorModel::IntentInFlight { intent: first.intent },
        ),
{
}

/// A holder that reported nothing loses its lease: after that an attempt whose
/// read set holds takes over, with the next sequence number of its domain.
pub proof fn expired_lease_is_taken_over(
    fence: FenceModel,
    first: RequestModel,
    now: u128,
    second: RequestModel,
    then: u128,
)
    requires
        prepare_outcome(fence, first, now) is Fresh,
        second.intent == first.intent,
        then >= later(now, fence.config.lease_ttl),
        stale_read(prepared(fence, first, now).domains, second.read_set) is None,
        second.domain == first.domain,
        seq_of(fence.domains, first.domain) + 2 <= u64::MAX,
    ensures
        prepare_outcome(prepared(fence, first, now), second, then) is Fresh,
        prepare_outcome(prepared(fence, first, now), second, then)->Fresh_0.seq == seq_of(
            fence.domains,
            first.domain,
        ) + 2,
{
}

/// After a commit every attempt at the same intent is answered with the very
/// certificate that the commit returned, and runs nothing, while the outcome is
/// remembered.
pub proof fn committed_intent_is_replayed(
    fence: FenceModel,
    ticket: TicketModel,
    result: Tree,
    now: u128,
    req: RequestModel,
    then: u128,
)
    requires
        commit_outcome(fence, ticket, result) is Ok,
        req.intent == ticket.intent,
        age(then, now) < fence.config.result_ttl,
    ensures
        commit_outcome(fence, ticket, result)->Ok_0 == minted(ticket, result),
        cert_valid(minted(ticket, result)),
        prepare_outcome(committed(fence, ticket, result, now), req, then) == Outcome::Replay(
            commit_outcome(fence, ticket, result)->Ok_0,
        ),
        prepared(committed(fence, ticket, result, now), req, then).domains == fence.domains,
        prepared(committed(fence, ticket, result, now), req, then).intents == committed(
            fence,
            ticket,
            result,
            now,
        ).intents,
{
}

/// After a commit that was rejected, attempts at the same intent are refused
/// with the reason while the outcome is remembered: the effect did run.
pub proof fn rejected_commit_is_fenced(
    fence: FenceModel,
    ticket: TicketModel,
    result: Tree,
    now: u128,
    req: RequestModel,
    then: u128,
)
    requires
        commit_outcome(fence, ticket, result) is Err,
        req.intent == ticket.intent,
        age(then, now) < fence.config.result_ttl,
    ensures
        prepare_outcome(committed(fence, ticket, result, now), req, then) == Outcome::Refused(
            ErrorModel::IntentFailed {
                intent: ticket.intent,
                reason: stale_reason(
                    fence.domains,
                    stale_read(fence.domains, ticket.read_set)->Some_0,
                ),
            },
        ),
{
}

/// After an effect was reported failed, attempts at the same intent are refused
/// with the reported reason while the outcome is remembered. The sequence number
/// that the effect owned is not handed out again.
pub proof fn aborted_intent_is_fenced(
    fence: FenceModel,
    ticket: TicketModel,
    reason: Seq<char>,
    now: u128,
    req: RequestModel,
    then: u128,
)
    requires
        req.intent == ticket.intent,
        age(then, now) < fence.config.result_ttl,
    ensures
        prepare_outcome(aborted(fence, ticket, reason, now), req, then) == Outcome::Refused(
            ErrorModel::IntentFailed { intent: ticket.intent, reason },
        ),
        aborted(fence, ticket, reason, now).domains == fence.domains,
{
}

/// Clearing an intent makes it runnable again, and takes no sequence number
/// back.
pub proof fn cleared_intent_is_runnable(fence: FenceModel, req: RequestModel, now: u128)
    requires
        stale_read(fence.domains, req.read_set) is None,
    ensures
        prepare_outcome(cleared(fence, req.intent), req, now) is Fresh,
        cleared(fence, req.intent).domains == fence.domains,
{
}

/// A record that no longer counts never counts again.
pub proof fn expiry_is_final(state: IntentModel, config: FenceConfig, now: u128, then: u128)
    requires
        !live(state, config, now),
        now <= then,
    ensures
        !live(state, config, then),
{
}

/// An attempt that was not admitted leaves no trace: whatever is asked later is
/// answered as if it had not been made.
pub proof fn refused_attempt_leaves_no_trace(
    fence: FenceModel,
    refused: RequestModel,
    now: u128,
    req: RequestModel,
    then: u128,
)
    requires
        !(prepare_outcome(fence, refused, now) is Fresh),
        now <= then,
    ensures
        prepared(fence, refused, now).domains == fence.domains,
        prepare_outcome(prepared(fence, refused, now), req, then) == prepare_outcome(
            fence,
            req,
            then,
        ),
{
    if req.intent == refused.intent && fence.intents.contains_key(req.intent) && claimable(
        fence,
        refused.intent,
        now,
    ) {
        expiry_is_final(fence.intents[req.intent], fence.config, now, then);
    }
}

/// Sweeping only reclaims memory: whatever is asked at that time or later is
/// answered as if nothing had been swept.
pub proof fn sweeping_changes_no_answer(
    fence: FenceModel,
    now: u128,
    req: RequestModel,
    then: u128,
)
    requires
        now <= then,
    ensures
        swept(fence, now).domains == fence.domains,
        prepare_outcome(swept(fence, now), req, then) == prepare_outcome(fence, req, then),
{
    if fence.intents.contains_key(req.intent) && !live(fence.intents[req.intent], fence.config, now) {
        expiry_is_final(fence.intents[req.intent], fence.config, now, then);
    }
}

/// Everything that is left after a sweep still counts.
pub proof fn sweeping_keeps_only_what_counts(fence: FenceModel, now: u128, intent: Seq<char>)
    ensures
        swept(fence, now).intents.contains_key(intent) <==> fence.intents.contains_key(intent)
            && live(fence.intents[intent], fence.config, now),
{
}

/// An attempt at one intent does not stand in the way of another: what is
/// recorded of the other intent stays as it is, and an attempt without a read
/// set that could be admitted before can be admitted after.
pub proof fn different_intents_do_not_block(
    fence: FenceModel,
    first: RequestModel,
    now: u128,
    second: RequestModel,
    then: u128,
)
    requires
        first.intent != second.intent,
    ensures
        claimable(prepared(fence, first, now), second.intent, then) == claimable(
            fence,
            second.intent,
            then,
        ),
        second.read_set.len() == 0 && claimable(fence, second.intent, then) ==> prepare_outcome(
            prepared(fence, first, now),
            second,
            then,
        ) is Fresh,
{
}

/// A domain that was evicted starts again at 1.
pub proof fn evicted_domain_starts_again(fence: FenceModel, domain: Seq<char>)
    ensures
        seq_of(evicted(fence, domain).domains, domain) == 0,
        reservation(evicted(fence, domain), domain, 0) == Ok::<u64, u64>(1u64),
{
}

/// Every attempt is counted once, and nothing else is.
pub proof fn every_attempt_is_counted_once(fence: FenceModel, req: RequestModel, now: u128)
    requires
        room_to_count(fence.stats),
    ensures
        prepared(fence, req, now).stats == counted(fence.stats, prepare_outcome(fence, req, now)),
        stats_total(prepared(fence, req, now).stats) == stats_total(fence.stats) + 1,
        prepared(fence, req, now).stats.admitted == fence.stats.admitted + (if prepare_outcome(
            fence,
            req,
            now,
        ) is Fresh {
            1int
        } else {
            0int
        }),
{
}

/// Whether no counter is at its maximum.
pub open spec fn room_to_count(stats: FenceStats) -> bool {
    &&& stats.admitted < u64::MAX
    &&& stats.replayed < u64::MAX
    &&& stats.refused_stale < u64::MAX
    &&& stats.refused_race < u64::MAX
    &&& stats.refused_inflight < u64::MAX
    &&& stats.refused_failed < u64::MAX
}

/// Whether every certificate in the ledger is valid and stands under its own
/// intent.
pub open spec fn sound(fence: FenceModel) -> bool {
    forall|intent: Seq<char>| #[trigger]
        fence.intents.contains_key(intent) ==> match fence.intents[intent] {
            IntentModel::Done { cert, .. } => cert.ticket.intent == intent && cert_valid(cert),
            _ => true,
        }
}

/// One thing that can happen to a fence. An attempt passes the gates in one go
/// (`Prepare`), or the first two (`Claim`) and then the last (`Admit`), with
/// whatever else may happen in between.
pub enum Op {
    Prepare { req: RequestModel, now: u128 },
    Claim { req: RequestModel, now: u128 },
    Admit { req: RequestModel, expected: u64 },
    Reserve { domain: Seq<char>, expected: u64 },
    Commit { ticket: TicketModel, result: Tree, now: u128 },
    Abort { ticket: TicketModel, reason: Seq<char>, now: u128 },
    Clear { intent: Seq<char> },
    Evict { domain: Seq<char> },
    Sweep { now: u128 },
}

/// The fence after an operation.
pub open spec fn step(fence: FenceModel, op: Op) -> FenceModel {
    match op {
        Op::Prepare { req, now } => prepared(fence, req, now),
        Op::Claim { req, now } => claimed(fence, req, now),
        Op::Admit { req, expected } => admitted(fence, req, expected),
        Op::Reserve { domain, expected } => reserved(fence, domain, expected),
        Op::Commit { ticket, result, now } => committed(fence, ticket, result, now),
        Op::Abort { ticket, reason, now } => aborted(fence, ticket, reason, now),
        Op::Clear { intent } => cleared(fence, intent),
        Op::Evict { domain } => evicted(fence, domain),
        Op::Sweep { now } => swept(fence, now),
    }
}

/// The fence after a history of operations.
pub open spec fn run(fence: FenceModel, ops: Seq<Op>) -> FenceModel
    decreases ops.len(),
{
    if ops.len() == 0 {
        fence
    } else {
        run(step(fence, ops[0]), ops.drop_first())
    }
}

/// The intents on which an attempt holds a lease that it has not yet taken
/// through the last gate, after an operation.
pub open spec fn pending_after(fence: FenceModel, pending: Set<Seq<char>>, op: Op) -> Set<
    Seq<char>,
> {
    match op {
        Op::Claim { req, now } => if claim_outcome(fence, req, now) is None {
            pending.insert(req.intent)
        } else {
            pending
        },
        Op::Admit { req, .. } => pending.remove(req.intent),
        _ => pending,
    }
}

/// Whether in a history only attempts that passed the first two gates go through
/// the last one, and each only once.
pub open spec fn orderly(fence: FenceModel, pending: Set<Seq<char>>, ops: Seq<Op>) -> bool
    decreases ops.len(),
{
    ops.len() == 0 || {
        &&& ops[0] matches Op::Admit { req, .. } ==> pending.contains(req.intent)
        &&& orderly(
            step(fence, ops[0]),
            pending_after(fence, pending, ops[0]),
            ops.drop_first(),
        )
    }
}

/// Whether an operation admits an attempt at `intent` to run.
pub open spec fn executes(fence: FenceModel, op: Op, intent: Seq<char>) -> bool {
    match op {
        Op::Prepare { req, now } => req.intent == intent && prepare_outcome(fence, req, now)
            is Fresh,
        Op::Admit { req, expected } => req.intent == intent && admission(fence, req, expected)
            is Fresh,
        _ => false,
    }
}

/// How often a history admits an attempt at `intent` to run.
pub open spec fn executions(fence: FenceModel, ops: Seq<Op>, intent: Seq<char>) -> nat
    decreases ops.len(),
{
    if ops.len() == 0 {
        0
    } else {
        (if executes(fence, ops[0], intent) {
            1nat
        } else {
            0nat
        }) + executions(step(fence, ops[0]), ops.drop_first(), intent)
    }
}

/// Whether an operation happens between `start` and `end` and does not clear
/// `intent`.
pub open spec fn within(op: Op, intent: Seq<char>, start: u128, end: u128) -> bool {
    match op {
        Op::Prepare { now, .. } => start <= now < end,
        Op::Claim { now, .. } => start <= now < end,
        Op::Commit { now, .. } => start <= now < end,
        Op::Abort { now, .. } => start <= now < end,
        Op::Sweep { now } => start <= now < end,
        Op::Clear { intent: other } => other != intent,
        _ => true,
    }
}

/// Whether what is recorded of `intent` counts from `start` to `end`.
spec fn held(fence: FenceModel, intent: Seq<char>, start: u128, end: u128) -> bool {
    &&& fence.intents.contains_key(intent)
    &&& forall|now: u128|
        start <= now < end ==> #[trigger] live(fence.intents[intent], fence.config, now)
}

/// What a step does to what is recorded of an intent: it stays held but for an
/// attempt that loses the race, and is held after a lease or an admission.
proof fn lemma_held_step(fence: FenceModel, op: Op, intent: Seq<char>, start: u128, end: u128)
    requires
        start < end,
        end - start <= fence.config.lease_ttl,
        end - start <= fence.config.result_ttl,
        within(op, intent, start, end),
    ensures
        step(fence, op).config == fence.config,
        held(fence, intent, start, end) && !(op matches Op::Admit { req, .. } && req.intent
            == intent) ==> held(step(fence, op), intent, start, end) && !executes(
            fence,
            op,
            intent,
        ),
        held(fence, intent, start, end) && executes(fence, op, intent) ==> held(
            step(fence, op),
            intent,
            start,
            end,
        ),
        op is Prepare && executes(fence, op, intent) ==> held(
            step(fence, op),
            intent,
            start,
            end,
        ),
        held(fence, intent, start, end) ==> !(op matches Op::Claim { req, now } && req.intent
            == intent && claim_outcome(fence, req, now) is None),
        (op matches Op::Claim { req, now } && req.intent == intent && claim_outcome(fence, req, now)
            is None) ==> held(step(fence, op), intent, start, end),
{
    let after = step(fence, op);
    match op {
        Op::Prepare { req, now } => {
            if held(fence, intent, start, end) {
                assert(live(fence.intents[intent], fence.config, now));
            }
        },
        Op::Claim { req, now } => {
            if held(fence, intent, start, end) {
                assert(live(fence.intents[intent], fence.config, now));
            }
        },
        Op::Commit { ticket, .. } => {
            if ticket.intent == intent {
                assert(held(after, intent, start, end));
            }
        },
        Op::Sweep { now } => {
            if held(fence, intent, start, end) {
                assert(live(fence.intents[intent], fence.config, now));
            }
        },
        _ => {},
    }
}

/// Whether an operation meets a record of `intent` that no longer counts, or
/// clears it: a lease that ran out without a report, or an outcome that is older
/// than it is remembered.
pub open spec fn forgets(fence: FenceModel, op: Op, intent: Seq<char>) -> bool {
    match op {
        Op::Prepare { req, now } => req.intent == intent && fence.intents.contains_key(intent)
            && !live(fence.intents[intent], fence.config, now),
        Op::Claim { req, now } => req.intent == intent && fence.intents.contains_key(intent)
            && !live(fence.intents[intent], fence.config, now),
        Op::Sweep { now } => fence.intents.contains_key(intent) && !live(
            fence.intents[intent],
            fence.config,
            now,
        ),
        Op::Clear { intent: other } => other == intent,
        _ => false,
    }
}

/// Whether an attempt of the history holds or has held `intent` after an
/// operation. One that lost the race for its domain ran nothing and holds
/// nothing.
pub open spec fn taken_after(fence: FenceModel, taken: bool, op: Op, intent: Seq<char>) -> bool {
    match op {
        Op::Prepare { .. } => taken || executes(fence, op, intent),
        Op::Claim { req, now } => taken || (req.intent == intent && claim_outcome(fence, req, now)
            is None),
        Op::Admit { req, .. } => if req.intent == intent {
            executes(fence, op, intent)
        } else {
            taken
        },
        _ => taken,
    }
}

/// Whether what a history's attempts at `intent` leave in the ledger is never
/// forgotten. `taken` says whether there is such an attempt already.
pub open spec fn remembered(fence: FenceModel, ops: Seq<Op>, intent: Seq<char>, taken: bool) -> bool
    decreases ops.len(),
{
    ops.len() == 0 || {
        &&& taken ==> !forgets(fence, ops[0], intent)
        &&& remembered(
            step(fence, ops[0]),
            ops.drop_first(),
            intent,
            taken_after(fence, taken, ops[0], intent),
        )
    }
}

/// The induction behind [`at_most_one_execution`]: while an attempt is between
/// the gates, and after one was admitted, the ledger has a record of the intent;
/// after one was admitted, none is between the gates.
proof fn lemma_executions(
    fence: FenceModel,
    pending: Set<Seq<char>>,
    ops: Seq<Op>,
    intent: Seq<char>,
    taken: bool,
    done: bool,
)
    requires
        orderly(fence, pending, ops),
        remembered(fence, ops, intent, taken),
        pending.contains(intent) ==> taken && !done && fence.intents.contains_key(intent),
        done ==> taken && fence.intents.contains_key(intent),
    ensures
        executions(fence, ops, intent) <= if done {
            0nat
        } else {
            1nat
        },
    decreases ops.len(),
{
    if ops.len() > 0 {
        let op = ops[0];
        lemma_executions(
            step(fence, op),
            pending_after(fence, pending, op),
            ops.drop_first(),
            intent,
            taken_after(fence, taken, op, intent),
            done || executes(fence, op, intent),
        );
    }
}

/// An action executes at most once. Whatever is done to a fence, in whatever
/// order, over whatever time, with the gates of different attempts interleaved
/// in any way, at most one attempt at an intent is admitted to run, as long as
/// what the ledger has of it is not forgotten: the holder reports before its
/// lease runs out, the outcome is not older than outcomes are remembered, and
/// the intent is not cleared.
pub proof fn at_most_one_execution(fence: FenceModel, ops: Seq<Op>, intent: Seq<char>)
    requires
        orderly(fence, Set::empty(), ops),
        remembered(fence, ops, intent, false),
    ensures
        executions(fence, ops, intent) <= 1,
{
    lemma_executions(fence, Set::empty(), ops, intent, false, false);
}

/// Within the time of a lease and of an outcome nothing that a history's
/// attempts leave in the ledger is forgotten.
proof fn lemma_remembered(
    fence: FenceModel,
    pending: Set<Seq<char>>,
    ops: Seq<Op>,
    intent: Seq<char>,
    start: u128,
    end: u128,
    taken: bool,
)
    requires
        start < end,
        end - start <= fence.config.lease_ttl,
        end - start <= fence.config.result_ttl,
        forall|i: int| 0 <= i < ops.len() ==> within(#[trigger] ops[i], intent, start, end),
        orderly(fence, pending, ops),
        pending.contains(intent) ==> taken,
        taken ==> held(fence, intent, start, end),
    ensures
        remembered(fence, ops, intent, taken),
    decreases ops.len(),
{
    if ops.len() > 0 {
        let op = ops[0];
        let rest = ops.drop_first();
        assert(within(op, intent, start, end));
        assert forall|i: int| 0 <= i < rest.len() implies within(#[trigger] rest[i], intent, start, end) by {
            assert(rest[i] == ops[i + 1]);
        }
        lemma_held_step(fence, op, intent, start, end);
        match op {
            Op::Prepare { now, .. } => {
                assert(taken ==> live(fence.intents[intent], fence.config, now));
            },
            Op::Claim { now, .. } => {
                assert(taken ==> live(fence.intents[intent], fence.config, now));
            },
            Op::Sweep { now } => {
                assert(taken ==> live(fence.intents[intent], fence.config, now));
            },
            _ => {},
        }
        lemma_remembered(
            step(fence, op),
            pending_after(fence, pending, op),
            rest,
            intent,
            start,
            end,
            taken_after(fence, taken, op, intent),
        );
    }
}

/// Whatever is done to a fence during a time no longer than a lease lasts and an
/// outcome is remembered, at most one attempt at an intent is admitted to run,
/// unless the intent is cleared, whether holders report or crash.
pub proof fn at_most_one_execution_within_a_lease(
    fence: FenceModel,
    ops: Seq<Op>,
    intent: Seq<char>,
    start: u128,
    end: u128,
)
    requires
        start < end,
        end - start <= fence.config.lease_ttl,
        end - start <= fence.config.result_ttl,
        forall|i: int| 0 <= i < ops.len() ==> within(#[trigger] ops[i], intent, start, end),
        orderly(fence, Set::empty(), ops),
    ensures
        remembered(fence, ops, intent, false),
        executions(fence, ops, intent) <= 1,
{
    lemma_remembered(fence, Set::empty(), ops, intent, start, end, false);
    at_most_one_execution(fence, ops, intent);
}

/// Whether an operation leaves an outcome of `intent` alone that was recorded at
/// `at`: attempts at the intent and sweeps happen while the outcome is
/// remembered, and it neither records another outcome of the intent nor clears
/// it.
pub open spec fn leaves_alone(op: Op, intent: Seq<char>, at: u128, ttl: u128) -> bool {
    match op {
        Op::Prepare { req, now } => req.intent == intent ==> age(now, at) < ttl,
        Op::Claim { req, now } => req.intent == intent ==> age(now, at) < ttl,
        Op::Sweep { now } => age(now, at) < ttl,
        Op::Commit { ticket, .. } => ticket.intent != intent,
        Op::Abort { ticket, .. } => ticket.intent != intent,
        Op::Clear { intent: other } => other != intent,
        _ => true,
    }
}

/// Whether an operation leaves a record of `intent` as it is: attempts at the
/// intent and sweeps happen while the record counts, and it neither records
/// anything else of the intent nor clears it.
pub open spec fn keeps(op: Op, intent: Seq<char>, state: IntentModel, config: FenceConfig) -> bool {
    match op {
        Op::Prepare { req, now } => req.intent == intent ==> live(state, config, now),
        Op::Claim { req, now } => req.intent == intent ==> live(state, config, now),
        Op::Sweep { now } => live(state, config, now),
        Op::Commit { ticket, .. } => ticket.intent != intent,
        Op::Abort { ticket, .. } => ticket.intent != intent,
        Op::Clear { intent: other } => other != intent,
        _ => true,
    }
}

/// A record stays in the ledger as it is, and no attempt at its intent is
/// admitted, over any history whose operations keep it.
proof fn lemma_record_stays(
    fence: FenceModel,
    pending: Set<Seq<char>>,
    ops: Seq<Op>,
    intent: Seq<char>,
)
    requires
        fence.intents.contains_key(intent),
        !pending.contains(intent),
        orderly(fence, pending, ops),
        forall|i: int|
            0 <= i < ops.len() ==> keeps(
                #[trigger] ops[i],
                intent,
                fence.intents[intent],
                fence.config,
            ),
    ensures
        run(fence, ops).intents.contains_key(intent),
        run(fence, ops).intents[intent] == fence.intents[intent],
        run(fence, ops).config == fence.config,
        executions(fence, ops, intent) == 0,
    decreases ops.len(),
{
    if ops.len() > 0 {
        let op = ops[0];
        let rest = ops.drop_first();
        assert(keeps(op, intent, fence.intents[intent], fence.config));
        let after = step(fence, op);
        assert(after.intents.contains_key(intent) && after.intents[intent] == fence.intents[intent]);
        assert(after.config == fence.config);
        assert(!executes(fence, op, intent));
        assert forall|i: int| 0 <= i < rest.len() implies keeps(
            #[trigger] rest[i],
            intent,
            after.intents[intent],
            after.config,
        ) by {
            assert(rest[i] == ops[i + 1]);
        }
        lemma_record_stays(after, pending_after(fence, pending, op), rest, intent);
    }
}

/// An outcome that was recorded at `at` stays in the ledger, and no attempt at its
/// intent is admitted, over any history whose operations leave it alone.
proof fn lemma_outcome_stays(
    fence: FenceModel,
    pending: Set<Seq<char>>,
    ops: Seq<Op>,
    intent: Seq<char>,
    at: u128,
)
    requires
        fence.intents.contains_key(intent),
        match fence.intents[intent] {
            IntentModel::InFlight { .. } => false,
            IntentModel::Done { at: recorded, .. } => recorded == at,
            IntentModel::Failed { at: recorded, .. } => recorded == at,
        },
        !pending.contains(intent),
        orderly(fence, pending, ops),
        forall|i: int|
            0 <= i < ops.len() ==> leaves_alone(
                #[trigger] ops[i],
                intent,
                at,
                fence.config.result_ttl,
            ),
    ensures
        run(fence, ops).intents.contains_key(intent),
        run(fence, ops).intents[intent] == fence.intents[intent],
        run(fence, ops).config == fence.config,
        executions(fence, ops, intent) == 0,
{
    assert forall|i: int| 0 <= i < ops.len() implies keeps(
        #[trigger] ops[i],
        intent,
        fence.intents[intent],
        fence.config,
    ) by {
        assert(leaves_alone(ops[i], intent, at, fence.config.result_ttl));
    }
    lemma_record_stays(fence, pending, ops, intent);
}

/// While an admitted attempt runs, whatever else happens at the fence, no other
/// attempt at its intent is admitted until its lease runs out: every one is
/// refused as in flight.
pub proof fn admitted_intent_stays_in_flight(
    fence: FenceModel,
    first: RequestModel,
    now: u128,
    pending: Set<Seq<char>>,
    ops: Seq<Op>,
    req: RequestModel,
    then: u128,
)
    requires
        prepare_outcome(fence, first, now) is Fresh,
        !pending.contains(first.intent),
        orderly(prepared(fence, first, now), pending, ops),
        forall|i: int|
            0 <= i < ops.len() ==> keeps(
                #[trigger] ops[i],
                first.intent,
                IntentModel::InFlight { until: later(now, fence.config.lease_ttl) },
                fence.config,
            ),
        req.intent == first.intent,
        then < later(now, fence.config.lease_ttl),
    ensures
        executions(prepared(fence, first, now), ops, first.intent) == 0,
        prepare_outcome(run(prepared(fence, first, now), ops), req, then) == Outcome::Refused(
            ErrorModel::IntentInFlight { intent: first.intent },
        ),
{
    lemma_record_stays(prepared(fence, first, now), pending, ops, first.intent);
}

/// A committed action never runs again while its outcome is remembered. Whatever
/// else happens at the fence after the commit, however long after, no attempt at
/// the intent is admitted, and every later attempt is answered with the very
/// certificate that the commit returned.
pub proof fn committed_intent_stays_replayed(
    fence: FenceModel,
    ticket: TicketModel,
    result: Tree,
    at: u128,
    pending: Set<Seq<char>>,
    ops: Seq<Op>,
    req: RequestModel,
    then: u128,
)
    requires
        commit_outcome(fence, ticket, result) is Ok,
        !pending.contains(ticket.intent),
        orderly(committed(fence, ticket, result, at), pending, ops),
        forall|i: int|
            0 <= i < ops.len() ==> leaves_alone(
                #[trigger] ops[i],
                ticket.intent,
                at,
                fence.config.result_ttl,
            ),
        req.intent == ticket.intent,
        age(then, at) < fence.config.result_ttl,
    ensures
        executions(committed(fence, ticket, result, at), ops, ticket.intent) == 0,
        prepare_outcome(run(committed(fence, ticket, result, at), ops), req, then)
            == Outcome::Replay(commit_outcome(fence, ticket, result)->Ok_0),
{
    lemma_outcome_stays(committed(fence, ticket, result, at), pending, ops, ticket.intent, at);
}

/// After a commit that was rejected no attempt at the intent is admitted while
/// the outcome is remembered, whatever else happens at the fence: every later
/// attempt is refused with the reason.
pub proof fn rejected_commit_stays_fenced(
    fence: FenceModel,
    ticket: TicketModel,
    result: Tree,
    at: u128,
    pending: Set<Seq<char>>,
    ops: Seq<Op>,
    req: RequestModel,
    then: u128,
)
    requires
        commit_outcome(fence, ticket, result) is Err,
        !pending.contains(ticket.intent),
        orderly(committed(fence, ticket, result, at), pending, ops),
        forall|i: int|
            0 <= i < ops.len() ==> leaves_alone(
                #[trigger] ops[i],
                ticket.intent,
                at,
                fence.config.result_ttl,
            ),
        req.intent == ticket.intent,
        age(then, at) < fence.config.result_ttl,
    ensures
        executions(committed(fence, ticket, result, at), ops, ticket.intent) == 0,
        prepare_outcome(run(committed(fence, ticket, result, at), ops), req, then)
            == Outcome::Refused(
            ErrorModel::IntentFailed {
                intent: ticket.intent,
                reason: stale_reason(
                    fence.domains,
                    stale_read(fence.domains, ticket.read_set)->Some_0,
                ),
            },
        ),
{
    lemma_outcome_stays(committed(fence, ticket, result, at), pending, ops, ticket.intent, at);
}

/// After an effect was reported failed no attempt at the intent is admitted
/// while the outcome is remembered, whatever else happens at the fence: every
/// later attempt is refused with the reported reason.
pub proof fn aborted_intent_stays_fenced(
    fence: FenceModel,
    ticket: TicketModel,
    reason: Seq<char>,
    at: u128,
    pending: Set<Seq<char>>,
    ops: Seq<Op>,
    req: RequestModel,
    then: u128,
)
    requires
        !pending.contains(ticket.intent),
        orderly(aborted(fence, ticket, reason, at), pending, ops),
        forall|i: int|
            0 <= i < ops.len() ==> leaves_alone(
                #[trigger] ops[i],
                ticket.intent,
                at,
                fence.config.result_ttl,
            ),
        req.intent == ticket.intent,
        age(then, at) < fence.config.result_ttl,
    ensures
        executions(aborted(fence, ticket, reason, at), ops, ticket.intent) == 0,
        prepare_outcome(run(aborted(fence, ticket, reason, at), ops), req, then)
            == Outcome::Refused(ErrorModel::IntentFailed { intent: ticket.intent, reason }),
{
    lemma_outcome_stays(aborted(fence, ticket, reason, at), pending, ops, ticket.intent, at);
}

/// The sequence numbers of `domain` that a history hands out, in order: to
/// admitted attempts and to bare reservations.
pub open spec fn handed_out(fence: FenceModel, ops: Seq<Op>, domain: Seq<char>) -> Seq<u64>
    decreases ops.len(),
{
    if ops.len() == 0 {
        Seq::empty()
    } else {
        slot(fence, ops[0], domain) + handed_out(step(fence, ops[0]), ops.drop_first(), domain)
    }
}

/// The sequence number of `domain` that an operation hands out, if it does.
pub open spec fn slot(fence: FenceModel, op: Op, domain: Seq<char>) -> Seq<u64> {
    match op {
        Op::Prepare { req, now } => match prepare_outcome(fence, req, now) {
            Outcome::Fresh(ticket) if ticket.domain == domain => seq![ticket.seq],
            _ => Seq::empty(),
        },
        Op::Admit { req, expected } => match admission(fence, req, expected) {
            Outcome::Fresh(ticket) if ticket.domain == domain => seq![ticket.seq],
            _ => Seq::empty(),
        },
        Op::Reserve { domain: other, expected } if other == domain => match reservation(
            fence,
            other,
            expected,
        ) {
            Ok(seq) => seq![seq],
            Err(_) => Seq::empty(),
        },
        _ => Seq::empty(),
    }
}

/// No sequence number of a domain is handed out twice, and none is left out:
/// as long as the domain is not evicted, those that are handed out follow one
/// another from where the domain was, and the domain ends at the last of them.
pub proof fn sequence_numbers_are_consecutive(
    fence: FenceModel,
    ops: Seq<Op>,
    domain: Seq<char>,
)
    requires
        seq_of(fence.domains, domain) + ops.len() <= u64::MAX,
        forall|i: int|
            0 <= i < ops.len() ==> !(#[trigger] ops[i] matches Op::Evict { domain: d } && d
                == domain),
    ensures
        forall|i: int|
            0 <= i < handed_out(fence, ops, domain).len() ==> #[trigger] handed_out(
                fence,
                ops,
                domain,
            )[i] == seq_of(fence.domains, domain) + 1 + i,
        seq_of(run(fence, ops).domains, domain) == seq_of(fence.domains, domain) + handed_out(
            fence,
            ops,
            domain,
        ).len(),
        handed_out(fence, ops, domain).len() <= ops.len(),
    decreases ops.len(),
{
    if ops.len() > 0 {
        let first = slot(fence, ops[0], domain);
        let after = step(fence, ops[0]);
        let rest = ops.drop_first();
        assert forall|i: int| 0 <= i < rest.len() implies !(#[trigger] rest[i] matches Op::Evict {
            domain: d,
        } && d == domain) by {
            assert(rest[i] == ops[i + 1]);
        }
        assert(!(ops[0] matches Op::Evict { domain: d } && d == domain));
        assert(first.len() <= 1);
        assert(seq_of(after.domains, domain) == seq_of(fence.domains, domain) + first.len());
        assert(first.len() == 1 ==> first[0] == seq_of(fence.domains, domain) + 1);
        sequence_numbers_are_consecutive(after, rest, domain);
        let more = handed_out(after, rest, domain);
        let all = handed_out(fence, ops, domain);
        assert(all =~= first + more);
        assert forall|i: int| 0 <= i < all.len() implies #[trigger] all[i] == seq_of(
            fence.domains,
            domain,
        ) + 1 + i by {
            if i >= first.len() {
                assert(all[i] == more[i - first.len()]);
            }
        }
    }
}

proof fn lemma_run_last(fence: FenceModel, ops: Seq<Op>)
    requires
        ops.len() > 0,
    ensures
        run(fence, ops) == step(run(fence, ops.drop_last()), ops.last()),
    decreases ops.len(),
{
    if ops.len() == 1 {
        assert(ops.drop_first() =~= Seq::empty());
        assert(ops.drop_last() =~= Seq::empty());
        assert(run(step(fence, ops[0]), Seq::empty()) == step(fence, ops[0]));
    } else {
        assert(ops.drop_first().drop_last() =~= ops.drop_last().drop_first());
        lemma_run_last(step(fence, ops[0]), ops.drop_first());
    }
}

/// Attempts one after the other.
pub open spec fn attempts(reqs: Seq<RequestModel>, times: Seq<u128>) -> Seq<Op> {
    Seq::new(reqs.len(), |i: int| Op::Prepare { req: reqs[i], now: times[i] })
}

/// Attempts at different intents on one domain of a new fence that read nothing
/// are all admitted, at whatever times, and get the sequence numbers of the domain
/// in turn, from 1. The domain ends at the last of them.
pub proof fn distinct_intents_are_numbered_in_turn(
    config: FenceConfig,
    reqs: Seq<RequestModel>,
    times: Seq<u128>,
    domain: Seq<char>,
)
    requires
        reqs.len() <= u64::MAX,
        forall|i: int|
            0 <= i < reqs.len() ==> (#[trigger] reqs[i]).domain == domain && reqs[i].read_set.len()
                == 0,
        forall|i: int, j: int|
            0 <= i < j < reqs.len() ==> (#[trigger] reqs[i]).intent != (#[trigger] reqs[j]).intent,
    ensures
        forall|i: int|
            0 <= i < reqs.len() ==> prepare_outcome(
                run(new_fence(config), attempts(reqs, times).take(i)),
                #[trigger] reqs[i],
                times[i],
            ) == Outcome::Fresh(ticket_for(reqs[i], (i + 1) as u64)),
        seq_of(run(new_fence(config), attempts(reqs, times)).domains, domain) == reqs.len(),
{
    let ops = attempts(reqs, times);
    assert forall|i: int| 0 <= i < reqs.len() implies prepare_outcome(
        run(new_fence(config), ops.take(i)),
        #[trigger] reqs[i],
        times[i],
    ) == Outcome::Fresh(ticket_for(reqs[i], (i + 1) as u64)) by {
        lemma_numbered(config, reqs, times, domain, i);
    }
    lemma_numbered(config, reqs, times, domain, reqs.len() as int);
    assert(ops.take(reqs.len() as int) =~= ops);
}

/// After `n` such attempts the domain is at `n`, and nothing is recorded of the
/// intents to come.
proof fn lemma_numbered(
    config: FenceConfig,
    reqs: Seq<RequestModel>,
    times: Seq<u128>,
    domain: Seq<char>,
    n: int,
)
    requires
        0 <= n <= reqs.len() <= u64::MAX,
        forall|i: int|
            0 <= i < reqs.len() ==> (#[trigger] reqs[i]).domain == domain && reqs[i].read_set.len()
                == 0,
        forall|i: int, j: int|
            0 <= i < j < reqs.len() ==> (#[trigger] reqs[i]).intent != (#[trigger] reqs[j]).intent,
    ensures
        ({
            let fence = run(new_fence(config), attempts(reqs, times).take(n));
            &&& seq_of(fence.domains, domain) == n
            &&& forall|i: int|
                n <= i < reqs.len() ==> !fence.intents.contains_key((#[trigger] reqs[i]).intent)
        }),
    decreases n,
{
    let ops = attempts(reqs, times).take(n);
    if n > 0 {
        lemma_numbered(config, reqs, times, domain, n - 1);
        assert(ops.drop_last() =~= attempts(reqs, times).take(n - 1));
        assert(ops.last() == Op::Prepare { req: reqs[n - 1], now: times[n - 1] });
        lemma_run_last(new_fence(config), ops);
        let before = run(new_fence(config), ops.drop_last());
        assert(!before.intents.contains_key(reqs[n - 1].intent));
        assert(stale_read(before.domains, reqs[n - 1].read_set) is None);
    } else {
        assert(ops =~= Seq::empty());
    }
}

/// Whether an operation is a commit of `intent` that is answered with `cert`.
pub open spec fn commits(fence: FenceModel, op: Op, intent: Seq<char>, cert: CertModel) -> bool {
    &&& op matches Op::Commit { ticket, result, .. }
    &&& ticket.intent == intent
    &&& commit_outcome(fence, ticket, result) == Ok::<CertModel, ErrorModel>(cert)
}

proof fn lemma_done_was_committed(config: FenceConfig, ops: Seq<Op>, intent: Seq<char>) -> (i: int)
    requires
        run(new_fence(config), ops).intents.contains_key(intent),
        run(new_fence(config), ops).intents[intent] is Done,
    ensures
        0 <= i < ops.len(),
        commits(
            run(new_fence(config), ops.take(i)),
            ops[i],
            intent,
            run(new_fence(config), ops).intents[intent]->cert,
        ),
    decreases ops.len(),
{
    if ops.len() == 0 {
        0
    } else {
        let before = run(new_fence(config), ops.drop_last());
        let after = run(new_fence(config), ops);
        let n = ops.len() - 1;
        lemma_run_last(new_fence(config), ops);
        assert(ops.take(n) =~= ops.drop_last());
        if commits(before, ops.last(), intent, after.intents[intent]->cert) {
            n
        } else {
            assert(before.intents.contains_key(intent));
            assert(before.intents[intent] == after.intents[intent]);
            let i = lemma_done_was_committed(config, ops.drop_last(), intent);
            assert(ops.drop_last().take(i) =~= ops.take(i));
            i
        }
    }
}

/// Whatever was done to a fence, what it replays is the certificate that a commit
/// of the same intent was answered with.
pub proof fn replays_come_from_commits(
    config: FenceConfig,
    ops: Seq<Op>,
    req: RequestModel,
    now: u128,
)
    requires
        prepare_outcome(run(new_fence(config), ops), req, now) is Replay,
    ensures
        exists|i: int|
            0 <= i < ops.len() && commits(
                run(new_fence(config), ops.take(i)),
                #[trigger] ops[i],
                req.intent,
                prepare_outcome(run(new_fence(config), ops), req, now)->Replay_0,
            ),
{
    let i = lemma_done_was_committed(config, ops, req.intent);
    assert(commits(
        run(new_fence(config), ops.take(i)),
        ops[i],
        req.intent,
        prepare_outcome(run(new_fence(config), ops), req, now)->Replay_0,
    ));
}

/// A fence is sound from the start and stays so whatever is done to it.
pub proof fn every_fence_is_sound(config: FenceConfig, ops: Seq<Op>)
    ensures
        sound(run(new_fence(config), ops)),
{
    lemma_run_sound(new_fence(config), ops);
}

/// A step from a sound fence leads to a sound fence.
pub proof fn soundness_is_kept(fence: FenceModel, op: Op)
    requires
        sound(fence),
    ensures
        sound(step(fence, op)),
{
    let after = step(fence, op);
    assert forall|intent: Seq<char>| #[trigger] after.intents.contains_key(intent) implies match after.intents[intent] {
        IntentModel::Done { cert, .. } => cert.ticket.intent == intent && cert_valid(cert),
        _ => true,
    } by {
        assert(after.intents[intent] is Done && !(op is Commit) ==> fence.intents.contains_key(
            intent,
        ));
    }
}

proof fn lemma_run_sound(fence: FenceModel, ops: Seq<Op>)
    requires
        sound(fence),
    ensures
        sound(run(fence, ops)),
    decreases ops.len(),
{
    if ops.len() > 0 {
        soundness_is_kept(fence, ops[0]);
        lemma_run_sound(step(fence, ops[0]), ops.drop_first());
    }
}

/// What a sound fence replays is a valid certificate of the very intent that
/// was asked for.
pub proof fn replays_are_genuine(fence: FenceModel, req: RequestModel, now: u128)
    requires
        sound(fence),
        prepare_outcome(fence, req, now) is Replay,
    ensures
        cert_valid(prepare_outcome(fence, req, now)->Replay_0),
        prepare_outcome(fence, req, now)->Replay_0.ticket.intent == req.intent,
{
    assert(fence.intents.contains_key(req.intent));
}

} // verus!
