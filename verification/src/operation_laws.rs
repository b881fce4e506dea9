//! What each operation of a fence is for, in terms of what goes in and what comes
//! out.

use vstd::prelude::*;
use crate::cert::{cert_valid, RequestModel, TicketModel};
use crate::clock::counter;
use crate::fence_laws::first_stale_entry_is_reported;
use crate::json::Tree;
use crate::model::{aborted, admission, admitted, claim_outcome, claimed, cleared, commit_outcome,
    committed, error_text, evicted, new_fence, prepare_outcome, prepared, reservation,
    reserved, room, seq_of, stale_reason, stale_read, stats_line, stats_prevented, stats_total, swept,
    ErrorModel, FenceConfig, FenceModel, FenceStats, IntentModel, Outcome};
use crate::text_laws::{lemma_part, lemma_shows, prints, shows};
use crate::text::decimal;

verus! {

/// A domain that is not tracked is at 0, and one that is tracked is where it is
/// tracked to be.
pub proof fn untracked_domains_are_at_zero(domains: Map<Seq<char>, u64>, domain: Seq<char>)
    ensures
        domains.contains_key(domain) ==> seq_of(domains, domain) == domains[domain],
        !domains.contains_key(domain) ==> seq_of(domains, domain) == 0,
{
}

/// A new fence tracks nothing, has recorded nothing and has counted nothing.
pub proof fn new_fence_is_empty(config: FenceConfig, name: Seq<char>)
    ensures
        new_fence(config).config == config,
        !new_fence(config).domains.contains_key(name),
        !new_fence(config).intents.contains_key(name),
        new_fence(config).stats.admitted == 0,
        new_fence(config).stats.replayed == 0,
        new_fence(config).stats.refused_stale == 0,
        new_fence(config).stats.refused_race == 0,
        new_fence(config).stats.refused_inflight == 0,
        new_fence(config).stats.refused_failed == 0,
{
}

/// Whether a ticket is that of a request: every field that the commit needs is the
/// request's own, the read set entry for entry, and the clock is what the agent
/// knew with one more step of its own.
pub open spec fn carries(ticket: TicketModel, req: RequestModel) -> bool {
    &&& ticket.intent == req.intent
    &&& ticket.parent == req.parent
    &&& ticket.domain == req.domain
    &&& ticket.tool == req.tool
    &&& ticket.args == req.args
    &&& ticket.agent == req.agent
    &&& ticket.read_set.len() == req.read_set.len()
    &&& forall|i: int|
        0 <= i < req.read_set.len() ==> (#[trigger] ticket.read_set[i]).domain
            == req.read_set[i].domain && ticket.read_set[i].seq == req.read_set[i].seq
    &&& counter(req.known_clock, req.agent) < u64::MAX ==> counter(ticket.vector_clock, req.agent)
        == counter(req.known_clock, req.agent) + 1
    &&& forall|other: Seq<char>|
        other != req.agent ==> #[trigger] counter(ticket.vector_clock, other) == counter(
            req.known_clock,
            other,
        )
}

/// The ticket of an admitted attempt carries everything that was asked for, and
/// the next sequence number of the domain.
pub proof fn ticket_carries_the_request(fence: FenceModel, req: RequestModel, now: u128)
    requires
        prepare_outcome(fence, req, now) is Fresh,
    ensures
        carries(prepare_outcome(fence, req, now)->Fresh_0, req),
        prepare_outcome(fence, req, now)->Fresh_0.read_set == req.read_set,
        seq_of(fence.domains, req.domain) < u64::MAX ==> prepare_outcome(fence, req, now)->Fresh_0.seq
            == seq_of(fence.domains, req.domain) + 1,
{
}

/// So does the ticket of an attempt that passes the last gate by itself.
pub proof fn admitted_ticket_carries_the_request(fence: FenceModel, req: RequestModel, expected: u64)
    requires
        admission(fence, req, expected) is Fresh,
    ensures
        carries(admission(fence, req, expected)->Fresh_0, req),
        admission(fence, req, expected)->Fresh_0.read_set == req.read_set,
        seq_of(fence.domains, req.domain) == expected,
        expected < u64::MAX ==> admission(fence, req, expected)->Fresh_0.seq == expected + 1,
{
}

/// If any entry of a request's read set no longer holds when the ticket that the
/// request was given is committed, the commit is rejected. The rejection names the
/// first such entry, and where its domain is by then. The intent is fenced as
/// failed for as long as outcomes are remembered.
pub proof fn commit_holds_the_request_to_its_read_set(
    fence: FenceModel,
    req: RequestModel,
    now: u128,
    by_then: FenceModel,
    result: Tree,
    at: u128,
    i: int,
)
    requires
        prepare_outcome(fence, req, now) is Fresh,
        0 <= i < req.read_set.len(),
        seq_of(by_then.domains, req.read_set[i].domain) != req.read_set[i].seq,
        forall|j: int|
            0 <= j < i ==> seq_of(by_then.domains, (#[trigger] req.read_set[j]).domain)
                == req.read_set[j].seq,
    ensures
        commit_outcome(by_then, prepare_outcome(fence, req, now)->Fresh_0, result) == Err::<
            crate::cert::CertModel,
            ErrorModel,
        >(
            ErrorModel::ReadSetStale {
                domain: req.read_set[i].domain,
                expected: req.read_set[i].seq,
                actual: seq_of(by_then.domains, req.read_set[i].domain),
            },
        ),
        ({
            let after = committed(by_then, prepare_outcome(fence, req, now)->Fresh_0, result, at);
            &&& after.intents.contains_key(req.intent)
            &&& after.intents[req.intent] is Failed
            &&& after.intents[req.intent]->Failed_at == at
        }),
{
    let ticket = prepare_outcome(fence, req, now)->Fresh_0;
    first_stale_entry_is_reported(by_then.domains, ticket.read_set);
    assert(ticket.read_set[i] == req.read_set[i]);
    let read = stale_read(by_then.domains, ticket.read_set);
    assert(read is Some);
    let k = choose|k: int|
        0 <= k < ticket.read_set.len() && #[trigger] ticket.read_set[k] == read->Some_0 && seq_of(
            by_then.domains,
            read->Some_0.domain,
        ) != read->Some_0.seq && forall|j: int|
            0 <= j < k ==> seq_of(by_then.domains, (#[trigger] ticket.read_set[j]).domain)
                == ticket.read_set[j].seq;
    if k < i {
        assert(req.read_set[k] == ticket.read_set[k]);
    }
    if i < k {
        assert(seq_of(by_then.domains, ticket.read_set[i].domain) == ticket.read_set[i].seq);
    }
}

/// If every entry still holds, the commit is answered with a valid certificate of
/// what was asked for and what came of it, and the ledger keeps that certificate.
pub proof fn commit_certifies_the_request(
    fence: FenceModel,
    req: RequestModel,
    now: u128,
    by_then: FenceModel,
    result: Tree,
    at: u128,
)
    requires
        prepare_outcome(fence, req, now) is Fresh,
        forall|j: int|
            0 <= j < req.read_set.len() ==> seq_of(
                by_then.domains,
                (#[trigger] req.read_set[j]).domain,
            ) == req.read_set[j].seq,
    ensures
        ({
            let ticket = prepare_outcome(fence, req, now)->Fresh_0;
            let answer = commit_outcome(by_then, ticket, result);
            let after = committed(by_then, ticket, result, at);
            &&& answer is Ok
            &&& carries(answer->Ok_0.ticket, req)
            &&& answer->Ok_0.ticket.seq == ticket.seq
            &&& answer->Ok_0.ticket.vector_clock == ticket.vector_clock
            &&& answer->Ok_0.result == result
            &&& cert_valid(answer->Ok_0)
            &&& after.intents.contains_key(req.intent)
            &&& after.intents[req.intent] == IntentModel::Done { cert: answer->Ok_0, at }
        }),
{
    let ticket = prepare_outcome(fence, req, now)->Fresh_0;
    first_stale_entry_is_reported(by_then.domains, ticket.read_set);
    if stale_read(by_then.domains, ticket.read_set) is Some {
        let read = stale_read(by_then.domains, ticket.read_set)->Some_0;
        let k = choose|k: int|
            0 <= k < ticket.read_set.len() && #[trigger] ticket.read_set[k] == read && seq_of(
                by_then.domains,
                read.domain,
            ) != read.seq && forall|j: int|
                0 <= j < k ==> seq_of(by_then.domains, (#[trigger] ticket.read_set[j]).domain)
                    == ticket.read_set[j].seq;
        assert(req.read_set[k] == ticket.read_set[k]);
    }
}

/// A commit records one outcome and changes nothing else.
pub proof fn commit_changes_nothing_else(
    fence: FenceModel,
    ticket: TicketModel,
    result: Tree,
    at: u128,
    other: Seq<char>,
)
    ensures
        committed(fence, ticket, result, at).config == fence.config,
        committed(fence, ticket, result, at).domains == fence.domains,
        committed(fence, ticket, result, at).stats == fence.stats,
        committed(fence, ticket, result, at).intents.contains_key(ticket.intent),
        commit_outcome(fence, ticket, result) is Ok <==> committed(
            fence,
            ticket,
            result,
            at,
        ).intents[ticket.intent] is Done,
        commit_outcome(fence, ticket, result) is Err <==> committed(
            fence,
            ticket,
            result,
            at,
        ).intents[ticket.intent] is Failed,
        other != ticket.intent ==> {
            &&& committed(fence, ticket, result, at).intents.contains_key(other)
                == fence.intents.contains_key(other)
            &&& fence.intents.contains_key(other) ==> committed(fence, ticket, result, at).intents[other]
                == fence.intents[other]
        },
{
}

/// A report of failure records it with its reason, and changes nothing else.
pub proof fn abort_changes_nothing_else(
    fence: FenceModel,
    ticket: TicketModel,
    reason: Seq<char>,
    at: u128,
    other: Seq<char>,
)
    ensures
        aborted(fence, ticket, reason, at).config == fence.config,
        aborted(fence, ticket, reason, at).domains == fence.domains,
        aborted(fence, ticket, reason, at).stats == fence.stats,
        aborted(fence, ticket, reason, at).intents.contains_key(ticket.intent),
        aborted(fence, ticket, reason, at).intents[ticket.intent] == (IntentModel::Failed {
            reason,
            at,
        }),
        other != ticket.intent ==> {
            &&& aborted(fence, ticket, reason, at).intents.contains_key(other)
                == fence.intents.contains_key(other)
            &&& fence.intents.contains_key(other) ==> aborted(fence, ticket, reason, at).intents[other]
                == fence.intents[other]
        },
{
}

/// Clearing an intent takes it out of the ledger, and changes nothing else.
pub proof fn clearing_changes_nothing_else(fence: FenceModel, intent: Seq<char>, other: Seq<char>)
    ensures
        cleared(fence, intent).config == fence.config,
        cleared(fence, intent).domains == fence.domains,
        cleared(fence, intent).stats == fence.stats,
        !cleared(fence, intent).intents.contains_key(intent),
        other != intent ==> {
            &&& cleared(fence, intent).intents.contains_key(other) == fence.intents.contains_key(other)
            &&& fence.intents.contains_key(other) ==> cleared(fence, intent).intents[other]
                == fence.intents[other]
        },
{
}

/// Evicting a domain stops tracking it, and changes nothing else.
pub proof fn eviction_changes_nothing_else(fence: FenceModel, domain: Seq<char>, other: Seq<char>)
    ensures
        evicted(fence, domain).config == fence.config,
        evicted(fence, domain).intents == fence.intents,
        evicted(fence, domain).stats == fence.stats,
        !evicted(fence, domain).domains.contains_key(domain),
        other != domain ==> {
            &&& evicted(fence, domain).domains.contains_key(other) == fence.domains.contains_key(other)
            &&& seq_of(evicted(fence, domain).domains, other) == seq_of(fence.domains, other)
        },
{
}

/// A reservation succeeds exactly if the domain is where the caller expects it. It
/// then moves by one; otherwise the caller is told where it is, and it stays there.
/// Either way the domain is tracked from then on, and nothing else changes.
pub proof fn reservation_moves_its_domain_by_one(
    fence: FenceModel,
    domain: Seq<char>,
    expected: u64,
    other: Seq<char>,
)
    requires
        expected < u64::MAX,
    ensures
        seq_of(fence.domains, domain) == expected ==> {
            &&& reservation(fence, domain, expected) is Ok
            &&& reservation(fence, domain, expected)->Ok_0 == expected + 1
            &&& seq_of(reserved(fence, domain, expected).domains, domain) == expected + 1
        },
        seq_of(fence.domains, domain) != expected ==> {
            &&& reservation(fence, domain, expected) is Err
            &&& reservation(fence, domain, expected)->Err_0 == seq_of(fence.domains, domain)
            &&& seq_of(reserved(fence, domain, expected).domains, domain) == seq_of(
                fence.domains,
                domain,
            )
        },
        reserved(fence, domain, expected).domains.contains_key(domain),
        other != domain ==> {
            &&& reserved(fence, domain, expected).domains.contains_key(other)
                == fence.domains.contains_key(other)
            &&& seq_of(reserved(fence, domain, expected).domains, other) == seq_of(
                fence.domains,
                other,
            )
        },
        reserved(fence, domain, expected).intents == fence.intents,
        reserved(fence, domain, expected).config == fence.config,
        reserved(fence, domain, expected).stats == fence.stats,
{
}

/// Whether a record counts at `now`: a lease before its end, an outcome for
/// `result_ttl` from when it was recorded.
pub open spec fn counts(record: IntentModel, config: FenceConfig, now: u128) -> bool {
    match record {
        IntentModel::InFlight { until } => now < until,
        IntentModel::Done { at, .. } => (now < at && config.result_ttl > 0) || at <= now < at
            + config.result_ttl,
        IntentModel::Failed { at, .. } => (now < at && config.result_ttl > 0) || at <= now < at
            + config.result_ttl,
    }
}

/// What an attempt is answered. A record that counts decides: a lease refuses the
/// attempt as in flight, a certificate is handed out, a failure refuses with its
/// reason. Without one the read set decides: the first entry that does not hold
/// refuses the attempt. It is admitted exactly if neither stands in the way.
pub proof fn attempt_is_answered(fence: FenceModel, req: RequestModel, now: u128)
    ensures
        fence.intents.contains_key(req.intent) && counts(
            fence.intents[req.intent],
            fence.config,
            now,
        ) ==> match fence.intents[req.intent] {
            IntentModel::InFlight { .. } => prepare_outcome(fence, req, now) == Outcome::Refused(
                ErrorModel::IntentInFlight { intent: req.intent },
            ),
            IntentModel::Done { cert, .. } => prepare_outcome(fence, req, now) == Outcome::Replay(cert),
            IntentModel::Failed { reason, .. } => prepare_outcome(fence, req, now)
                == Outcome::Refused(ErrorModel::IntentFailed { intent: req.intent, reason }),
        },
        !(fence.intents.contains_key(req.intent) && counts(
            fence.intents[req.intent],
            fence.config,
            now,
        )) ==> match prepare_outcome(fence, req, now) {
            Outcome::Fresh(_) => forall|i: int|
                0 <= i < req.read_set.len() ==> seq_of(
                    fence.domains,
                    (#[trigger] req.read_set[i]).domain,
                ) == req.read_set[i].seq,
            Outcome::Replay(_) => false,
            Outcome::Refused(error) => exists|i: int|
                0 <= i < req.read_set.len() && error == (ErrorModel::ReadSetStale {
                    domain: (#[trigger] req.read_set[i]).domain,
                    expected: req.read_set[i].seq,
                    actual: seq_of(fence.domains, req.read_set[i].domain),
                }) && seq_of(fence.domains, req.read_set[i].domain) != req.read_set[i].seq && forall|
                    j: int,
                |
                    0 <= j < i ==> seq_of(fence.domains, (#[trigger] req.read_set[j]).domain)
                        == req.read_set[j].seq,
        },
{
    first_stale_entry_is_reported(fence.domains, req.read_set);
}

/// What an attempt leaves behind. An admitted one takes the lease on its intent,
/// from now for `lease_ttl`, and moves its domain by one; one that a record answers
/// changes no record; one that its read set refuses leaves no record of its intent.
/// No other domain moves, no other record changes.
pub proof fn attempt_leaves_behind(
    fence: FenceModel,
    req: RequestModel,
    now: u128,
    other: Seq<char>,
)
    ensures
        prepared(fence, req, now).config == fence.config,
        match prepare_outcome(fence, req, now) {
            Outcome::Fresh(ticket) => {
                &&& prepared(fence, req, now).intents.contains_key(req.intent)
                &&& prepared(fence, req, now).intents[req.intent] is InFlight
                &&& now + fence.config.lease_ttl <= u128::MAX ==> prepared(
                    fence,
                    req,
                    now,
                ).intents[req.intent]->until == now + fence.config.lease_ttl
                &&& now + fence.config.lease_ttl > u128::MAX ==> prepared(
                    fence,
                    req,
                    now,
                ).intents[req.intent]->until == u128::MAX
                &&& seq_of(prepared(fence, req, now).domains, req.domain) == ticket.seq
                &&& other != req.domain ==> prepared(fence, req, now).domains.contains_key(other)
                    == fence.domains.contains_key(other) && seq_of(
                    prepared(fence, req, now).domains,
                    other,
                ) == seq_of(fence.domains, other)
            },
            Outcome::Replay(_) => prepared(fence, req, now).domains == fence.domains && prepared(
                fence,
                req,
                now,
            ).intents == fence.intents,
            Outcome::Refused(error) => {
                &&& prepared(fence, req, now).domains == fence.domains
                &&& error is ReadSetStale ==> !prepared(fence, req, now).intents.contains_key(
                    req.intent,
                )
                &&& !(error is ReadSetStale) ==> prepared(fence, req, now).intents == fence.intents
            },
        },
        other != req.intent ==> {
            &&& prepared(fence, req, now).intents.contains_key(other) == fence.intents.contains_key(
                other,
            )
            &&& fence.intents.contains_key(other) ==> prepared(fence, req, now).intents[other]
                == fence.intents[other]
        },
{
}

/// The lease of an attempt admitted at `now` lasts for `lease_ttl` and no longer:
/// before it ends every other attempt at the intent is refused as in flight, and
/// from then on one whose read set holds takes the intent over.
pub proof fn lease_lasts_for_its_time(
    fence: FenceModel,
    req: RequestModel,
    now: u128,
    again: RequestModel,
    then: u128,
)
    requires
        prepare_outcome(fence, req, now) is Fresh,
        again.intent == req.intent,
    ensures
        now + fence.config.lease_ttl <= u128::MAX && then < now + fence.config.lease_ttl
            ==> prepare_outcome(prepared(fence, req, now), again, then) == Outcome::Refused(
            ErrorModel::IntentInFlight { intent: req.intent },
        ),
        now + fence.config.lease_ttl <= u128::MAX && then >= now + fence.config.lease_ttl && (
        forall|i: int|
            0 <= i < again.read_set.len() ==> seq_of(
                prepared(fence, req, now).domains,
                (#[trigger] again.read_set[i]).domain,
            ) == again.read_set[i].seq) ==> prepare_outcome(
            prepared(fence, req, now),
            again,
            then,
        ) is Fresh,
{
    let after = prepared(fence, req, now);
    attempt_leaves_behind(fence, req, now, again.domain);
    first_stale_entry_is_reported(after.domains, again.read_set);
}

/// The lease that the first gates give lasts just as long.
pub proof fn claimed_lease_lasts_for_its_time(
    fence: FenceModel,
    req: RequestModel,
    now: u128,
    again: RequestModel,
    then: u128,
)
    requires
        claim_outcome(fence, req, now) is None,
        again.intent == req.intent,
    ensures
        now + fence.config.lease_ttl <= u128::MAX && then < now + fence.config.lease_ttl
            ==> prepare_outcome(claimed(fence, req, now), again, then) == Outcome::Refused(
            ErrorModel::IntentInFlight { intent: req.intent },
        ),
        now + fence.config.lease_ttl <= u128::MAX && then >= now + fence.config.lease_ttl && (
        forall|i: int|
            0 <= i < again.read_set.len() ==> seq_of(
                claimed(fence, req, now).domains,
                (#[trigger] again.read_set[i]).domain,
            ) == again.read_set[i].seq) ==> prepare_outcome(claimed(fence, req, now), again, then)
            is Fresh,
{
    let after = claimed(fence, req, now);
    first_stale_entry_is_reported(after.domains, again.read_set);
}

/// What a commit records is remembered for `result_ttl` and no longer: until then a
/// later attempt gets the certificate, or is refused as failed where the commit was
/// rejected, and from then on one whose read set holds is admitted.
pub proof fn committed_outcome_lasts_for_its_time(
    fence: FenceModel,
    ticket: TicketModel,
    result: Tree,
    at: u128,
    again: RequestModel,
    then: u128,
)
    requires
        again.intent == ticket.intent,
        at <= then,
    ensures
        then < at + fence.config.result_ttl ==> match commit_outcome(fence, ticket, result) {
            Ok(cert) => prepare_outcome(committed(fence, ticket, result, at), again, then)
                == Outcome::Replay(cert),
            Err(_) => prepare_outcome(committed(fence, ticket, result, at), again, then) matches Outcome::Refused(
                error,
            ) && error is IntentFailed && error->IntentFailed_intent == ticket.intent,
        },
        then >= at + fence.config.result_ttl && (forall|i: int|
            0 <= i < again.read_set.len() ==> seq_of(
                fence.domains,
                (#[trigger] again.read_set[i]).domain,
            ) == again.read_set[i].seq) ==> prepare_outcome(
            committed(fence, ticket, result, at),
            again,
            then,
        ) is Fresh,
{
    first_stale_entry_is_reported(fence.domains, again.read_set);
}

/// A reported failure is remembered for `result_ttl` and no longer.
pub proof fn failure_lasts_for_its_time(
    fence: FenceModel,
    ticket: TicketModel,
    reason: Seq<char>,
    at: u128,
    again: RequestModel,
    then: u128,
)
    requires
        again.intent == ticket.intent,
        at <= then,
    ensures
        then < at + fence.config.result_ttl ==> prepare_outcome(
            aborted(fence, ticket, reason, at),
            again,
            then,
        ) == Outcome::Refused(ErrorModel::IntentFailed { intent: ticket.intent, reason }),
        then >= at + fence.config.result_ttl && (forall|i: int|
            0 <= i < again.read_set.len() ==> seq_of(
                fence.domains,
                (#[trigger] again.read_set[i]).domain,
            ) == again.read_set[i].seq) ==> prepare_outcome(
            aborted(fence, ticket, reason, at),
            again,
            then,
        ) is Fresh,
{
    first_stale_entry_is_reported(fence.domains, again.read_set);
}

/// A sweep keeps every record that counts as it is and drops every other. It
/// changes nothing else.
pub proof fn sweep_keeps_what_counts(fence: FenceModel, now: u128, intent: Seq<char>)
    ensures
        swept(fence, now).intents.contains_key(intent) <==> fence.intents.contains_key(intent)
            && counts(fence.intents[intent], fence.config, now),
        swept(fence, now).intents.contains_key(intent) ==> swept(fence, now).intents[intent]
            == fence.intents[intent],
        swept(fence, now).config == fence.config,
        swept(fence, now).domains == fence.domains,
        swept(fence, now).stats == fence.stats,
{
}

/// Passing the gates in two steps comes to the same as passing them in one: what
/// the first gates answer is the answer, and otherwise the last gate gives it.
pub proof fn two_steps_are_one_attempt(fence: FenceModel, req: RequestModel, now: u128)
    ensures
        match claim_outcome(fence, req, now) {
            Some(outcome) => {
                &&& prepare_outcome(fence, req, now) == outcome
                &&& !(outcome is Fresh)
                &&& prepared(fence, req, now) == claimed(fence, req, now)
            },
            None => {
                &&& prepare_outcome(fence, req, now) is Fresh
                &&& prepare_outcome(fence, req, now) == admission(
                    claimed(fence, req, now),
                    req,
                    seq_of(fence.domains, req.domain),
                )
                &&& prepared(fence, req, now) == admitted(
                    claimed(fence, req, now),
                    req,
                    seq_of(fence.domains, req.domain),
                )
                &&& claimed(fence, req, now).domains == fence.domains
                &&& claimed(fence, req, now).stats == fence.stats
                &&& claimed(fence, req, now).config == fence.config
            },
        },
{
}

/// What the last gate does: where the domain is still at `expected` it moves by one
/// and the records stay; where it is not, the attempt has lost the race, no domain
/// moves and nothing stays recorded of its intent.
pub proof fn last_gate_decides_the_race(
    fence: FenceModel,
    req: RequestModel,
    expected: u64,
    other: Seq<char>,
)
    requires
        expected < u64::MAX,
    ensures
        admitted(fence, req, expected).config == fence.config,
        seq_of(fence.domains, req.domain) == expected ==> {
            &&& admission(fence, req, expected) is Fresh
            &&& admitted(fence, req, expected).intents == fence.intents
            &&& seq_of(admitted(fence, req, expected).domains, req.domain) == expected + 1
        },
        seq_of(fence.domains, req.domain) != expected ==> {
            &&& admission(fence, req, expected) == Outcome::Refused(
                ErrorModel::DomainRace {
                    domain: req.domain,
                    expected,
                    actual: seq_of(fence.domains, req.domain),
                },
            )
            &&& !admitted(fence, req, expected).intents.contains_key(req.intent)
            &&& seq_of(admitted(fence, req, expected).domains, req.domain) == seq_of(
                fence.domains,
                req.domain,
            )
        },
        other != req.domain ==> seq_of(admitted(fence, req, expected).domains, other) == seq_of(
            fence.domains,
            other,
        ),
        other != req.intent ==> {
            &&& admitted(fence, req, expected).intents.contains_key(other)
                == fence.intents.contains_key(other)
            &&& fence.intents.contains_key(other) ==> admitted(fence, req, expected).intents[other]
                == fence.intents[other]
        },
{
}

/// An attempt lacks room only where it would be admitted and the number of its
/// domain, or its agent's counter, has run out.
pub proof fn room_is_lacking_only_at_the_limit(fence: FenceModel, req: RequestModel, now: u128)
    ensures
        !room(fence, req, now) <==> prepare_outcome(fence, req, now) is Fresh && (seq_of(
            fence.domains,
            req.domain,
        ) == u64::MAX || counter(req.known_clock, req.agent) == u64::MAX),
{
}

/// Every answer is counted under its own name, by one, and under no other. A count
/// that has run out stays where it is.
pub proof fn answers_are_counted_by_kind(fence: FenceModel, req: RequestModel, now: u128)
    ensures
        ({
            let before = fence.stats;
            let after = prepared(fence, req, now).stats;
            let outcome = prepare_outcome(fence, req, now);
            &&& one_more(before.admitted, after.admitted, outcome is Fresh)
            &&& one_more(before.replayed, after.replayed, outcome is Replay)
            &&& one_more(
                before.refused_stale,
                after.refused_stale,
                outcome is Refused && outcome->Refused_0 is ReadSetStale,
            )
            &&& one_more(
                before.refused_inflight,
                after.refused_inflight,
                outcome is Refused && outcome->Refused_0 is IntentInFlight,
            )
            &&& one_more(
                before.refused_failed,
                after.refused_failed,
                outcome is Refused && outcome->Refused_0 is IntentFailed,
            )
            &&& one_more(
                before.refused_race,
                after.refused_race,
                outcome is Refused && outcome->Refused_0 is DomainRace,
            )
        }),
{
}

/// The count after `before`, one more if there is one more to count.
pub open spec fn one_more(before: u64, after: u64, counted: bool) -> bool {
    after == if counted && before < u64::MAX {
        before + 1
    } else {
        before as int
    }
}

/// The last gate counts its answers in the same way.
pub proof fn races_are_counted(fence: FenceModel, req: RequestModel, expected: u64)
    ensures
        ({
            let before = fence.stats;
            let after = admitted(fence, req, expected).stats;
            let won = admission(fence, req, expected) is Fresh;
            &&& one_more(before.admitted, after.admitted, won)
            &&& one_more(before.refused_race, after.refused_race, !won)
            &&& after.replayed == before.replayed
            &&& after.refused_stale == before.refused_stale
            &&& after.refused_inflight == before.refused_inflight
            &&& after.refused_failed == before.refused_failed
        }),
{
}

/// The totals are sums of the counts: of all of them, and of all but the admitted.
pub proof fn totals_are_sums(stats: FenceStats)
    ensures
        stats_total(stats) == stats.admitted + stats.replayed + stats.refused_stale
            + stats.refused_race + stats.refused_inflight + stats.refused_failed,
        stats_prevented(stats) == stats_total(stats) - stats.admitted,
{
}

/// The line of statistics prints each count after its own label.
pub proof fn line_prints_every_count(stats: FenceStats)
    ensures
        ({
            let line = stats_line(stats);
            let total = stats.admitted + stats.replayed + stats.refused_stale + stats.refused_race
                + stats.refused_inflight + stats.refused_failed;
            &&& prints(line, "effectfence since boot: admitted="@, stats.admitted as nat, " replayed="@)
            &&& prints(line, " replayed="@, stats.replayed as nat, " refused(stale="@)
            &&& prints(line, " refused(stale="@, stats.refused_stale as nat, " race="@)
            &&& prints(line, " race="@, stats.refused_race as nat, " in-flight="@)
            &&& prints(line, " in-flight="@, stats.refused_inflight as nat, " failed="@)
            &&& prints(line, " failed="@, stats.refused_failed as nat, ") total="@)
            &&& prints(line, ") total="@, total as nat, " prevented="@)
            &&& prints(line, " prevented="@, (total - stats.admitted) as nat, Seq::empty())
        }),
{
    let line = stats_line(stats);
    let d1 = decimal(stats.admitted as nat);
    let d2 = decimal(stats.replayed as nat);
    let d3 = decimal(stats.refused_stale as nat);
    let d4 = decimal(stats.refused_race as nat);
    let d5 = decimal(stats.refused_inflight as nat);
    let d6 = decimal(stats.refused_failed as nat);
    let d7 = decimal(stats_total(stats) as nat);
    let d8 = decimal(stats_prevented(stats) as nat);
    let l1 = "effectfence since boot: admitted="@;
    let l2 = " replayed="@;
    let l3 = " refused(stale="@;
    let l4 = " race="@;
    let l5 = " in-flight="@;
    let l6 = " failed="@;
    let l7 = ") total="@;
    let l8 = " prevented="@;
    let f1 = l1 + d1;
    let f2 = f1 + l2 + d2;
    let f3 = f2 + l3 + d3;
    let f4 = f3 + l4 + d4;
    let f5 = f4 + l5 + d5;
    let f6 = f5 + l6 + d6;
    let f7 = f6 + l7 + d7;
    let none = Seq::<char>::empty();
    assert(line == f7 + l8 + d8);
    assert(line + none =~= line.subrange(0, line.len() as int));
    lemma_part(f7, l8, d8, none, line);
    lemma_part(f6, l7, d7, l8, line);
    lemma_part(f5, l6, d6, l7, line);
    lemma_part(f4, l5, d5, l6, line);
    lemma_part(f3, l4, d4, l5, line);
    lemma_part(f2, l3, d3, l4, line);
    lemma_part(f1, l2, d2, l3, line);
    assert(none + l1 =~= l1);
    lemma_part(none, l1, d1, l2, line);
}

/// The text of a rejection names what it is about: the domain and both numbers, or
/// the intent, and the reason of a failure.
pub proof fn rejections_name_their_cause(error: ErrorModel)
    ensures
        match error {
            ErrorModel::ReadSetStale { domain, expected, actual } => {
                &&& shows(
                    error_text(error),
                    "read set entry for domain `"@ + domain + "` is stale: expected seq "@,
                )
                &&& prints(
                    error_text(error),
                    "` is stale: expected seq "@,
                    expected as nat,
                    ", actual "@,
                )
                &&& prints(error_text(error), ", actual "@, actual as nat, Seq::empty())
            },
            ErrorModel::DomainRace { domain, expected, actual } => {
                &&& shows(
                    error_text(error),
                    "domain `"@ + domain + "` race: expected to reserve seq "@,
                )
                &&& prints(
                    error_text(error),
                    "` race: expected to reserve seq "@,
                    expected as nat,
                    ", but the domain was already at "@,
                )
                &&& prints(
                    error_text(error),
                    ", but the domain was already at "@,
                    actual as nat,
                    Seq::empty(),
                )
            },
            ErrorModel::IntentInFlight { intent } => shows(
                error_text(error),
                "intent `"@ + intent
                    + "` is already in flight: another attempt is executing it right now"@,
            ),
            ErrorModel::IntentFailed { intent, reason } => {
                &&& shows(error_text(error), "intent `"@ + intent + "` previously failed ("@)
                &&& shows(
                    error_text(error),
                    "` previously failed ("@ + reason
                        + "); outcome is unknown -- reconcile with the downstream system, then clear_intent to allow a retry"@,
                )
            },
        },
{
    let text = error_text(error);
    let none = Seq::<char>::empty();
    match error {
        ErrorModel::ReadSetStale { domain, expected, actual } => {
            let l1 = "read set entry for domain `"@;
            let l2 = "` is stale: expected seq "@;
            let l3 = ", actual "@;
            let e = decimal(expected as nat);
            let a = decimal(actual as nat);
            lemma_shows(text, none, l1 + domain + l2, e + l3 + a);
            lemma_shows(text, l1 + domain, l2 + e + l3, a);
            lemma_shows(text, l1 + domain + l2 + e, l3 + a + none, none);
        },
        ErrorModel::DomainRace { domain, expected, actual } => {
            let l1 = "domain `"@;
            let l2 = "` race: expected to reserve seq "@;
            let l3 = ", but the domain was already at "@;
            let e = decimal(expected as nat);
            let a = decimal(actual as nat);
            lemma_shows(text, none, l1 + domain + l2, e + l3 + a);
            lemma_shows(text, l1 + domain, l2 + e + l3, a);
            lemma_shows(text, l1 + domain + l2 + e, l3 + a + none, none);
        },
        ErrorModel::IntentInFlight { intent } => {
            let l = "` is already in flight: another attempt is executing it right now"@;
            lemma_shows(text, none, "intent `"@ + intent + l, none);
        },
        ErrorModel::IntentFailed { intent, reason } => {
            let l2 = "` previously failed ("@;
            let l3 = "); outcome is unknown -- reconcile with the downstream system, then clear_intent to allow a retry"@;
            lemma_shows(text, none, "intent `"@ + intent + l2, reason + l3);
            lemma_shows(text, "intent `"@ + intent, l2 + reason + l3, none);
        },
    }
}

/// The text of a rejection, and the line of statistics, say nothing beyond that.
pub proof fn texts_say_nothing_else(error: ErrorModel, stats: FenceStats)
    ensures
        error_text(error).len() == match error {
            ErrorModel::ReadSetStale { domain, expected, actual } => "read set entry for domain `"@.len()
                + domain.len() + "` is stale: expected seq "@.len() + decimal(expected as nat).len()
                + ", actual "@.len() + decimal(actual as nat).len(),
            ErrorModel::DomainRace { domain, expected, actual } => "domain `"@.len() + domain.len()
                + "` race: expected to reserve seq "@.len() + decimal(expected as nat).len()
                + ", but the domain was already at "@.len() + decimal(actual as nat).len(),
            ErrorModel::IntentInFlight { intent } => "intent `"@.len() + intent.len()
                + "` is already in flight: another attempt is executing it right now"@.len(),
            ErrorModel::IntentFailed { intent, reason } => "intent `"@.len() + intent.len()
                + "` previously failed ("@.len() + reason.len()
                + "); outcome is unknown -- reconcile with the downstream system, then clear_intent to allow a retry"@.len(),
        },
        stats_line(stats).len() == "effectfence since boot: admitted="@.len() + decimal(
            stats.admitted as nat,
        ).len() + " replayed="@.len() + decimal(stats.replayed as nat).len()
            + " refused(stale="@.len() + decimal(stats.refused_stale as nat).len() + " race="@.len()
            + decimal(stats.refused_race as nat).len() + " in-flight="@.len() + decimal(
            stats.refused_inflight as nat,
        ).len() + " failed="@.len() + decimal(stats.refused_failed as nat).len() + ") total="@.len()
            + decimal(stats_total(stats) as nat).len() + " prevented="@.len() + decimal(
            stats_prevented(stats) as nat,
        ).len(),
{
}

/// The reason under which a rejected commit is recorded names the domain that
/// moved, and both its numbers.
pub proof fn rejected_commits_name_what_moved(
    fence: FenceModel,
    ticket: TicketModel,
    result: Tree,
    at: u128,
)
    requires
        commit_outcome(fence, ticket, result) is Err,
    ensures
        ({
            let error = commit_outcome(fence, ticket, result)->Err_0;
            let after = committed(fence, ticket, result, at);
            let reason = after.intents[ticket.intent]->reason;
            &&& error is ReadSetStale
            &&& shows(
                reason,
                "commit rejected: read-set entry for `"@ + error->ReadSetStale_domain
                    + "` went stale (expected "@,
            )
            &&& prints(
                reason,
                "` went stale (expected "@,
                error->ReadSetStale_expected as nat,
                ", actual "@,
            )
            &&& prints(
                reason,
                ", actual "@,
                error->ReadSetStale_actual as nat,
                ") while the effect was running"@,
            )
        }),
{
    let read = stale_read(fence.domains, ticket.read_set)->Some_0;
    let text = stale_reason(fence.domains, read);
    let none = Seq::<char>::empty();
    let l1 = "commit rejected: read-set entry for `"@;
    let l2 = "` went stale (expected "@;
    let l3 = ", actual "@;
    let l4 = ") while the effect was running"@;
    let e = decimal(read.seq as nat);
    let a = decimal(seq_of(fence.domains, read.domain) as nat);
    lemma_shows(text, none, l1 + read.domain + l2, e + l3 + a + l4);
    lemma_shows(text, l1 + read.domain, l2 + e + l3, a + l4);
    lemma_shows(text, l1 + read.domain + l2 + e, l3 + a + l4, none);
}

} // verus!
