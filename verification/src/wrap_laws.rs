//! What holds of wrapped servers.

use vstd::prelude::*;
use vstd::utf8::encode_utf8;
use crate::cert::{CertModel, TicketModel};
use crate::fence_laws::{aborted_intent_stays_fenced, at_most_one_execution,
    committed_intent_is_replayed, committed_intent_stays_replayed, duplicate_in_flight_is_refused,
    executes, executions, first_stale_entry_is_reported, leaves_alone, orderly, remembered, run, Op};
use crate::hex::{hex, hex_injective};
use crate::json::{canon, json_text, Json, Tree};
use crate::json_laws::{canonical_form_ignores_member_order, canonical_text_identifies_values,
    same_value, well_formed};
use crate::model::{age, claimable, commit_outcome, error_text, later, prepare_outcome, prepared,
    seq_of, stale_read, ErrorModel, FenceModel, IntentModel, Outcome};
use crate::order::lemma_encoding_injective;
use crate::sha::sha256_of;
use crate::text::hex_digit;
use crate::text_laws::{lemma_shows, shows};
use crate::wrap::{answer_outcome, arguments_tree, domain_of, finished, intent_bytes, intent_of, refusal_text, request_of, serves,
    split_of, step_for, Forwarded, Served, StepModel};

verus! {

/// Calls of one tool whose arguments differ only in the order of their members
/// are the same action.
pub proof fn member_order_does_not_split_an_action(tool: Seq<char>, a: Tree, b: Tree)
    requires
        same_value(a, b),
    ensures
        intent_of(tool, a) == intent_of(tool, b),
{
    canonical_form_ignores_member_order(a, b);
}

proof fn lemma_hex_has_no_colon(bytes: Seq<u8>)
    ensures
        forall|i: int| 0 <= i < hex(bytes).len() ==> #[trigger] hex(bytes)[i] != ':',
{
    assert forall|i: int| 0 <= i < hex(bytes).len() implies #[trigger] hex(bytes)[i] != ':' by {
        let n = if i % 2 == 0 {
            bytes[i / 2] as int / 16
        } else {
            bytes[i / 2] as int % 16
        };
        assert(hex(bytes)[i] == hex_digit(n));
    }
}

/// The tool and the digest can be told from an intent.
proof fn lemma_intent_parts(t: Seq<char>, x: Seq<u8>, u: Seq<char>, y: Seq<u8>)
    requires
        "wrap:"@ + t + ":"@ + hex(x) == "wrap:"@ + u + ":"@ + hex(y),
    ensures
        t == u,
        hex(x) == hex(y),
{
    reveal_strlit("wrap:");
    reveal_strlit(":");
    lemma_hex_has_no_colon(x);
    lemma_hex_has_no_colon(y);
    let a = "wrap:"@ + t + ":"@ + hex(x);
    let b = "wrap:"@ + u + ":"@ + hex(y);
    let i = 5 + t.len() as int;
    let j = 5 + u.len() as int;
    assert(a.len() == i + 1 + hex(x).len());
    assert(b.len() == j + 1 + hex(y).len());
    assert(a[i] == ':');
    assert(b[j] == ':');
    if i < j {
        assert(a[j] == hex(x)[j - i - 1]);
    }
    if j < i {
        assert(b[i] == hex(y)[i - j - 1]);
    }
    assert forall|k: int| 0 <= k < t.len() implies t[k] == u[k] by {
        assert(a[5 + k] == t[k]);
        assert(b[5 + k] == u[k]);
    }
    assert(t =~= u);
    assert forall|k: int| 0 <= k < hex(x).len() implies hex(x)[k] == hex(y)[k] by {
        assert(a[i + 1 + k] == hex(x)[k]);
        assert(b[j + 1 + k] == hex(y)[k]);
    }
    assert(hex(x) =~= hex(y));
}

/// Calls of different tools are different actions, whatever their arguments.
pub proof fn different_tools_are_different_actions(s: Seq<char>, a: Tree, t: Seq<char>, b: Tree)
    requires
        s != t,
    ensures
        intent_of(s, a) != intent_of(t, b),
{
    if intent_of(s, a) == intent_of(t, b) {
        lemma_intent_parts(
            s,
            sha256_of(intent_bytes(s, a)),
            t,
            sha256_of(intent_bytes(t, b)),
        );
    }
}

/// Calls that share an intent are calls of one tool with the same arguments but
/// for the order of members, or SHA-256 gave the same digest to two different
/// byte strings.
pub proof fn intent_identifies_the_action(s: Seq<char>, a: Tree, t: Seq<char>, b: Tree)
    requires
        well_formed(a),
        well_formed(b),
        intent_of(s, a) == intent_of(t, b),
    ensures
        s == t,
        same_value(a, b) || (intent_bytes(s, a) != intent_bytes(t, b) && sha256_of(
            intent_bytes(s, a),
        ) == sha256_of(intent_bytes(t, b))),
{
    let x = intent_bytes(s, a);
    let y = intent_bytes(t, b);
    lemma_intent_parts(s, sha256_of(x), t, sha256_of(y));
    hex_injective(sha256_of(x), sha256_of(y));
    if x == y {
        let p = encode_utf8(json_text(canon(a)));
        let q = encode_utf8(json_text(canon(b)));
        let n = encode_utf8(s).len() + 1;
        assert(x.skip(n as int) =~= p);
        assert(y.skip(n as int) =~= q);
        lemma_encoding_injective(json_text(canon(a)), json_text(canon(b)));
        canonical_text_identifies_values(a, b);
    }
}

/// A call is forwarded exactly if nothing that counts is recorded of its
/// intent: calls that are not identical never hold each other up.
pub proof fn call_is_forwarded_unless_recorded(
    fence: FenceModel,
    tool: Seq<char>,
    args: Tree,
    now: u128,
)
    ensures
        step_for(prepare_outcome(fence, request_of(tool, args), now)) is Forward <==> claimable(
            fence,
            intent_of(tool, args),
            now,
        ),
{
    assert(stale_read(fence.domains, request_of(tool, args).read_set) is None);
}

/// Identical calls reach the server at most once. Whatever happens at a fence,
/// over whatever time, at most one call of a tool with the same arguments is
/// forwarded, as long as what the ledger has of it is not forgotten: the server
/// answers before the lease runs out, the result is not older than results are
/// remembered, and the intent is not freed because the tool failed.
pub proof fn identical_calls_are_forwarded_at_most_once(
    fence: FenceModel,
    ops: Seq<Op>,
    tool: Seq<char>,
    args: Tree,
)
    requires
        orderly(fence, Set::empty(), ops),
        remembered(fence, ops, intent_of(tool, args), false),
    ensures
        executions(fence, ops, intent_of(tool, args)) <= 1,
        forall|state: FenceModel, b: Tree, now: u128|
            same_value(args, b) ==> (executes(
                state,
                Op::Prepare { req: #[trigger] request_of(tool, b), now },
                intent_of(tool, args),
            ) <==> step_for(#[trigger] prepare_outcome(state, request_of(tool, b), now)) is Forward),
{
    at_most_one_execution(fence, ops, intent_of(tool, args));
    assert forall|state: FenceModel, b: Tree, now: u128| same_value(args, b) implies (executes(
        state,
        Op::Prepare { req: #[trigger] request_of(tool, b), now },
        intent_of(tool, args),
    ) <==> step_for(#[trigger] prepare_outcome(state, request_of(tool, b), now)) is Forward) by {
        member_order_does_not_split_an_action(tool, args, b);
    }
}

/// While a call is being forwarded an identical one is refused with an
/// in-flight notice.
pub proof fn concurrent_duplicate_is_refused(
    fence: FenceModel,
    tool: Seq<char>,
    a: Tree,
    now: u128,
    b: Tree,
    then: u128,
)
    requires
        same_value(a, b),
        step_for(prepare_outcome(fence, request_of(tool, a), now)) is Forward,
        then < later(now, fence.config.lease_ttl),
    ensures
        step_for(
            prepare_outcome(prepared(fence, request_of(tool, a), now), request_of(tool, b), then),
        ) == StepModel::Refuse(
            refusal_text(ErrorModel::IntentInFlight { intent: intent_of(tool, a) }),
        ),
{
    member_order_does_not_split_an_action(tool, a, b);
    duplicate_in_flight_is_refused(fence, request_of(tool, a), now, request_of(tool, b), then);
}

/// Once a forwarded call has given a result, an identical call is answered with
/// that result and not forwarded, while the outcome is remembered.
pub proof fn duplicate_gets_the_recorded_result(
    fence: FenceModel,
    ticket: TicketModel,
    tool: Seq<char>,
    a: Tree,
    outcome: Forwarded,
    now: u128,
    b: Tree,
    then: u128,
)
    requires
        ticket.intent == intent_of(tool, a),
        ticket.read_set.len() == 0,
        outcome is Done,
        same_value(a, b),
        age(then, now) < fence.config.result_ttl,
    ensures
        step_for(
            prepare_outcome(finished(fence, ticket, outcome, now), request_of(tool, b), then),
        ) == StepModel::Replay(outcome->Done_0@),
{
    member_order_does_not_split_an_action(tool, a, b);
    assert(stale_read(fence.domains, ticket.read_set) is None);
    committed_intent_is_replayed(
        fence,
        ticket,
        outcome->Done_0@,
        now,
        request_of(tool, b),
        then,
    );
}

/// Once a forwarded call has given a result, whatever else happens at the fence,
/// no identical call is forwarded while the outcome is remembered, and every
/// later one is answered with that result.
pub proof fn recorded_result_stays(
    fence: FenceModel,
    ticket: TicketModel,
    tool: Seq<char>,
    a: Tree,
    outcome: Forwarded,
    at: u128,
    pending: Set<Seq<char>>,
    ops: Seq<Op>,
    b: Tree,
    then: u128,
)
    requires
        ticket.intent == intent_of(tool, a),
        ticket.read_set.len() == 0,
        outcome is Done,
        same_value(a, b),
        !pending.contains(ticket.intent),
        orderly(finished(fence, ticket, outcome, at), pending, ops),
        forall|i: int|
            0 <= i < ops.len() ==> leaves_alone(
                #[trigger] ops[i],
                ticket.intent,
                at,
                fence.config.result_ttl,
            ),
        age(then, at) < fence.config.result_ttl,
    ensures
        executions(finished(fence, ticket, outcome, at), ops, ticket.intent) == 0,
        step_for(
            prepare_outcome(
                run(finished(fence, ticket, outcome, at), ops),
                request_of(tool, b),
                then,
            ),
        ) == StepModel::Replay(outcome->Done_0@),
{
    member_order_does_not_split_an_action(tool, a, b);
    assert(stale_read(fence.domains, ticket.read_set) is None);
    committed_intent_stays_replayed(
        fence,
        ticket,
        outcome->Done_0@,
        at,
        pending,
        ops,
        request_of(tool, b),
        then,
    );
}

/// An answer that the tool failed frees the intent: the identical retry is
/// forwarded again, and not refused.
pub proof fn tool_error_does_not_block_the_retry(
    fence: FenceModel,
    ticket: TicketModel,
    tool: Seq<char>,
    a: Tree,
    outcome: Forwarded,
    now: u128,
    b: Tree,
    then: u128,
)
    requires
        ticket.intent == intent_of(tool, a),
        outcome is ToolError,
        same_value(a, b),
    ensures
        step_for(
            prepare_outcome(finished(fence, ticket, outcome, now), request_of(tool, b), then),
        ) is Forward,
{
    member_order_does_not_split_an_action(tool, a, b);
    call_is_forwarded_unless_recorded(
        finished(fence, ticket, outcome, now),
        tool,
        b,
        then,
    );
}

/// A call of unknown outcome is fenced: the identical retry is refused with the
/// reason, while the outcome is remembered.
pub proof fn broken_call_is_fenced(
    fence: FenceModel,
    ticket: TicketModel,
    tool: Seq<char>,
    a: Tree,
    outcome: Forwarded,
    now: u128,
    b: Tree,
    then: u128,
)
    requires
        ticket.intent == intent_of(tool, a),
        outcome is Broken,
        same_value(a, b),
        age(then, now) < fence.config.result_ttl,
    ensures
        step_for(
            prepare_outcome(finished(fence, ticket, outcome, now), request_of(tool, b), then),
        ) == StepModel::Refuse(
            refusal_text(
                ErrorModel::IntentFailed {
                    intent: intent_of(tool, a),
                    reason: outcome->Broken_0@,
                },
            ),
        ),
{
    member_order_does_not_split_an_action(tool, a, b);
}

/// A call of unknown outcome stays fenced: whatever else happens at the fence,
/// no identical call is forwarded while the outcome is remembered, and every
/// later one is refused with the reason.
pub proof fn broken_call_stays_fenced(
    fence: FenceModel,
    ticket: TicketModel,
    tool: Seq<char>,
    a: Tree,
    outcome: Forwarded,
    at: u128,
    pending: Set<Seq<char>>,
    ops: Seq<Op>,
    b: Tree,
    then: u128,
)
    requires
        ticket.intent == intent_of(tool, a),
        outcome is Broken,
        same_value(a, b),
        !pending.contains(ticket.intent),
        orderly(finished(fence, ticket, outcome, at), pending, ops),
        forall|i: int|
            0 <= i < ops.len() ==> leaves_alone(
                #[trigger] ops[i],
                ticket.intent,
                at,
                fence.config.result_ttl,
            ),
        age(then, at) < fence.config.result_ttl,
    ensures
        executions(finished(fence, ticket, outcome, at), ops, ticket.intent) == 0,
        step_for(
            prepare_outcome(
                run(finished(fence, ticket, outcome, at), ops),
                request_of(tool, b),
                then,
            ),
        ) == StepModel::Refuse(
            refusal_text(
                ErrorModel::IntentFailed {
                    intent: intent_of(tool, a),
                    reason: outcome->Broken_0@,
                },
            ),
        ),
{
    member_order_does_not_split_an_action(tool, a, b);
    aborted_intent_stays_fenced(
        fence,
        ticket,
        outcome->Broken_0@,
        at,
        pending,
        ops,
        request_of(tool, b),
        then,
    );
}

/// What the fence is asked for a call is the call: its tool and its arguments, under
/// the intent and in the domain of the tool, with nothing read and nothing before
/// it.
pub proof fn request_asks_for_the_call(tool: Seq<char>, args: Tree)
    ensures
        request_of(tool, args).tool == tool,
        request_of(tool, args).args == args,
        request_of(tool, args).intent == intent_of(tool, args),
        request_of(tool, args).domain == "tool:"@ + tool,
        request_of(tool, args).agent == "effectfence-wrap"@,
        request_of(tool, args).parent is None,
        request_of(tool, args).read_set.len() == 0,
        forall|agent: Seq<char>| !(#[trigger] request_of(tool, args).known_clock.contains_key(agent)),
        domain_of(tool) == "tool:"@ + tool,
{
}

/// The intent of a call is the tool's name and the digest of the name, a zero byte and
/// the canonical text of the arguments.
pub proof fn intent_is_name_and_digest(tool: Seq<char>, args: Tree)
    ensures
        intent_of(tool, args) == "wrap:"@ + tool + ":"@ + hex(
            sha256_of(encode_utf8(tool) + seq![0u8] + encode_utf8(json_text(canon(args)))),
        ),
{
}

/// A call that is forwarded is forwarded with a ticket for that very call.
pub proof fn forwarded_ticket_is_for_the_call(
    fence: FenceModel,
    tool: Seq<char>,
    args: Tree,
    now: u128,
)
    requires
        step_for(prepare_outcome(fence, request_of(tool, args), now)) is Forward,
    ensures
        ({
            let ticket = step_for(prepare_outcome(fence, request_of(tool, args), now))->Forward_0;
            &&& ticket.intent == intent_of(tool, args)
            &&& ticket.tool == tool
            &&& ticket.args == args
            &&& ticket.domain == "tool:"@ + tool
            &&& ticket.agent == "effectfence-wrap"@
            &&& ticket.parent is None
            &&& ticket.read_set.len() == 0
            &&& prepare_outcome(fence, request_of(tool, args), now) == Outcome::Fresh(ticket)
        }),
{
}

/// What is done with a call is what the fence answered: its ticket is forwarded, the
/// result in its certificate is served, and its rejection is passed on as a refusal.
pub proof fn steps_follow_the_fence(ticket: TicketModel, cert: CertModel, error: ErrorModel)
    ensures
        step_for(Outcome::Fresh(ticket)) == StepModel::Forward(ticket),
        step_for(Outcome::Replay(cert)) == StepModel::Replay(cert.result),
        step_for(Outcome::Refused(error)) is Refuse,
        step_for(Outcome::Refused(error))->Refuse_0.len()
            == "effectfence: duplicate call refused ("@.len() + error_text(error).len()
            + "). If this was intentional as a NEW action, vary the arguments; if you are waiting on the first attempt, retry shortly to receive its recorded result."@.len(),
        shows(
            step_for(Outcome::Refused(error))->Refuse_0,
            "effectfence: duplicate call refused ("@ + error_text(error)
                + "). If this was intentional as a NEW action, vary the arguments; if you are waiting on the first attempt, retry shortly to receive its recorded result."@,
        ),
{
    let text = refusal_text(error);
    lemma_shows(text, Seq::empty(), text, Seq::empty());
}

/// Whenever the server answered, its answer is served and never an error, whatever
/// the result is. It carries no warning where the tool failed or the ticket's read
/// set holds, and one that names what moved where it does not. An error is served
/// exactly if forwarding broke off or the answer has no JSON form.
pub proof fn answers_are_served(
    fence: FenceModel,
    ticket: TicketModel,
    outcome: Forwarded,
    served: Served,
)
    requires
        serves(fence, ticket, outcome, served),
    ensures
        served is Error <==> outcome is Broken || outcome is Unrecordable,
        served is Answer <==> outcome is Done || outcome is ToolError,
        outcome is ToolError ==> served->Answer_0 is None,
        outcome is Done && (forall|i: int|
            0 <= i < ticket.read_set.len() ==> seq_of(
                fence.domains,
                (#[trigger] ticket.read_set[i]).domain,
            ) == ticket.read_set[i].seq) ==> served->Answer_0 is None,
        outcome is Done && (exists|i: int|
            0 <= i < ticket.read_set.len() && seq_of(
                fence.domains,
                (#[trigger] ticket.read_set[i]).domain,
            ) != ticket.read_set[i].seq) ==> served->Answer_0 is Some && shows(
            served->Answer_0->Some_0@,
            "wrap: commit failed: "@ + error_text(
                commit_outcome(fence, ticket, outcome->Done_0@)->Err_0,
            ),
        ),
{
    first_stale_entry_is_reported(fence.domains, ticket.read_set);
    if outcome is Done && served->Answer_0 is Some {
        let text = served->Answer_0->Some_0@;
        lemma_shows(text, Seq::empty(), text, Seq::empty());
    }
}

/// Something can be served whatever came of a call: the answers above are not empty
/// words.
pub proof fn every_call_is_served(fence: FenceModel, ticket: TicketModel, outcome: Forwarded)
    ensures
        outcome is Broken || outcome is Unrecordable ==> serves(fence, ticket, outcome, Served::Error),
        outcome is ToolError ==> serves(fence, ticket, outcome, Served::Answer(None)),
        outcome is Done && ticket.read_set.len() == 0 ==> serves(
            fence,
            ticket,
            outcome,
            Served::Answer(None),
        ),
{
    assert(ticket.read_set.len() == 0 ==> stale_read(fence.domains, ticket.read_set) is None);
}

/// What came of a call is recorded under its intent, whatever the result is: a
/// result as done, with that result; an unknown outcome as failed, with its reason;
/// a failure of the tool not at all. What has no JSON form leaves the lease. No
/// domain moves, and no other record changes.
pub proof fn outcomes_are_recorded(
    fence: FenceModel,
    ticket: TicketModel,
    outcome: Forwarded,
    at: u128,
    other: Seq<char>,
)
    ensures
        ({
            let after = finished(fence, ticket, outcome, at);
            &&& after.config == fence.config
            &&& after.domains == fence.domains
            &&& after.stats == fence.stats
            &&& match outcome {
                Forwarded::Broken(reason) => {
                    &&& after.intents.contains_key(ticket.intent)
                    &&& after.intents[ticket.intent] == (IntentModel::Failed { reason: reason@, at })
                },
                Forwarded::Unrecordable => after.intents == fence.intents,
                Forwarded::ToolError => !after.intents.contains_key(ticket.intent),
                Forwarded::Done(result) => {
                    &&& after.intents.contains_key(ticket.intent)
                    &&& ticket.read_set.len() == 0 ==> {
                        &&& after.intents[ticket.intent] is Done
                        &&& after.intents[ticket.intent]->cert.result == result@
                        &&& after.intents[ticket.intent]->cert.ticket == ticket
                        &&& after.intents[ticket.intent]->Done_at == at
                    }
                },
            }
            &&& other != ticket.intent ==> {
                &&& after.intents.contains_key(other) == fence.intents.contains_key(other)
                &&& fence.intents.contains_key(other) ==> after.intents[other]
                    == fence.intents[other]
            }
        }),
{
}

/// Whatever the server answers in a form that can be recorded is served. Where it
/// does not say that the tool failed, the answer is recorded as it is, and a
/// duplicate is answered with it; where it does, the intent is free again.
pub proof fn recordable_answers_are_served_and_kept(
    fence: FenceModel,
    ticket: TicketModel,
    result: Json,
    is_error: Option<bool>,
    served: Served,
    at: u128,
)
    requires
        ticket.read_set.len() == 0,
        serves(fence, ticket, answer_outcome(Some(result), is_error), served),
    ensures
        served is Answer,
        served->Answer_0 is None,
        ({
            let after = finished(fence, ticket, answer_outcome(Some(result), is_error), at);
            match is_error {
                Some(true) => !after.intents.contains_key(ticket.intent),
                _ => {
                    &&& after.intents.contains_key(ticket.intent)
                    &&& after.intents[ticket.intent] is Done
                    &&& after.intents[ticket.intent]->cert.result == result@
                },
            }
        }),
{
    let outcome = answer_outcome(Some(result), is_error);
    answers_are_served(fence, ticket, outcome, served);
    outcomes_are_recorded(fence, ticket, outcome, at, ticket.intent);
}

/// An answer that has no JSON form ends in an error, and leaves the fence as it is.
pub proof fn unrecordable_answers_end_in_an_error(
    fence: FenceModel,
    ticket: TicketModel,
    is_error: Option<bool>,
    served: Served,
    at: u128,
)
    requires
        serves(fence, ticket, answer_outcome(None, is_error), served),
    ensures
        served is Error,
        finished(fence, ticket, answer_outcome(None, is_error), at) == fence,
{
}

/// A call without arguments is a call with no members, and one with arguments has
/// them as its members, as they are written.
pub proof fn arguments_are_members(members: Seq<(Seq<char>, Tree)>)
    ensures
        arguments_tree(None) == arguments_tree(Some(Seq::empty())),
        arguments_tree(Some(members)) is Object,
        arguments_tree(Some(members))->Object_0 == members,
{
}

/// The program and its arguments, put together again, are the command; only an empty
/// command has none.
pub proof fn commands_are_split_after_the_program(command: Seq<Seq<char>>)
    ensures
        split_of(command) is None <==> command.len() == 0,
        split_of(command) matches Some((program, rest)) ==> seq![program] + rest == command,
{
    if command.len() > 0 {
        assert(seq![command[0]] + command.skip(1) =~= command);
    }
}

} // verus!
