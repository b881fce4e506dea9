//! Wrap mode: a fence in front of a tool server that was written without one.
//!
//! Every tool call gets an intent made from the tool's name and its arguments.
//! Identical calls are the same action: the server executes it once, later
//! duplicates get the recorded result, and a duplicate of a call that is still
//! running is refused. Calls that differ in the tool or in an argument are
//! different actions and do not stand in each other's way.
//!
//! Serving one call takes two steps, with the server's work in between:
//! [`begin`] says whether to forward the call, and [`finish`] records what came
//! of it.

use vstd::prelude::*;
use vstd::string::*;
use vstd::utf8::encode_utf8;
use crate::cert::{reads_view, RequestModel, TicketModel};
use crate::clock::counter;
use crate::fence::{abort_effect_at, commit_effect_cert_at, outcome_of, prepare_effect_fence_at,
    Admission, EffectFence, EffectRequest, FenceError, PreparedEffect, VectorClock};
use crate::hex::{encode, hex, is_digest_text, lemma_digest_text};
use crate::json::{canon, json_text, member_trees, Json, Tree};
use crate::model::{aborted, cleared, commit_outcome, committed, error_text, prepare_outcome,
    prepared, room, seq_of, ErrorModel, FenceModel, Outcome};
use crate::sha::{sha256, sha256_of};
use crate::text::{append_decimal, decimal, texts, texts_from};

verus! {

/// What is hashed into the intent of a call: the tool's name, a zero byte, and
/// the canonical text of the arguments.
pub open spec fn intent_bytes(tool: Seq<char>, args: Tree) -> Seq<u8> {
    encode_utf8(tool) + seq![0u8] + encode_utf8(json_text(canon(args)))
}

/// The intent of a call.
pub open spec fn intent_of(tool: Seq<char>, args: Tree) -> Seq<char> {
    "wrap:"@ + tool + ":"@ + hex(sha256_of(intent_bytes(tool, args)))
}

/// The contention scope of a tool.
pub open spec fn domain_of(tool: Seq<char>) -> Seq<char> {
    "tool:"@ + tool
}

/// What the fence is asked for a call.
pub open spec fn request_of(tool: Seq<char>, args: Tree) -> RequestModel {
    RequestModel {
        intent: intent_of(tool, args),
        parent: None,
        domain: domain_of(tool),
        tool,
        args,
        read_set: Seq::empty(),
        agent: "effectfence-wrap"@,
        known_clock: Map::empty(),
    }
}

/// What a duplicate that is refused is told.
pub open spec fn refusal_text(error: ErrorModel) -> Seq<char> {
    "effectfence: duplicate call refused ("@ + error_text(error)
        + "). If this was intentional as a NEW action, vary the arguments; if you are waiting on the first attempt, retry shortly to receive its recorded result."@
}

/// What is to be done with a call.
#[derive(Debug)]
pub enum Step {
    /// Forward it to the server, and report back with [`finish`].
    Forward(PreparedEffect),
    /// Answer it with this recorded result.
    Replay(Json),
    /// Refuse it with this text.
    Refuse(String),
}

/// What a step stands for.
#[verifier::ext_equal]
pub enum StepModel {
    Forward(TicketModel),
    Replay(Tree),
    Refuse(Seq<char>),
}

impl View for Step {
    type V = StepModel;

    open spec fn view(&self) -> StepModel {
        match self {
            Step::Forward(ticket) => StepModel::Forward(ticket@),
            Step::Replay(result) => StepModel::Replay(result@),
            Step::Refuse(text) => StepModel::Refuse(text@),
        }
    }
}

/// What is to be done with a call that the fence answered with `outcome`.
pub open spec fn step_for(outcome: Outcome) -> StepModel {
    match outcome {
        Outcome::Fresh(ticket) => StepModel::Forward(ticket),
        Outcome::Replay(cert) => StepModel::Replay(cert.result),
        Outcome::Refused(error) => StepModel::Refuse(refusal_text(error)),
    }
}

/// What came of a call that was forwarded.
#[derive(Debug)]
pub enum Forwarded {
    /// The server could not be reached or broke off, for this reason: whether
    /// the effect fired is unknown.
    Broken(String),
    /// The server answered with something that has no JSON form.
    Unrecordable,
    /// The server answered, and says that the tool failed.
    ToolError,
    /// The server answered with this result.
    Done(Json),
}

/// What the caller is served.
#[derive(Debug)]
pub enum Served {
    /// The error that forwarding ended in.
    Error,
    /// The server's answer, with a warning where it could not be recorded.
    Answer(Option<String>),
}

/// The fence after a forwarded call at `now`. An unknown outcome is fenced; an
/// answer that a tool failed frees the intent, so that a retry can execute; a
/// result is committed; what has no JSON form leaves the lease to run out.
pub open spec fn finished(
    fence: FenceModel,
    ticket: TicketModel,
    outcome: Forwarded,
    now: u128,
) -> FenceModel {
    match outcome {
        Forwarded::Broken(reason) => aborted(fence, ticket, reason@, now),
        Forwarded::Unrecordable => fence,
        Forwarded::ToolError => cleared(fence, ticket.intent),
        Forwarded::Done(result) => committed(fence, ticket, result@, now),
    }
}

/// Whether what is served fits what came of the call: the server's answer is
/// passed on whenever there is one that could be recorded or says that the tool
/// failed, and a commit that was rejected only adds a warning.
pub open spec fn serves(
    fence: FenceModel,
    ticket: TicketModel,
    outcome: Forwarded,
    served: Served,
) -> bool {
    match outcome {
        Forwarded::Broken(_) => served is Error,
        Forwarded::Unrecordable => served is Error,
        Forwarded::ToolError => served matches Served::Answer(warning) && warning is None,
        Forwarded::Done(result) => served matches Served::Answer(warning) && match commit_outcome(
            fence,
            ticket,
            result@,
        ) {
            Ok(_) => warning is None,
            Err(error) => warning matches Some(text) && text@ == "wrap: commit failed: "@
                + error_text(error),
        },
    }
}

/// The intent of a call: the tool's name and the SHA-256 of the name and the
/// arguments. The order in which the members of an object are written does not
/// matter.
pub fn derive_intent(tool: &str, args: &Json) -> (intent: String)
    ensures
        intent@ == intent_of(tool@, args@),
        is_digest_text(intent@.skip(intent@.len() - 64)),
{
    let text: String = args.canonicalize().to_text();
    let mut bytes: Vec<u8> = Vec::new();
    bytes.extend_from_slice(tool.as_bytes());
    bytes.push(0u8);
    bytes.extend_from_slice(text.as_str().as_bytes());
    assert(bytes@ =~= intent_bytes(tool@, args@));
    let hashed: Vec<u8> = sha256(bytes.as_slice());
    proof {
        lemma_digest_text(hashed@);
    }
    let digest: String = encode(hashed.as_slice());
    let mut out: String = String::new();
    out.append("wrap:");
    out.append(tool);
    out.append(":");
    out.append(digest.as_str());
    assert(out@ =~= intent_of(tool@, args@));
    assert(out@.skip(out@.len() - 64) =~= digest@);
    out
}

/// What the fence is asked for a call.
pub fn wrap_request(tool: &str, args: Json) -> (req: EffectRequest)
    ensures
        req@ == request_of(tool@, args@),
{
    let intent: String = derive_intent(tool, &args);
    let mut domain: String = String::new();
    domain.append("tool:");
    domain.append(tool);
    assert(domain@ =~= domain_of(tool@));
    let req = EffectRequest {
        intent,
        parent: None,
        domain,
        tool: tool.to_owned(),
        args,
        read_set: Vec::new(),
        agent: "effectfence-wrap".to_owned(),
        known_clock: VectorClock::new(),
    };
    assert(reads_view(req.read_set@) =~= Seq::empty());
    req
}

/// The arguments of a call as a JSON value.
pub open spec fn arguments_tree(arguments: Option<Seq<(Seq<char>, Tree)>>) -> Tree {
    match arguments {
        Some(members) => Tree::Object(members),
        None => Tree::Object(Seq::empty()),
    }
}

/// The arguments of a call as a JSON value: an empty object where it has none.
pub fn call_arguments(arguments: Option<Vec<(String, Json)>>) -> (args: Json)
    ensures
        match arguments {
            Some(members) => args == Json::Object(members),
            None => args@ == Tree::Object(Seq::empty()),
        },
        args@ == arguments_tree(
            match arguments {
                Some(members) => Some(member_trees(members@)),
                None => None,
            },
        ),
{
    match arguments {
        Some(members) => Json::Object(members),
        None => {
            let members: Vec<(String, Json)> = Vec::new();
            Json::Object(members)
        },
    }
}

/// Says what to do with a call. There is nothing to do, and the fence is left as
/// it was, where the call would be forwarded but its domain cannot advance.
pub fn begin(fence: &mut EffectFence, tool: &str, args: Json) -> (step: Option<Step>)
    ensures
        exists|now: u128|
            match step {
                Some(s) => {
                    &&& room(old(fence)@, request_of(tool@, args@), now)
                    &&& s@ == step_for(
                        #[trigger] prepare_outcome(old(fence)@, request_of(tool@, args@), now),
                    )
                    &&& final(fence)@ == prepared(old(fence)@, request_of(tool@, args@), now)
                },
                None => {
                    &&& !room(old(fence)@, request_of(tool@, args@), now)
                    &&& final(fence)@ == old(fence)@
                },
            },
        seq_of(old(fence)@.domains, domain_of(tool@)) < u64::MAX ==> step is Some,
{
    let now: u128 = fence.now();
    let step: Option<Step> = begin_at(fence, tool, args, now);
    assert(step is Some ==> step->Some_0@ == step_for(
        prepare_outcome(old(fence)@, request_of(tool@, args@), now),
    ));
    step
}

/// [`begin`] at a given time.
pub fn begin_at(fence: &mut EffectFence, tool: &str, args: Json, now: u128) -> (step: Option<Step>)
    ensures
        match step {
            Some(s) => {
                &&& room(old(fence)@, request_of(tool@, args@), now)
                &&& s@ == step_for(prepare_outcome(old(fence)@, request_of(tool@, args@), now))
                &&& final(fence)@ == prepared(old(fence)@, request_of(tool@, args@), now)
            },
            None => {
                &&& !room(old(fence)@, request_of(tool@, args@), now)
                &&& final(fence)@ == old(fence)@
            },
        },
        seq_of(old(fence)@.domains, domain_of(tool@)) < u64::MAX ==> step is Some,
{
    let req: EffectRequest = wrap_request(tool, args);
    assert(counter(req.known_clock@, req.agent@) == 0);
    if fence.has_room(&req, now) {
        Some(step_of(prepare_effect_fence_at(fence, req, now)))
    } else {
        None
    }
}

/// What to do with a call whose attempt was answered `answer`.
pub fn step_of(answer: Result<Admission, FenceError>) -> (step: Step)
    ensures
        step@ == step_for(outcome_of(answer)),
{
    match answer {
        Ok(Admission::Fresh(ticket)) => Step::Forward(ticket),
        Ok(Admission::Replay(cert)) => Step::Replay(cert.result.clone()),
        Err(error) => {
            let mut out: String = String::new();
            out.append("effectfence: duplicate call refused (");
            out.append(error.message().as_str());
            out.append(
                "). If this was intentional as a NEW action, vary the arguments; if you are waiting on the first attempt, retry shortly to receive its recorded result.",
            );
            assert(out@ =~= refusal_text(error@));
            Step::Refuse(out)
        },
    }
}

/// Records what came of a call that was forwarded, and says what to serve.
pub fn finish(fence: &mut EffectFence, ticket: PreparedEffect, outcome: Forwarded) -> (served: Served)
    ensures
        serves(old(fence)@, ticket@, outcome, served),
        exists|now: u128|
            final(fence)@ == #[trigger] finished(old(fence)@, ticket@, outcome, now),
        served is Error <==> outcome is Broken || outcome is Unrecordable,
        outcome is Done && ticket.read_set@.len() == 0 ==> served == Served::Answer(None),
        outcome is ToolError ==> served == Served::Answer(None),
{
    let now: u128 = fence.now();
    finish_at(fence, ticket, outcome, now)
}

/// [`finish`] at a given time.
pub fn finish_at(
    fence: &mut EffectFence,
    ticket: PreparedEffect,
    outcome: Forwarded,
    now: u128,
) -> (served: Served)
    ensures
        serves(old(fence)@, ticket@, outcome, served),
        final(fence)@ == finished(old(fence)@, ticket@, outcome, now),
        served is Error <==> outcome is Broken || outcome is Unrecordable,
        outcome is Done && ticket.read_set@.len() == 0 ==> served == Served::Answer(None),
        outcome is ToolError ==> served == Served::Answer(None),
{
    match outcome {
        Forwarded::Broken(reason) => {
            abort_effect_at(fence, ticket, reason.as_str(), now);
            Served::Error
        },
        Forwarded::Unrecordable => Served::Error,
        Forwarded::ToolError => {
            let _ = fence.clear_intent(ticket.intent.as_str());
            Served::Answer(None)
        },
        Forwarded::Done(result) => match commit_effect_cert_at(fence, ticket, result, now) {
            Ok(_) => Served::Answer(None),
            Err(error) => {
                let mut out: String = String::new();
                out.append("wrap: commit failed: ");
                out.append(error.message().as_str());
                assert(out@ =~= "wrap: commit failed: "@ + error_text(error@));
                Served::Answer(Some(out))
            },
        },
    }
}

/// What an answer of the server comes to, given its JSON form, if it has one, and
/// what it says of the tool.
pub open spec fn answer_outcome(stored: Option<Json>, is_error: Option<bool>) -> Forwarded {
    match stored {
        None => Forwarded::Unrecordable,
        Some(result) => if is_error == Some(true) {
            Forwarded::ToolError
        } else {
            Forwarded::Done(result)
        },
    }
}

/// What an answer of the server comes to: `stored` is its JSON form, if it has
/// one, and `is_error` what it says of the tool.
pub fn answered(stored: Option<Json>, is_error: Option<bool>) -> (outcome: Forwarded)
    ensures
        match stored {
            None => outcome is Unrecordable,
            Some(result) => if is_error == Some(true) {
                outcome is ToolError
            } else {
                outcome == Forwarded::Done(result)
            },
        },
        outcome == answer_outcome(stored, is_error),
{
    match stored {
        None => Forwarded::Unrecordable,
        Some(result) => match is_error {
            Some(true) => Forwarded::ToolError,
            _ => Forwarded::Done(result),
        },
    }
}

/// The text of the error that a call ends in when the server breaks off.
pub fn child_error(reason: &str) -> (text: String)
    ensures
        text@ == "child server error: "@ + reason@,
{
    let mut out: String = String::new();
    out.append("child server error: ");
    out.append(reason);
    assert(out@ =~= "child server error: "@ + reason@);
    out
}

/// The text of the error for a recorded result that cannot be read back.
pub fn replay_error(reason: &str) -> (text: String)
    ensures
        text@ == "stored result no longer deserializes: "@ + reason@,
{
    let mut out: String = String::new();
    out.append("stored result no longer deserializes: ");
    out.append(reason);
    assert(out@ =~= "stored result no longer deserializes: "@ + reason@);
    out
}

/// The name under which the wrapped server presents itself.
pub fn server_name(child: &str) -> (name: String)
    ensures
        name@ == "effectfence-wrap("@ + child@ + ")"@,
{
    let mut out: String = String::new();
    out.append("effectfence-wrap(");
    out.append(child);
    out.append(")");
    assert(out@ =~= "effectfence-wrap("@ + child@ + ")"@);
    out
}

/// What agents are told of the wrapped server.
pub fn server_instructions(child: &str) -> (text: String)
    ensures
        text@ == "Every tool of the wrapped server `"@ + child@
            + "` is fenced: an identical duplicate call (same tool, same arguments) will NOT re-execute -- it returns the recorded result of the first execution. A concurrent identical call is refused with an in-flight notice; retry shortly to receive the recorded result."@,
{
    let mut out: String = String::new();
    out.append("Every tool of the wrapped server `");
    out.append(child);
    out.append(
        "` is fenced: an identical duplicate call (same tool, same arguments) will NOT re-execute -- it returns the recorded result of the first execution. A concurrent identical call is refused with an in-flight notice; retry shortly to receive the recorded result.",
    );
    assert(out@ =~= "Every tool of the wrapped server `"@ + child@
        + "` is fenced: an identical duplicate call (same tool, same arguments) will NOT re-execute -- it returns the recorded result of the first execution. A concurrent identical call is refused with an in-flight notice; retry shortly to receive the recorded result."@);
    out
}

/// The line that is logged when the wrapped server starts.
pub fn startup_line(tools: usize, program: &str) -> (line: String)
    ensures
        line@ == "[effectfence-wrap] fencing "@ + decimal(tools as nat) + " tool(s) from `"@
            + program@ + "`"@,
{
    let mut out: String = String::new();
    out.append("[effectfence-wrap] fencing ");
    append_decimal(&mut out, tools as u128);
    out.append(" tool(s) from `");
    out.append(program);
    out.append("`");
    assert(out@ =~= "[effectfence-wrap] fencing "@ + decimal(tools as nat) + " tool(s) from `"@
        + program@ + "`"@);
    out
}

/// What is said when no command was given to wrap.
pub fn usage() -> (text: &'static str)
    ensures
        text@
            == "wrap: no child command given. Usage: effectfence wrap -- <command> [args...]"@,
{
    "wrap: no child command given. Usage: effectfence wrap -- <command> [args...]"
}

/// The program and the arguments of a command, if it is not empty.
pub open spec fn split_of(command: Seq<Seq<char>>) -> Option<(Seq<char>, Seq<Seq<char>>)> {
    if command.len() == 0 {
        None
    } else {
        Some((command[0], command.skip(1)))
    }
}

/// The program and the arguments of a command, if it is not empty.
pub fn split_command(command: &Vec<String>) -> (split: Option<(String, Vec<String>)>)
    ensures
        match split {
            Some((program, rest)) => {
                &&& command@.len() > 0
                &&& program@ == command@[0]@
                &&& texts(rest@) == texts(command@).skip(1)
            },
            None => command@.len() == 0,
        },
        split_of(texts(command@)) == match split {
            Some((program, rest)) => Some((program@, texts(rest@))),
            None => None,
        },
{
    if command.len() == 0 {
        None
    } else {
        Some((command[0].clone(), texts_from(command, 1)))
    }
}

} // verus!
