//! The tools through which agents reach the fence: what each call replies.

use vstd::prelude::*;
use vstd::string::*;
use crate::cert::{cert_preimage, option_json, option_tree, reads_json, reads_tree, CertModel,
    EffectCert, EffectRequest, PreparedEffect, TicketModel};
use crate::clock::clock_tree;
use crate::fence::{abort_effect, commit_effect_cert, commit_view, outcome_of, prepare_effect_fence,
    try_prepare_effect_fence, Admission, EffectFence, FenceError, FenceStats};
use crate::json::{canon, json_text, lemma_member_trees, member_trees, Json, Tree};
use crate::model::{aborted, commit_outcome, committed, error_text, prepare_outcome, prepared, room,
    stats_line, stats_prevented, stats_total, ErrorModel, Outcome};
use crate::text::{decimal, decimal_text};

verus! {

/// The version of the program.
pub fn version() -> (v: &'static str)
    ensures
        v@ == "0.1.7"@,
{
    "0.1.7"
}

/// What a tool call replies: a text, and whether it reports an error.
#[derive(Debug, PartialEq, Eq)]
pub struct ToolReply {
    pub is_error: bool,
    pub text: String,
}

/// What a reply stands for.
#[verifier::ext_equal]
pub struct ReplyModel {
    pub is_error: bool,
    pub text: Seq<char>,
}

impl View for ToolReply {
    type V = ReplyModel;

    open spec fn view(&self) -> ReplyModel {
        ReplyModel { is_error: self.is_error, text: self.text@ }
    }
}

/// The reply with a JSON value, the members of its objects in order.
pub open spec fn json_reply(t: Tree) -> ReplyModel {
    ReplyModel { is_error: false, text: json_text(canon(t)) }
}

/// The reply that reports a rejection.
pub open spec fn error_reply(error: ErrorModel) -> ReplyModel {
    ReplyModel { is_error: true, text: error_text(error) }
}

/// A ticket as a JSON object.
pub open spec fn ticket_tree(ticket: TicketModel) -> Tree {
    Tree::Object(
        seq![
            ("intent"@, Tree::String(ticket.intent)),
            ("parent"@, option_tree(ticket.parent)),
            ("domain"@, Tree::String(ticket.domain)),
            ("seq"@, Tree::Number(decimal(ticket.seq as nat))),
            ("tool"@, Tree::String(ticket.tool)),
            ("args"@, ticket.args),
            ("vector_clock"@, clock_tree(ticket.vector_clock)),
            ("read_set"@, reads_tree(ticket.read_set)),
            ("agent"@, Tree::String(ticket.agent)),
        ],
    )
}

/// A certificate as a JSON object: the fields as they are hashed, and the hash.
pub open spec fn cert_tree(cert: CertModel) -> Tree {
    Tree::Object(
        cert_preimage(cert.ticket, cert.result)->Object_0.push(
            ("hash"@, Tree::String(cert.hash)),
        ),
    )
}

/// The reply to an attempt that was answered `outcome`.
pub open spec fn prepare_reply(outcome: Outcome) -> ReplyModel {
    match outcome {
        Outcome::Fresh(ticket) => json_reply(
            Tree::Object(
                seq![("status"@, Tree::String("fresh"@)), ("prepared"@, ticket_tree(ticket))],
            ),
        ),
        Outcome::Replay(cert) => json_reply(
            Tree::Object(
                seq![("status"@, Tree::String("already_done"@)), ("cert"@, cert_tree(cert))],
            ),
        ),
        Outcome::Refused(error) => error_reply(error),
    }
}

/// The reply to a commit.
pub open spec fn commit_reply(outcome: Result<CertModel, ErrorModel>) -> ReplyModel {
    match outcome {
        Ok(cert) => json_reply(
            Tree::Object(
                seq![("status"@, Tree::String("committed"@)), ("cert"@, cert_tree(cert))],
            ),
        ),
        Err(error) => error_reply(error),
    }
}

/// The reply to a failure report.
pub open spec fn abort_reply(intent: Seq<char>) -> ReplyModel {
    json_reply(
        Tree::Object(
            seq![("status"@, Tree::String("aborted"@)), ("intent"@, Tree::String(intent))],
        ),
    )
}

/// The statistics as a JSON object.
pub open spec fn stats_tree(stats: FenceStats) -> Tree {
    Tree::Object(
        seq![
            ("admitted"@, Tree::Number(decimal(stats.admitted as nat))),
            ("replayed"@, Tree::Number(decimal(stats.replayed as nat))),
            (
                "refused"@,
                Tree::Object(
                    seq![
                        ("stale_read_set"@, Tree::Number(decimal(stats.refused_stale as nat))),
                        ("domain_race"@, Tree::Number(decimal(stats.refused_race as nat))),
                        ("in_flight"@, Tree::Number(decimal(stats.refused_inflight as nat))),
                        ("prior_failure"@, Tree::Number(decimal(stats.refused_failed as nat))),
                    ],
                ),
            ),
            ("total_attempts"@, Tree::Number(decimal(stats_total(stats) as nat))),
            ("prevented"@, Tree::Number(decimal(stats_prevented(stats) as nat))),
            ("log_line"@, Tree::String(stats_line(stats))),
        ],
    )
}

/// A ticket as a JSON object.
pub fn ticket_json(ticket: &PreparedEffect) -> (json: Json)
    ensures
        json@ == ticket_tree(ticket@),
{
    let mut members: Vec<(String, Json)> = Vec::new();
    members.push(("intent".to_owned(), Json::String(ticket.intent.clone())));
    members.push(("parent".to_owned(), option_json(&ticket.parent)));
    members.push(("domain".to_owned(), Json::String(ticket.domain.clone())));
    members.push(("seq".to_owned(), Json::Number(decimal_text(ticket.seq as u128))));
    members.push(("tool".to_owned(), Json::String(ticket.tool.clone())));
    members.push(("args".to_owned(), ticket.args.clone()));
    members.push(("vector_clock".to_owned(), ticket.vector_clock.to_json()));
    members.push(("read_set".to_owned(), reads_json(&ticket.read_set)));
    members.push(("agent".to_owned(), Json::String(ticket.agent.clone())));
    proof {
        lemma_member_trees(members@);
        assert(member_trees(members@) =~= ticket_tree(ticket@)->Object_0);
    }
    Json::Object(members)
}

/// A certificate as a JSON object.
pub fn cert_json(cert: &EffectCert) -> (json: Json)
    ensures
        json@ == cert_tree(cert@),
{
    let mut members: Vec<(String, Json)> = Vec::new();
    members.push(("intent".to_owned(), Json::String(cert.intent.clone())));
    members.push(("parent".to_owned(), option_json(&cert.parent)));
    members.push(("domain".to_owned(), Json::String(cert.domain.clone())));
    members.push(("seq".to_owned(), Json::Number(decimal_text(cert.seq as u128))));
    members.push(("tool".to_owned(), Json::String(cert.tool.clone())));
    members.push(("args".to_owned(), cert.args.canonicalize()));
    members.push(("result".to_owned(), cert.result.canonicalize()));
    members.push(("vector_clock".to_owned(), cert.vector_clock.to_json()));
    members.push(("read_set".to_owned(), reads_json(&cert.read_set)));
    members.push(("agent".to_owned(), Json::String(cert.agent.clone())));
    members.push(("hash".to_owned(), Json::String(cert.hash.clone())));
    proof {
        lemma_member_trees(members@);
        assert(member_trees(members@) =~= cert_tree(cert@)->Object_0);
    }
    Json::Object(members)
}

/// The statistics as a JSON object.
pub fn stats_json(stats: &FenceStats) -> (json: Json)
    ensures
        json@ == stats_tree(*stats),
{
    let mut refused: Vec<(String, Json)> = Vec::new();
    refused.push(
        ("stale_read_set".to_owned(), Json::Number(decimal_text(stats.refused_stale as u128))),
    );
    refused.push(
        ("domain_race".to_owned(), Json::Number(decimal_text(stats.refused_race as u128))),
    );
    refused.push(
        ("in_flight".to_owned(), Json::Number(decimal_text(stats.refused_inflight as u128))),
    );
    refused.push(
        ("prior_failure".to_owned(), Json::Number(decimal_text(stats.refused_failed as u128))),
    );
    proof {
        lemma_member_trees(refused@);
        assert(member_trees(refused@) =~= stats_tree(*stats)->Object_0[2].1->Object_0);
    }
    let mut members: Vec<(String, Json)> = Vec::new();
    members.push(("admitted".to_owned(), Json::Number(decimal_text(stats.admitted as u128))));
    members.push(("replayed".to_owned(), Json::Number(decimal_text(stats.replayed as u128))));
    members.push(("refused".to_owned(), Json::Object(refused)));
    members.push(("total_attempts".to_owned(), Json::Number(decimal_text(stats.total()))));
    members.push(("prevented".to_owned(), Json::Number(decimal_text(stats.prevented()))));
    members.push(("log_line".to_owned(), Json::String(stats.log_line())));
    proof {
        lemma_member_trees(members@);
        assert(member_trees(members@) =~= stats_tree(*stats)->Object_0);
    }
    Json::Object(members)
}

/// The reply with a status and one more member.
fn status_reply(status: &str, key: &str, value: Json) -> (reply: ToolReply)
    ensures
        reply@ == json_reply(
            Tree::Object(seq![("status"@, Tree::String(status@)), (key@, value@)]),
        ),
{
    let mut members: Vec<(String, Json)> = Vec::new();
    members.push(("status".to_owned(), Json::String(status.to_owned())));
    members.push((key.to_owned(), value));
    proof {
        lemma_member_trees(members@);
        assert(member_trees(members@) =~= seq![
            ("status"@, Tree::String(status@)),
            (key@, value@),
        ]);
    }
    ToolReply { is_error: false, text: Json::Object(members).canonicalize().to_text() }
}

fn refusal(error: &FenceError) -> (reply: ToolReply)
    ensures
        reply@ == error_reply(error@),
{
    ToolReply { is_error: true, text: error.message() }
}

/// The reply to an attempt that was answered `answer`.
pub fn reply_to_prepare(answer: &Result<Admission, FenceError>) -> (reply: ToolReply)
    ensures
        reply@ == prepare_reply(outcome_of(*answer)),
{
    match answer {
        Ok(Admission::Fresh(ticket)) => status_reply("fresh", "prepared", ticket_json(ticket)),
        Ok(Admission::Replay(cert)) => status_reply("already_done", "cert", cert_json(cert)),
        Err(error) => refusal(error),
    }
}

/// The reply to a commit that was answered `answer`.
pub fn reply_to_commit(answer: &Result<EffectCert, FenceError>) -> (reply: ToolReply)
    ensures
        reply@ == commit_reply(commit_view(*answer)),
{
    match answer {
        Ok(cert) => status_reply("committed", "cert", cert_json(cert)),
        Err(error) => refusal(error),
    }
}

/// Asks permission to run a side-effecting tool call.
pub fn fence_prepare(fence: &mut EffectFence, req: EffectRequest) -> (reply: ToolReply)
    requires
        forall|now: u128| #[trigger] room(old(fence)@, req@, now),
    ensures
        exists|now: u128|
            reply@ == prepare_reply(#[trigger] prepare_outcome(old(fence)@, req@, now))
                && final(fence)@ == prepared(old(fence)@, req@, now),
{
    let answer: Result<Admission, FenceError> = prepare_effect_fence(fence, req);
    reply_to_prepare(&answer)
}

/// [`fence_prepare`] for any request: there is no reply, and the fence is left as
/// it was, where the attempt would be admitted but finds no room.
pub fn try_fence_prepare(fence: &mut EffectFence, req: EffectRequest) -> (reply: Option<ToolReply>)
    ensures
        exists|now: u128|
            match reply {
                Some(r) => {
                    &&& room(old(fence)@, req@, now)
                    &&& r@ == prepare_reply(#[trigger] prepare_outcome(old(fence)@, req@, now))
                    &&& final(fence)@ == prepared(old(fence)@, req@, now)
                },
                None => !room(old(fence)@, req@, now) && final(fence)@ == old(fence)@,
            },
{
    match try_prepare_effect_fence(fence, req) {
        Some(answer) => Some(reply_to_prepare(&answer)),
        None => None,
    }
}

/// Reports that a prepared effect finished, and mints its certificate.
pub fn fence_commit(fence: &mut EffectFence, ticket: PreparedEffect, result: Json) -> (reply:
    ToolReply)
    ensures
        reply@ == commit_reply(commit_outcome(old(fence)@, ticket@, result@)),
        exists|now: u128|
            final(fence)@ == #[trigger] committed(old(fence)@, ticket@, result@, now),
{
    let answer: Result<EffectCert, FenceError> = commit_effect_cert(fence, ticket, result);
    reply_to_commit(&answer)
}

/// Reports that a prepared effect failed or that its outcome is unknown.
pub fn fence_abort(fence: &mut EffectFence, ticket: PreparedEffect, reason: &str) -> (reply:
    ToolReply)
    ensures
        reply@ == abort_reply(ticket@.intent),
        exists|now: u128|
            final(fence)@ == #[trigger] aborted(old(fence)@, ticket@, reason@, now),
{
    let intent: String = ticket.intent.clone();
    abort_effect(fence, ticket, reason);
    status_reply("aborted", "intent", Json::String(intent))
}

/// The counters since the fence was made.
pub fn fence_stats(fence: &EffectFence) -> (reply: ToolReply)
    ensures
        reply@ == json_reply(stats_tree(fence@.stats)),
{
    let text: String = stats_json(&fence.stats()).canonicalize().to_text();
    ToolReply { is_error: false, text }
}

/// The reply to an attempt reports an error exactly if the attempt must not run
/// the effect and has no recorded result either.
pub proof fn errors_mean_do_not_run(outcome: Outcome)
    ensures
        prepare_reply(outcome).is_error <==> outcome is Refused,
{
}

} // verus!
