//! What the values that callers handle stand for: each part in its place.

use vstd::prelude::*;
use crate::cert::{option_view, reads_view, EffectCert, EffectRequest, PreparedEffect, ReadSetEntry};
use crate::cli::{Command, CommandModel};
use crate::clock::pairs_view;
use crate::fence::{claim_view, commit_view, outcome_of, Admission, Claim, FenceError};
use crate::model::{ErrorModel, Outcome};
use crate::probe::{parse_view, reading_view, settings_view, ProbeArgs, ProbeError, ProbeErrorModel,
    ProbeSettings};
use crate::server::ToolReply;
use crate::text::texts;
use crate::wrap::{Step, StepModel};

verus! {

/// A read set is seen entry for entry, an optional string as what it holds.
pub proof fn entries_are_seen_whole(entry: ReadSetEntry, reads: Seq<ReadSetEntry>, i: int)
    ensures
        entry@.domain == entry.domain@,
        entry@.seq == entry.seq,
        reads_view(reads).len() == reads.len(),
        0 <= i < reads.len() ==> reads_view(reads)[i].domain == reads[i].domain@
            && reads_view(reads)[i].seq == reads[i].seq,
{
}

/// An optional string is seen as the string that it holds, if it holds one.
pub proof fn options_are_seen_whole(text: Option<String>)
    ensures
        text is Some ==> option_view(text) == Some(text->Some_0@),
        text is None ==> option_view(text) is None,
{
}

/// A request is seen field by field.
pub proof fn requests_are_seen_whole(req: EffectRequest)
    ensures
        req@.intent == req.intent@,
        req@.parent == option_view(req.parent),
        req@.domain == req.domain@,
        req@.tool == req.tool@,
        req@.args == req.args@,
        req@.read_set == reads_view(req.read_set@),
        req@.agent == req.agent@,
        req@.known_clock == req.known_clock@,
{
}

/// A ticket is seen field by field.
pub proof fn tickets_are_seen_whole(ticket: PreparedEffect)
    ensures
        ticket@.intent == ticket.intent@,
        ticket@.parent == option_view(ticket.parent),
        ticket@.domain == ticket.domain@,
        ticket@.seq == ticket.seq,
        ticket@.tool == ticket.tool@,
        ticket@.args == ticket.args@,
        ticket@.vector_clock == ticket.vector_clock@,
        ticket@.read_set == reads_view(ticket.read_set@),
        ticket@.agent == ticket.agent@,
{
}

/// A certificate is seen field by field.
pub proof fn certificates_are_seen_whole(cert: EffectCert)
    ensures
        cert@.ticket.intent == cert.intent@,
        cert@.ticket.parent == option_view(cert.parent),
        cert@.ticket.domain == cert.domain@,
        cert@.ticket.seq == cert.seq,
        cert@.ticket.tool == cert.tool@,
        cert@.ticket.args == cert.args@,
        cert@.ticket.vector_clock == cert.vector_clock@,
        cert@.ticket.read_set == reads_view(cert.read_set@),
        cert@.ticket.agent == cert.agent@,
        cert@.result == cert.result@,
        cert@.hash == cert.hash@,
{
}

/// A rejection is seen as what it is, with its parts.
pub proof fn rejections_are_seen_whole(error: FenceError)
    ensures
        match error {
            FenceError::ReadSetStale { domain, expected, actual } => {
                &&& error@ is ReadSetStale
                &&& error@->ReadSetStale_domain == domain@
                &&& error@->ReadSetStale_expected == expected
                &&& error@->ReadSetStale_actual == actual
            },
            FenceError::DomainRace { domain, expected, actual } => {
                &&& error@ is DomainRace
                &&& error@->DomainRace_domain == domain@
                &&& error@->DomainRace_expected == expected
                &&& error@->DomainRace_actual == actual
            },
            FenceError::IntentInFlight { intent } => error@ == (ErrorModel::IntentInFlight {
                intent: intent@,
            }),
            FenceError::IntentFailed { intent, reason } => {
                &&& error@ is IntentFailed
                &&& error@->IntentFailed_intent == intent@
                &&& error@->reason == reason@
            },
        },
{
}

/// The answer to an attempt is seen as what it is: a ticket, a certificate or a
/// rejection.
pub proof fn answers_are_seen_whole(answer: Result<Admission, FenceError>)
    ensures
        match answer {
            Ok(Admission::Fresh(ticket)) => outcome_of(answer) == Outcome::Fresh(ticket@),
            Ok(Admission::Replay(cert)) => outcome_of(answer) == Outcome::Replay(cert@),
            Err(error) => outcome_of(answer) == Outcome::Refused(error@),
        },
{
}

/// What the first gates say is seen as an answer exactly if it is one.
pub proof fn claims_are_seen_whole(claim: Claim)
    ensures
        match claim {
            Claim::Answered(answer) => claim_view(claim) == Some(outcome_of(answer)),
            Claim::Leased(_) => claim_view(claim) is None,
        },
{
}

/// The answer to a commit is seen as what it is.
pub proof fn commits_are_seen_whole(answer: Result<EffectCert, FenceError>)
    ensures
        answer is Ok ==> commit_view(answer) is Ok && commit_view(answer)->Ok_0 == answer->Ok_0@,
        answer is Err ==> commit_view(answer) is Err && commit_view(answer)->Err_0 == answer->Err_0@,
{
}

/// A step is seen as what it is, a reply with its text and whether it is an error.
pub proof fn steps_and_replies_are_seen_whole(step: Step, reply: ToolReply)
    ensures
        match step {
            Step::Forward(ticket) => step@ == StepModel::Forward(ticket@),
            Step::Replay(result) => step@ == StepModel::Replay(result@),
            Step::Refuse(text) => step@ == StepModel::Refuse(text@),
        },
        reply@.is_error == reply.is_error,
        reply@.text == reply.text@,
{
}

/// A command is seen as what it is, with its words.
pub proof fn commands_are_seen_whole(command: Command)
    ensures
        match command {
            Command::Wrap(child) => command@ == CommandModel::Wrap(texts(child@)),
            Command::Probe(args) => command@ == CommandModel::Probe(texts(args@)),
            Command::Demo => command@ is Demo,
            Command::DemoServer => command@ is DemoServer,
            Command::Serve => command@ is Serve,
        },
{
}

/// A probe and its settings are seen field by field.
pub proof fn probes_are_seen_whole(p: ProbeArgs, s: ProbeSettings)
    ensures
        p@.tool == p.tool@,
        p@.args == p.args@,
        p@.calls == p.calls,
        p@.child == texts(p.child_cmd@),
        s@.tool == Some(s.tool@),
        s@.args == option_view(s.args_json),
        s@.calls == s.calls,
        s@.child == texts(s.child_cmd@),
{
}

/// What is wrong with a command line is seen as what it is, with its cause.
pub proof fn probe_errors_are_seen_whole(error: ProbeError)
    ensures
        match error {
            ProbeError::ToolNeedsValue => error@ is ToolNeedsValue,
            ProbeError::ArgsNeedsValue => error@ is ArgsNeedsValue,
            ProbeError::CallsNeedsValue => error@ is CallsNeedsValue,
            ProbeError::CallsNotANumber(cause) => error@ == ProbeErrorModel::CallsNotANumber(cause),
            ProbeError::Unexpected(arg) => error@ == ProbeErrorModel::Unexpected(arg@),
            ProbeError::ToolRequired => error@ is ToolRequired,
            ProbeError::ZeroCalls => error@ is ZeroCalls,
            ProbeError::NoCommand => error@ is NoCommand,
            ProbeError::ArgsNotJson(cause) => error@ == ProbeErrorModel::ArgsNotJson(cause@),
        },
{
}

/// The answers to parsing are seen as what they are.
pub proof fn parses_are_seen_whole(
    parsed: Result<ProbeArgs, ProbeError>,
    settings: Result<ProbeSettings, ProbeError>,
    reading: Option<Result<crate::json::Json, String>>,
)
    ensures
        parsed is Ok ==> parse_view(parsed) is Ok && parse_view(parsed)->Ok_0 == parsed->Ok_0@,
        parsed is Err ==> parse_view(parsed) is Err && parse_view(parsed)->Err_0 == parsed->Err_0@,
        settings is Ok ==> settings_view(settings) is Ok && settings_view(settings)->Ok_0
            == settings->Ok_0@,
        settings is Err ==> settings_view(settings) is Err && settings_view(settings)->Err_0
            == settings->Err_0@,
        match reading {
            None => reading_view(reading) is None,
            Some(Ok(json)) => reading_view(reading) is Some && reading_view(reading)->Some_0 is Ok
                && reading_view(reading)->Some_0->Ok_0 == json@,
            Some(Err(error)) => reading_view(reading) is Some && reading_view(reading)->Some_0 is Err
                && reading_view(reading)->Some_0->Err_0 == error@,
        },
{
}

/// Pairs of an agent and a counter are seen pair for pair.
pub proof fn counters_are_seen_whole(pairs: Seq<(String, u64)>, i: int)
    ensures
        pairs_view(pairs).len() == pairs.len(),
        0 <= i < pairs.len() ==> pairs_view(pairs)[i].0 == pairs[i].0@ && pairs_view(pairs)[i].1
            == pairs[i].1,
{
}

} // verus!
