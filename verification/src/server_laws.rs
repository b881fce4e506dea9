//! What agents can read from the replies of the tools.

use vstd::prelude::*;
use vstd::utf8::encode_utf8;
use crate::cert::{cert_hash, cert_preimage, cert_valid, option_tree, read_tree, reads_tree, CertModel,
    ReadModel, TicketModel};
use crate::cert_laws::{cert_wf, lemma_preimage_well_formed, lemma_reads_well_formed,
    same_effect_has_one_hash};
use crate::clock::clock_tree;
use crate::clock_laws::{lemma_clock_well_formed, lemma_decimal_number};
use crate::hex::hex;
use crate::json::{canon, canon_items, json_text, lemma_canon_items, member, Tree};
use crate::json_laws::{canonical_form_is_the_same_value, json_text_injective, lemma_canon_well_formed,
    lemma_last_members, lemma_members_well_formed, same_value, well_formed};
use crate::model::{error_text, stats_line, stats_prevented, stats_total, ErrorModel, FenceStats,
    Outcome};
use crate::server::{abort_reply, cert_tree, commit_reply, error_reply, json_reply, prepare_reply,
    stats_tree, ticket_tree, ReplyModel};
use crate::sha::sha256_of;
use crate::strmap::last_members;
use crate::text::decimal;
use crate::value_laws::{canonical_form_keeps_members, clocks_are_written_agent_by_agent,
    lemma_distinct_members, shows_clock};

verus! {

/// Whether a JSON value shows a read set: entry for entry, each with its domain and
/// its number.
pub open spec fn shows_reads(t: Tree, reads: Seq<ReadModel>) -> bool {
    &&& t is Array
    &&& t->Array_0.len() == reads.len()
    &&& forall|i: int|
        0 <= i < reads.len() ==> {
            &&& member(#[trigger] t->Array_0[i], "domain"@) == Some(Tree::String(reads[i].domain))
            &&& member(t->Array_0[i], "seq"@) == Some(Tree::Number(decimal(reads[i].seq as nat)))
        }
}

/// Whether an optional member shows a value, up to the order of members.
pub open spec fn shows_value(found: Option<Tree>, value: Tree) -> bool {
    found is Some && same_value(value, found->Some_0)
}

/// Whether a JSON object shows the fields of a ticket, each under its name.
pub open spec fn shows_ticket(t: Tree, ticket: TicketModel) -> bool {
    &&& member(t, "intent"@) == Some(Tree::String(ticket.intent))
    &&& member(t, "parent"@) == Some(
        match ticket.parent {
            Some(hash) => Tree::String(hash),
            None => Tree::Null,
        },
    )
    &&& member(t, "domain"@) == Some(Tree::String(ticket.domain))
    &&& member(t, "seq"@) == Some(Tree::Number(decimal(ticket.seq as nat)))
    &&& member(t, "tool"@) == Some(Tree::String(ticket.tool))
    &&& shows_value(member(t, "args"@), ticket.args)
    &&& member(t, "vector_clock"@) is Some
    &&& shows_clock(member(t, "vector_clock"@)->Some_0, ticket.vector_clock)
    &&& member(t, "read_set"@) is Some
    &&& shows_reads(member(t, "read_set"@)->Some_0, ticket.read_set)
    &&& member(t, "agent"@) == Some(Tree::String(ticket.agent))
}

/// Whether a JSON object shows a certificate: the fields of its ticket, the result
/// and the hash.
pub open spec fn shows_cert(t: Tree, cert: CertModel) -> bool {
    &&& shows_ticket(t, cert.ticket)
    &&& shows_value(member(t, "result"@), cert.result)
    &&& member(t, "hash"@) == Some(Tree::String(cert.hash))
}

/// The names of a certificate's fields.
pub open spec fn names() -> Seq<Seq<char>> {
    seq![
        "intent"@,
        "parent"@,
        "domain"@,
        "seq"@,
        "tool"@,
        "args"@,
        "result"@,
        "vector_clock"@,
        "read_set"@,
        "agent"@,
        "hash"@,
    ]
}

/// Whether an object has no members but those with the given names.
pub open spec fn has_only(t: Tree, keys: Seq<Seq<char>>) -> bool {
    forall|key: Seq<char>| (#[trigger] member(t, key)) is Some ==> keys.contains(key)
}

proof fn lemma_has_only(members: Seq<(Seq<char>, Tree)>, keys: Seq<Seq<char>>)
    requires
        forall|i: int| 0 <= i < members.len() ==> keys.contains((#[trigger] members[i]).0),
    ensures
        has_only(canon(Tree::Object(members)), keys),
{
    let t = Tree::Object(members);
    assert forall|key: Seq<char>| (#[trigger] member(canon(t), key)) is Some implies keys.contains(
        key,
    ) by {
        canonical_form_keeps_members(t, key);
        lemma_last_members(members);
        assert(last_members(members).contains_key(key));
        let i = choose|i: int| 0 <= i < members.len() && (#[trigger] members[i]).0 == key;
        assert(keys.contains(members[i].0));
    }
}

proof fn lemma_names()
    ensures
        names().len() == 11,
        forall|i: int, j: int|
            0 <= i < j < names().len() ==> #[trigger] names()[i] != #[trigger] names()[j],
{
    reveal_strlit("intent");
    reveal_strlit("parent");
    reveal_strlit("domain");
    reveal_strlit("seq");
    reveal_strlit("tool");
    reveal_strlit("args");
    reveal_strlit("result");
    reveal_strlit("vector_clock");
    reveal_strlit("read_set");
    reveal_strlit("agent");
    reveal_strlit("hash");
    let n = names();
    assert(n[0].len() == 6 && n[0][0] == 'i');
    assert(n[1].len() == 6 && n[1][0] == 'p');
    assert(n[2].len() == 6 && n[2][0] == 'd');
    assert(n[3].len() == 3);
    assert(n[4].len() == 4 && n[4][0] == 't');
    assert(n[5].len() == 4 && n[5][0] == 'a');
    assert(n[6].len() == 6 && n[6][0] == 'r');
    assert(n[7].len() == 12);
    assert(n[8].len() == 8);
    assert(n[9].len() == 5);
    assert(n[10].len() == 4 && n[10][0] == 'h');
}

proof fn lemma_read_shown(read: ReadModel)
    ensures
        member(canon(read_tree(read)), "domain"@) == Some(Tree::String(read.domain)),
        member(canon(read_tree(read)), "seq"@) == Some(Tree::Number(decimal(read.seq as nat))),
{
    reveal_strlit("domain");
    reveal_strlit("seq");
    let members = read_tree(read)->Object_0;
    assert(members[0].0.len() == 6 && members[1].0.len() == 3);
    lemma_distinct_members(members);
    assert(members[0].0 == "domain"@ && members[1].0 == "seq"@);
    canonical_form_keeps_members(read_tree(read), "domain"@);
    canonical_form_keeps_members(read_tree(read), "seq"@);
}

proof fn lemma_reads_shown(reads: Seq<ReadModel>)
    ensures
        shows_reads(canon(reads_tree(reads)), reads),
{
    let items = reads_tree(reads)->Array_0;
    lemma_canon_items(items);
    assert(canon(reads_tree(reads)) == Tree::Array(canon_items(items)));
    assert forall|i: int| 0 <= i < reads.len() implies {
        &&& member(#[trigger] canon_items(items)[i], "domain"@) == Some(
            Tree::String(reads[i].domain),
        )
        &&& member(canon_items(items)[i], "seq"@) == Some(
            Tree::Number(decimal(reads[i].seq as nat)),
        )
    } by {
        assert(items[i] == read_tree(reads[i]));
        lemma_read_shown(reads[i]);
    }
}

proof fn lemma_cert_shown(cert: CertModel)
    requires
        cert.ticket.vector_clock.dom().finite(),
    ensures
        shows_cert(canon(cert_tree(cert)), cert),
        has_only(canon(cert_tree(cert)), names()),
{
    let t = cert_tree(cert);
    let members = t->Object_0;
    let ticket = cert.ticket;
    lemma_names();
    assert(members.len() == 11);
    assert(members[0].0 == names()[0] && members[1].0 == names()[1] && members[2].0 == names()[2]);
    assert(members[3].0 == names()[3] && members[4].0 == names()[4] && members[5].0 == names()[5]);
    assert(members[6].0 == names()[6] && members[7].0 == names()[7] && members[8].0 == names()[8]);
    assert(members[9].0 == names()[9] && members[10].0 == names()[10]);
    assert forall|i: int| 0 <= i < members.len() implies (#[trigger] members[i]).0 == names()[i] by {
    }
    lemma_distinct_members(members);
    lemma_has_only(members, names());
    assert(members[0].1 == Tree::String(ticket.intent));
    assert(members[1].1 == option_tree(ticket.parent));
    assert(members[2].1 == Tree::String(ticket.domain));
    assert(members[3].1 == Tree::Number(decimal(ticket.seq as nat)));
    assert(members[4].1 == Tree::String(ticket.tool));
    assert(members[5].1 == canon(ticket.args));
    assert(members[6].1 == canon(cert.result));
    assert(members[7].1 == clock_tree(ticket.vector_clock));
    assert(members[8].1 == reads_tree(ticket.read_set));
    assert(members[9].1 == Tree::String(ticket.agent));
    assert(members[10].1 == Tree::String(cert.hash));
    canonical_form_keeps_members(t, "intent"@);
    canonical_form_keeps_members(t, "parent"@);
    canonical_form_keeps_members(t, "domain"@);
    canonical_form_keeps_members(t, "seq"@);
    canonical_form_keeps_members(t, "tool"@);
    canonical_form_keeps_members(t, "args"@);
    canonical_form_keeps_members(t, "result"@);
    canonical_form_keeps_members(t, "vector_clock"@);
    canonical_form_keeps_members(t, "read_set"@);
    canonical_form_keeps_members(t, "agent"@);
    canonical_form_keeps_members(t, "hash"@);
    crate::json_laws::canonical_form_is_final(ticket.args);
    crate::json_laws::canonical_form_is_final(cert.result);
    canonical_form_is_the_same_value(ticket.args);
    canonical_form_is_the_same_value(cert.result);
    clocks_are_written_agent_by_agent(ticket.vector_clock, 0, 0);
    lemma_reads_shown(ticket.read_set);
}

proof fn lemma_ticket_shown(ticket: TicketModel)
    requires
        ticket.vector_clock.dom().finite(),
    ensures
        shows_ticket(canon(ticket_tree(ticket)), ticket),
        has_only(canon(ticket_tree(ticket)), names()),
{
    let t = ticket_tree(ticket);
    let members = t->Object_0;
    lemma_names();
    let n = names();
    assert(members.len() == 9);
    assert(members[0].0 == n[0] && members[1].0 == n[1] && members[2].0 == n[2]);
    assert(members[3].0 == n[3] && members[4].0 == n[4] && members[5].0 == n[5]);
    assert(members[6].0 == n[7] && members[7].0 == n[8] && members[8].0 == n[9]);
    assert forall|i: int| 0 <= i < members.len() implies (#[trigger] members[i]).0 == n[if i < 6 {
        i
    } else {
        i + 1
    }] by {
    }
    lemma_distinct_members(members);
    lemma_has_only(members, names());
    assert(members[0].1 == Tree::String(ticket.intent));
    assert(members[1].1 == option_tree(ticket.parent));
    assert(members[2].1 == Tree::String(ticket.domain));
    assert(members[3].1 == Tree::Number(decimal(ticket.seq as nat)));
    assert(members[4].1 == Tree::String(ticket.tool));
    assert(members[5].1 == ticket.args);
    assert(members[6].1 == clock_tree(ticket.vector_clock));
    assert(members[7].1 == reads_tree(ticket.read_set));
    assert(members[8].1 == Tree::String(ticket.agent));
    canonical_form_keeps_members(t, "intent"@);
    canonical_form_keeps_members(t, "parent"@);
    canonical_form_keeps_members(t, "domain"@);
    canonical_form_keeps_members(t, "seq"@);
    canonical_form_keeps_members(t, "tool"@);
    canonical_form_keeps_members(t, "args"@);
    canonical_form_keeps_members(t, "vector_clock"@);
    canonical_form_keeps_members(t, "read_set"@);
    canonical_form_keeps_members(t, "agent"@);
    canonical_form_is_the_same_value(ticket.args);
    clocks_are_written_agent_by_agent(ticket.vector_clock, 0, 0);
    lemma_reads_shown(ticket.read_set);
}

proof fn lemma_cert_tree_well_formed(cert: CertModel)
    requires
        cert_wf(cert.ticket, cert.result),
    ensures
        well_formed(cert_tree(cert)),
{
    let fields = cert_preimage(cert.ticket, cert.result)->Object_0;
    let members = cert_tree(cert)->Object_0;
    lemma_preimage_well_formed(cert.ticket, cert.result);
    lemma_members_well_formed(fields);
    assert forall|i: int| 0 <= i < members.len() implies well_formed((#[trigger] members[i]).1) by {
        if i < fields.len() {
            assert(members[i] == fields[i]);
        }
    }
    lemma_members_well_formed(members);
}

proof fn lemma_ticket_tree_well_formed(ticket: TicketModel)
    requires
        well_formed(ticket.args),
    ensures
        well_formed(ticket_tree(ticket)),
{
    let members = ticket_tree(ticket)->Object_0;
    lemma_decimal_number(ticket.seq as nat);
    lemma_reads_well_formed(ticket.read_set);
    lemma_clock_well_formed(ticket.vector_clock);
    assert(well_formed(members[0].1));
    assert(well_formed(members[1].1));
    assert(well_formed(members[2].1));
    assert(well_formed(members[3].1));
    assert(well_formed(members[4].1));
    assert(well_formed(members[5].1));
    assert(well_formed(members[6].1));
    assert(well_formed(members[7].1));
    assert(well_formed(members[8].1));
    assert forall|j: int| 0 <= j < members.len() implies well_formed((#[trigger] members[j]).1) by {
    }
    lemma_members_well_formed(members);
}

/// Of a reply with a status and one more member, whatever is read back from its text
/// has the two, and nothing else can be read from it.
proof fn lemma_status_read(status: Seq<char>, key: Seq<char>, value: Tree, read: Tree)
    requires
        key != "status"@,
        well_formed(value),
        well_formed(read),
        json_text(read) == json_text(
            canon(Tree::Object(seq![("status"@, Tree::String(status)), (key, value)])),
        ),
    ensures
        member(read, "status"@) == Some(Tree::String(status)),
        member(read, key) == Some(canon(value)),
        well_formed(canon(value)),
        has_only(read, seq!["status"@, key]),
{
    let t = Tree::Object(seq![("status"@, Tree::String(status)), (key, value)]);
    let members = t->Object_0;
    assert(well_formed(members[0].1) && well_formed(members[1].1));
    assert forall|j: int| 0 <= j < members.len() implies well_formed((#[trigger] members[j]).1) by {
    }
    lemma_members_well_formed(members);
    lemma_canon_well_formed(t);
    lemma_canon_well_formed(value);
    json_text_injective(read, canon(t));
    assert(members[0].0 == "status"@ && members[1].0 == key);
    lemma_distinct_members(members);
    let keys = seq!["status"@, key];
    assert(keys[0] == "status"@ && keys[1] == key);
    lemma_has_only(members, keys);
    canonical_form_keeps_members(t, "status"@);
    canonical_form_keeps_members(t, key);
}

proof fn lemma_reply_keys()
    ensures
        "cert"@ != "status"@,
        "prepared"@ != "status"@,
        "intent"@ != "status"@,
{
    reveal_strlit("status");
    reveal_strlit("cert");
    reveal_strlit("prepared");
    reveal_strlit("intent");
    assert("status"@.len() == 6 && "cert"@.len() == 4 && "prepared"@.len() == 8);
    assert("status"@[0] == 's' && "intent"@[0] == 'i');
}

/// Reading the reply to a commit back gives the certificate itself. Whatever value
/// has the text of the reply says that the effect is committed, and shows every
/// field of the certificate and its hash.
pub proof fn commit_replies_show_the_certificate(cert: CertModel, read: Tree)
    requires
        cert_wf(cert.ticket, cert.result),
        well_formed(read),
        json_text(read) == commit_reply(Ok(cert)).text,
    ensures
        !commit_reply(Ok(cert)).is_error,
        member(read, "status"@) == Some(Tree::String("committed"@)),
        member(read, "cert"@) is Some,
        shows_cert(member(read, "cert"@)->Some_0, cert),        has_only(read, seq!["status"@, "cert"@]),
        has_only(member(read, "cert"@)->Some_0, names()),
{
    lemma_reply_keys();
    lemma_cert_tree_well_formed(cert);
    lemma_status_read("committed"@, "cert"@, cert_tree(cert), read);
    lemma_cert_shown(cert);
}

/// Reading the reply to a duplicate of an action that already ran gives the
/// recorded certificate itself.
pub proof fn replay_replies_show_the_certificate(cert: CertModel, read: Tree)
    requires
        cert_wf(cert.ticket, cert.result),
        well_formed(read),
        json_text(read) == prepare_reply(Outcome::Replay(cert)).text,
    ensures
        !prepare_reply(Outcome::Replay(cert)).is_error,
        member(read, "status"@) == Some(Tree::String("already_done"@)),
        member(read, "cert"@) is Some,
        shows_cert(member(read, "cert"@)->Some_0, cert),        has_only(read, seq!["status"@, "cert"@]),
        has_only(member(read, "cert"@)->Some_0, names()),
{
    lemma_reply_keys();
    lemma_cert_tree_well_formed(cert);
    lemma_status_read("already_done"@, "cert"@, cert_tree(cert), read);
    lemma_cert_shown(cert);
}

/// Reading the reply to an admitted attempt gives the ticket itself.
pub proof fn fresh_replies_show_the_ticket(ticket: TicketModel, read: Tree)
    requires
        well_formed(ticket.args),
        ticket.vector_clock.dom().finite(),
        well_formed(read),
        json_text(read) == prepare_reply(Outcome::Fresh(ticket)).text,
    ensures
        !prepare_reply(Outcome::Fresh(ticket)).is_error,
        member(read, "status"@) == Some(Tree::String("fresh"@)),
        member(read, "prepared"@) is Some,
        shows_ticket(member(read, "prepared"@)->Some_0, ticket),
        has_only(read, seq!["status"@, "prepared"@]),
        has_only(member(read, "prepared"@)->Some_0, names()),
{
    lemma_reply_keys();
    lemma_ticket_tree_well_formed(ticket);
    lemma_status_read("fresh"@, "prepared"@, ticket_tree(ticket), read);
    lemma_ticket_shown(ticket);
}

/// Reading the reply to a report of failure gives the intent that is fenced.
pub proof fn abort_replies_show_the_intent(intent: Seq<char>, read: Tree)
    requires
        well_formed(read),
        json_text(read) == abort_reply(intent).text,
    ensures
        !abort_reply(intent).is_error,
        member(read, "status"@) == Some(Tree::String("aborted"@)),
        member(read, "intent"@) == Some(Tree::String(intent)),
        has_only(read, seq!["status"@, "intent"@]),
{
    lemma_reply_keys();
    lemma_status_read("aborted"@, "intent"@, Tree::String(intent), read);
}

/// Every reply that is no error is the text of some value, so that it can be read.
pub proof fn replies_can_be_read(t: Tree)
    requires
        well_formed(t),
    ensures
        !json_reply(t).is_error,
        exists|read: Tree| well_formed(read) && #[trigger] json_text(read) == json_reply(t).text,
{
    lemma_canon_well_formed(t);
    assert(json_text(canon(t)) == json_reply(t).text);
}

/// A rejection is replied as an error with its text.
pub proof fn rejections_are_replied_as_errors(error: ErrorModel)
    ensures
        prepare_reply(Outcome::Refused(error)) == (ReplyModel { is_error: true, text: error_text(error) }),
        commit_reply(Err(error)) == (ReplyModel { is_error: true, text: error_text(error) }),
        error_reply(error) == (ReplyModel { is_error: true, text: error_text(error) }),
{
}

/// A certificate put together from the members of a reply is valid exactly if the
/// one that was minted is: with its arguments, result and hash as the reply shows
/// them, and the other fields that it shows as they are.
pub proof fn shown_certificates_stay_valid(cert: CertModel, shown: Tree, hash: Seq<char>)
    requires
        shows_cert(shown, cert),
        member(shown, "hash"@) == Some(Tree::String(hash)),
    ensures
        cert_valid(
            CertModel {
                ticket: TicketModel { args: member(shown, "args"@)->Some_0, ..cert.ticket },
                result: member(shown, "result"@)->Some_0,
                hash,
            },
        ) == cert_valid(cert),
{
    same_effect_has_one_hash(
        cert.ticket,
        cert.result,
        TicketModel { args: member(shown, "args"@)->Some_0, ..cert.ticket },
        member(shown, "result"@)->Some_0,
    );
}

/// What is hashed into a certificate shows every field, under its name, in this
/// order, and nothing else.
pub proof fn preimage_shows_every_field(ticket: TicketModel, result: Tree)
    requires
        ticket.vector_clock.dom().finite(),
    ensures
        cert_preimage(ticket, result) is Object,
        cert_preimage(ticket, result)->Object_0.len() == 10,
        ({
            let fields = cert_preimage(ticket, result)->Object_0;
            &&& fields[0].0 == "intent"@ && fields[0].1 == Tree::String(ticket.intent)
            &&& fields[1].0 == "parent"@ && fields[1].1 == match ticket.parent {
                Some(hash) => Tree::String(hash),
                None => Tree::Null,
            }
            &&& fields[2].0 == "domain"@ && fields[2].1 == Tree::String(ticket.domain)
            &&& fields[3].0 == "seq"@ && fields[3].1 == Tree::Number(decimal(ticket.seq as nat))
            &&& fields[4].0 == "tool"@ && fields[4].1 == Tree::String(ticket.tool)
            &&& fields[5].0 == "args"@ && same_value(ticket.args, fields[5].1)
            &&& fields[6].0 == "result"@ && same_value(result, fields[6].1)
            &&& fields[7].0 == "vector_clock"@ && shows_clock(fields[7].1, ticket.vector_clock)
            &&& fields[8].0 == "read_set"@ && shows_reads(canon(fields[8].1), ticket.read_set)
            &&& fields[9].0 == "agent"@ && fields[9].1 == Tree::String(ticket.agent)
        }),
        cert_hash(ticket, result) == hex(
            sha256_of(encode_utf8(json_text(cert_preimage(ticket, result)))),
        ),
{
    canonical_form_is_the_same_value(ticket.args);
    canonical_form_is_the_same_value(result);
    clocks_are_written_agent_by_agent(ticket.vector_clock, 0, 0);
    lemma_reads_shown(ticket.read_set);
}

/// A certificate is valid exactly if its hash is the one that its own fields have.
pub proof fn validity_is_carrying_the_own_hash(cert: CertModel, hash: Seq<char>)
    ensures
        cert_valid(CertModel { hash: cert_hash(cert.ticket, cert.result), ..cert }),
        hash != cert_hash(cert.ticket, cert.result) ==> !cert_valid(CertModel { hash, ..cert }),
{
}

proof fn lemma_stats_keys()
    ensures
        forall|i: int, j: int|
            0 <= i < j < stats_names().len() ==> #[trigger] stats_names()[i] != #[trigger] stats_names()[j],
        forall|i: int, j: int|
            0 <= i < j < refused_names().len() ==> #[trigger] refused_names()[i]
                != #[trigger] refused_names()[j],
{
    reveal_strlit("admitted");
    reveal_strlit("replayed");
    reveal_strlit("refused");
    reveal_strlit("total_attempts");
    reveal_strlit("prevented");
    reveal_strlit("log_line");
    reveal_strlit("stale_read_set");
    reveal_strlit("domain_race");
    reveal_strlit("in_flight");
    reveal_strlit("prior_failure");
    let n = stats_names();
    assert(n[0].len() == 8 && n[0][0] == 'a');
    assert(n[1].len() == 8 && n[1][0] == 'r');
    assert(n[2].len() == 7);
    assert(n[3].len() == 14);
    assert(n[4].len() == 9);
    assert(n[5].len() == 8 && n[5][0] == 'l');
    let r = refused_names();
    assert(r[0].len() == 14 && r[1].len() == 11 && r[2].len() == 9 && r[3].len() == 13);
}

spec fn stats_names() -> Seq<Seq<char>> {
    seq!["admitted"@, "replayed"@, "refused"@, "total_attempts"@, "prevented"@, "log_line"@]
}

spec fn refused_names() -> Seq<Seq<char>> {
    seq!["stale_read_set"@, "domain_race"@, "in_flight"@, "prior_failure"@]
}

/// Whether a member of an object is the number `n`.
pub open spec fn shows_number(t: Tree, key: Seq<char>, n: int) -> bool {
    member(t, key) == Some(Tree::Number(decimal(n as nat)))
}

proof fn lemma_stats_well_formed(stats: FenceStats)
    ensures
        well_formed(stats_tree(stats)),
{
    let members = stats_tree(stats)->Object_0;
    let refused = members[2].1->Object_0;
    lemma_decimal_number(stats.admitted as nat);
    lemma_decimal_number(stats.replayed as nat);
    lemma_decimal_number(stats.refused_stale as nat);
    lemma_decimal_number(stats.refused_race as nat);
    lemma_decimal_number(stats.refused_inflight as nat);
    lemma_decimal_number(stats.refused_failed as nat);
    lemma_decimal_number(stats_total(stats) as nat);
    lemma_decimal_number(stats_prevented(stats) as nat);
    assert(well_formed(refused[0].1) && well_formed(refused[1].1) && well_formed(refused[2].1)
        && well_formed(refused[3].1));
    assert forall|j: int| 0 <= j < refused.len() implies well_formed((#[trigger] refused[j]).1) by {
    }
    lemma_members_well_formed(refused);
    assert(well_formed(members[0].1) && well_formed(members[1].1) && well_formed(members[2].1));
    assert(well_formed(members[3].1) && well_formed(members[4].1) && well_formed(members[5].1));
    assert forall|j: int| 0 <= j < members.len() implies well_formed((#[trigger] members[j]).1) by {
    }
    lemma_members_well_formed(members);
}

/// Reading the statistics back gives every count under its own name, and their
/// sums.
pub proof fn statistics_show_every_count(stats: FenceStats, read: Tree)
    requires
        well_formed(read),
        json_text(read) == json_reply(stats_tree(stats)).text,
    ensures
        ({
            let total = stats.admitted + stats.replayed + stats.refused_stale + stats.refused_race
                + stats.refused_inflight + stats.refused_failed;
            &&& shows_number(read, "admitted"@, stats.admitted as int)
            &&& shows_number(read, "replayed"@, stats.replayed as int)
            &&& shows_number(read, "total_attempts"@, total)
            &&& shows_number(read, "prevented"@, total - stats.admitted)
            &&& member(read, "log_line"@) == Some(Tree::String(stats_line(stats)))
            &&& member(read, "refused"@) is Some
            &&& shows_number(
                member(read, "refused"@)->Some_0,
                "stale_read_set"@,
                stats.refused_stale as int,
            )
            &&& shows_number(
                member(read, "refused"@)->Some_0,
                "domain_race"@,
                stats.refused_race as int,
            )
            &&& shows_number(
                member(read, "refused"@)->Some_0,
                "in_flight"@,
                stats.refused_inflight as int,
            )
            &&& shows_number(
                member(read, "refused"@)->Some_0,
                "prior_failure"@,
                stats.refused_failed as int,
            )
        }),
{
    let t = stats_tree(stats);
    let members = t->Object_0;
    let r = members[2].1;
    let refused = r->Object_0;
    lemma_stats_well_formed(stats);
    lemma_canon_well_formed(t);
    json_text_injective(read, canon(t));
    lemma_stats_keys();
    let n = stats_names();
    let m = refused_names();
    assert(members[0].0 == n[0] && members[1].0 == n[1] && members[2].0 == n[2]);
    assert(members[3].0 == n[3] && members[4].0 == n[4] && members[5].0 == n[5]);
    assert forall|i: int| 0 <= i < members.len() implies (#[trigger] members[i]).0 == n[i] by {
    }
    lemma_distinct_members(members);
    assert(refused[0].0 == m[0] && refused[1].0 == m[1] && refused[2].0 == m[2] && refused[3].0
        == m[3]);
    assert forall|i: int| 0 <= i < refused.len() implies (#[trigger] refused[i]).0 == m[i] by {
    }
    lemma_distinct_members(refused);
    canonical_form_keeps_members(t, "admitted"@);
    canonical_form_keeps_members(t, "replayed"@);
    canonical_form_keeps_members(t, "refused"@);
    canonical_form_keeps_members(t, "total_attempts"@);
    canonical_form_keeps_members(t, "prevented"@);
    canonical_form_keeps_members(t, "log_line"@);
    canonical_form_keeps_members(r, "stale_read_set"@);
    canonical_form_keeps_members(r, "domain_race"@);
    canonical_form_keeps_members(r, "in_flight"@);
    canonical_form_keeps_members(r, "prior_failure"@);
}

} // verus!
