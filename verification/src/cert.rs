//! What an agent asks for, the ticket that it is given, and the certificate of
//! what was done.

use vstd::prelude::*;
use vstd::string::*;
use vstd::utf8::encode_utf8;
use crate::clock::{clock_tree, VectorClock};
use crate::hex::{encode, hex, is_digest_text, lemma_digest_text};
use crate::json::{canon, json_text, lemma_member_trees, lemma_trees, member_trees, trees, Json, Tree};
use crate::sha::{sha256, sha256_of};
use crate::text::{decimal, decimal_text};

verus! {

/// One entry of a read set: when the decision was made, `domain` was at
/// sequence `seq`.
#[derive(Debug, PartialEq, Eq)]
pub struct ReadSetEntry {
    pub domain: String,
    pub seq: u64,
}

/// Everything an agent submits to be admitted for one side-effecting action.
#[derive(Debug)]
pub struct EffectRequest {
    /// Stable identifier of the logical action, e.g. `"charge:order-123"`.
    /// Attempts sharing an intent are the same action: only one executes, and
    /// later attempts get the recorded outcome. Mint a new intent only for a
    /// genuinely new action.
    pub intent: String,
    /// Hash of the certificate that this effect causally follows, if any.
    pub parent: Option<String>,
    /// The contention scope that the effect acts on, e.g. `"order:123"`.
    pub domain: String,
    /// Name of the tool, e.g. `"charge_card"`.
    pub tool: String,
    /// Arguments of the tool call.
    pub args: Json,
    /// Other domains that the decision was based on, each with the sequence
    /// that was observed. `domain` itself does not belong here: the
    /// reservation advances it, so an entry for it would be stale at once.
    pub read_set: Vec<ReadSetEntry>,
    /// The calling agent.
    pub agent: String,
    /// The calling agent's view of causal history.
    pub known_clock: VectorClock,
}

/// Proof that the holder owns `seq` in `domain` and the lease on `intent`, with
/// all that is needed to mint a certificate once the result is known.
#[derive(Debug)]
pub struct PreparedEffect {
    pub intent: String,
    pub parent: Option<String>,
    pub domain: String,
    pub seq: u64,
    pub tool: String,
    pub args: Json,
    pub vector_clock: VectorClock,
    pub read_set: Vec<ReadSetEntry>,
    pub agent: String,
}

/// A content-addressed record of a committed effect. `hash` is the SHA-256,
/// in hexadecimal, of all the other fields, `parent` included, which chains the
/// certificate to what it was built on.
#[derive(Debug, PartialEq, Eq)]
pub struct EffectCert {
    /// The intent that the effect executed under.
    pub intent: String,
    /// Hash of the certificate that this one causally follows, if any.
    pub parent: Option<String>,
    pub domain: String,
    pub seq: u64,
    pub tool: String,
    pub args: Json,
    pub result: Json,
    pub vector_clock: VectorClock,
    pub read_set: Vec<ReadSetEntry>,
    pub agent: String,
    /// SHA-256 of every field above, in hexadecimal.
    pub hash: String,
}

/// What a read-set entry stands for.
#[verifier::ext_equal]
pub struct ReadModel {
    pub domain: Seq<char>,
    pub seq: u64,
}

/// What a request stands for.
#[verifier::ext_equal]
pub struct RequestModel {
    pub intent: Seq<char>,
    pub parent: Option<Seq<char>>,
    pub domain: Seq<char>,
    pub tool: Seq<char>,
    pub args: Tree,
    pub read_set: Seq<ReadModel>,
    pub agent: Seq<char>,
    pub known_clock: Map<Seq<char>, u64>,
}

/// What a ticket stands for.
#[verifier::ext_equal]
pub struct TicketModel {
    pub intent: Seq<char>,
    pub parent: Option<Seq<char>>,
    pub domain: Seq<char>,
    pub seq: u64,
    pub tool: Seq<char>,
    pub args: Tree,
    pub vector_clock: Map<Seq<char>, u64>,
    pub read_set: Seq<ReadModel>,
    pub agent: Seq<char>,
}

/// What a certificate stands for: the ticket of the effect, its result and the
/// hash.
#[verifier::ext_equal]
pub struct CertModel {
    pub ticket: TicketModel,
    pub result: Tree,
    pub hash: Seq<char>,
}

impl View for ReadSetEntry {
    type V = ReadModel;

    open spec fn view(&self) -> ReadModel {
        ReadModel { domain: self.domain@, seq: self.seq }
    }
}

/// What a list of read-set entries stands for.
pub open spec fn reads_view(reads: Seq<ReadSetEntry>) -> Seq<ReadModel> {
    Seq::new(reads.len(), |i: int| reads[i]@)
}

/// What an optional string stands for.
pub open spec fn option_view(text: Option<String>) -> Option<Seq<char>> {
    match text {
        Some(t) => Some(t@),
        None => None,
    }
}

impl View for EffectRequest {
    type V = RequestModel;

    open spec fn view(&self) -> RequestModel {
        RequestModel {
            intent: self.intent@,
            parent: option_view(self.parent),
            domain: self.domain@,
            tool: self.tool@,
            args: self.args@,
            read_set: reads_view(self.read_set@),
            agent: self.agent@,
            known_clock: self.known_clock@,
        }
    }
}

impl View for PreparedEffect {
    type V = TicketModel;

    open spec fn view(&self) -> TicketModel {
        TicketModel {
            intent: self.intent@,
            parent: option_view(self.parent),
            domain: self.domain@,
            seq: self.seq,
            tool: self.tool@,
            args: self.args@,
            vector_clock: self.vector_clock@,
            read_set: reads_view(self.read_set@),
            agent: self.agent@,
        }
    }
}

impl EffectCert {
    /// The ticket that the certificate was minted from.
    pub open spec fn ticket(&self) -> TicketModel {
        TicketModel {
            intent: self.intent@,
            parent: option_view(self.parent),
            domain: self.domain@,
            seq: self.seq,
            tool: self.tool@,
            args: self.args@,
            vector_clock: self.vector_clock@,
            read_set: reads_view(self.read_set@),
            agent: self.agent@,
        }
    }
}

impl View for EffectCert {
    type V = CertModel;

    open spec fn view(&self) -> CertModel {
        CertModel { ticket: self.ticket(), result: self.result@, hash: self.hash@ }
    }
}

/// A read-set entry as a JSON object.
pub open spec fn read_tree(read: ReadModel) -> Tree {
    Tree::Object(
        seq![
            ("domain"@, Tree::String(read.domain)),
            ("seq"@, Tree::Number(decimal(read.seq as nat))),
        ],
    )
}

/// A read set as a JSON array.
pub open spec fn reads_tree(reads: Seq<ReadModel>) -> Tree {
    Tree::Array(Seq::new(reads.len(), |i: int| read_tree(reads[i])))
}

/// A string, or `null`.
pub open spec fn option_tree(text: Option<Seq<char>>) -> Tree {
    match text {
        Some(t) => Tree::String(t),
        None => Tree::Null,
    }
}

/// The fields that go into a certificate's hash, in the order in which they go
/// in. The order in which the members of `args` and `result` are written makes
/// no difference.
pub open spec fn cert_preimage(ticket: TicketModel, result: Tree) -> Tree {
    Tree::Object(
        seq![
            ("intent"@, Tree::String(ticket.intent)),
            ("parent"@, option_tree(ticket.parent)),
            ("domain"@, Tree::String(ticket.domain)),
            ("seq"@, Tree::Number(decimal(ticket.seq as nat))),
            ("tool"@, Tree::String(ticket.tool)),
            ("args"@, canon(ticket.args)),
            ("result"@, canon(result)),
            ("vector_clock"@, clock_tree(ticket.vector_clock)),
            ("read_set"@, reads_tree(ticket.read_set)),
            ("agent"@, Tree::String(ticket.agent)),
        ],
    )
}

/// The content address of an effect: the SHA-256 of the JSON text of its
/// fields, in hexadecimal.
pub open spec fn cert_hash(ticket: TicketModel, result: Tree) -> Seq<char> {
    hex(sha256_of(encode_utf8(json_text(cert_preimage(ticket, result)))))
}

/// The certificate of an effect.
pub open spec fn minted(ticket: TicketModel, result: Tree) -> CertModel {
    CertModel { ticket, result, hash: cert_hash(ticket, result) }
}

/// Whether a certificate carries the hash of its own fields.
pub open spec fn cert_valid(cert: CertModel) -> bool {
    cert.hash == cert_hash(cert.ticket, cert.result)
}

fn copy_option(text: &Option<String>) -> (copy: Option<String>)
    ensures
        option_view(copy) == option_view(*text),
{
    match text {
        Some(t) => Some(t.clone()),
        None => None,
    }
}

fn copy_reads(reads: &Vec<ReadSetEntry>) -> (copy: Vec<ReadSetEntry>)
    ensures
        reads_view(copy@) == reads_view(reads@),
{
    let mut copy: Vec<ReadSetEntry> = Vec::new();
    let mut i: usize = 0;
    while i < reads.len()
        invariant
            i <= reads@.len(),
            copy@.len() == i,
            forall|j: int| 0 <= j < i ==> (#[trigger] copy@[j])@ == reads@[j]@,
        decreases reads@.len() - i,
    {
        copy.push(reads[i].clone());
        i = i + 1;
    }
    assert(reads_view(copy@) =~= reads_view(reads@));
    copy
}

impl ReadSetEntry {
    pub fn new(domain: &str, seq: u64) -> (entry: Self)
        ensures
            entry@ == (ReadModel { domain: domain@, seq }),
    {
        ReadSetEntry { domain: domain.to_owned(), seq }
    }

    /// The entry as a JSON object.
    pub fn to_json(&self) -> (json: Json)
        ensures
            json@ == read_tree(self@),
    {
        let mut members: Vec<(String, Json)> = Vec::new();
        members.push(("domain".to_owned(), Json::String(self.domain.clone())));
        members.push(("seq".to_owned(), Json::Number(decimal_text(self.seq as u128))));
        proof {
            lemma_member_trees(members@);
            assert(member_trees(members@) =~= read_tree(self@)->Object_0);
        }
        Json::Object(members)
    }
}

impl Clone for ReadSetEntry {
    fn clone(&self) -> (copy: Self)
        ensures
            copy@ == self@,
    {
        ReadSetEntry { domain: self.domain.clone(), seq: self.seq }
    }
}

impl Clone for EffectRequest {
    fn clone(&self) -> (copy: Self)
        ensures
            copy@ == self@,
    {
        EffectRequest {
            intent: self.intent.clone(),
            parent: copy_option(&self.parent),
            domain: self.domain.clone(),
            tool: self.tool.clone(),
            args: self.args.clone(),
            read_set: copy_reads(&self.read_set),
            agent: self.agent.clone(),
            known_clock: self.known_clock.clone(),
        }
    }
}

impl Clone for PreparedEffect {
    fn clone(&self) -> (copy: Self)
        ensures
            copy@ == self@,
    {
        PreparedEffect {
            intent: self.intent.clone(),
            parent: copy_option(&self.parent),
            domain: self.domain.clone(),
            seq: self.seq,
            tool: self.tool.clone(),
            args: self.args.clone(),
            vector_clock: self.vector_clock.clone(),
            read_set: copy_reads(&self.read_set),
            agent: self.agent.clone(),
        }
    }
}

impl Clone for EffectCert {
    fn clone(&self) -> (copy: Self)
        ensures
            copy@ == self@,
    {
        EffectCert {
            intent: self.intent.clone(),
            parent: copy_option(&self.parent),
            domain: self.domain.clone(),
            seq: self.seq,
            tool: self.tool.clone(),
            args: self.args.clone(),
            result: self.result.clone(),
            vector_clock: self.vector_clock.clone(),
            read_set: copy_reads(&self.read_set),
            agent: self.agent.clone(),
            hash: self.hash.clone(),
        }
    }
}

/// A string, or `null`.
pub(crate) fn option_json(text: &Option<String>) -> (json: Json)
    ensures
        json@ == option_tree(option_view(*text)),
{
    match text {
        Some(t) => Json::String(t.clone()),
        None => Json::Null,
    }
}

/// A read set as a JSON array.
pub(crate) fn reads_json(reads: &Vec<ReadSetEntry>) -> (json: Json)
    ensures
        json@ == reads_tree(reads_view(reads@)),
{
    let mut items: Vec<Json> = Vec::new();
    let mut i: usize = 0;
    while i < reads.len()
        invariant
            i <= reads@.len(),
            items@.len() == i,
            forall|j: int| 0 <= j < i ==> (#[trigger] items@[j])@ == read_tree(reads@[j]@),
        decreases reads@.len() - i,
    {
        items.push(reads[i].to_json());
        i = i + 1;
    }
    proof {
        lemma_trees(items@);
        assert forall|j: int| 0 <= j < items@.len() implies trees(items@)[j] == read_tree(
            reads_view(reads@)[j],
        ) by {
            assert(items@[j]@ == read_tree(reads@[j]@));
        }
        assert(trees(items@) =~= reads_tree(reads_view(reads@))->Array_0);
    }
    Json::Array(items)
}

impl EffectCert {
    /// Mints the certificate of a prepared effect that gave `result`.
    pub(crate) fn new(prepared: PreparedEffect, result: Json) -> (cert: Self)
        ensures
            cert@ == minted(prepared@, result@),
            is_digest_text(cert.hash@),
            cert.intent == prepared.intent,
            cert.parent == prepared.parent,
            cert.domain == prepared.domain,
            cert.seq == prepared.seq,
            cert.tool == prepared.tool,
            cert.args == prepared.args,
            cert.result == result,
            cert.vector_clock == prepared.vector_clock,
            cert.read_set == prepared.read_set,
            cert.agent == prepared.agent,
    {
        let hash: String = EffectCert::compute_hash(
            &prepared.intent,
            &prepared.parent,
            &prepared.domain,
            prepared.seq,
            &prepared.tool,
            &prepared.args,
            &result,
            &prepared.vector_clock,
            &prepared.read_set,
            &prepared.agent,
        );
        EffectCert {
            intent: prepared.intent,
            parent: prepared.parent,
            domain: prepared.domain,
            seq: prepared.seq,
            tool: prepared.tool,
            args: prepared.args,
            result,
            vector_clock: prepared.vector_clock,
            read_set: prepared.read_set,
            agent: prepared.agent,
            hash,
        }
    }

    /// The content address of an effect with these fields.
    fn compute_hash(
        intent: &String,
        parent: &Option<String>,
        domain: &String,
        seq: u64,
        tool: &String,
        args: &Json,
        result: &Json,
        vector_clock: &VectorClock,
        read_set: &Vec<ReadSetEntry>,
        agent: &String,
    ) -> (hash: String)
        ensures
            hash@ == cert_hash(
                (TicketModel {
                    intent: intent@,
                    parent: option_view(*parent),
                    domain: domain@,
                    seq,
                    tool: tool@,
                    args: args@,
                    vector_clock: vector_clock@,
                    read_set: reads_view(read_set@),
                    agent: agent@,
                }),
                result@,
            ),
            is_digest_text(hash@),
            vector_clock@.dom().finite(),
    {
        let mut members: Vec<(String, Json)> = Vec::new();
        members.push(("intent".to_owned(), Json::String(intent.clone())));
        members.push(("parent".to_owned(), option_json(parent)));
        members.push(("domain".to_owned(), Json::String(domain.clone())));
        members.push(("seq".to_owned(), Json::Number(decimal_text(seq as u128))));
        members.push(("tool".to_owned(), Json::String(tool.clone())));
        members.push(("args".to_owned(), args.canonicalize()));
        members.push(("result".to_owned(), result.canonicalize()));
        members.push(("vector_clock".to_owned(), vector_clock.to_json()));
        members.push(("read_set".to_owned(), reads_json(read_set)));
        members.push(("agent".to_owned(), Json::String(agent.clone())));
        proof {
            let ticket = TicketModel {
                intent: intent@,
                parent: option_view(*parent),
                domain: domain@,
                seq,
                tool: tool@,
                args: args@,
                vector_clock: vector_clock@,
                read_set: reads_view(read_set@),
                agent: agent@,
            };
            lemma_member_trees(members@);
            assert(member_trees(members@) =~= cert_preimage(ticket, result@)->Object_0);
        }
        let text: String = Json::Object(members).to_text();
        let digest: Vec<u8> = sha256(text.as_str().as_bytes());
        proof {
            lemma_digest_text(digest@);
        }
        encode(digest.as_slice())
    }

    /// Whether the stored hash is the hash of the certificate's own fields.
    /// Where it is not, the certificate was altered or put together wrongly.
    pub fn verify(&self) -> (b: bool)
        ensures
            b == cert_valid(self@),
            self.vector_clock@.dom().finite(),
    {
        let expected: String = EffectCert::compute_hash(
            &self.intent,
            &self.parent,
            &self.domain,
            self.seq,
            &self.tool,
            &self.args,
            &self.result,
            &self.vector_clock,
            &self.read_set,
            &self.agent,
        );
        expected == self.hash
    }
}

} // verus!
