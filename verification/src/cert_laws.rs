//! What holds of certificates.

use vstd::prelude::*;
use vstd::utf8::encode_utf8;
use crate::cert::{cert_hash, cert_preimage, cert_valid, minted, option_tree, read_tree, reads_tree,
    CertModel, ReadModel, TicketModel};
use crate::clock_laws::{clock_tree_injective, lemma_clock_well_formed, lemma_decimal_number};
use crate::hex::hex_injective;
use crate::json::{canon, json_text, Tree};
use crate::json_laws::{canonical_form_ignores_member_order, canonical_form_is_the_same_value,
    canonical_form_keeps_the_value, json_text_injective, lemma_canon_well_formed,
    lemma_items_well_formed, lemma_members_well_formed, same_value, well_formed};
use crate::order::lemma_encoding_injective;
use crate::sha::sha256_of;
use crate::text::{decimal, lemma_decimal_injective};

verus! {

/// Whether the JSON values in a certificate's fields are well formed and its
/// clock mentions finitely many agents, as is so for every certificate that
/// exists outside of proofs and whose numbers are numbers.
pub open spec fn cert_wf(ticket: TicketModel, result: Tree) -> bool {
    &&& well_formed(ticket.args)
    &&& well_formed(result)
    &&& ticket.vector_clock.dom().finite()
}

/// A minted certificate is valid, and records the ticket and the result that it
/// was minted from.
pub proof fn minted_certificates_are_valid(ticket: TicketModel, result: Tree)
    ensures
        cert_valid(minted(ticket, result)),
        minted(ticket, result).ticket == ticket,
        minted(ticket, result).result == result,
{
}

proof fn lemma_reads_tree_injective(a: Seq<ReadModel>, b: Seq<ReadModel>)
    requires
        reads_tree(a) == reads_tree(b),
    ensures
        a == b,
{
    let x = reads_tree(a)->Array_0;
    let y = reads_tree(b)->Array_0;
    assert(x.len() == a.len() && y.len() == b.len());
    assert forall|i: int| 0 <= i < a.len() implies a[i] == b[i] by {
        assert(x[i] == read_tree(a[i]));
        assert(y[i] == read_tree(b[i]));
        let p = read_tree(a[i])->Object_0;
        let q = read_tree(b[i])->Object_0;
        assert(p[0] == q[0]);
        assert(p[1] == q[1]);
        lemma_decimal_injective(a[i].seq as nat, b[i].seq as nat);
    }
    assert(a =~= b);
}

pub proof fn lemma_reads_well_formed(reads: Seq<ReadModel>)
    ensures
        well_formed(reads_tree(reads)),
{
    let items = reads_tree(reads)->Array_0;
    assert forall|i: int| 0 <= i < items.len() implies well_formed(#[trigger] items[i]) by {
        let members = read_tree(reads[i])->Object_0;
        lemma_decimal_number(reads[i].seq as nat);
        assert forall|j: int| 0 <= j < members.len() implies well_formed((#[trigger] members[j]).1) by {
            if j == 0 {
                assert(members[0].1 == Tree::String(reads[i].domain));
            } else {
                assert(members[1].1 == Tree::Number(decimal(reads[i].seq as nat)));
            }
        }
        lemma_members_well_formed(members);
    }
    lemma_items_well_formed(items);
}

pub proof fn lemma_preimage_well_formed(ticket: TicketModel, result: Tree)
    requires
        cert_wf(ticket, result),
    ensures
        well_formed(cert_preimage(ticket, result)),
{
    let members = cert_preimage(ticket, result)->Object_0;
    lemma_canon_well_formed(ticket.args);
    lemma_canon_well_formed(result);
    lemma_decimal_number(ticket.seq as nat);
    lemma_reads_well_formed(ticket.read_set);
    lemma_clock_well_formed(ticket.vector_clock);
    assert(well_formed(members[0].1));
    assert(well_formed(members[1].1));
    assert(well_formed(members[2].1));
    assert(well_formed(members[3].1));
    assert(well_formed(members[4].1));
    assert(well_formed(members[5].1));
    assert(well_formed(members[6].1));
    assert(well_formed(members[7].1));
    assert(well_formed(members[8].1));
    assert(well_formed(members[9].1));
    assert forall|j: int| 0 <= j < members.len() implies well_formed((#[trigger] members[j]).1) by {
    }
    lemma_members_well_formed(members);
}

/// Whether two effects are the same but for the order in which the members of
/// their arguments and results are written.
pub open spec fn same_effect(a: TicketModel, a_result: Tree, b: TicketModel, b_result: Tree) -> bool {
    &&& b == (TicketModel { args: b.args, ..a })
    &&& same_value(a.args, b.args)
    &&& same_value(a_result, b_result)
}

/// All the fields of an effect can be told from what is hashed.
pub proof fn preimage_identifies_the_effect(
    a: TicketModel,
    a_result: Tree,
    b: TicketModel,
    b_result: Tree,
)
    requires
        a.vector_clock.dom().finite(),
        b.vector_clock.dom().finite(),
        cert_preimage(a, a_result) == cert_preimage(b, b_result),
    ensures
        same_effect(a, a_result, b, b_result),
{
    let x = cert_preimage(a, a_result)->Object_0;
    let y = cert_preimage(b, b_result)->Object_0;
    assert(x[0] == y[0]);
    assert(x[1] == y[1]);
    assert(x[2] == y[2]);
    assert(x[3] == y[3]);
    assert(x[4] == y[4]);
    assert(x[5] == y[5]);
    assert(x[6] == y[6]);
    assert(x[7] == y[7]);
    assert(x[8] == y[8]);
    assert(x[9] == y[9]);
    assert(option_tree(a.parent) == option_tree(b.parent));
    assert(a.parent == b.parent);
    lemma_decimal_injective(a.seq as nat, b.seq as nat);
    clock_tree_injective(a.vector_clock, b.vector_clock);
    lemma_reads_tree_injective(a.read_set, b.read_set);
    canonical_form_keeps_the_value(a.args, b.args);
    canonical_form_keeps_the_value(a_result, b_result);
}

/// The order in which members are written does not change the hash: the same
/// effect has one content address.
pub proof fn same_effect_has_one_hash(
    a: TicketModel,
    a_result: Tree,
    b: TicketModel,
    b_result: Tree,
)
    requires
        same_effect(a, a_result, b, b_result),
    ensures
        cert_hash(a, a_result) == cert_hash(b, b_result),
{
    canonical_form_ignores_member_order(a.args, b.args);
    canonical_form_ignores_member_order(a_result, b_result);
}

/// A certificate whose arguments and result are written in canonical order, as
/// replies show them, is valid exactly if the certificate is.
pub proof fn canonical_certificates_stay_valid(cert: CertModel)
    ensures
        cert_valid(
            CertModel {
                ticket: TicketModel { args: canon(cert.ticket.args), ..cert.ticket },
                result: canon(cert.result),
                hash: cert.hash,
            },
        ) == cert_valid(cert),
{
    canonical_form_is_the_same_value(cert.ticket.args);
    canonical_form_is_the_same_value(cert.result);
    same_effect_has_one_hash(
        cert.ticket,
        cert.result,
        TicketModel { args: canon(cert.ticket.args), ..cert.ticket },
        canon(cert.result),
    );
}

/// Two valid certificates with the same hash record the same effect, or SHA-256
/// gave the same digest to two different texts.
pub proof fn hash_identifies_the_effect(a: CertModel, b: CertModel)
    requires
        cert_wf(a.ticket, a.result),
        cert_wf(b.ticket, b.result),
        cert_valid(a),
        cert_valid(b),
        a.hash == b.hash,
    ensures
        same_effect(a.ticket, a.result, b.ticket, b.result) || {
            let x = encode_utf8(json_text(cert_preimage(a.ticket, a.result)));
            let y = encode_utf8(json_text(cert_preimage(b.ticket, b.result)));
            x != y && sha256_of(x) == sha256_of(y)
        },
{
    let x = json_text(cert_preimage(a.ticket, a.result));
    let y = json_text(cert_preimage(b.ticket, b.result));
    hex_injective(sha256_of(encode_utf8(x)), sha256_of(encode_utf8(y)));
    if encode_utf8(x) == encode_utf8(y) {
        lemma_encoding_injective(x, y);
        lemma_preimage_well_formed(a.ticket, a.result);
        lemma_preimage_well_formed(b.ticket, b.result);
        json_text_injective(
            cert_preimage(a.ticket, a.result),
            cert_preimage(b.ticket, b.result),
        );
        preimage_identifies_the_effect(a.ticket, a.result, b.ticket, b.result);
    }
}

/// A valid certificate of which any field but the hash is changed, beyond the
/// order of members, is no longer valid, unless the old and the new fields make
/// SHA-256 collide.
pub proof fn tampering_is_evident(cert: CertModel, ticket: TicketModel, result: Tree)
    requires
        cert_wf(cert.ticket, cert.result),
        cert_wf(ticket, result),
        cert_valid(cert),
        !same_effect(cert.ticket, cert.result, ticket, result),
    ensures
        cert_valid(CertModel { ticket, result, hash: cert.hash }) ==> {
            let x = encode_utf8(json_text(cert_preimage(cert.ticket, cert.result)));
            let y = encode_utf8(json_text(cert_preimage(ticket, result)));
            x != y && sha256_of(x) == sha256_of(y)
        },
{
    let altered = CertModel { ticket, result, hash: cert.hash };
    if cert_valid(altered) {
        hash_identifies_the_effect(cert, altered);
    }
}

} // verus!
