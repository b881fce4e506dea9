//! What holds of vector clocks.

use vstd::prelude::*;
use vstd::utf8::encode_utf8;
use crate::clock::{clock_concurrent, clock_digest, clock_le, clock_tree, counter, joined, ticked};
use crate::json::{json_text, Tree};
use crate::json_laws::{is_number, json_text_injective, lemma_members_well_formed, well_formed};
use crate::order::{lemma_encoding_injective, lemma_sorted, sorted};
use crate::text::{decimal, is_digit, lemma_decimal_digits, lemma_decimal_injective};

verus! {

/// Every clock is level with itself.
pub proof fn le_is_reflexive(a: Map<Seq<char>, u64>)
    ensures
        clock_le(a, a),
{
}

/// What happened before something that happened before a third thing happened
/// before the third.
pub proof fn le_is_transitive(
    a: Map<Seq<char>, u64>,
    b: Map<Seq<char>, u64>,
    c: Map<Seq<char>, u64>,
)
    requires
        clock_le(a, b),
        clock_le(b, c),
    ensures
        clock_le(a, c),
{
    assert forall|agent: Seq<char>| #[trigger] counter(a, agent) <= counter(c, agent) by {
        assert(counter(a, agent) <= counter(b, agent));
        assert(counter(b, agent) <= counter(c, agent));
    }
}

/// Two clocks each at or behind the other give every agent the same counter.
pub proof fn le_is_antisymmetric(a: Map<Seq<char>, u64>, b: Map<Seq<char>, u64>)
    requires
        clock_le(a, b),
        clock_le(b, a),
    ensures
        forall|agent: Seq<char>| #[trigger] counter(a, agent) == counter(b, agent),
{
    assert forall|agent: Seq<char>| #[trigger] counter(a, agent) == counter(b, agent) by {
        assert(counter(a, agent) <= counter(b, agent));
        assert(counter(b, agent) <= counter(a, agent));
    }
}

/// Being concurrent goes both ways, and no clock is concurrent with itself.
pub proof fn concurrency_is_symmetric(a: Map<Seq<char>, u64>, b: Map<Seq<char>, u64>)
    ensures
        clock_concurrent(a, b) == clock_concurrent(b, a),
        !clock_concurrent(a, a),
{
}

/// A step of an agent moves the clock strictly ahead, and moves no other
/// agent's counter.
pub proof fn tick_moves_ahead(a: Map<Seq<char>, u64>, agent: Seq<char>)
    requires
        counter(a, agent) < u64::MAX,
    ensures
        clock_le(a, ticked(a, agent)),
        !clock_le(ticked(a, agent), a),
        counter(ticked(a, agent), agent) == counter(a, agent) + 1,
        forall|other: Seq<char>|
            other != agent ==> #[trigger] counter(ticked(a, agent), other) == counter(a, other),
{
    let b = ticked(a, agent);
    assert(counter(b, agent) == counter(a, agent) + 1);
    assert forall|other: Seq<char>| #[trigger] counter(a, other) <= counter(b, other) by {
        if other != agent {
            assert(counter(b, other) == counter(a, other));
        }
    }
}

/// A join gives every agent the larger of its two counters.
pub proof fn join_is_the_elementwise_maximum(
    a: Map<Seq<char>, u64>,
    b: Map<Seq<char>, u64>,
    agent: Seq<char>,
)
    ensures
        counter(joined(a, b), agent) == if counter(a, agent) < counter(b, agent) {
            counter(b, agent)
        } else {
            counter(a, agent)
        },
{
}

/// The join of two clocks is the earliest clock that neither of the two is
/// ahead of.
pub proof fn join_is_the_least_upper_bound(
    a: Map<Seq<char>, u64>,
    b: Map<Seq<char>, u64>,
    c: Map<Seq<char>, u64>,
)
    ensures
        clock_le(a, joined(a, b)),
        clock_le(b, joined(a, b)),
        clock_le(a, c) && clock_le(b, c) ==> clock_le(joined(a, b), c),
{
    let j = joined(a, b);
    assert forall|agent: Seq<char>| #[trigger] counter(a, agent) <= counter(j, agent) by {
        join_is_the_elementwise_maximum(a, b, agent);
    }
    assert forall|agent: Seq<char>| #[trigger] counter(b, agent) <= counter(j, agent) by {
        join_is_the_elementwise_maximum(a, b, agent);
    }
    if clock_le(a, c) && clock_le(b, c) {
        assert forall|agent: Seq<char>| #[trigger] counter(j, agent) <= counter(c, agent) by {
            join_is_the_elementwise_maximum(a, b, agent);
            assert(counter(a, agent) <= counter(c, agent));
            assert(counter(b, agent) <= counter(c, agent));
        }
    }
}

/// Joining does not depend on the order in which clocks are joined, and
/// joining a clock again changes nothing.
pub proof fn join_is_a_semilattice(
    a: Map<Seq<char>, u64>,
    b: Map<Seq<char>, u64>,
    c: Map<Seq<char>, u64>,
)
    ensures
        joined(a, b) == joined(b, a),
        joined(a, joined(b, c)) == joined(joined(a, b), c),
        joined(a, a) == a,
        joined(joined(a, b), b) == joined(a, b),
{
    assert(joined(a, b) =~= joined(b, a));
    assert(joined(a, joined(b, c)) =~= joined(joined(a, b), c));
    assert(joined(a, a) =~= a);
    assert(joined(joined(a, b), b) =~= joined(a, b));
}

/// Steps of two agents can be taken in either order: the clock that comes out,
/// and so its digest, is the same.
pub proof fn ticks_commute(clock: Map<Seq<char>, u64>, a: Seq<char>, b: Seq<char>)
    ensures
        ticked(ticked(clock, a), b) == ticked(ticked(clock, b), a),
        clock_digest(ticked(ticked(clock, a), b)) == clock_digest(ticked(ticked(clock, b), a)),
{
    assert(ticked(ticked(clock, a), b) =~= ticked(ticked(clock, b), a));
}

/// The JSON form of a clock is well formed.
pub proof fn lemma_clock_well_formed(clock: Map<Seq<char>, u64>)
    ensures
        well_formed(clock_tree(clock)),
{
    let members = clock_tree(clock)->Object_0;
    assert forall|i: int| 0 <= i < members.len() implies well_formed((#[trigger] members[i]).1) by {
        lemma_decimal_number(clock[sorted(clock.dom())[i]] as nat);
    }
    lemma_members_well_formed(members);
}

/// Decimal text has the shape of a number.
pub proof fn lemma_decimal_number(n: nat)
    ensures
        is_number(decimal(n)),
{
    lemma_decimal_digits(n);
    assert(is_digit(decimal(n)[0]));
}

/// A clock can be told from its JSON form.
pub proof fn clock_tree_injective(a: Map<Seq<char>, u64>, b: Map<Seq<char>, u64>)
    requires
        a.dom().finite(),
        b.dom().finite(),
        clock_tree(a) == clock_tree(b),
    ensures
        a == b,
{
    let x = clock_tree(a)->Object_0;
    let y = clock_tree(b)->Object_0;
    let s = sorted(a.dom());
    let t = sorted(b.dom());
    lemma_sorted(a.dom());
    lemma_sorted(b.dom());
    assert(x.len() == s.len() && y.len() == t.len());
    assert forall|i: int| 0 <= i < s.len() implies s[i] == t[i] && a[s[i]] == b[s[i]] by {
        assert(x[i] == y[i]);
        assert(x[i] == (s[i], Tree::Number(decimal(a[s[i]] as nat))));
        assert(y[i] == (t[i], Tree::Number(decimal(b[t[i]] as nat))));
        lemma_decimal_injective(a[s[i]] as nat, b[t[i]] as nat);
    }
    assert(s =~= t);
    assert(a.dom() =~= b.dom());
    assert forall|k: Seq<char>| #[trigger] a.dom().contains(k) implies a[k] == b[k] by {
        assert(s.to_set().contains(k));
        let i = s.index_of(k);
        assert(s[i] == k);
    }
    assert(a =~= b);
}

/// Different clocks have different texts under their digests: two clocks with
/// one digest are the same clock, or SHA-256 gave the same digest to two
/// different texts.
pub proof fn digest_identifies_the_clock(a: Map<Seq<char>, u64>, b: Map<Seq<char>, u64>)
    requires
        a.dom().finite(),
        b.dom().finite(),
        clock_digest(a) == clock_digest(b),
    ensures
        a == b || {
            let x = encode_utf8(json_text(clock_tree(a)));
            let y = encode_utf8(json_text(clock_tree(b)));
            x != y && crate::sha::sha256_of(x) == crate::sha::sha256_of(y)
        },
{
    let x = json_text(clock_tree(a));
    let y = json_text(clock_tree(b));
    crate::hex::hex_injective(
        crate::sha::sha256_of(encode_utf8(x)),
        crate::sha::sha256_of(encode_utf8(y)),
    );
    if encode_utf8(x) == encode_utf8(y) {
        lemma_encoding_injective(x, y);
        lemma_clock_well_formed(a);
        lemma_clock_well_formed(b);
        json_text_injective(clock_tree(a), clock_tree(b));
        clock_tree_injective(a, b);
    }
}

} // verus!
