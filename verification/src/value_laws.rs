//! What JSON values and clocks hold, member by member.

use vstd::prelude::*;
use vstd::utf8::encode_utf8;
use crate::clock::{clock_concurrent, clock_digest, clock_le, clock_tree, counter};
use crate::hex::hex;
use crate::json::{canon, canon_members, json_text, lemma_canon_items,
    lemma_canon_members, member, more_items, more_members, quoted, text_of, Json, Tree};
use crate::json_laws::{has_key, is_last, lemma_canon_keys, lemma_in_order_members, lemma_last_index,
    lemma_last_members};
use crate::order::{before, lemma_ascending_distinct, lemma_sorted, sorted};
use crate::sha::sha256_of;
use crate::strmap::{in_order, last_members};
use crate::text::decimal;

verus! {

/// What a value stands for has the same shape and the same parts.
pub proof fn values_are_seen_whole(json: Json, i: int)
    ensures
        match json {
            Json::Null => json@ == Tree::Null,
            Json::Bool(b) => json@ == Tree::Bool(b),
            Json::Number(n) => json@ == Tree::Number(n@),
            Json::String(s) => json@ == Tree::String(s@),
            Json::Array(items) => {
                &&& json@ is Array
                &&& json@->Array_0.len() == items@.len()
                &&& 0 <= i < items@.len() ==> json@->Array_0[i] == items@[i]@
            },
            Json::Object(members) => {
                &&& json@ is Object
                &&& json@->Object_0.len() == members@.len()
                &&& 0 <= i < members@.len() ==> json@->Object_0[i].0 == members@[i].0@
                    && json@->Object_0[i].1 == members@[i].1@
            },
        },
{
    match json {
        Json::Array(items) => {
            crate::json::lemma_trees(items@);
        },
        Json::Object(members) => {
            crate::json::lemma_member_trees(members@);
        },
        _ => {},
    }
}

/// The member of an object is the last that is written with the key. Nothing but
/// an object has members, and nothing but a string has text.
pub proof fn member_is_the_last_with_its_key(t: Tree, key: Seq<char>, i: int)
    ensures
        !(t is Object) ==> member(t, key) is None,
        t is Object && is_last(t->Object_0, i) && t->Object_0[i].0 == key ==> member(t, key) == Some(
            t->Object_0[i].1,
        ),
        t is Object && !has_key(t->Object_0, key) ==> member(t, key) is None,
        t is String ==> text_of(t) == Some(t->String_0),
        !(t is String) ==> text_of(t) is None,
{
    if t is Object {
        lemma_last_members(t->Object_0);
        if is_last(t->Object_0, i) && t->Object_0[i].0 == key {
            assert(has_key(t->Object_0, key));
            assert(last_members(t->Object_0).contains_key(key));
        }
        assert(last_members(t->Object_0).contains_key(key) <==> has_key(t->Object_0, key));
    }
}

/// Where the keys of an object are all different, each member is found under its
/// key, and nothing else is.
pub proof fn lemma_distinct_members(members: Seq<(Seq<char>, Tree)>)
    requires
        forall|i: int, j: int|
            0 <= i < j < members.len() ==> (#[trigger] members[i]).0 != (#[trigger] members[j]).0,
    ensures
        forall|i: int|
            0 <= i < members.len() ==> member(Tree::Object(members), (#[trigger] members[i]).0)
                == Some(members[i].1),
        forall|key: Seq<char>|
            !has_key(members, key) ==> (#[trigger] member(Tree::Object(members), key)) is None,
{
    lemma_last_members(members);
    assert forall|i: int| 0 <= i < members.len() implies member(
        Tree::Object(members),
        (#[trigger] members[i]).0,
    ) == Some(members[i].1) by {
        assert(is_last(members, i));
        assert(has_key(members, members[i].0));
        assert(last_members(members).contains_key(members[i].0));
    }
    assert forall|key: Seq<char>| !has_key(members, key) implies (#[trigger] member(
        Tree::Object(members),
        key,
    )) is None by {
        assert(!last_members(members).contains_key(key));
    }
}

/// The canonical form keeps every member, in its own canonical form.
pub proof fn canonical_form_keeps_members(t: Tree, key: Seq<char>)
    ensures
        member(canon(t), key) == match member(t, key) {
            Some(v) => Some(canon(v)),
            None => None,
        },
{
    if t is Object {
        let members = t->Object_0;
        let c = canon_members(members);
        let m = last_members(c);
        lemma_canon_members(members);
        lemma_canon_keys(members);
        lemma_last_members(members);
        lemma_last_members(c);
        lemma_in_order_members(m);
        assert(canon(t) == Tree::Object(in_order(m)));
        assert(m.contains_key(key) <==> has_key(c, key));
        assert(last_members(members).contains_key(key) <==> has_key(members, key));
        if has_key(members, key) {
            let i = lemma_last_index(members, key);
            assert(is_last(c, i));
            assert(m[c[i].0] == c[i].1);
            assert(last_members(members)[members[i].0] == members[i].1);
        }
    }
}

/// In a canonical form the members of every object stand in ascending order of
/// their keys, byte by byte, and no key stands twice; elements stay in their places,
/// and what is neither an object nor an array stays as it is.
pub proof fn canonical_form_is_ordered(t: Tree, i: int, j: int)
    ensures
        t is Object ==> canon(t) is Object,
        t is Object && 0 <= i < j < canon(t)->Object_0.len() ==> before(
            canon(t)->Object_0[i].0,
            canon(t)->Object_0[j].0,
        ),
        t is Array ==> canon(t) is Array && canon(t)->Array_0.len() == t->Array_0.len(),
        t is Array && 0 <= i < t->Array_0.len() ==> canon(t)->Array_0[i] == canon(t->Array_0[i]),
        !(t is Object) && !(t is Array) ==> canon(t) == t,
{
    match t {
        Tree::Object(members) => {
            let c = canon_members(members);
            lemma_last_members(c);
            let m = last_members(c);
            lemma_sorted(m.dom());
            if 0 <= i < j < in_order(m).len() {
                assert(in_order(m)[i].0 == sorted(m.dom())[i]);
                assert(in_order(m)[j].0 == sorted(m.dom())[j]);
                assert(before(sorted(m.dom())[i], sorted(m.dom())[j]));
            }
        },
        Tree::Array(items) => {
            lemma_canon_items(items);
        },
        _ => {},
    }
}

/// The texts of values without parts.
pub proof fn scalars_are_written_plainly(n: Seq<char>, s: Seq<char>)
    ensures
        json_text(Tree::Null) == "null"@,
        json_text(Tree::Bool(true)) == "true"@,
        json_text(Tree::Bool(false)) == "false"@,
        json_text(Tree::Number(n)) == n,
        json_text(Tree::String(s)) == quoted(s),
        json_text(Tree::Array(Seq::empty())) == seq!['[', ']'],
        json_text(Tree::Object(Seq::empty())) == seq!['{', '}'],
{
    assert(json_text(Tree::Array(Seq::empty())) =~= seq!['[', ']']);
    assert(json_text(Tree::Object(Seq::empty())) =~= seq!['{', '}']);
}

proof fn lemma_more_items_push(items: Seq<Tree>, item: Tree)
    ensures
        more_items(items.push(item)) == more_items(items) + seq![','] + json_text(item),
    decreases items.len(),
{
    let all = items.push(item);
    if items.len() == 0 {
        assert(all.drop_first() =~= Seq::empty());
        assert(more_items(all.drop_first()) =~= Seq::empty());
        assert(more_items(all) =~= more_items(items) + seq![','] + json_text(item));
    } else {
        assert(all.drop_first() =~= items.drop_first().push(item));
        lemma_more_items_push(items.drop_first(), item);
        assert(more_items(all) =~= more_items(items) + seq![','] + json_text(item));
    }
}

/// An array with one element more is written with a comma, if there is one before
/// it, and the text of the element before the bracket that closes it.
pub proof fn arrays_are_written_element_by_element(items: Seq<Tree>, item: Tree)
    ensures
        json_text(Tree::Array(items.push(item))) == json_text(Tree::Array(items)).drop_last() + (
        if items.len() == 0 {
            Seq::empty()
        } else {
            seq![',']
        }) + json_text(item) + seq![']'],
        json_text(Tree::Array(items)).last() == ']',
{
    let all = items.push(item);
    if items.len() == 0 {
        assert(all.drop_first() =~= Seq::empty());
        assert(more_items(all.drop_first()) =~= Seq::empty());
    } else {
        assert(all.drop_first() =~= items.drop_first().push(item));
        lemma_more_items_push(items.drop_first(), item);
    }
    assert(json_text(Tree::Array(all)) =~= json_text(Tree::Array(items)).drop_last() + (
    if items.len() == 0 {
        Seq::empty()
    } else {
        seq![',']
    }) + json_text(item) + seq![']']);
}

proof fn lemma_more_members_push(members: Seq<(Seq<char>, Tree)>, key: Seq<char>, value: Tree)
    ensures
        more_members(members.push((key, value))) == more_members(members) + seq![','] + (quoted(key)
            + seq![':'] + json_text(value)),
    decreases members.len(),
{
    let all = members.push((key, value));
    let one = quoted(key) + seq![':'] + json_text(value);
    if members.len() == 0 {
        assert(all.drop_first() =~= Seq::empty());
        assert(more_members(all.drop_first()) =~= Seq::empty());
        assert(more_members(all) =~= more_members(members) + seq![','] + one);
    } else {
        assert(all.drop_first() =~= members.drop_first().push((key, value)));
        lemma_more_members_push(members.drop_first(), key, value);
        assert(more_members(all) =~= more_members(members) + seq![','] + one);
    }
}

/// An object with one member more is written with a comma, if there is one before
/// it, the quoted key, a colon and the text of the value before the brace that
/// closes it.
pub proof fn objects_are_written_member_by_member(
    members: Seq<(Seq<char>, Tree)>,
    key: Seq<char>,
    value: Tree,
)
    ensures
        json_text(Tree::Object(members.push((key, value)))) == json_text(
            Tree::Object(members),
        ).drop_last() + (if members.len() == 0 {
            Seq::empty()
        } else {
            seq![',']
        }) + (quoted(key) + seq![':'] + json_text(value)) + seq!['}'],
        json_text(Tree::Object(members)).last() == '}',
{
    let all = members.push((key, value));
    if members.len() == 0 {
        assert(all.drop_first() =~= Seq::empty());
        assert(more_members(all.drop_first()) =~= Seq::empty());
    } else {
        assert(all.drop_first() =~= members.drop_first().push((key, value)));
        lemma_more_members_push(members.drop_first(), key, value);
    }
    assert(json_text(Tree::Object(all)) =~= json_text(Tree::Object(members)).drop_last() + (
    if members.len() == 0 {
        Seq::empty()
    } else {
        seq![',']
    }) + (quoted(key) + seq![':'] + json_text(value)) + seq!['}']);
}

/// An agent that a clock does not mention is at 0, and one that it mentions is where
/// it says.
pub proof fn unmentioned_agents_are_at_zero(clock: Map<Seq<char>, u64>, agent: Seq<char>)
    ensures
        clock.contains_key(agent) ==> counter(clock, agent) == clock[agent],
        !clock.contains_key(agent) ==> counter(clock, agent) == 0,
{
}

/// A clock is at or behind another exactly if no agent that it mentions is further
/// in it than in the other.
pub proof fn le_compares_every_agent(a: Map<Seq<char>, u64>, b: Map<Seq<char>, u64>)
    ensures
        clock_le(a, b) <==> forall|agent: Seq<char>| #[trigger]
            a.contains_key(agent) ==> a[agent] == 0 || (b.contains_key(agent) && a[agent]
                <= b[agent]),
{
    if clock_le(a, b) {
        assert forall|agent: Seq<char>| #[trigger] a.contains_key(agent) implies a[agent] == 0 || (
        b.contains_key(agent) && a[agent] <= b[agent]) by {
            assert(counter(a, agent) <= counter(b, agent));
        }
    }
    if forall|agent: Seq<char>| #[trigger]
        a.contains_key(agent) ==> a[agent] == 0 || (b.contains_key(agent) && a[agent] <= b[agent]) {
        assert forall|agent: Seq<char>| #[trigger] counter(a, agent) <= counter(b, agent) by {
            if a.contains_key(agent) {
            }
        }
    }
}

/// Two clocks are concurrent exactly if some agent is further in the first and some
/// agent is further in the second.
pub proof fn concurrent_clocks_are_each_ahead_somewhere(
    a: Map<Seq<char>, u64>,
    b: Map<Seq<char>, u64>,
)
    ensures
        clock_concurrent(a, b) <==> (exists|x: Seq<char>| #[trigger] counter(a, x) > counter(b, x))
            && (exists|y: Seq<char>| #[trigger] counter(b, y) > counter(a, y)),
{
    if clock_concurrent(a, b) {
        let x = choose|x: Seq<char>| !(#[trigger] counter(a, x) <= counter(b, x));
        let y = choose|y: Seq<char>| !(#[trigger] counter(b, y) <= counter(a, y));
        assert(counter(a, x) > counter(b, x));
        assert(counter(b, y) > counter(a, y));
    }
}

/// Whether a JSON value shows a clock: under each agent that the clock mentions its
/// counter, and nothing else.
pub open spec fn shows_clock(t: Tree, clock: Map<Seq<char>, u64>) -> bool {
    &&& t is Object
    &&& forall|agent: Seq<char>| #[trigger]
        member(t, agent) == if clock.contains_key(agent) {
            Some(Tree::Number(decimal(clock[agent] as nat)))
        } else {
            None
        }
}

/// The JSON form of a clock, and its canonical form, show the clock, agents in order
/// of their names.
pub proof fn clocks_are_written_agent_by_agent(clock: Map<Seq<char>, u64>, i: int, j: int)
    requires
        clock.dom().finite(),
    ensures
        shows_clock(clock_tree(clock), clock),
        shows_clock(canon(clock_tree(clock)), clock),
        0 <= i < j < clock_tree(clock)->Object_0.len() ==> before(
            clock_tree(clock)->Object_0[i].0,
            clock_tree(clock)->Object_0[j].0,
        ),
        clock_digest(clock) == hex(sha256_of(encode_utf8(json_text(clock_tree(clock))))),
{
    let s = sorted(clock.dom());
    let members = clock_tree(clock)->Object_0;
    lemma_sorted(clock.dom());
    lemma_ascending_distinct(s);
    assert forall|p: int, q: int| 0 <= p < q < members.len() implies (#[trigger] members[p]).0 != (
    #[trigger] members[q]).0 by {
        assert(members[p].0 == s[p] && members[q].0 == s[q]);
    }
    lemma_distinct_members(members);
    assert forall|agent: Seq<char>| #[trigger] member(clock_tree(clock), agent)
        == if clock.contains_key(agent) {
        Some(Tree::Number(decimal(clock[agent] as nat)))
    } else {
        None
    } by {
        if clock.contains_key(agent) {
            assert(s.to_set().contains(agent));
            let k = s.index_of(agent);
            assert(members[k].0 == agent);
        } else if has_key(members, agent) {
            let k = choose|k: int| 0 <= k < members.len() && (#[trigger] members[k]).0 == agent;
            assert(s[k] == agent);
            assert(s.to_set().contains(agent));
        }
    }
    assert forall|agent: Seq<char>| #[trigger] member(canon(clock_tree(clock)), agent)
        == if clock.contains_key(agent) {
        Some(Tree::Number(decimal(clock[agent] as nat)))
    } else {
        None
    } by {
        canonical_form_keeps_members(clock_tree(clock), agent);
    }
    if 0 <= i < j < members.len() {
        assert(members[i].0 == s[i] && members[j].0 == s[j]);
    }
}

} // verus!
