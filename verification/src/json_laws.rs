//! What holds of JSON texts and of canonical forms.

use vstd::prelude::*;
use crate::json::{alike, canon, canon_items, canon_members, equal, escape, escaped, json_text,
    lemma_canon_items, lemma_canon_members, member, more_items, more_members, quoted, Tree};
use crate::order::{lemma_ascending_distinct, lemma_sorted, sorted};
use crate::strmap::{in_order, last_members};
use crate::text::{is_digit, lemma_hex_digit_injective};

verus! {

/// A character that occurs in the text of a number.
pub open spec fn is_number_char(c: char) -> bool {
    is_digit(c) || c == '-' || c == '+' || c == '.' || c == 'e' || c == 'E'
}

/// Whether `n` has the shape of a number: it starts with a digit or a minus
/// sign and goes on with characters of a number.
pub open spec fn is_number(n: Seq<char>) -> bool {
    &&& n.len() > 0
    &&& is_digit(n[0]) || n[0] == '-'
    &&& forall|i: int| 0 <= i < n.len() ==> is_number_char(#[trigger] n[i])
}

/// Whether every number in the value has the shape of a number.
pub open spec fn well_formed(t: Tree) -> bool
    decreases t,
{
    match t {
        Tree::Number(n) => is_number(n),
        Tree::Array(items) => items_well_formed(items),
        Tree::Object(members) => members_well_formed(members),
        _ => true,
    }
}

pub open spec fn items_well_formed(items: Seq<Tree>) -> bool
    decreases items,
{
    items.len() == 0 || (well_formed(items[0]) && items_well_formed(items.drop_first()))
}

pub open spec fn members_well_formed(members: Seq<(Seq<char>, Tree)>) -> bool
    decreases members,
{
    members.len() == 0 || (well_formed(members[0].1) && members_well_formed(members.drop_first()))
}

/// Nothing of a number can go on here.
spec fn ends(x: Seq<char>) -> bool {
    x.len() == 0 || !is_number_char(x[0])
}

proof fn lemma_split(a: Seq<char>, x: Seq<char>, b: Seq<char>, y: Seq<char>)
    requires
        a + x == b + y,
        a.len() == b.len(),
    ensures
        a == b,
        x == y,
{
    let n = a.len() as int;
    assert(a =~= (a + x).take(n));
    assert(b =~= (b + y).take(n));
    assert(x =~= (a + x).skip(n));
    assert(y =~= (b + y).skip(n));
}

/// The codes of two characters cannot be confused.
proof fn lemma_escape_prefix(c: char, d: char, x: Seq<char>, y: Seq<char>)
    requires
        escape(c) + x == escape(d) + y,
    ensures
        c == d,
        x == y,
{
    let s = escape(c) + x;
    let t = escape(d) + y;
    assert(s[0] == escape(c)[0] && t[0] == escape(d)[0]);
    if escape(c).len() > 1 && escape(d).len() > 1 {
        assert(s[1] == escape(c)[1] && t[1] == escape(d)[1]);
        if escape(c).len() == 6 && escape(d).len() == 6 {
            assert(s[4] == escape(c)[4] && t[4] == escape(d)[4]);
            assert(s[5] == escape(c)[5] && t[5] == escape(d)[5]);
            lemma_hex_digit_injective(c as int / 16, d as int / 16);
            lemma_hex_digit_injective(c as int % 16, d as int % 16);
            assert(c as int == d as int);
        }
    }
    assert(c == d);
    lemma_split(escape(c), x, escape(d), y);
}

/// The inside of a quoted string ends at the first quote that is not escaped.
proof fn lemma_escaped_prefix(s: Seq<char>, t: Seq<char>, x: Seq<char>, y: Seq<char>)
    requires
        escaped(s) + seq!['"'] + x == escaped(t) + seq!['"'] + y,
    ensures
        s == t,
        x == y,
    decreases s.len(),
{
    let l = escaped(s) + seq!['"'] + x;
    let r = escaped(t) + seq!['"'] + y;
    if s.len() == 0 {
        assert(l[0] == '"');
        if t.len() > 0 {
            assert(r[0] == escape(t[0])[0]);
        }
        assert(s =~= t);
        lemma_split(seq!['"'], x, seq!['"'], y);
    } else if t.len() == 0 {
        assert(r[0] == '"');
        assert(l[0] == escape(s[0])[0]);
    } else {
        let s1 = s.drop_first();
        let t1 = t.drop_first();
        let u = escaped(s1) + seq!['"'] + x;
        let v = escaped(t1) + seq!['"'] + y;
        assert(l =~= escape(s[0]) + u);
        assert(r =~= escape(t[0]) + v);
        lemma_escape_prefix(s[0], t[0], u, v);
        lemma_escaped_prefix(s1, t1, x, y);
        assert(s =~= seq![s[0]] + s1);
        assert(t =~= seq![t[0]] + t1);
    }
}

proof fn lemma_quoted_prefix(s: Seq<char>, t: Seq<char>, x: Seq<char>, y: Seq<char>)
    requires
        quoted(s) + x == quoted(t) + y,
    ensures
        s == t,
        x == y,
{
    let u = escaped(s) + seq!['"'] + x;
    let v = escaped(t) + seq!['"'] + y;
    assert(quoted(s) + x =~= seq!['"'] + u);
    assert(quoted(t) + y =~= seq!['"'] + v);
    lemma_split(seq!['"'], u, seq!['"'], v);
    lemma_escaped_prefix(s, t, x, y);
}

/// Which kind of value a text starts, by its first character.
spec fn starts(t: Tree) -> char {
    match t {
        Tree::Null => 'n',
        Tree::Bool(b) => if b { 't' } else { 'f' },
        Tree::Number(n) => n[0],
        Tree::String(s) => '"',
        Tree::Array(items) => '[',
        Tree::Object(members) => '{',
    }
}

proof fn lemma_starts(t: Tree)
    requires
        well_formed(t),
    ensures
        json_text(t).len() > 0,
        json_text(t)[0] == starts(t),
        starts(t) != ']' && starts(t) != '}' && starts(t) != ',',
{
    reveal_strlit("null");
    reveal_strlit("true");
    reveal_strlit("false");
}

proof fn lemma_number_prefix(n: Seq<char>, m: Seq<char>, x: Seq<char>, y: Seq<char>)
    requires
        is_number(n),
        is_number(m),
        ends(x),
        ends(y),
        n + x == m + y,
    ensures
        n == m,
        x == y,
{
    let l = n + x;
    let r = m + y;
    assert(l.len() == n.len() + x.len());
    assert(r.len() == m.len() + y.len());
    if n.len() < m.len() {
        assert(l[n.len() as int] == x[0]);
        assert(r[n.len() as int] == m[n.len() as int]);
    } else if m.len() < n.len() {
        assert(r[m.len() as int] == y[0]);
        assert(l[m.len() as int] == n[m.len() as int]);
    }
    lemma_split(n, x, m, y);
}

/// A text cannot be read as the start of two different values.
proof fn lemma_text_prefix(a: Tree, b: Tree, x: Seq<char>, y: Seq<char>)
    requires
        well_formed(a),
        well_formed(b),
        ends(x),
        ends(y),
        json_text(a) + x == json_text(b) + y,
    ensures
        a == b,
        x == y,
    decreases a,
{
    lemma_starts(a);
    lemma_starts(b);
    let l = json_text(a) + x;
    let r = json_text(b) + y;
    assert(l[0] == starts(a));
    assert(r[0] == starts(b));
    match a {
        Tree::Null => {
            assert(b is Null);
            lemma_split(json_text(a), x, json_text(b), y);
        },
        Tree::Bool(p) => {
            assert(b == a);
            lemma_split(json_text(a), x, json_text(b), y);
        },
        Tree::Number(n) => {
            assert(b is Number);
            lemma_number_prefix(n, b->Number_0, x, y);
        },
        Tree::String(s) => {
            assert(b is String);
            lemma_quoted_prefix(s, b->String_0, x, y);
        },
        Tree::Array(items) => {
            assert(b is Array);
            lemma_array_prefix(items, b->Array_0, x, y);
        },
        Tree::Object(members) => {
            assert(b is Object);
            lemma_object_prefix(members, b->Object_0, x, y);
        },
    }
}

/// What follows the opening bracket of an array, up to and with `x`.
spec fn array_rest(items: Seq<Tree>, x: Seq<char>) -> Seq<char> {
    if items.len() == 0 {
        seq![']'] + x
    } else {
        json_text(items[0]) + (more_items(items.drop_first()) + seq![']'] + x)
    }
}

proof fn lemma_array_text(items: Seq<Tree>, x: Seq<char>)
    requires
        items_well_formed(items),
    ensures
        json_text(Tree::Array(items)) + x == seq!['['] + array_rest(items, x),
        array_rest(items, x).len() > 0,
        array_rest(items, x)[0] == ']' <==> items.len() == 0,
{
    assert(json_text(Tree::Array(items)) + x =~= seq!['['] + array_rest(items, x));
    if items.len() > 0 {
        lemma_starts(items[0]);
        assert(array_rest(items, x)[0] == starts(items[0]));
    } else {
        assert(array_rest(items, x)[0] == ']');
    }
}

proof fn lemma_array_prefix(items: Seq<Tree>, others: Seq<Tree>, x: Seq<char>, y: Seq<char>)
    requires
        items_well_formed(items),
        items_well_formed(others),
        json_text(Tree::Array(items)) + x == json_text(Tree::Array(others)) + y,
    ensures
        items == others,
        x == y,
    decreases items,
{
    lemma_array_text(items, x);
    lemma_array_text(others, y);
    lemma_split(seq!['['], array_rest(items, x), seq!['['], array_rest(others, y));
    if items.len() == 0 {
        assert(items =~= others);
        lemma_split(seq![']'], x, seq![']'], y);
    } else {
        let u = more_items(items.drop_first()) + seq![']'] + x;
        let v = more_items(others.drop_first()) + seq![']'] + y;
        lemma_after_item(items.drop_first(), x);
        lemma_after_item(others.drop_first(), y);
        lemma_text_prefix(items[0], others[0], u, v);
        lemma_items_prefix(items.drop_first(), others.drop_first(), x, y);
        assert(items =~= seq![items[0]] + items.drop_first());
        assert(others =~= seq![others[0]] + others.drop_first());
    }
}

/// What follows the opening brace of an object, up to and with `x`.
spec fn object_rest(members: Seq<(Seq<char>, Tree)>, x: Seq<char>) -> Seq<char> {
    if members.len() == 0 {
        seq!['}'] + x
    } else {
        quoted(members[0].0) + (seq![':'] + (json_text(members[0].1) + (more_members(
            members.drop_first(),
        ) + seq!['}'] + x)))
    }
}

proof fn lemma_object_text(members: Seq<(Seq<char>, Tree)>, x: Seq<char>)
    ensures
        json_text(Tree::Object(members)) + x == seq!['{'] + object_rest(members, x),
        object_rest(members, x).len() > 0,
        object_rest(members, x)[0] == '}' <==> members.len() == 0,
{
    assert(json_text(Tree::Object(members)) + x =~= seq!['{'] + object_rest(members, x));
    if members.len() > 0 {
        assert(object_rest(members, x)[0] == '"');
    } else {
        assert(object_rest(members, x)[0] == '}');
    }
}

proof fn lemma_object_prefix(
    members: Seq<(Seq<char>, Tree)>,
    others: Seq<(Seq<char>, Tree)>,
    x: Seq<char>,
    y: Seq<char>,
)
    requires
        members_well_formed(members),
        members_well_formed(others),
        json_text(Tree::Object(members)) + x == json_text(Tree::Object(others)) + y,
    ensures
        members == others,
        x == y,
    decreases members,
{
    lemma_object_text(members, x);
    lemma_object_text(others, y);
    lemma_split(seq!['{'], object_rest(members, x), seq!['{'], object_rest(others, y));
    if members.len() == 0 {
        assert(members =~= others);
        lemma_split(seq!['}'], x, seq!['}'], y);
    } else {
        let u = more_members(members.drop_first()) + seq!['}'] + x;
        let v = more_members(others.drop_first()) + seq!['}'] + y;
        lemma_member_prefix(members, others, u, v);
        lemma_after_member(members.drop_first(), x);
        lemma_after_member(others.drop_first(), y);
        lemma_text_prefix(members[0].1, others[0].1, u, v);
        lemma_members_prefix(members.drop_first(), others.drop_first(), x, y);
        assert(members =~= seq![members[0]] + members.drop_first());
        assert(others =~= seq![others[0]] + others.drop_first());
    }
}

/// What follows an element cannot go on a number.
proof fn lemma_after_item(items: Seq<Tree>, x: Seq<char>)
    ensures
        ends(more_items(items) + seq![']'] + x),
{
    let t = more_items(items) + seq![']'] + x;
    if items.len() > 0 {
        assert(t[0] == ',');
    } else {
        assert(t[0] == ']');
    }
}

/// What follows a member cannot go on a number.
proof fn lemma_after_member(members: Seq<(Seq<char>, Tree)>, x: Seq<char>)
    ensures
        ends(more_members(members) + seq!['}'] + x),
{
    let t = more_members(members) + seq!['}'] + x;
    if members.len() > 0 {
        assert(t[0] == ',');
    } else {
        assert(t[0] == '}');
    }
}

/// Equal texts of a first member have equal keys, and equal texts after them.
proof fn lemma_member_prefix(
    members: Seq<(Seq<char>, Tree)>,
    others: Seq<(Seq<char>, Tree)>,
    u: Seq<char>,
    v: Seq<char>,
)
    requires
        members.len() > 0,
        others.len() > 0,
        quoted(members[0].0) + (seq![':'] + (json_text(members[0].1) + u)) == quoted(others[0].0) + (
        seq![':'] + (json_text(others[0].1) + v)),
    ensures
        members[0].0 == others[0].0,
        json_text(members[0].1) + u == json_text(others[0].1) + v,
{
    let p = json_text(members[0].1) + u;
    let q = json_text(others[0].1) + v;
    lemma_quoted_prefix(members[0].0, others[0].0, seq![':'] + p, seq![':'] + q);
    lemma_split(seq![':'], p, seq![':'], q);
}

proof fn lemma_items_prefix(items: Seq<Tree>, others: Seq<Tree>, x: Seq<char>, y: Seq<char>)
    requires
        items_well_formed(items),
        items_well_formed(others),
        more_items(items) + seq![']'] + x == more_items(others) + seq![']'] + y,
    ensures
        items == others,
        x == y,
    decreases items,
{
    let l = more_items(items) + seq![']'] + x;
    let r = more_items(others) + seq![']'] + y;
    if items.len() > 0 {
        assert(l[0] == ',');
    } else {
        assert(l[0] == ']');
    }
    if others.len() > 0 {
        assert(r[0] == ',');
    } else {
        assert(r[0] == ']');
    }
    if items.len() == 0 {
        assert(items =~= others);
        lemma_split(seq![']'], x, seq![']'], y);
    } else {
        let u = more_items(items.drop_first()) + seq![']'] + x;
        let v = more_items(others.drop_first()) + seq![']'] + y;
        let p = json_text(items[0]) + u;
        let q = json_text(others[0]) + v;
        assert(l =~= seq![','] + p);
        assert(r =~= seq![','] + q);
        lemma_split(seq![','], p, seq![','], q);
        lemma_after_item(items.drop_first(), x);
        lemma_after_item(others.drop_first(), y);
        lemma_text_prefix(items[0], others[0], u, v);
        lemma_items_prefix(items.drop_first(), others.drop_first(), x, y);
        assert(items =~= seq![items[0]] + items.drop_first());
        assert(others =~= seq![others[0]] + others.drop_first());
    }
}

proof fn lemma_members_prefix(
    members: Seq<(Seq<char>, Tree)>,
    others: Seq<(Seq<char>, Tree)>,
    x: Seq<char>,
    y: Seq<char>,
)
    requires
        members_well_formed(members),
        members_well_formed(others),
        more_members(members) + seq!['}'] + x == more_members(others) + seq!['}'] + y,
    ensures
        members == others,
        x == y,
    decreases members,
{
    let l = more_members(members) + seq!['}'] + x;
    let r = more_members(others) + seq!['}'] + y;
    if members.len() > 0 {
        assert(l[0] == ',');
    } else {
        assert(l[0] == '}');
    }
    if others.len() > 0 {
        assert(r[0] == ',');
    } else {
        assert(r[0] == '}');
    }
    if members.len() == 0 {
        assert(members =~= others);
        lemma_split(seq!['}'], x, seq!['}'], y);
    } else {
        let u = more_members(members.drop_first()) + seq!['}'] + x;
        let v = more_members(others.drop_first()) + seq!['}'] + y;
        let p = quoted(members[0].0) + (seq![':'] + (json_text(members[0].1) + u));
        let q = quoted(others[0].0) + (seq![':'] + (json_text(others[0].1) + v));
        assert(l =~= seq![','] + p);
        assert(r =~= seq![','] + q);
        lemma_split(seq![','], p, seq![','], q);
        lemma_member_prefix(members, others, u, v);
        lemma_after_member(members.drop_first(), x);
        lemma_after_member(others.drop_first(), y);
        lemma_text_prefix(members[0].1, others[0].1, u, v);
        lemma_members_prefix(members.drop_first(), others.drop_first(), x, y);
        assert(members =~= seq![members[0]] + members.drop_first());
        assert(others =~= seq![others[0]] + others.drop_first());
    }
}

/// The text determines the value: two values with the same text are the same
/// value.
pub proof fn json_text_injective(a: Tree, b: Tree)
    requires
        well_formed(a),
        well_formed(b),
        json_text(a) == json_text(b),
    ensures
        a == b,
{
    let none = Seq::<char>::empty();
    assert(json_text(a) + none =~= json_text(b) + none);
    lemma_text_prefix(a, b, none, none);
}

/// The member at `i` is the last one with its key.
pub open spec fn is_last<T>(members: Seq<(Seq<char>, T)>, i: int) -> bool {
    &&& 0 <= i < members.len()
    &&& forall|j: int| i < j < members.len() ==> (#[trigger] members[j]).0 != members[i].0
}

/// Some member has the key `k`.
pub open spec fn has_key<T>(members: Seq<(Seq<char>, T)>, k: Seq<char>) -> bool {
    exists|i: int| 0 <= i < members.len() && (#[trigger] members[i]).0 == k
}

/// Whether two values are the same but for the order in which the members of
/// their objects are written. Of several members with one key the last counts.
pub open spec fn same_value(a: Tree, b: Tree) -> bool
    decreases a,
{
    match (a, b) {
        (Tree::Array(xs), Tree::Array(ys)) => {
            &&& xs.len() == ys.len()
            &&& forall|i: int| 0 <= i < xs.len() ==> same_value(#[trigger] xs[i], ys[i])
        },
        (Tree::Object(xs), Tree::Object(ys)) => {
            &&& forall|k: Seq<char>| #[trigger] has_key(xs, k) <==> has_key(ys, k)
            &&& forall|i: int, j: int|
                #![trigger is_last(xs, i), is_last(ys, j)]
                is_last(xs, i) && is_last(ys, j) && xs[i].0 == ys[j].0 ==> same_value(xs[i].1, ys[j].1)
        },
        _ => a == b,
    }
}

/// A key that occurs occurs last somewhere.
pub proof fn lemma_last_index<T>(members: Seq<(Seq<char>, T)>, k: Seq<char>) -> (i: int)
    requires
        has_key(members, k),
    ensures
        is_last(members, i),
        members[i].0 == k,
    decreases members.len(),
{
    let n = members.len() - 1;
    if members[n].0 == k {
        n
    } else {
        let rest = members.drop_last();
        let w = choose|i: int| 0 <= i < members.len() && (#[trigger] members[i]).0 == k;
        assert(rest[w].0 == k);
        let i = lemma_last_index(rest, k);
        assert forall|j: int| i < j < members.len() implies (#[trigger] members[j]).0 != members[i].0 by {
            if j < n {
                assert(rest[j].0 != rest[i].0);
            }
        }
        i
    }
}

/// What a list of members holds: the last member of each key.
pub proof fn lemma_last_members<T>(members: Seq<(Seq<char>, T)>)
    ensures
        last_members(members).dom().finite(),
        forall|k: Seq<char>|
            #[trigger] last_members(members).contains_key(k) <==> has_key(members, k),
        forall|i: int|
            #[trigger] is_last(members, i) ==> last_members(members)[members[i].0] == members[i].1,
    decreases members.len(),
{
    if members.len() > 0 {
        let rest = members.drop_last();
        let n = members.len() - 1;
        lemma_last_members(rest);
        assert forall|k: Seq<char>| #[trigger] last_members(members).contains_key(k) <==> has_key(members, k) by {
            if has_key(rest, k) {
                let i = choose|i: int| 0 <= i < rest.len() && (#[trigger] rest[i]).0 == k;
                assert(members[i].0 == k);
            }
            if members[n].0 == k {
                assert(has_key(members, k));
            }
            if has_key(members, k) {
                let i = choose|i: int| 0 <= i < members.len() && (#[trigger] members[i]).0 == k;
                if i < n {
                    assert(rest[i].0 == k);
                    assert(last_members(rest).contains_key(k));
                }
            }
        }
        assert forall|i: int| #[trigger] is_last(members, i) implies last_members(members)[members[i].0]
            == members[i].1 by {
            if i < n {
                assert(members[n].0 != members[i].0);
                assert forall|j: int| i < j < rest.len() implies (#[trigger] rest[j]).0 != rest[i].0 by {
                    assert(members[j].0 != members[i].0);
                }
                assert(is_last(rest, i));
            }
        }
    }
}

/// Canonical members have the keys of the members they come from, each last
/// where it was last.
pub proof fn lemma_canon_keys(members: Seq<(Seq<char>, Tree)>)
    ensures
        forall|k: Seq<char>| #[trigger] has_key(canon_members(members), k) <==> has_key(members, k),
        forall|i: int| #[trigger] is_last(canon_members(members), i) <==> is_last(members, i),
{
    lemma_canon_members(members);
    let c = canon_members(members);
    assert forall|k: Seq<char>| #[trigger] has_key(c, k) <==> has_key(members, k) by {
        if has_key(c, k) {
            let i = choose|i: int| 0 <= i < c.len() && (#[trigger] c[i]).0 == k;
            assert(members[i].0 == k);
        }
        if has_key(members, k) {
            let i = choose|i: int| 0 <= i < members.len() && (#[trigger] members[i]).0 == k;
            assert(c[i].0 == k);
        }
    }
    assert forall|i: int| #[trigger] is_last(c, i) <==> is_last(members, i) by {
        if is_last(c, i) {
            assert forall|j: int| i < j < members.len() implies (#[trigger] members[j]).0 != members[i].0 by {
                assert(c[j].0 != c[i].0);
            }
        }
        if is_last(members, i) {
            assert forall|j: int| i < j < c.len() implies (#[trigger] c[j]).0 != c[i].0 by {
                assert(members[j].0 != members[i].0);
            }
        }
    }
}

/// Two finite maps with the same entries in order are the same map.
proof fn lemma_in_order_injective<T>(m: Map<Seq<char>, T>, n: Map<Seq<char>, T>)
    requires
        m.dom().finite(),
        n.dom().finite(),
        in_order(m) == in_order(n),
    ensures
        m == n,
{
    lemma_sorted(m.dom());
    lemma_sorted(n.dom());
    let s = sorted(m.dom());
    let t = sorted(n.dom());
    assert(in_order(m).len() == s.len());
    assert(in_order(n).len() == t.len());
    assert forall|i: int| 0 <= i < s.len() implies s[i] == t[i] && m[s[i]] == n[s[i]] by {
        assert(in_order(m)[i] == (s[i], m[s[i]]));
        assert(in_order(n)[i] == (t[i], n[t[i]]));
    }
    assert(s =~= t);
    assert forall|k: Seq<char>| #[trigger] m.dom().contains(k) implies n.dom().contains(k) && m[k] == n[k] by {
        assert(s.to_set().contains(k));
        let i = choose|i: int| 0 <= i < s.len() && s[i] == k;
        assert(s[i] == k);
    }
    assert(m =~= n);
}

/// Values that differ only in the order of their members have the same
/// canonical form.
pub proof fn canonical_form_ignores_member_order(a: Tree, b: Tree)
    requires
        same_value(a, b),
    ensures
        canon(a) == canon(b),
    decreases a,
{
    match (a, b) {
        (Tree::Array(xs), Tree::Array(ys)) => {
            lemma_canon_items(xs);
            lemma_canon_items(ys);
            assert forall|i: int| 0 <= i < xs.len() implies canon_items(xs)[i] == canon_items(ys)[i] by {
                assert(same_value(xs[i], ys[i]));
                canonical_form_ignores_member_order(xs[i], ys[i]);
            }
            assert(canon_items(xs) =~= canon_items(ys));
        },
        (Tree::Object(xs), Tree::Object(ys)) => {
            let cx = canon_members(xs);
            let cy = canon_members(ys);
            lemma_canon_members(xs);
            lemma_canon_members(ys);
            lemma_canon_keys(xs);
            lemma_canon_keys(ys);
            lemma_last_members(cx);
            lemma_last_members(cy);
            let m = last_members(cx);
            let n = last_members(cy);
            assert forall|k: Seq<char>| #[trigger] m.dom().contains(k) <==> n.dom().contains(k) by {
                assert(m.contains_key(k) <==> has_key(cx, k));
                assert(n.contains_key(k) <==> has_key(cy, k));
                assert(has_key(xs, k) <==> has_key(ys, k));
            }
            assert forall|k: Seq<char>| #[trigger] m.dom().contains(k) implies m[k] == n[k] by {
                assert(m.contains_key(k));
                assert(n.dom().contains(k));
                assert(n.contains_key(k));
                let i = lemma_last_index(cx, k);
                let j = lemma_last_index(cy, k);
                assert(is_last(xs, i) && is_last(ys, j));
                assert(xs[i].0 == ys[j].0);
                assert(same_value(xs[i].1, ys[j].1));
                canonical_form_ignores_member_order(xs[i].1, ys[j].1);
                assert(m[cx[i].0] == cx[i].1);
                assert(n[cy[j].0] == cy[j].1);
            }
            assert(m =~= n);
        },
        _ => {},
    }
}

/// Only values that differ in nothing but the order of their members share a
/// canonical form.
pub proof fn canonical_form_keeps_the_value(a: Tree, b: Tree)
    requires
        canon(a) == canon(b),
    ensures
        same_value(a, b),
    decreases a,
{
    match (a, b) {
        (Tree::Array(xs), Tree::Array(ys)) => {
            lemma_canon_items(xs);
            lemma_canon_items(ys);
            assert forall|i: int| 0 <= i < xs.len() implies same_value(#[trigger] xs[i], ys[i]) by {
                assert(canon_items(xs)[i] == canon_items(ys)[i]);
                canonical_form_keeps_the_value(xs[i], ys[i]);
            }
        },
        (Tree::Object(xs), Tree::Object(ys)) => {
            let cx = canon_members(xs);
            let cy = canon_members(ys);
            lemma_canon_members(xs);
            lemma_canon_members(ys);
            lemma_canon_keys(xs);
            lemma_canon_keys(ys);
            lemma_last_members(cx);
            lemma_last_members(cy);
            let m = last_members(cx);
            let n = last_members(cy);
            lemma_in_order_injective(m, n);
            assert forall|k: Seq<char>| #[trigger] has_key(xs, k) <==> has_key(ys, k) by {
                assert(m.contains_key(k) <==> has_key(cx, k));
                assert(n.contains_key(k) <==> has_key(cy, k));
            }
            assert forall|i: int, j: int|
                #![trigger is_last(xs, i), is_last(ys, j)]
                is_last(xs, i) && is_last(ys, j) && xs[i].0 == ys[j].0 implies same_value(
                xs[i].1,
                ys[j].1,
            ) by {
                assert(is_last(cx, i) && is_last(cy, j));
                assert(m[cx[i].0] == cx[i].1);
                assert(n[cy[j].0] == cy[j].1);
                canonical_form_keeps_the_value(xs[i].1, ys[j].1);
            }
        },
        _ => {},
    }
}

/// A list in ascending order of its keys holds what the map holds that it was
/// made from.
pub proof fn lemma_in_order_members<T>(m: Map<Seq<char>, T>)
    requires
        m.dom().finite(),
    ensures
        last_members(in_order(m)) == m,
{
    let s = sorted(m.dom());
    let members = in_order(m);
    lemma_sorted(m.dom());
    lemma_ascending_distinct(s);
    lemma_last_members(members);
    let held = last_members(members);
    assert forall|k: Seq<char>| #[trigger] held.dom().contains(k) <==> m.dom().contains(k) by {
        assert(held.contains_key(k) <==> has_key(members, k));
        if has_key(members, k) {
            let i = choose|i: int| 0 <= i < members.len() && (#[trigger] members[i]).0 == k;
            assert(s.to_set().contains(s[i]));
        }
        if m.dom().contains(k) {
            assert(s.to_set().contains(k));
            let i = s.index_of(k);
            assert(members[i].0 == k);
        }
    }
    assert forall|k: Seq<char>| #[trigger] held.dom().contains(k) implies held[k] == m[k] by {
        assert(held.contains_key(k));
        let i = lemma_last_index(members, k);
        assert(members[i] == (s[i], m[s[i]]));
    }
    assert(held =~= m);
}

/// Taking the canonical form again changes nothing.
pub proof fn canonical_form_is_final(t: Tree)
    ensures
        canon(canon(t)) == canon(t),
    decreases t,
{
    match t {
        Tree::Array(items) => {
            let c = canon_items(items);
            lemma_canon_items(items);
            lemma_canon_items(c);
            assert forall|i: int| 0 <= i < c.len() implies canon_items(c)[i] == c[i] by {
                canonical_form_is_final(items[i]);
            }
            assert(canon_items(c) =~= c);
        },
        Tree::Object(members) => {
            let c = canon_members(members);
            lemma_canon_members(members);
            lemma_last_members(c);
            let m = last_members(c);
            let out = in_order(m);
            lemma_canon_members(out);
            lemma_sorted(m.dom());
            assert forall|i: int| 0 <= i < out.len() implies canon_members(out)[i] == out[i] by {
                let k = sorted(m.dom())[i];
                assert(sorted(m.dom()).to_set().contains(k));
                assert(m.contains_key(k));
                let j = lemma_last_index(c, k);
                assert(m[c[j].0] == c[j].1);
                canonical_form_is_final(members[j].1);
            }
            assert(canon_members(out) =~= out);
            lemma_in_order_members(m);
        },
        _ => {},
    }
}

/// A value is the same as its canonical form but for the order of members.
pub proof fn canonical_form_is_the_same_value(t: Tree)
    ensures
        same_value(t, canon(t)),
{
    canonical_form_is_final(t);
    canonical_form_keeps_the_value(t, canon(t));
}

pub proof fn lemma_items_well_formed(items: Seq<Tree>)
    ensures
        items_well_formed(items) <==> forall|i: int| 0 <= i < items.len() ==> well_formed(#[trigger] items[i]),
    decreases items.len(),
{
    if items.len() > 0 {
        let rest = items.drop_first();
        lemma_items_well_formed(rest);
        if items_well_formed(items) {
            assert forall|i: int| 0 <= i < items.len() implies well_formed(#[trigger] items[i]) by {
                if i > 0 {
                    assert(rest[i - 1] == items[i]);
                }
            }
        }
        if forall|i: int| 0 <= i < items.len() ==> well_formed(#[trigger] items[i]) {
            assert forall|i: int| 0 <= i < rest.len() implies well_formed(#[trigger] rest[i]) by {
                assert(rest[i] == items[i + 1]);
            }
        }
    }
}

pub proof fn lemma_members_well_formed(members: Seq<(Seq<char>, Tree)>)
    ensures
        members_well_formed(members) <==> forall|i: int|
            0 <= i < members.len() ==> well_formed((#[trigger] members[i]).1),
    decreases members.len(),
{
    if members.len() > 0 {
        let rest = members.drop_first();
        lemma_members_well_formed(rest);
        if members_well_formed(members) {
            assert forall|i: int| 0 <= i < members.len() implies well_formed((#[trigger] members[i]).1) by {
                if i > 0 {
                    assert(rest[i - 1] == members[i]);
                }
            }
        }
        if forall|i: int| 0 <= i < members.len() ==> well_formed((#[trigger] members[i]).1) {
            assert forall|i: int| 0 <= i < rest.len() implies well_formed((#[trigger] rest[i]).1) by {
                assert(rest[i] == members[i + 1]);
            }
        }
    }
}

/// Sorting the members leaves the numbers as they are.
pub proof fn lemma_canon_well_formed(t: Tree)
    requires
        well_formed(t),
    ensures
        well_formed(canon(t)),
    decreases t,
{
    match t {
        Tree::Array(items) => {
            lemma_canon_items(items);
            lemma_items_well_formed(items);
            let c = canon_items(items);
            assert forall|i: int| 0 <= i < c.len() implies well_formed(#[trigger] c[i]) by {
                assert(well_formed(items[i]));
                lemma_canon_well_formed(items[i]);
            }
            lemma_items_well_formed(c);
        },
        Tree::Object(members) => {
            lemma_members_well_formed(members);
            lemma_canon_members(members);
            lemma_canon_keys(members);
            let c = canon_members(members);
            lemma_last_members(c);
            let m = last_members(c);
            lemma_sorted(m.dom());
            let out = in_order(m);
            assert forall|i: int| 0 <= i < out.len() implies well_formed((#[trigger] out[i]).1) by {
                let k = sorted(m.dom())[i];
                assert(sorted(m.dom()).to_set().contains(k));
                assert(m.contains_key(k));
                let j = lemma_last_index(c, k);
                assert(m[c[j].0] == c[j].1);
                assert(c[j] == (members[j].0, canon(members[j].1)));
                assert(well_formed(members[j].1));
                lemma_canon_well_formed(members[j].1);
            }
            lemma_members_well_formed(out);
        },
        _ => {},
    }
}

/// Two values have the same canonical text exactly if they differ in nothing
/// but the order of their members.
pub proof fn canonical_text_identifies_values(a: Tree, b: Tree)
    requires
        well_formed(a),
        well_formed(b),
    ensures
        json_text(canon(a)) == json_text(canon(b)) <==> same_value(a, b),
{
    if json_text(canon(a)) == json_text(canon(b)) {
        lemma_canon_well_formed(a);
        lemma_canon_well_formed(b);
        json_text_injective(canon(a), canon(b));
        canonical_form_keeps_the_value(a, b);
    }
    if same_value(a, b) {
        canonical_form_ignores_member_order(a, b);
    }
}

proof fn lemma_alike_reflexive(a: Tree)
    ensures
        alike(a, a),
    decreases a,
{
    match a {
        Tree::Array(xs) => {
            assert forall|i: int| 0 <= i < xs.len() implies alike(#[trigger] xs[i], xs[i]) by {
                lemma_alike_reflexive(xs[i]);
            }
        },
        Tree::Object(xs) => {
            assert forall|i: int| 0 <= i < xs.len() implies alike((#[trigger] xs[i]).1, xs[i].1) by {
                lemma_alike_reflexive(xs[i].1);
            }
        },
        _ => {},
    }
}

proof fn lemma_alike_symmetric(a: Tree, b: Tree)
    requires
        alike(a, b),
    ensures
        alike(b, a),
    decreases a,
{
    match (a, b) {
        (Tree::Array(xs), Tree::Array(ys)) => {
            assert forall|i: int| 0 <= i < ys.len() implies alike(#[trigger] ys[i], xs[i]) by {
                assert(alike(xs[i], ys[i]));
                lemma_alike_symmetric(xs[i], ys[i]);
            }
        },
        (Tree::Object(xs), Tree::Object(ys)) => {
            assert forall|i: int| 0 <= i < ys.len() implies (#[trigger] ys[i]).0 == xs[i].0 && alike(
                ys[i].1,
                xs[i].1,
            ) by {
                assert(xs[i].0 == ys[i].0 && alike(xs[i].1, ys[i].1));
                lemma_alike_symmetric(xs[i].1, ys[i].1);
            }
        },
        _ => {},
    }
}

proof fn lemma_alike_transitive(a: Tree, b: Tree, c: Tree)
    requires
        alike(a, b),
        alike(b, c),
    ensures
        alike(a, c),
    decreases a,
{
    match (a, b, c) {
        (Tree::Array(xs), Tree::Array(ys), Tree::Array(zs)) => {
            assert forall|i: int| 0 <= i < xs.len() implies alike(#[trigger] xs[i], zs[i]) by {
                assert(alike(xs[i], ys[i]) && alike(ys[i], zs[i]));
                lemma_alike_transitive(xs[i], ys[i], zs[i]);
            }
        },
        (Tree::Object(xs), Tree::Object(ys), Tree::Object(zs)) => {
            assert forall|i: int| 0 <= i < xs.len() implies (#[trigger] xs[i]).0 == zs[i].0 && alike(
                xs[i].1,
                zs[i].1,
            ) by {
                assert(xs[i].0 == ys[i].0 && alike(xs[i].1, ys[i].1));
                assert(ys[i].0 == zs[i].0 && alike(ys[i].1, zs[i].1));
                lemma_alike_transitive(xs[i].1, ys[i].1, zs[i].1);
            }
        },
        _ => {},
    }
}

/// Equality of values is reflexive, symmetric and transitive.
pub proof fn equality_is_an_equivalence(a: Tree, b: Tree, c: Tree)
    ensures
        equal(a, a),
        equal(a, b) ==> equal(b, a),
        equal(a, b) && equal(b, c) ==> equal(a, c),
{
    lemma_alike_reflexive(canon(a));
    if equal(a, b) {
        lemma_alike_symmetric(canon(a), canon(b));
        if equal(b, c) {
            lemma_alike_transitive(canon(a), canon(b), canon(c));
        }
    }
}

/// Values that differ only in the order of their members are equal.
pub proof fn equality_ignores_member_order(a: Tree, b: Tree)
    requires
        same_value(a, b),
    ensures
        equal(a, b),
{
    canonical_form_ignores_member_order(a, b);
    lemma_alike_reflexive(canon(a));
}

/// Whether no zero in the value has a sign.
pub open spec fn zeros_unsigned(t: Tree) -> bool
    decreases t,
{
    match t {
        Tree::Number(n) => n != "-0.0"@,
        Tree::Array(items) => forall|i: int| 0 <= i < items.len() ==> zeros_unsigned(#[trigger] items[i]),
        Tree::Object(members) => forall|i: int|
            0 <= i < members.len() ==> zeros_unsigned((#[trigger] members[i]).1),
        _ => true,
    }
}

proof fn lemma_alike_unsigned(a: Tree, b: Tree)
    requires
        alike(a, b),
        zeros_unsigned(a),
        zeros_unsigned(b),
    ensures
        a == b,
    decreases a,
{
    match (a, b) {
        (Tree::Array(xs), Tree::Array(ys)) => {
            assert forall|i: int| 0 <= i < xs.len() implies xs[i] == ys[i] by {
                assert(alike(xs[i], ys[i]));
                lemma_alike_unsigned(xs[i], ys[i]);
            }
            assert(xs =~= ys);
        },
        (Tree::Object(xs), Tree::Object(ys)) => {
            assert forall|i: int| 0 <= i < xs.len() implies xs[i] == ys[i] by {
                assert(xs[i].0 == ys[i].0 && alike(xs[i].1, ys[i].1));
                assert(zeros_unsigned(ys[i].1));
                lemma_alike_unsigned(xs[i].1, ys[i].1);
            }
            assert(xs =~= ys);
        },
        _ => {},
    }
}

/// Values that are equal differ in nothing but the order of their members and the
/// signs of zeros.
pub proof fn equal_values_are_the_same(a: Tree, b: Tree)
    requires
        equal(a, b),
        zeros_unsigned(canon(a)),
        zeros_unsigned(canon(b)),
    ensures
        same_value(a, b),
{
    lemma_alike_unsigned(canon(a), canon(b));
    canonical_form_keeps_the_value(a, b);
}

/// A member of a well-formed value is well formed.
pub proof fn lemma_member_well_formed(t: Tree, key: Seq<char>)
    requires
        well_formed(t),
        member(t, key) is Some,
    ensures
        well_formed(member(t, key)->Some_0),
{
    let members = t->Object_0;
    lemma_members_well_formed(members);
    lemma_last_members(members);
    assert(last_members(members).contains_key(key));
    let i = lemma_last_index(members, key);
    assert(last_members(members)[members[i].0] == members[i].1);
}

/// Whether a text stays on one line.
pub open spec fn one_line(s: Seq<char>) -> bool {
    forall|i: int| 0 <= i < s.len() ==> #[trigger] s[i] != '\n'
}

proof fn lemma_one_line_join(a: Seq<char>, b: Seq<char>)
    requires
        one_line(a),
        one_line(b),
    ensures
        one_line(a + b),
{
    assert forall|i: int| 0 <= i < (a + b).len() implies #[trigger] (a + b)[i] != '\n' by {
        if i < a.len() {
            assert((a + b)[i] == a[i]);
        } else {
            assert((a + b)[i] == b[i - a.len()]);
        }
    }
}

proof fn lemma_escaped_one_line(s: Seq<char>)
    ensures
        one_line(escaped(s)),
    decreases s.len(),
{
    if s.len() > 0 {
        lemma_escaped_one_line(s.drop_first());
        assert(one_line(escape(s[0])));
        lemma_one_line_join(escape(s[0]), escaped(s.drop_first()));
    }
}

proof fn lemma_quoted_one_line(s: Seq<char>)
    ensures
        one_line(quoted(s)),
{
    lemma_escaped_one_line(s);
    lemma_one_line_join(seq!['"'], escaped(s));
    lemma_one_line_join(seq!['"'] + escaped(s), seq!['"']);
}

/// The compact text of a value stays on one line.
pub proof fn compact_text_is_one_line(t: Tree)
    requires
        well_formed(t),
    ensures
        one_line(json_text(t)),
    decreases t, 2int,
{
    match t {
        Tree::Null => {
            reveal_strlit("null");
        },
        Tree::Bool(b) => {
            reveal_strlit("true");
            reveal_strlit("false");
        },
        Tree::Number(n) => {
            assert forall|i: int| 0 <= i < n.len() implies #[trigger] n[i] != '\n' by {
                assert(is_number_char(n[i]));
            }
        },
        Tree::String(s) => {
            lemma_quoted_one_line(s);
        },
        Tree::Array(items) => {
            if items.len() > 0 {
                compact_text_is_one_line(items[0]);
                lemma_more_items_one_line(items.drop_first());
                let inside = json_text(items[0]) + more_items(items.drop_first());
                lemma_one_line_join(json_text(items[0]), more_items(items.drop_first()));
                lemma_one_line_join(seq!['['], inside);
                lemma_one_line_join(seq!['['] + inside, seq![']']);
            } else {
                lemma_one_line_join(seq!['['], Seq::empty());
                lemma_one_line_join(seq!['['] + Seq::empty(), seq![']']);
            }
        },
        Tree::Object(members) => {
            if members.len() > 0 {
                lemma_member_one_line(members);
                let inside = quoted(members[0].0) + seq![':'] + json_text(members[0].1)
                    + more_members(members.drop_first());
                lemma_more_members_one_line(members.drop_first());
                lemma_one_line_join(
                    quoted(members[0].0) + seq![':'] + json_text(members[0].1),
                    more_members(members.drop_first()),
                );
                lemma_one_line_join(seq!['{'], inside);
                lemma_one_line_join(seq!['{'] + inside, seq!['}']);
            } else {
                lemma_one_line_join(seq!['{'], Seq::empty());
                lemma_one_line_join(seq!['{'] + Seq::empty(), seq!['}']);
            }
        },
    }
}

proof fn lemma_member_one_line(members: Seq<(Seq<char>, Tree)>)
    requires
        members.len() > 0,
        members_well_formed(members),
    ensures
        one_line(quoted(members[0].0) + seq![':'] + json_text(members[0].1)),
    decreases members, 0int,
{
    lemma_quoted_one_line(members[0].0);
    compact_text_is_one_line(members[0].1);
    lemma_one_line_join(quoted(members[0].0), seq![':']);
    lemma_one_line_join(quoted(members[0].0) + seq![':'], json_text(members[0].1));
}

proof fn lemma_more_items_one_line(items: Seq<Tree>)
    requires
        items_well_formed(items),
    ensures
        one_line(more_items(items)),
    decreases items, 1int,
{
    if items.len() > 0 {
        compact_text_is_one_line(items[0]);
        lemma_more_items_one_line(items.drop_first());
        lemma_one_line_join(seq![','], json_text(items[0]));
        lemma_one_line_join(seq![','] + json_text(items[0]), more_items(items.drop_first()));
    }
}

proof fn lemma_more_members_one_line(members: Seq<(Seq<char>, Tree)>)
    requires
        members_well_formed(members),
    ensures
        one_line(more_members(members)),
    decreases members, 1int,
{
    if members.len() > 0 {
        let first = quoted(members[0].0) + seq![':'] + json_text(members[0].1);
        lemma_member_one_line(members);
        lemma_more_members_one_line(members.drop_first());
        lemma_one_line_join(seq![','], first);
        lemma_one_line_join(seq![','] + first, more_members(members.drop_first()));
    }
}

} // verus!
