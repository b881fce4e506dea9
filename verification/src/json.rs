//! JSON values and their compact text.

use vstd::prelude::*;
use vstd::string::*;
use crate::json_laws::well_formed;
use crate::order::{lemma_sorted, same_text, sorted};
use crate::strmap::{in_order, last_members, StrMap};
use crate::text::hex_digit;

verus! {

/// A JSON value. Two values are equal whatever the order in which the members of
/// their objects are written.
#[derive(Debug, Eq)]
pub enum Json {
    Null,
    Bool(bool),
    /// A number, as the digits that it is written with.
    Number(String),
    String(String),
    Array(Vec<Json>),
    /// The members of an object, in the order in which they are written.
    Object(Vec<(String, Json)>),
}

/// What a JSON value stands for.
#[verifier::ext_equal]
pub enum Tree {
    Null,
    Bool(bool),
    Number(Seq<char>),
    String(Seq<char>),
    Array(Seq<Tree>),
    Object(Seq<(Seq<char>, Tree)>),
}

impl View for Json {
    type V = Tree;

    open spec fn view(&self) -> Tree {
        self.tree()
    }
}

impl Json {
    pub open spec fn tree(&self) -> Tree
        decreases self,
    {
        match self {
            Json::Null => Tree::Null,
            Json::Bool(b) => Tree::Bool(*b),
            Json::Number(n) => Tree::Number(n@),
            Json::String(s) => Tree::String(s@),
            Json::Array(items) => Tree::Array(trees(items@)),
            Json::Object(members) => Tree::Object(member_trees(members@)),
        }
    }
}

/// What each of a sequence of values stands for.
pub open spec fn trees(items: Seq<Json>) -> Seq<Tree>
    decreases items,
{
    if items.len() == 0 {
        Seq::empty()
    } else {
        trees(items.drop_last()).push(items.last().tree())
    }
}

/// What each of a sequence of members stands for.
pub open spec fn member_trees(members: Seq<(String, Json)>) -> Seq<(Seq<char>, Tree)>
    decreases members,
{
    if members.len() == 0 {
        Seq::empty()
    } else {
        member_trees(members.drop_last()).push((members.last().0@, members.last().1.tree()))
    }
}

pub proof fn lemma_trees(items: Seq<Json>)
    ensures
        trees(items).len() == items.len(),
        forall|i: int| 0 <= i < items.len() ==> #[trigger] trees(items)[i] == items[i].tree(),
    decreases items.len(),
{
    if items.len() > 0 {
        lemma_trees(items.drop_last());
    }
}

pub proof fn lemma_member_trees(members: Seq<(String, Json)>)
    ensures
        member_trees(members).len() == members.len(),
        forall|i: int|
            0 <= i < members.len() ==> #[trigger] member_trees(members)[i] == (
                members[i].0@,
                members[i].1.tree(),
            ),
    decreases members.len(),
{
    if members.len() > 0 {
        lemma_member_trees(members.drop_last());
    }
}

/// How a character is written inside a quoted string: a quote, a backslash and
/// the control characters are escaped, everything else stands for itself.
pub open spec fn escape(c: char) -> Seq<char> {
    if c == '"' {
        seq!['\\', '"']
    } else if c == '\\' {
        seq!['\\', '\\']
    } else if c == '\u{8}' {
        seq!['\\', 'b']
    } else if c == '\u{9}' {
        seq!['\\', 't']
    } else if c == '\u{a}' {
        seq!['\\', 'n']
    } else if c == '\u{c}' {
        seq!['\\', 'f']
    } else if c == '\u{d}' {
        seq!['\\', 'r']
    } else if '\u{1f}' >= c {
        seq!['\\', 'u', '0', '0', hex_digit(c as int / 16), hex_digit(c as int % 16)]
    } else {
        seq![c]
    }
}

/// The inside of a quoted string.
pub open spec fn escaped(s: Seq<char>) -> Seq<char>
    decreases s.len(),
{
    if s.len() == 0 {
        Seq::empty()
    } else {
        escape(s[0]) + escaped(s.drop_first())
    }
}

/// The JSON text of a string.
pub open spec fn quoted(s: Seq<char>) -> Seq<char> {
    seq!['"'] + escaped(s) + seq!['"']
}

/// The compact JSON text of a value: no white space, members and elements in
/// the order in which the value holds them.
pub open spec fn json_text(t: Tree) -> Seq<char>
    decreases t,
{
    match t {
        Tree::Null => "null"@,
        Tree::Bool(b) => if b { "true"@ } else { "false"@ },
        Tree::Number(n) => n,
        Tree::String(s) => quoted(s),
        Tree::Array(items) => seq!['['] + (if items.len() == 0 {
            Seq::empty()
        } else {
            json_text(items[0]) + more_items(items.drop_first())
        }) + seq![']'],
        Tree::Object(members) => seq!['{'] + (if members.len() == 0 {
            Seq::empty()
        } else {
            quoted(members[0].0) + seq![':'] + json_text(members[0].1) + more_members(
                members.drop_first(),
            )
        }) + seq!['}'],
    }
}

/// The text of the elements after the first.
pub open spec fn more_items(items: Seq<Tree>) -> Seq<char>
    decreases items,
{
    if items.len() == 0 {
        Seq::empty()
    } else {
        seq![','] + json_text(items[0]) + more_items(items.drop_first())
    }
}

/// The text of the members after the first.
pub open spec fn more_members(members: Seq<(Seq<char>, Tree)>) -> Seq<char>
    decreases members,
{
    if members.len() == 0 {
        Seq::empty()
    } else {
        seq![','] + (quoted(members[0].0) + seq![':'] + json_text(members[0].1)) + more_members(
            members.drop_first(),
        )
    }
}

/// A value with the members of every object sorted by key, a later member
/// taking the place of an earlier one with the same key.
pub open spec fn canon(t: Tree) -> Tree
    decreases t,
{
    match t {
        Tree::Array(items) => Tree::Array(canon_items(items)),
        Tree::Object(members) => Tree::Object(in_order(last_members(canon_members(members)))),
        _ => t,
    }
}

/// The canonical forms of elements.
pub open spec fn canon_items(items: Seq<Tree>) -> Seq<Tree>
    decreases items,
{
    if items.len() == 0 {
        Seq::empty()
    } else {
        canon_items(items.drop_last()).push(canon(items.last()))
    }
}

/// Members with the canonical forms of their values.
pub open spec fn canon_members(members: Seq<(Seq<char>, Tree)>) -> Seq<(Seq<char>, Tree)>
    decreases members,
{
    if members.len() == 0 {
        Seq::empty()
    } else {
        canon_members(members.drop_last()).push((members.last().0, canon(members.last().1)))
    }
}

pub proof fn lemma_canon_items(items: Seq<Tree>)
    ensures
        canon_items(items).len() == items.len(),
        forall|i: int| 0 <= i < items.len() ==> #[trigger] canon_items(items)[i] == canon(items[i]),
    decreases items.len(),
{
    if items.len() > 0 {
        lemma_canon_items(items.drop_last());
    }
}

pub proof fn lemma_canon_members(members: Seq<(Seq<char>, Tree)>)
    ensures
        canon_members(members).len() == members.len(),
        forall|i: int|
            0 <= i < members.len() ==> #[trigger] canon_members(members)[i] == (
                members[i].0,
                canon(members[i].1),
            ),
    decreases members.len(),
{
    if members.len() > 0 {
        lemma_canon_members(members.drop_last());
    }
}

/// Whether a number is a zero that is written as a fraction, with or without a
/// sign.
pub open spec fn is_fraction_zero(n: Seq<char>) -> bool {
    n == "0.0"@ || n == "-0.0"@
}

/// Whether two values are the same, members in the order in which they stand.
/// The sign of a zero makes no difference.
pub open spec fn alike(a: Tree, b: Tree) -> bool
    decreases a,
{
    match (a, b) {
        (Tree::Number(m), Tree::Number(n)) => m == n || (is_fraction_zero(m) && is_fraction_zero(n)),
        (Tree::Array(xs), Tree::Array(ys)) => {
            &&& xs.len() == ys.len()
            &&& forall|i: int| 0 <= i < xs.len() ==> alike(#[trigger] xs[i], ys[i])
        },
        (Tree::Object(xs), Tree::Object(ys)) => {
            &&& xs.len() == ys.len()
            &&& forall|i: int|
                0 <= i < xs.len() ==> (#[trigger] xs[i]).0 == ys[i].0 && alike(xs[i].1, ys[i].1)
        },
        _ => a == b,
    }
}

/// Whether two values are equal: they are alike once their members are sorted.
pub open spec fn equal(a: Tree, b: Tree) -> bool {
    alike(canon(a), canon(b))
}

/// The outside crate's JSON values.
#[verifier::external_type_specification]
#[verifier::external_body]
pub struct ExValue(serde_json::Value);

/// The JSON value that a text holds, or what is wrong with the text.
pub uninterp spec fn json_reading(text: Seq<char>) -> Result<Tree, Seq<char>>;

/// Turns a `serde_json::Value` into the same value of this library, variant by
/// variant. Nothing is claimed of it by itself: [`read_json`] says what it
/// contributes.
#[verifier::external_body]
fn from_value(value: serde_json::Value) -> (json: Json) {
    match value {
        serde_json::Value::Null => Json::Null,
        serde_json::Value::Bool(b) => Json::Bool(b),
        serde_json::Value::Number(n) => Json::Number(n.to_string()),
        serde_json::Value::String(s) => Json::String(s),
        serde_json::Value::Array(items) => {
            Json::Array(items.into_iter().map(from_value).collect())
        },
        serde_json::Value::Object(members) => {
            Json::Object(members.into_iter().map(|(k, v)| (k, from_value(v))).collect())
        },
    }
}

/// Calls `serde_json::from_str` for a `serde_json::Value`. What it reads, and the
/// text of its error where it reads nothing, is a function of the text alone, and
/// every number that it reads is written as a number.
#[verifier::external_body]
pub(crate) fn read_json(text: &str) -> (json: Result<Json, String>)
    ensures
        match json {
            Ok(j) => json_reading(text@) == Ok::<Tree, Seq<char>>(j@) && well_formed(j@),
            Err(error) => json_reading(text@) == Err::<Tree, Seq<char>>(error@),
        },
{
    match serde_json::from_str::<serde_json::Value>(text) {
        Ok(value) => Ok(from_value(value)),
        Err(error) => Err(error.to_string()),
    }
}

/// The JSON text of a string: `serde_json::to_string` of a `str`, which quotes
/// it, escapes quotes, backslashes and control characters as `escape` says, and
/// writes every other character as it is. It does not fail on a string.
#[verifier::external_body]
fn quote(s: &str) -> (r: String)
    ensures
        r@ == quoted(s@),
{
    serde_json::to_string(s).expect("a string has a JSON text")
}

impl Json {
    /// Appends the compact text of this value.
    pub fn write(&self, out: &mut String)
        ensures
            final(out)@ == old(out)@ + json_text(self@),
        decreases self,
    {
        let ghost start = out@;
        match self {
            Json::Null => {
                out.append("null");
            },
            Json::Bool(b) => {
                if *b {
                    out.append("true");
                } else {
                    out.append("false");
                }
            },
            Json::Number(n) => {
                out.append(n.as_str());
            },
            Json::String(s) => {
                out.append(quote(s.as_str()).as_str());
            },
            Json::Array(items) => {
                let ghost ts = trees(items@);
                let ghost inside = if ts.len() == 0 {
                    Seq::<char>::empty()
                } else {
                    json_text(ts[0]) + more_items(ts.drop_first())
                };
                out.append("[");
                proof {
                    reveal_strlit("[");
                    reveal_strlit("]");
                    reveal_strlit(",");
                    lemma_trees(items@);
                    assert("["@ =~= seq!['[']);
                    assert("]"@ =~= seq![']']);
                    assert(","@ =~= seq![',']);
                    assert(out@ + inside =~= start + seq!['['] + inside);
                }
                let mut i: usize = 0;
                while i < items.len()
                    invariant
                        i <= items@.len(),
                        *self == Json::Array(*items),
                        ts == trees(items@),
                        ts.len() == items@.len(),
                        forall|j: int| 0 <= j < items@.len() ==> #[trigger] ts[j] == items@[j].tree(),
                        ","@ == seq![','],
                        inside == (if ts.len() == 0 {
                            Seq::<char>::empty()
                        } else {
                            json_text(ts[0]) + more_items(ts.drop_first())
                        }),
                        i == 0 ==> out@ + inside == start + seq!['['] + inside,
                        i > 0 ==> out@ + more_items(ts.skip(i as int)) == start + seq!['['] + inside,
                    decreases items@.len() - i,
                {
                    let ghost held = out@;
                    if i > 0 {
                        out.append(",");
                    }
                    let item: &Json = &items[i];
                    assert(decreases_to!(*self => self->Array_0));
                    assert(decreases_to!(*items => items@[i as int]));
                    item.write(out);
                    proof {
                        assert(ts[i as int] == item@);
                        assert(ts.skip(i as int).drop_first() =~= ts.skip(i + 1));
                        if i == 0 {
                            assert(ts.drop_first() =~= ts.skip(1));
                            assert(out@ + more_items(ts.skip(1)) =~= held + inside);
                        } else {
                            assert(ts.skip(i as int)[0] == ts[i as int]);
                            assert(out@ + more_items(ts.skip(i + 1)) =~= held + more_items(
                                ts.skip(i as int),
                            ));
                        }
                    }
                    i = i + 1;
                }
                proof {
                    if i > 0 {
                        assert(ts.skip(i as int) =~= Seq::empty());
                        assert(out@ =~= out@ + more_items(ts.skip(i as int)));
                    } else {
                        assert(out@ =~= out@ + inside);
                    }
                }
                out.append("]");
                assert(out@ =~= start + json_text(self@));
            },
            Json::Object(members) => {
                let ghost ts = member_trees(members@);
                let ghost inside = if ts.len() == 0 {
                    Seq::<char>::empty()
                } else {
                    quoted(ts[0].0) + seq![':'] + json_text(ts[0].1) + more_members(ts.drop_first())
                };
                out.append("{");
                proof {
                    reveal_strlit("{");
                    reveal_strlit("}");
                    reveal_strlit(",");
                    reveal_strlit(":");
                    lemma_member_trees(members@);
                    assert("{"@ =~= seq!['{']);
                    assert("}"@ =~= seq!['}']);
                    assert(","@ =~= seq![',']);
                    assert(":"@ =~= seq![':']);
                    assert(out@ + inside =~= start + seq!['{'] + inside);
                }
                let mut i: usize = 0;
                while i < members.len()
                    invariant
                        i <= members@.len(),
                        *self == Json::Object(*members),
                        ts == member_trees(members@),
                        ts.len() == members@.len(),
                        forall|j: int|
                            0 <= j < members@.len() ==> #[trigger] ts[j] == (
                                members@[j].0@,
                                members@[j].1.tree(),
                            ),
                        ","@ == seq![','],
                        ":"@ == seq![':'],
                        inside == (if ts.len() == 0 {
                            Seq::<char>::empty()
                        } else {
                            quoted(ts[0].0) + seq![':'] + json_text(ts[0].1) + more_members(
                                ts.drop_first(),
                            )
                        }),
                        i == 0 ==> out@ + inside == start + seq!['{'] + inside,
                        i > 0 ==> out@ + more_members(ts.skip(i as int)) == start + seq!['{'] + inside,
                    decreases members@.len() - i,
                {
                    let ghost held = out@;
                    if i > 0 {
                        out.append(",");
                    }
                    let member: &(String, Json) = &members[i];
                    assert(decreases_to!(*self => self->Object_0));
                    assert(decreases_to!(*members => members@[i as int]));
                    assert(decreases_to!(*member => member.1));
                    out.append(quote(member.0.as_str()).as_str());
                    out.append(":");
                    member.1.write(out);
                    proof {
                        assert(ts[i as int] == (member.0@, member.1@));
                        assert(ts.skip(i as int).drop_first() =~= ts.skip(i + 1));
                        if i == 0 {
                            assert(ts.drop_first() =~= ts.skip(1));
                            assert(out@ + more_members(ts.skip(1)) =~= held + inside);
                        } else {
                            assert(ts.skip(i as int)[0] == ts[i as int]);
                            assert(out@ + more_members(ts.skip(i + 1)) =~= held + more_members(
                                ts.skip(i as int),
                            ));
                        }
                    }
                    i = i + 1;
                }
                proof {
                    if i > 0 {
                        assert(ts.skip(i as int) =~= Seq::empty());
                        assert(out@ =~= out@ + more_members(ts.skip(i as int)));
                    } else {
                        assert(out@ =~= out@ + inside);
                    }
                }
                out.append("}");
                assert(out@ =~= start + json_text(self@));
            },
        }
    }

    /// The compact text of this value.
    pub fn to_text(&self) -> (s: String)
        ensures
            s@ == json_text(self@),
    {
        let mut out: String = String::new();
        self.write(&mut out);
        assert(out@ =~= json_text(self@));
        out
    }
}

impl Clone for Json {
    /// A copy of the whole value.
    fn clone(&self) -> (copy: Self)
        ensures
            copy@ == self@,
        decreases self,
    {
        match self {
            Json::Null => Json::Null,
            Json::Bool(b) => Json::Bool(*b),
            Json::Number(n) => Json::Number(n.clone()),
            Json::String(s) => Json::String(s.clone()),
            Json::Array(items) => {
                let mut copies: Vec<Json> = Vec::new();
                let mut i: usize = 0;
                while i < items.len()
                    invariant
                        i <= items@.len(),
                        *self == Json::Array(*items),
                        trees(copies@) == trees(items@.take(i as int)),
                    decreases items@.len() - i,
                {
                    assert(decreases_to!(*self => self->Array_0));
                    assert(decreases_to!(*items => items@[i as int]));
                    let copy: Json = items[i].clone();
                    let ghost held = copies@;
                    copies.push(copy);
                    proof {
                        assert(items@.take(i + 1).drop_last() =~= items@.take(i as int));
                        assert(copies@.drop_last() =~= held);
                    }
                    i = i + 1;
                }
                assert(items@.take(i as int) =~= items@);
                Json::Array(copies)
            },
            Json::Object(members) => {
                let mut copies: Vec<(String, Json)> = Vec::new();
                let mut i: usize = 0;
                while i < members.len()
                    invariant
                        i <= members@.len(),
                        *self == Json::Object(*members),
                        member_trees(copies@) == member_trees(members@.take(i as int)),
                    decreases members@.len() - i,
                {
                    let member: &(String, Json) = &members[i];
                    assert(decreases_to!(*self => self->Object_0));
                    assert(decreases_to!(*members => members@[i as int]));
                    assert(decreases_to!(*member => member.1));
                    let copy: (String, Json) = (member.0.clone(), member.1.clone());
                    let ghost held = copies@;
                    copies.push(copy);
                    proof {
                        assert(members@.take(i + 1).drop_last() =~= members@.take(i as int));
                        assert(copies@.drop_last() =~= held);
                    }
                    i = i + 1;
                }
                assert(members@.take(i as int) =~= members@);
                Json::Object(copies)
            },
        }
    }
}

/// Whether a map of values stands for a map of trees.
spec fn stands_for(values: Map<Seq<char>, Json>, model: Map<Seq<char>, Tree>) -> bool {
    &&& values.dom() == model.dom()
    &&& forall|k: Seq<char>| #[trigger] values.contains_key(k) ==> values[k].tree() == model[k]
}

impl Json {
    /// This value with the members of every object sorted by key, so that the
    /// order in which they were written makes no difference.
    pub fn canonicalize(&self) -> (c: Json)
        ensures
            c@ == canon(self@),
        decreases self,
    {
        match self {
            Json::Array(items) => {
                let mut out: Vec<Json> = Vec::new();
                let mut i: usize = 0;
                while i < items.len()
                    invariant
                        i <= items@.len(),
                        *self == Json::Array(*items),
                        trees(out@) == canon_items(trees(items@.take(i as int))),
                    decreases items@.len() - i,
                {
                    assert(decreases_to!(*self => self->Array_0));
                    assert(decreases_to!(*items => items@[i as int]));
                    let item: Json = items[i].canonicalize();
                    let ghost held = out@;
                    out.push(item);
                    proof {
                        let next = items@.take(i + 1);
                        assert(next.drop_last() =~= items@.take(i as int));
                        assert(trees(next).drop_last() =~= trees(items@.take(i as int)));
                        assert(out@.drop_last() =~= held);
                    }
                    i = i + 1;
                }
                assert(items@.take(i as int) =~= items@);
                Json::Array(out)
            },
            Json::Object(members) => {
                let mut map: StrMap<Json> = StrMap::new();
                let ghost mut model: Map<Seq<char>, Tree> = Map::empty();
                let mut i: usize = 0;
                while i < members.len()
                    invariant
                        i <= members@.len(),
                        *self == Json::Object(*members),
                        model == last_members(canon_members(member_trees(members@.take(i as int)))),
                        stands_for(map@, model),
                    decreases members@.len() - i,
                {
                    let member: &(String, Json) = &members[i];
                    assert(decreases_to!(*self => self->Object_0));
                    assert(decreases_to!(*members => members@[i as int]));
                    assert(decreases_to!(*member => member.1));
                    let value: Json = member.1.canonicalize();
                    map.insert(member.0.clone(), value);
                    proof {
                        let next = members@.take(i + 1);
                        assert(next.drop_last() =~= members@.take(i as int));
                        let m = member_trees(next);
                        assert(m.drop_last() =~= member_trees(members@.take(i as int)));
                        assert(canon_members(m).drop_last() =~= canon_members(m.drop_last()));
                        model = last_members(canon_members(m));
                    }
                    i = i + 1;
                }
                assert(members@.take(i as int) =~= members@);
                let ghost held = map@;
                let out: Vec<(String, Json)> = map.into_entries();
                proof {
                    lemma_member_trees(out@);
                    assert(member_trees(out@) =~= in_order(model)) by {
                        assert forall|j: int| 0 <= j < out@.len() implies #[trigger] member_trees(out@)[j]
                            == in_order(model)[j] by {
                            let k = sorted(held.dom())[j];
                            lemma_sorted(held.dom());
                            assert(sorted(held.dom()).to_set().contains(k));
                            assert(held.contains_key(k));
                            assert(out@[j].0@ == k);
                        }
                    }
                }
                Json::Object(out)
            },
            _ => self.clone(),
        }
    }
}

fn fraction_zero(n: &str) -> (b: bool)
    ensures
        b == is_fraction_zero(n@),
{
    same_text(n, "0.0") || same_text(n, "-0.0")
}

impl Json {
    /// Whether the two are the same, members in the order in which they stand.
    fn is_like(&self, other: &Json) -> (b: bool)
        ensures
            b == alike(self@, other@),
        decreases self,
    {
        match (self, other) {
            (Json::Null, Json::Null) => true,
            (Json::Bool(a), Json::Bool(b)) => *a == *b,
            (Json::Number(m), Json::Number(n)) => {
                let (m, n): (&str, &str) = (m.as_str(), n.as_str());
                same_text(m, n) || (fraction_zero(m) && fraction_zero(n))
            },
            (Json::String(s), Json::String(t)) => same_text(s.as_str(), t.as_str()),
            (Json::Array(xs), Json::Array(ys)) => {
                proof {
                    lemma_trees(xs@);
                    lemma_trees(ys@);
                }
                if xs.len() != ys.len() {
                    return false;
                }
                let mut i: usize = 0;
                while i < xs.len()
                    invariant
                        i <= xs@.len(),
                        xs@.len() == ys@.len(),
                        *self == Json::Array(*xs),
                        *other == Json::Array(*ys),
                        trees(xs@).len() == xs@.len(),
                        trees(ys@).len() == ys@.len(),
                        forall|j: int| 0 <= j < xs@.len() ==> #[trigger] trees(xs@)[j] == xs@[j].tree(),
                        forall|j: int| 0 <= j < ys@.len() ==> #[trigger] trees(ys@)[j] == ys@[j].tree(),
                        forall|j: int| 0 <= j < i ==> alike(#[trigger] trees(xs@)[j], trees(ys@)[j]),
                    decreases xs@.len() - i,
                {
                    assert(decreases_to!(*self => self->Array_0));
                    assert(decreases_to!(*xs => xs@[i as int]));
                    if !xs[i].is_like(&ys[i]) {
                        assert(!alike(trees(xs@)[i as int], trees(ys@)[i as int]));
                        return false;
                    }
                    i = i + 1;
                }
                true
            },
            (Json::Object(xs), Json::Object(ys)) => {
                proof {
                    lemma_member_trees(xs@);
                    lemma_member_trees(ys@);
                }
                if xs.len() != ys.len() {
                    return false;
                }
                let mut i: usize = 0;
                while i < xs.len()
                    invariant
                        i <= xs@.len(),
                        xs@.len() == ys@.len(),
                        *self == Json::Object(*xs),
                        *other == Json::Object(*ys),
                        member_trees(xs@).len() == xs@.len(),
                        member_trees(ys@).len() == ys@.len(),
                        forall|j: int|
                            0 <= j < xs@.len() ==> #[trigger] member_trees(xs@)[j] == (
                                xs@[j].0@,
                                xs@[j].1.tree(),
                            ),
                        forall|j: int|
                            0 <= j < ys@.len() ==> #[trigger] member_trees(ys@)[j] == (
                                ys@[j].0@,
                                ys@[j].1.tree(),
                            ),
                        forall|j: int|
                            0 <= j < i ==> (#[trigger] member_trees(xs@)[j]).0 == member_trees(ys@)[j].0
                                && alike(member_trees(xs@)[j].1, member_trees(ys@)[j].1),
                    decreases xs@.len() - i,
                {
                    let x: &(String, Json) = &xs[i];
                    let y: &(String, Json) = &ys[i];
                    assert(decreases_to!(*self => self->Object_0));
                    assert(decreases_to!(*xs => xs@[i as int]));
                    assert(decreases_to!(*x => x.1));
                    assert(member_trees(xs@)[i as int] == (x.0@, x.1@));
                    assert(member_trees(ys@)[i as int] == (y.0@, y.1@));
                    if !same_text(x.0.as_str(), y.0.as_str()) || !x.1.is_like(&y.1) {
                        return false;
                    }
                    i = i + 1;
                }
                true
            },
            _ => false,
        }
    }
}

impl PartialEq for Json {
    fn eq(&self, other: &Self) -> (b: bool) {
        self.canonicalize().is_like(&other.canonicalize())
    }
}

impl vstd::std_specs::cmp::PartialEqSpecImpl for Json {
    open spec fn obeys_eq_spec() -> bool {
        true
    }

    open spec fn eq_spec(&self, other: &Self) -> bool {
        equal(self@, other@)
    }
}

/// The member of an object with the given key, the last one if there are
/// several. Nothing but an object has members.
pub open spec fn member(t: Tree, key: Seq<char>) -> Option<Tree> {
    match t {
        Tree::Object(members) => if last_members(members).contains_key(key) {
            Some(last_members(members)[key])
        } else {
            None
        },
        _ => None,
    }
}

/// What a string holds. Nothing but a string holds text.
pub open spec fn text_of(t: Tree) -> Option<Seq<char>> {
    match t {
        Tree::String(s) => Some(s),
        _ => None,
    }
}

impl Json {
    /// The member with the given key.
    pub fn get(&self, key: &str) -> (found: Option<&Json>)
        ensures
            match found {
                Some(value) => member(self@, key@) == Some(value@),
                None => member(self@, key@) is None,
            },
    {
        match self {
            Json::Object(members) => {
                let mut found: Option<&Json> = None;
                let mut i: usize = 0;
                while i < members.len()
                    invariant
                        i <= members@.len(),
                        match found {
                            Some(value) => {
                                let m = last_members(member_trees(members@.take(i as int)));
                                m.contains_key(key@) && m[key@] == value@
                            },
                            None => !last_members(
                                member_trees(members@.take(i as int)),
                            ).contains_key(key@),
                        },
                    decreases members@.len() - i,
                {
                    proof {
                        let next = members@.take(i + 1);
                        assert(next.drop_last() =~= members@.take(i as int));
                        assert(member_trees(next).drop_last() =~= member_trees(
                            members@.take(i as int),
                        ));
                    }
                    if same_text(members[i].0.as_str(), key) {
                        found = Some(&members[i].1);
                    }
                    i = i + 1;
                }
                assert(members@.take(i as int) =~= members@);
                found
            },
            _ => None,
        }
    }

    /// The text of a string.
    pub fn as_str(&self) -> (text: Option<&str>)
        ensures
            match text {
                Some(s) => text_of(self@) == Some(s@),
                None => text_of(self@) is None,
            },
    {
        match self {
            Json::String(s) => Some(s.as_str()),
            _ => None,
        }
    }
}

} // verus!
