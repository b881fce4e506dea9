//! The order of strings: byte by byte over their UTF-8 encodings, as `String`
//! itself is ordered.

use vstd::prelude::*;
use vstd::utf8::encode_utf8;

verus! {

/// Where one string stands relative to another.
#[derive(Debug, Clone, Copy, PartialEq, Eq, Structural)]
pub enum Placement {
    Before,
    Same,
    After,
}

/// `a` comes strictly before `b` in the lexicographic order of bytes.
pub open spec fn bytes_before(a: Seq<u8>, b: Seq<u8>) -> bool
    decreases a.len(),
{
    if b.len() == 0 {
        false
    } else if a.len() == 0 {
        true
    } else {
        a[0] < b[0] || (a[0] == b[0] && bytes_before(a.drop_first(), b.drop_first()))
    }
}

/// `a` comes strictly before `b` in the order of strings.
pub open spec fn before(a: Seq<char>, b: Seq<char>) -> bool {
    bytes_before(encode_utf8(a), encode_utf8(b))
}

/// Every key comes strictly before the ones after it; in particular no key
/// occurs twice.
pub open spec fn ascending(keys: Seq<Seq<char>>) -> bool {
    forall|i: int, j: int| 0 <= i < j < keys.len() ==> before(#[trigger] keys[i], #[trigger] keys[j])
}

/// The members of a finite set of strings, each once, in ascending order.
pub open spec fn sorted(keys: Set<Seq<char>>) -> Seq<Seq<char>> {
    choose|s: Seq<Seq<char>>| ascending(s) && s.to_set() == keys
}

proof fn lemma_bytes_irreflexive(a: Seq<u8>)
    ensures
        !bytes_before(a, a),
    decreases a.len(),
{
    if a.len() > 0 {
        lemma_bytes_irreflexive(a.drop_first());
    }
}

proof fn lemma_bytes_transitive(a: Seq<u8>, b: Seq<u8>, c: Seq<u8>)
    requires
        bytes_before(a, b),
        bytes_before(b, c),
    ensures
        bytes_before(a, c),
    decreases a.len(),
{
    if a.len() > 0 && a[0] == b[0] && b[0] == c[0] {
        lemma_bytes_transitive(a.drop_first(), b.drop_first(), c.drop_first());
    }
}

proof fn lemma_bytes_total(a: Seq<u8>, b: Seq<u8>)
    ensures
        bytes_before(a, b) || bytes_before(b, a) || a == b,
    decreases a.len(),
{
    if a.len() > 0 && b.len() > 0 && a[0] == b[0] {
        lemma_bytes_total(a.drop_first(), b.drop_first());
        if a.drop_first() == b.drop_first() {
            assert(a =~= seq![a[0]] + a.drop_first());
            assert(b =~= seq![b[0]] + b.drop_first());
        }
    } else if a.len() == 0 && b.len() == 0 {
        assert(a =~= b);
    }
}

/// Two strings with the same encoding are the same string.
pub proof fn lemma_encoding_injective(a: Seq<char>, b: Seq<char>)
    requires
        encode_utf8(a) == encode_utf8(b),
    ensures
        a == b,
{
    vstd::utf8::encode_utf8_decode_utf8(a);
    vstd::utf8::encode_utf8_decode_utf8(b);
}

/// The order of strings is a strict total order.
pub proof fn lemma_order(a: Seq<char>, b: Seq<char>)
    ensures
        !before(a, a),
        before(a, b) ==> !before(b, a) && a != b,
        before(a, b) || before(b, a) || a == b,
{
    let x = encode_utf8(a);
    let y = encode_utf8(b);
    lemma_bytes_irreflexive(x);
    lemma_bytes_total(x, y);
    if bytes_before(x, y) && bytes_before(y, x) {
        lemma_bytes_transitive(x, y, x);
    }
    if x == y {
        lemma_encoding_injective(a, b);
    }
}

/// The order of strings is transitive.
pub proof fn lemma_order_transitive(a: Seq<char>, b: Seq<char>, c: Seq<char>)
    requires
        before(a, b),
        before(b, c),
    ensures
        before(a, c),
{
    lemma_bytes_transitive(encode_utf8(a), encode_utf8(b), encode_utf8(c));
}

/// An ascending sequence holds no key twice.
pub proof fn lemma_ascending_distinct(s: Seq<Seq<char>>)
    requires
        ascending(s),
    ensures
        s.no_duplicates(),
{
    assert forall|i: int, j: int| 0 <= i < s.len() && 0 <= j < s.len() && i != j implies s[i] != s[j] by {
        if i < j {
            lemma_order(s[i], s[j]);
        } else {
            lemma_order(s[j], s[i]);
        }
    }
}

/// What the first `i + 1` of a sequence of keys are.
pub proof fn lemma_take_one_more(keys: Seq<Seq<char>>, i: int)
    requires
        0 <= i < keys.len(),
    ensures
        keys.take(i + 1) == keys.take(i).push(keys[i]),
        forall|k: Seq<char>| #[trigger]
            keys.take(i + 1).contains(k) <==> keys.take(i).contains(k) || k == keys[i],
{
    let done = keys.take(i);
    let more = keys.take(i + 1);
    assert(more =~= done.push(keys[i]));
    assert forall|k: Seq<char>| #[trigger] more.contains(k) <==> done.contains(k) || k == keys[i] by {
        if k == keys[i] {
            assert(more[i] == k);
        }
        if done.contains(k) {
            let j = done.index_of(k);
            assert(more[j] == k);
        }
    }
}

/// A set of strings has at most one ascending enumeration.
pub proof fn lemma_ascending_unique(s: Seq<Seq<char>>, t: Seq<Seq<char>>)
    requires
        ascending(s),
        ascending(t),
        s.to_set() == t.to_set(),
    ensures
        s == t,
    decreases s.len(),
{
    if s.len() == 0 {
        if t.len() > 0 {
            assert(t.to_set().contains(t[0]));
            assert(s.to_set().contains(t[0]));
        }
        assert(s =~= t);
    } else {
        assert(s.to_set().contains(s[0]));
        assert(t.to_set().contains(s[0]));
        let a = s.last();
        let b = t.last();
        assert(s.to_set().contains(a));
        assert(t.to_set().contains(a));
        assert(t.to_set().contains(b));
        assert(s.to_set().contains(b));
        let i = choose|i: int| 0 <= i < t.len() && t[i] == a;
        let j = choose|j: int| 0 <= j < s.len() && s[j] == b;
        lemma_order(a, b);
        assert(i == t.len() - 1 || before(a, b));
        assert(j == s.len() - 1 || before(b, a));
        assert(a == b);
        lemma_ascending_distinct(s);
        lemma_ascending_distinct(t);
        let s0 = s.drop_last();
        let t0 = t.drop_last();
        assert forall|k: Seq<char>| s0.to_set().contains(k) == t0.to_set().contains(k) by {
            if s0.contains(k) {
                let m = choose|m: int| 0 <= m < s0.len() && s0[m] == k;
                assert(s[m] == k && k != a);
                assert(s.to_set().contains(k));
                assert(t.to_set().contains(k));
                let n = choose|n: int| 0 <= n < t.len() && t[n] == k;
                assert(t0[n] == k);
            }
            if t0.contains(k) {
                let m = choose|m: int| 0 <= m < t0.len() && t0[m] == k;
                assert(t[m] == k && k != b);
                assert(t.to_set().contains(k));
                assert(s.to_set().contains(k));
                let n = choose|n: int| 0 <= n < s.len() && s[n] == k;
                assert(s0[n] == k);
            }
        }
        assert(s0.to_set() =~= t0.to_set());
        lemma_ascending_unique(s0, t0);
        assert(s =~= s0.push(a));
        assert(t =~= t0.push(b));
    }
}

/// The ascending enumeration of a set is what `sorted` gives.
pub proof fn lemma_sorted_is(s: Seq<Seq<char>>)
    requires
        ascending(s),
    ensures
        sorted(s.to_set()) == s,
{
    lemma_ascending_unique(sorted(s.to_set()), s);
}

proof fn lemma_greatest(keys: Set<Seq<char>>) -> (m: Seq<char>)
    requires
        keys.finite(),
        keys.len() > 0,
    ensures
        keys.contains(m),
        forall|k: Seq<char>| keys.contains(k) && k != m ==> #[trigger] before(k, m),
    decreases keys.len(),
{
    let a = keys.choose();
    let rest = keys.remove(a);
    if rest.len() == 0 {
        assert forall|k: Seq<char>| keys.contains(k) && k != a implies #[trigger] before(k, a) by {
            assert(rest.contains(k));
        }
        a
    } else {
        let b = lemma_greatest(rest);
        lemma_order(a, b);
        if before(a, b) {
            assert forall|k: Seq<char>| keys.contains(k) && k != b implies #[trigger] before(k, b) by {
                assert(k == a || rest.contains(k));
            }
            b
        } else {
            assert forall|k: Seq<char>| keys.contains(k) && k != a implies #[trigger] before(k, a) by {
                assert(rest.contains(k));
                if k != b {
                    assert(before(k, b));
                    lemma_order_transitive(k, b, a);
                }
            }
            a
        }
    }
}

/// Every finite set of strings has an ascending enumeration, of as many keys as
/// the set has members.
pub proof fn lemma_sorted(keys: Set<Seq<char>>)
    requires
        keys.finite(),
    ensures
        ascending(sorted(keys)),
        sorted(keys).to_set() == keys,
        sorted(keys).len() == keys.len(),
    decreases keys.len(),
{
    if keys.len() == 0 {
        let s = Seq::<Seq<char>>::empty();
        assert(s.to_set() =~= keys);
        assert(ascending(s));
    } else {
        let m = lemma_greatest(keys);
        let rest = keys.remove(m);
        lemma_sorted(rest);
        let s0 = sorted(rest);
        let s = s0.push(m);
        assert forall|i: int, j: int| 0 <= i < j < s.len() implies before(#[trigger] s[i], #[trigger] s[j]) by {
            if j == s0.len() {
                assert(s0.to_set().contains(s0[i]));
                assert(rest.contains(s[i]));
            } else {
                assert(before(s0[i], s0[j]));
            }
        }
        assert forall|k: Seq<char>| s.to_set().contains(k) == keys.contains(k) by {
            if s.contains(k) {
                let i = choose|i: int| 0 <= i < s.len() && s[i] == k;
                if i < s0.len() {
                    assert(s0.to_set().contains(s0[i]));
                }
            }
            if keys.contains(k) {
                if k == m {
                    assert(s[s0.len() as int] == k);
                } else {
                    assert(rest.contains(k));
                    assert(s0.to_set().contains(k));
                    let i = choose|i: int| 0 <= i < s0.len() && s0[i] == k;
                    assert(s[i] == k);
                }
            }
        }
        assert(s.to_set() =~= keys);
    }
    lemma_ascending_distinct(sorted(keys));
    sorted(keys).unique_seq_to_set();
}

/// Compares two strings.
pub fn place(a: &str, b: &str) -> (p: Placement)
    ensures
        p == (if a@ == b@ {
            Placement::Same
        } else if before(a@, b@) {
            Placement::Before
        } else {
            Placement::After
        }),
{
    let x: &[u8] = a.as_bytes();
    let y: &[u8] = b.as_bytes();
    proof {
        lemma_order(a@, b@);
        assert(x@.skip(0) =~= x@);
        assert(y@.skip(0) =~= y@);
    }
    let mut i: usize = 0;
    while i < x.len() && i < y.len()
        invariant
            i <= x@.len(),
            i <= y@.len(),
            x@ == encode_utf8(a@),
            y@ == encode_utf8(b@),
            x@.take(i as int) == y@.take(i as int),
            before(a@, b@) == bytes_before(x@.skip(i as int), y@.skip(i as int)),
            a@ == b@ || before(a@, b@) || before(b@, a@),
            a@ == b@ ==> !before(a@, b@),
        decreases x@.len() - i,
    {
        proof {
            let p = x@.skip(i as int);
            let q = y@.skip(i as int);
            assert(p.drop_first() =~= x@.skip(i + 1));
            assert(q.drop_first() =~= y@.skip(i + 1));
            assert(p[0] == x@[i as int] && q[0] == y@[i as int]);
        }
        if x[i] < y[i] {
            return Placement::Before;
        }
        if y[i] < x[i] {
            return Placement::After;
        }
        proof {
            assert(x@.take(i + 1) =~= x@.take(i as int).push(x@[i as int]));
            assert(y@.take(i + 1) =~= y@.take(i as int).push(y@[i as int]));
        }
        i = i + 1;
    }
    proof {
        assert(x@.len() == y@.len() ==> x@.take(i as int) =~= x@ && y@.take(i as int) =~= y@);
        if x@ == y@ {
            lemma_encoding_injective(a@, b@);
        }
    }
    if x.len() == y.len() {
        Placement::Same
    } else if i == x.len() {
        Placement::Before
    } else {
        Placement::After
    }
}

/// Whether two strings are the same.
pub fn same_text(a: &str, b: &str) -> (same: bool)
    ensures
        same == (a@ == b@),
{
    match place(a, b) {
        Placement::Same => true,
        _ => false,
    }
}

} // verus!
