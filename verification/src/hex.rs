//! Bytes as lower-case hexadecimal text.

use vstd::prelude::*;
use vstd::string::*;
use crate::text::{hex_digit, hex_digit_text, lemma_hex_digit_injective};

verus! {

/// Two lower-case hexadecimal digits for each byte, the high one first.
pub open spec fn hex(bytes: Seq<u8>) -> Seq<char> {
    Seq::new(
        2 * bytes.len(),
        |i: int|
            if i % 2 == 0 {
                hex_digit(bytes[i / 2] as int / 16)
            } else {
                hex_digit(bytes[i / 2] as int % 16)
            },
    )
}

proof fn lemma_hex_at(a: Seq<u8>, i: int)
    requires
        0 <= i < a.len(),
    ensures
        hex(a)[2 * i] == hex_digit(a[i] as int / 16),
        hex(a)[2 * i + 1] == hex_digit(a[i] as int % 16),
{
    assert((2 * i) / 2 == i && (2 * i) % 2 == 0);
    assert((2 * i + 1) / 2 == i && (2 * i + 1) % 2 == 1);
}

/// Different byte strings have different hexadecimal texts.
pub proof fn hex_injective(a: Seq<u8>, b: Seq<u8>)
    requires
        hex(a) == hex(b),
    ensures
        a == b,
{
    assert(hex(a).len() == 2 * a.len());
    assert(hex(b).len() == 2 * b.len());
    assert forall|i: int| 0 <= i < a.len() implies a[i] == b[i] by {
        lemma_hex_at(a, i);
        lemma_hex_at(b, i);
        lemma_hex_digit_injective(a[i] as int / 16, b[i] as int / 16);
        lemma_hex_digit_injective(a[i] as int % 16, b[i] as int % 16);
    }
    assert(a =~= b);
}

/// A lower-case hexadecimal digit.
pub open spec fn is_hex_digit(c: char) -> bool {
    '0' <= c <= '9' || 'a' <= c <= 'f'
}

/// The shape of a digest of thirty-two bytes: sixty-four lower-case hexadecimal
/// digits.
pub open spec fn is_digest_text(s: Seq<char>) -> bool {
    &&& s.len() == 64
    &&& forall|i: int| 0 <= i < s.len() ==> is_hex_digit(#[trigger] s[i])
}

/// Thirty-two bytes make the text of a digest.
pub proof fn lemma_digest_text(bytes: Seq<u8>)
    requires
        bytes.len() == 32,
    ensures
        is_digest_text(hex(bytes)),
{
    assert forall|i: int| 0 <= i < hex(bytes).len() implies is_hex_digit(#[trigger] hex(bytes)[i]) by {
        let n = if i % 2 == 0 {
            bytes[i / 2] as int / 16
        } else {
            bytes[i / 2] as int % 16
        };
        assert(hex(bytes)[i] == hex_digit(n));
    }
}

/// Encodes `bytes` as lower-case hexadecimal text.
pub fn encode(bytes: &[u8]) -> (s: String)
    ensures
        s@ == hex(bytes@),
{
    let mut out: String = String::new();
    let mut i: usize = 0;
    assert(out@ =~= hex(bytes@.take(0)));
    while i < bytes.len()
        invariant
            i <= bytes@.len(),
            out@ == hex(bytes@.take(i as int)),
        decreases bytes@.len() - i,
    {
        let b: u8 = bytes[i];
        out.append(hex_digit_text(b / 16));
        out.append(hex_digit_text(b % 16));
        proof {
            let next = hex(bytes@.take(i + 1));
            assert(next.len() == 2 * i + 2);
            assert forall|k: int| 0 <= k < next.len() implies out@[k] == next[k] by {
                if k < 2 * i {
                    assert(out@[k] == hex(bytes@.take(i as int))[k]);
                }
            }
            assert(out@ =~= next);
        }
        i = i + 1;
    }
    assert(bytes@.take(i as int) =~= bytes@);
    out
}

} // verus!
