//! What holds of texts and of numbers written as text.

use vstd::prelude::*;
use crate::hex::hex;
use crate::order::bytes_before;
use crate::text::{count_of, decimal, first_mistake, is_digit, is_space, joined_text,
    lemma_decimal_digits, lemma_decimal_value, padded, texts, trimmed, trimmed_end, unsigned, value,
    zeros, CountError};

verus! {

/// Whether `part` stands somewhere in `text`.
pub open spec fn shows(text: Seq<char>, part: Seq<char>) -> bool {
    exists|i: int|
        0 <= i && i + part.len() <= text.len() && #[trigger] text.subrange(i, i + part.len()) == part
}

/// Whether the number `n` stands somewhere in `text`, with `label` before it and
/// `after` behind it.
pub open spec fn prints(text: Seq<char>, label: Seq<char>, n: nat, after: Seq<char>) -> bool {
    shows(text, label + decimal(n) + after)
}

pub proof fn lemma_shows(text: Seq<char>, start: Seq<char>, part: Seq<char>, rest: Seq<char>)
    requires
        text =~= start + part + rest,
    ensures
        shows(text, part),
{
    let i = start.len() as int;
    assert(text.subrange(i, i + part.len()) =~= part);
}

/// Where a text goes on after a label and a figure, the two stand in it.
pub proof fn lemma_part(
    start: Seq<char>,
    label: Seq<char>,
    figure: Seq<char>,
    after: Seq<char>,
    whole: Seq<char>,
)
    requires
        (start + label + figure + after).is_prefix_of(whole),
    ensures
        shows(whole, label + figure + after),
        (start + label + figure).is_prefix_of(whole),
        (start + label).is_prefix_of(whole),
        start.is_prefix_of(whole),
{
    let n = (start + label + figure + after).len() as int;
    let all = start + label + figure + after;
    assert forall|i: int| 0 <= i < n implies all[i] == whole[i] by {
        assert(all[i] == whole.subrange(0, n)[i]);
    }
    assert(whole =~= start + (label + figure + after) + whole.skip(n));
    lemma_shows(whole, start, label + figure + after, whole.skip(n));
    assert((start + label + figure) =~= whole.subrange(0, (start + label + figure).len() as int));
    assert((start + label) =~= whole.subrange(0, (start + label).len() as int));
    assert(start =~= whole.subrange(0, start.len() as int));
}

/// The decimal text of a number denotes that number, is made of digits and starts
/// with no zero but that of 0 itself.
pub proof fn decimal_denotes_its_number(n: nat)
    ensures
        value(decimal(n)) == n,
        decimal(n).len() > 0,
        forall|i: int| 0 <= i < decimal(n).len() ==> '0' <= #[trigger] decimal(n)[i] <= '9',
        decimal(n)[0] == '0' ==> n == 0,
    decreases n,
{
    lemma_decimal_value(n);
    lemma_decimal_digits(n);
    assert forall|i: int| 0 <= i < decimal(n).len() implies '0' <= #[trigger] decimal(n)[i] <= '9' by {
        assert(is_digit(decimal(n)[i]));
    }
    if n >= 10 {
        decimal_denotes_its_number(n / 10);
        assert(decimal(n)[0] == decimal(n / 10)[0]);
    }
}

/// A digit more is ten times the number and the digit.
pub proof fn digits_stand_for_tens(s: Seq<char>, d: nat, n: nat)
    requires
        d < 10,
        n > 0,
    ensures
        value(Seq::empty()) == 0,
        value(s.push(('0' as int + d) as char)) == value(s) * 10 + d,
        decimal(d) == seq![('0' as int + d) as char],
        decimal(n * 10 + d) == decimal(n).push(('0' as int + d) as char),
{
    let c = ('0' as int + d) as char;
    assert(s.push(c).drop_last() =~= s);
    assert((n * 10 + d) / 10 == n && (n * 10 + d) % 10 == d);
    assert(decimal(d) =~= seq![c]);
}

/// Padding puts zeros before a number, as many as are missing, and nothing else.
pub proof fn padding_fills_with_zeros(n: nat, width: nat)
    ensures
        padded(n, width).len() == if decimal(n).len() < width {
            width
        } else {
            decimal(n).len()
        },
        padded(n, width).skip(padded(n, width).len() - decimal(n).len()) == decimal(n),
        forall|i: int|
            0 <= i < padded(n, width).len() - decimal(n).len() ==> #[trigger] padded(n, width)[i]
                == '0',
{
    let p = padded(n, width);
    if decimal(n).len() < width {
        let z = zeros((width - decimal(n).len()) as nat);
        assert(p == z + decimal(n));
    }
    assert(p.skip(p.len() - decimal(n).len()) =~= decimal(n));
}

/// Joining one part more puts the separator and the part at the end.
pub proof fn joining_adds_part_by_part(
    parts: Seq<Seq<char>>,
    part: Seq<char>,
    separator: Seq<char>,
)
    ensures
        joined_text(Seq::empty(), separator) == Seq::<char>::empty(),
        joined_text(seq![part], separator) == part,
        parts.len() > 0 ==> joined_text(parts.push(part), separator) == joined_text(parts, separator)
            + separator + part,
{
    assert(parts.push(part).drop_last() =~= parts);
}

/// What a list of strings stands for has each string in its place.
pub proof fn texts_are_seen_whole(strings: Seq<String>, i: int)
    ensures
        texts(strings).len() == strings.len(),
        0 <= i < strings.len() ==> texts(strings)[i] == strings[i]@,
{
}

proof fn lemma_trimmed_end(s: Seq<char>) -> (j: int)
    ensures
        0 <= j <= s.len(),
        trimmed_end(s) == s.take(j),
        forall|k: int| j <= k < s.len() ==> is_space(#[trigger] s[k]),
        j > 0 ==> !is_space(s[j - 1]),
    decreases s.len(),
{
    if s.len() > 0 && is_space(s.last()) {
        let j = lemma_trimmed_end(s.drop_last());
        assert(s.drop_last().take(j) =~= s.take(j));
        assert forall|k: int| j <= k < s.len() implies is_space(#[trigger] s[k]) by {
            if k < s.len() - 1 {
                assert(s.drop_last()[k] == s[k]);
            }
        }
        j
    } else {
        assert(s.take(s.len() as int) =~= s);
        s.len() as int
    }
}

/// Whether `s` from `i` to `j` is all of it but white space around it.
pub open spec fn is_core(s: Seq<char>, i: int, j: int) -> bool {
    &&& 0 <= i <= j <= s.len()
    &&& forall|k: int| 0 <= k < i ==> is_space(#[trigger] s[k])
    &&& forall|k: int| j <= k < s.len() ==> is_space(#[trigger] s[k])
    &&& i < j ==> !is_space(s[i]) && !is_space(s[j - 1])
}

/// Trimming takes white space off both ends of a text, all of it, and nothing else.
pub proof fn trimming_takes_off_white_space(s: Seq<char>)
    ensures
        exists|i: int, j: int| #[trigger] is_core(s, i, j) && trimmed(s) == s.subrange(i, j),
    decreases s.len(),
{
    if s.len() > 0 && is_space(s[0]) {
        let rest = s.drop_first();
        trimming_takes_off_white_space(rest);
        let (i, j) = choose|i: int, j: int| #[trigger]
            is_core(rest, i, j) && trimmed(rest) == rest.subrange(i, j);
        assert(rest.subrange(i, j) =~= s.subrange(i + 1, j + 1));
        assert forall|k: int| 0 <= k < i + 1 implies is_space(#[trigger] s[k]) by {
            if k > 0 {
                assert(rest[k - 1] == s[k]);
            }
        }
        assert forall|k: int| j + 1 <= k < s.len() implies is_space(#[trigger] s[k]) by {
            assert(rest[k - 1] == s[k]);
        }
        if i < j {
            assert(rest[i] == s[i + 1] && rest[j - 1] == s[j]);
        }
        assert(is_core(s, i + 1, j + 1));
    } else {
        let j = lemma_trimmed_end(s);
        assert(s.take(j) =~= s.subrange(0, j));
        assert(is_core(s, 0, j));
    }
}

/// Which characters are white space.
pub proof fn white_space_is_unicode_white_space(c: char)
    ensures
        is_space(c) <==> {
            ||| 0x9 <= c as int <= 0xd
            ||| c as int == 0x20
            ||| c as int == 0x85
            ||| c as int == 0xa0
            ||| c as int == 0x1680
            ||| 0x2000 <= c as int <= 0x200a
            ||| c as int == 0x2028
            ||| c as int == 0x2029
            ||| c as int == 0x202f
            ||| c as int == 0x205f
            ||| c as int == 0x3000
        },
{
}

/// Whether the first `k` characters are digits of a number that fits, and the next
/// one spoils it.
pub open spec fn spoils(digits: Seq<char>, k: int) -> bool {
    &&& 0 <= k < digits.len()
    &&& forall|j: int| 0 <= j < k ==> '0' <= #[trigger] digits[j] <= '9'
    &&& forall|j: int| 0 <= j <= k ==> value(#[trigger] digits.take(j)) <= usize::MAX
}

proof fn lemma_spoils(digits: Seq<char>, k: int)
    requires
        spoils(digits, k),
    ensures
        first_mistake(digits.take(k)) is None,
    decreases k,
{
    let t = digits.take(k);
    if k > 0 {
        assert(spoils(digits, k - 1));
        lemma_spoils(digits, k - 1);
        assert(t.drop_last() =~= digits.take(k - 1));
        assert(t.last() == digits[k - 1]);
        assert(value(digits.take(k)) <= usize::MAX);
    } else {
        assert(t =~= Seq::empty());
    }
}

/// Why a text is no number: there is nothing to read, or the first character that
/// spoils it is no digit, or is one digit too many.
pub proof fn mistakes_are_told_apart(s: Seq<char>, k: int)
    ensures
        count_of(s) == Err::<usize, CountError>(CountError::Empty) <==> s.len() == 0,
        s.len() > 0 && spoils(unsigned(s), k) && !('0' <= unsigned(s)[k] <= '9') ==> count_of(s)
            == Err::<usize, CountError>(CountError::InvalidDigit),
        s.len() > 0 && spoils(unsigned(s), k) && '0' <= unsigned(s)[k] <= '9' && value(
            unsigned(s).take(k + 1),
        ) > usize::MAX ==> count_of(s) == Err::<usize, CountError>(CountError::TooLarge),
{
    let digits = unsigned(s);
    if spoils(digits, k) {
        lemma_spoils(digits, k);
        let next = digits.take(k + 1);
        assert(next.drop_last() =~= digits.take(k));
        assert(next.last() == digits[k]);
        if first_mistake(next) is Some {
            crate::text::lemma_mistake_stays(digits, k + 1);
        }
    }
    lemma_never_empty(digits);
}

proof fn lemma_never_empty(digits: Seq<char>)
    ensures
        first_mistake(digits) != Some(CountError::Empty),
    decreases digits.len(),
{
    if digits.len() > 0 {
        lemma_never_empty(digits.drop_last());
    }
}

/// A plus sign before a number does not count, and nothing else is left out.
pub proof fn only_a_leading_plus_is_left_out(s: Seq<char>)
    ensures
        s.len() > 0 ==> unsigned(seq!['+'] + s) == s,
        s.len() > 0 && s[0] != '+' ==> unsigned(s) == s,
        s.len() <= 1 ==> unsigned(s) == s,
{
    assert((seq!['+'] + s).drop_first() =~= s);
}

/// The value of a hexadecimal digit.
pub open spec fn digit_value(c: char) -> int {
    if '0' <= c <= '9' {
        c as int - '0' as int
    } else {
        c as int - 'a' as int + 10
    }
}

/// Each byte is written as two digits, the one for the sixteens first.
pub proof fn hexadecimal_denotes_its_bytes(bytes: Seq<u8>, i: int)
    requires
        0 <= i < bytes.len(),
    ensures
        hex(bytes).len() == 2 * bytes.len(),
        digit_value(hex(bytes)[2 * i]) * 16 + digit_value(hex(bytes)[2 * i + 1]) == bytes[i],
        '0' <= hex(bytes)[2 * i] <= '9' || 'a' <= hex(bytes)[2 * i] <= 'f',
        '0' <= hex(bytes)[2 * i + 1] <= '9' || 'a' <= hex(bytes)[2 * i + 1] <= 'f',
{
    assert((2 * i) / 2 == i && (2 * i) % 2 == 0);
    assert((2 * i + 1) / 2 == i && (2 * i + 1) % 2 == 1);
    let b = bytes[i] as int;
    assert(b == (b / 16) * 16 + b % 16);
    assert(0 <= b / 16 < 16);
}

/// Bytes are ordered by the first in which they differ, and a start of a string
/// comes before the string.
pub proof fn bytes_are_ordered_by_the_first_difference(a: Seq<u8>, b: Seq<u8>, k: int)
    requires
        0 <= k <= a.len(),
        k <= b.len(),
        a.take(k) == b.take(k),
    ensures
        k < a.len() && k < b.len() && a[k] != b[k] ==> bytes_before(a, b) == (a[k] < b[k]),
        k == a.len() ==> bytes_before(a, b) == (a.len() < b.len()),
        k == b.len() ==> !bytes_before(a, b),
    decreases k,
{
    if k > 0 {
        let x = a.drop_first();
        let y = b.drop_first();
        assert(a.take(k)[0] == a[0] && b.take(k)[0] == b[0]);
        assert(x.take(k - 1) =~= a.take(k).drop_first());
        assert(y.take(k - 1) =~= b.take(k).drop_first());
        bytes_are_ordered_by_the_first_difference(x, y, k - 1);
        if k < a.len() && k < b.len() {
            assert(x[k - 1] == a[k] && y[k - 1] == b[k]);
        }
    }
}

} // verus!
