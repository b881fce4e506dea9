//! Numbers as text.

use vstd::prelude::*;
use vstd::string::*;

verus! {

/// The digit of value `n` below sixteen, in lower case.
pub open spec fn hex_digit(n: int) -> char {
    if n == 0 { '0' }
    else if n == 1 { '1' }
    else if n == 2 { '2' }
    else if n == 3 { '3' }
    else if n == 4 { '4' }
    else if n == 5 { '5' }
    else if n == 6 { '6' }
    else if n == 7 { '7' }
    else if n == 8 { '8' }
    else if n == 9 { '9' }
    else if n == 10 { 'a' }
    else if n == 11 { 'b' }
    else if n == 12 { 'c' }
    else if n == 13 { 'd' }
    else if n == 14 { 'e' }
    else { 'f' }
}

/// The decimal text of `n`, without leading zeros.
pub open spec fn decimal(n: nat) -> Seq<char>
    decreases n,
{
    if n < 10 {
        seq![hex_digit(n as int)]
    } else {
        decimal(n / 10).push(hex_digit((n % 10) as int))
    }
}

/// `n` zeros.
pub open spec fn zeros(n: nat) -> Seq<char> {
    Seq::new(n, |i: int| '0')
}

/// The decimal text of `n`, filled with zeros on the left up to `width` digits.
pub open spec fn padded(n: nat, width: nat) -> Seq<char> {
    if decimal(n).len() < width {
        zeros((width - decimal(n).len()) as nat) + decimal(n)
    } else {
        decimal(n)
    }
}

/// Whether `c` is one of the ten decimal digits.
pub open spec fn is_digit(c: char) -> bool {
    '0' <= c <= '9'
}

/// Different values below sixteen have different digits.
pub proof fn lemma_hex_digit_injective(a: int, b: int)
    requires
        0 <= a < 16,
        0 <= b < 16,
        hex_digit(a) == hex_digit(b),
    ensures
        a == b,
{
}

/// Decimal text is made of digits, and is not empty.
pub proof fn lemma_decimal_digits(n: nat)
    ensures
        decimal(n).len() > 0,
        forall|i: int| 0 <= i < decimal(n).len() ==> is_digit(#[trigger] decimal(n)[i]),
    decreases n,
{
    if n >= 10 {
        lemma_decimal_digits(n / 10);
    }
}

/// Different numbers have different decimal texts.
pub proof fn lemma_decimal_injective(a: nat, b: nat)
    requires
        decimal(a) == decimal(b),
    ensures
        a == b,
    decreases a,
{
    lemma_decimal_digits(a);
    lemma_decimal_digits(b);
    let x = decimal(a);
    let y = decimal(b);
    assert(x.last() == hex_digit((a % 10) as int));
    assert(y.last() == hex_digit((b % 10) as int));
    lemma_hex_digit_injective((a % 10) as int, (b % 10) as int);
    if a >= 10 {
        lemma_decimal_digits(a / 10);
        assert(x.len() >= 2);
        assert(b >= 10);
        assert(x.drop_last() =~= decimal(a / 10));
        assert(y.drop_last() =~= decimal(b / 10));
        lemma_decimal_injective(a / 10, b / 10);
    } else if b >= 10 {
        lemma_decimal_digits(b / 10);
        assert(y.len() >= 2);
    }
}

/// Different numbers of the same width class stay different when padded: the
/// padded text determines the number.
pub proof fn lemma_padded_injective(a: nat, b: nat, width: nat)
    requires
        padded(a, width) == padded(b, width),
    ensures
        a == b,
{
    lemma_padded_value(a, width);
    lemma_padded_value(b, width);
}

/// The number that a decimal text denotes.
pub open spec fn value(s: Seq<char>) -> int
    decreases s.len(),
{
    if s.len() == 0 {
        0
    } else {
        value(s.drop_last()) * 10 + (s.last() as int - '0' as int)
    }
}

pub proof fn lemma_decimal_value(n: nat)
    ensures
        value(decimal(n)) == n,
    decreases n,
{
    let s = decimal(n);
    if n < 10 {
        assert(s.drop_last() =~= Seq::<char>::empty());
        assert(value(s.drop_last()) == 0);
    } else {
        lemma_decimal_value(n / 10);
        assert(s.drop_last() =~= decimal(n / 10));
    }
}

proof fn lemma_zeros_value(k: nat, s: Seq<char>)
    ensures
        value(zeros(k) + s) == value(s),
    decreases s.len(), k,
{
    if s.len() > 0 {
        let t = zeros(k) + s;
        assert(t.drop_last() =~= zeros(k) + s.drop_last());
        lemma_zeros_value(k, s.drop_last());
    } else if k > 0 {
        let t = zeros(k) + s;
        assert(t.drop_last() =~= zeros((k - 1) as nat) + s);
        lemma_zeros_value((k - 1) as nat, s);
    } else {
        assert(zeros(k) + s =~= s);
    }
}

proof fn lemma_padded_value(n: nat, width: nat)
    ensures
        value(padded(n, width)) == n,
{
    lemma_decimal_value(n);
    if decimal(n).len() < width {
        lemma_zeros_value((width - decimal(n).len()) as nat, decimal(n));
    }
}

/// The text of one digit.
pub fn hex_digit_text(d: u8) -> (s: &'static str)
    requires
        d < 16,
    ensures
        s@ == seq![hex_digit(d as int)],
{
    proof {
        reveal_strlit("0");
        reveal_strlit("1");
        reveal_strlit("2");
        reveal_strlit("3");
        reveal_strlit("4");
        reveal_strlit("5");
        reveal_strlit("6");
        reveal_strlit("7");
        reveal_strlit("8");
        reveal_strlit("9");
        reveal_strlit("a");
        reveal_strlit("b");
        reveal_strlit("c");
        reveal_strlit("d");
        reveal_strlit("e");
        reveal_strlit("f");
    }
    let s: &'static str = match d {
        0 => "0",
        1 => "1",
        2 => "2",
        3 => "3",
        4 => "4",
        5 => "5",
        6 => "6",
        7 => "7",
        8 => "8",
        9 => "9",
        10 => "a",
        11 => "b",
        12 => "c",
        13 => "d",
        14 => "e",
        _ => "f",
    };
    assert(s@ =~= seq![hex_digit(d as int)]);
    s
}

/// Appends the decimal text of `n`.
pub fn append_decimal(out: &mut String, n: u128)
    ensures
        final(out)@ == old(out)@ + decimal(n as nat),
    decreases n,
{
    let ghost start = out@;
    if n >= 10 {
        append_decimal(out, n / 10);
    }
    let d: u8 = (n % 10) as u8;
    out.append(hex_digit_text(d));
    proof {
        if n >= 10 {
            assert(out@ =~= start + decimal(n as nat));
        } else {
            assert(out@ =~= start + decimal(n as nat));
        }
    }
}

/// The decimal text of `n`.
pub fn decimal_text(n: u128) -> (s: String)
    ensures
        s@ == decimal(n as nat),
{
    let mut out: String = String::new();
    append_decimal(&mut out, n);
    assert(out@ =~= decimal(n as nat));
    out
}

/// The decimal text of `n`, filled with zeros on the left up to `width` digits.
pub fn padded_text(n: u64, width: usize) -> (s: String)
    ensures
        s@ == padded(n as nat, width as nat),
{
    let digits: String = decimal_text(n as u128);
    let mut out: String = String::new();
    let have: usize = digits.as_str().unicode_len();
    if have < width {
        let mut i: usize = have;
        assert(out@ =~= zeros(0));
        while i < width
            invariant
                have <= i <= width,
                have == digits@.len(),
                out@ == zeros((i - have) as nat),
            decreases width - i,
        {
            out.append("0");
            proof {
                reveal_strlit("0");
                assert(out@ =~= zeros((i + 1 - have) as nat));
            }
            i = i + 1;
        }
    }
    let ghost lead = out@;
    out.append(digits.as_str());
    proof {
        if have >= width {
            assert(out@ =~= digits@);
        }
    }
    out
}

/// Why a text is no number.
#[derive(Debug, Clone, Copy, PartialEq, Eq, Structural)]
pub enum CountError {
    /// There is nothing to read.
    Empty,
    /// A character is no digit.
    InvalidDigit,
    /// The number does not fit a machine word.
    TooLarge,
}

/// The first thing that is wrong with a text of decimal digits, read from left to
/// right.
pub open spec fn first_mistake(digits: Seq<char>) -> Option<CountError>
    decreases digits.len(),
{
    if digits.len() == 0 {
        None
    } else {
        match first_mistake(digits.drop_last()) {
            Some(error) => Some(error),
            None => if !is_digit(digits.last()) {
                Some(CountError::InvalidDigit)
            } else if value(digits) > usize::MAX {
                Some(CountError::TooLarge)
            } else {
                None
            },
        }
    }
}

/// The digits of a number: a plus sign before them does not count.
pub open spec fn unsigned(s: Seq<char>) -> Seq<char> {
    if s.len() > 1 && s[0] == '+' {
        s.drop_first()
    } else {
        s
    }
}

/// The number that a text denotes, or why it denotes none: decimal digits, with
/// or without a plus sign before them.
pub open spec fn count_of(s: Seq<char>) -> Result<usize, CountError> {
    if s.len() == 0 {
        Err(CountError::Empty)
    } else {
        match first_mistake(unsigned(s)) {
            Some(error) => Err(error),
            None => Ok(value(unsigned(s)) as usize),
        }
    }
}

/// What is wrong with a text that is no number.
pub open spec fn count_error_text(error: CountError) -> Seq<char> {
    match error {
        CountError::Empty => "cannot parse integer from empty string"@,
        CountError::InvalidDigit => "invalid digit found in string"@,
        CountError::TooLarge => "number too large to fit in target type"@,
    }
}

impl CountError {
    /// What is wrong.
    pub fn message(&self) -> (text: &'static str)
        ensures
            text@ == count_error_text(*self),
    {
        match self {
            CountError::Empty => "cannot parse integer from empty string",
            CountError::InvalidDigit => "invalid digit found in string",
            CountError::TooLarge => "number too large to fit in target type",
        }
    }
}

/// A longer text of digits denotes no smaller number.
proof fn lemma_value_grows(s: Seq<char>, i: int)
    requires
        0 <= i <= s.len(),
        forall|k: int| 0 <= k < s.len() ==> is_digit(#[trigger] s[k]),
    ensures
        0 <= value(s.take(i)) <= value(s),
    decreases s.len(),
{
    if s.len() == 0 {
        assert(s.take(i) =~= s);
    } else if i == s.len() {
        assert(s.take(i) =~= s);
        lemma_value_grows(s.drop_last(), s.len() - 1);
        assert(s.drop_last().take(s.len() - 1) =~= s.drop_last());
        assert(is_digit(s.last()));
    } else {
        lemma_value_grows(s.drop_last(), i);
        assert(s.drop_last().take(i) =~= s.take(i));
        assert(is_digit(s.last()));
    }
}

/// What is wrong with the start of a text is what is wrong with the whole.
pub proof fn lemma_mistake_stays(digits: Seq<char>, k: int)
    requires
        0 <= k <= digits.len(),
        first_mistake(digits.take(k)) is Some,
    ensures
        first_mistake(digits) == first_mistake(digits.take(k)),
    decreases digits.len(),
{
    if k == digits.len() {
        assert(digits.take(k) =~= digits);
    } else {
        assert(digits.drop_last().take(k) =~= digits.take(k));
        lemma_mistake_stays(digits.drop_last(), k);
    }
}

proof fn lemma_no_mistake(digits: Seq<char>)
    ensures
        first_mistake(digits) is None <==> (forall|i: int|
            0 <= i < digits.len() ==> is_digit(#[trigger] digits[i])) && value(digits)
            <= usize::MAX,
    decreases digits.len(),
{
    if digits.len() > 0 {
        let start = digits.drop_last();
        lemma_no_mistake(start);
        assert(digits =~= start.push(digits.last()));
        if forall|i: int| 0 <= i < digits.len() ==> is_digit(#[trigger] digits[i]) {
            lemma_value_grows(digits, digits.len() - 1);
            assert(digits.take(digits.len() - 1) =~= start);
            assert forall|i: int| 0 <= i < start.len() implies is_digit(#[trigger] start[i]) by {
                assert(digits[i] == start[i]);
            }
            assert(is_digit(digits[digits.len() - 1]));
        }
        if first_mistake(digits) is None {
            assert forall|i: int| 0 <= i < digits.len() implies is_digit(#[trigger] digits[i]) by {
                if i < start.len() {
                    assert(is_digit(start[i]));
                }
            }
        }
    }
}

/// A text is a number exactly if it is made of digits, after a plus sign or not,
/// and what they denote fits a machine word. It is then that number.
pub proof fn counts_are_the_numbers_that_fit(s: Seq<char>)
    ensures
        count_of(s) is Ok <==> s.len() > 0 && (forall|i: int|
            0 <= i < unsigned(s).len() ==> is_digit(#[trigger] unsigned(s)[i])) && value(
            unsigned(s),
        ) <= usize::MAX,
        count_of(s) is Ok ==> count_of(s)->Ok_0 == value(unsigned(s)),
{
    lemma_no_mistake(unsigned(s));
    if count_of(s) is Ok {
        lemma_value_grows(unsigned(s), 0);
    }
}

/// Reads a number, as `usize` reads it from a text.
pub fn parse_count(text: &str) -> (n: Result<usize, CountError>)
    ensures
        n == count_of(text@),
{
    let len: usize = text.unicode_len();
    if len == 0 {
        return Err(CountError::Empty);
    }
    let start: usize = if len > 1 && text.get_char(0) == '+' { 1 } else { 0 };
    let ghost digits = unsigned(text@);
    assert(digits =~= text@.skip(start as int));
    let mut n: usize = 0;
    let mut i: usize = start;
    assert(digits.take(0) =~= Seq::<char>::empty());
    while i < len
        invariant
            start <= i <= len,
            len == text@.len(),
            len > 0,
            digits == unsigned(text@),
            digits == text@.skip(start as int),
            first_mistake(digits.take(i - start)) is None,
            n == value(digits.take(i - start)),
        decreases len - i,
    {
        let c: char = text.get_char(i);
        let ghost next = digits.take(i - start + 1);
        proof {
            assert(digits[i - start] == c);
            assert(next.drop_last() =~= digits.take(i - start));
            assert(next.last() == c);
            if first_mistake(next) is Some {
                lemma_mistake_stays(digits, i - start + 1);
            }
        }
        if !(c >= '0' && c <= '9') {
            return Err(CountError::InvalidDigit);
        }
        let d: usize = (c as u32 - '0' as u32) as usize;
        assert(value(next) == n * 10 + d);
        match n.checked_mul(10) {
            Some(tens) => match tens.checked_add(d) {
                Some(sum) => {
                    n = sum;
                },
                None => {
                    return Err(CountError::TooLarge);
                },
            },
            None => {
                return Err(CountError::TooLarge);
            },
        }
        i = i + 1;
    }
    assert(digits.take(i - start) =~= digits);
    Ok(n)
}

/// Texts one after the other, with `separator` between them.
pub open spec fn joined_text(parts: Seq<Seq<char>>, separator: Seq<char>) -> Seq<char>
    decreases parts.len(),
{
    if parts.len() == 0 {
        Seq::empty()
    } else if parts.len() == 1 {
        parts[0]
    } else {
        joined_text(parts.drop_last(), separator) + separator + parts.last()
    }
}

/// What each of a sequence of strings holds.
pub open spec fn texts(strings: Seq<String>) -> Seq<Seq<char>> {
    Seq::new(strings.len(), |i: int| strings[i]@)
}

/// Joins strings with `separator` between them.
pub fn join(parts: &Vec<String>, separator: &str) -> (s: String)
    ensures
        s@ == joined_text(texts(parts@), separator@),
{
    let mut out: String = String::new();
    let mut i: usize = 0;
    assert(out@ =~= joined_text(texts(parts@).take(0), separator@));
    while i < parts.len()
        invariant
            i <= parts@.len(),
            out@ == joined_text(texts(parts@).take(i as int), separator@),
        decreases parts@.len() - i,
    {
        proof {
            let next = texts(parts@).take(i + 1);
            assert(next.drop_last() =~= texts(parts@).take(i as int));
            assert(next.last() == parts@[i as int]@);
        }
        let ghost before_part = out@;
        if i > 0 {
            out.append(separator);
        }
        out.append(parts[i].as_str());
        proof {
            let next = texts(parts@).take(i + 1);
            if i == 0 {
                assert(out@ =~= next[0]);
            } else {
                assert(out@ =~= before_part + separator@ + parts@[i as int]@);
            }
        }
        i = i + 1;
    }
    assert(texts(parts@).take(i as int) =~= texts(parts@));
    out
}

/// The strings from an index on.
pub fn texts_from(strings: &Vec<String>, start: usize) -> (rest: Vec<String>)
    requires
        start <= strings@.len(),
    ensures
        texts(rest@) == texts(strings@).skip(start as int),
{
    let mut rest: Vec<String> = Vec::new();
    let mut i: usize = start;
    while i < strings.len()
        invariant
            start <= i <= strings@.len(),
            rest@.len() == i - start,
            forall|j: int| 0 <= j < rest@.len() ==> (#[trigger] rest@[j])@ == strings@[start + j]@,
        decreases strings@.len() - i,
    {
        rest.push(strings[i].clone());
        i = i + 1;
    }
    assert(texts(rest@) =~= texts(strings@).skip(start as int));
    rest
}

/// Whether a character is white space, by Unicode's property of that name.
pub open spec fn is_space(c: char) -> bool {
    ||| '\u{9}' <= c <= '\u{d}'
    ||| c == ' '
    ||| c == '\u{85}'
    ||| c == '\u{a0}'
    ||| c == '\u{1680}'
    ||| '\u{2000}' <= c <= '\u{200a}'
    ||| c == '\u{2028}'
    ||| c == '\u{2029}'
    ||| c == '\u{202f}'
    ||| c == '\u{205f}'
    ||| c == '\u{3000}'
}

/// A text without the white space at its end.
pub open spec fn trimmed_end(s: Seq<char>) -> Seq<char>
    decreases s.len(),
{
    if s.len() > 0 && is_space(s.last()) {
        trimmed_end(s.drop_last())
    } else {
        s
    }
}

/// A text without the white space at its start and at its end.
pub open spec fn trimmed(s: Seq<char>) -> Seq<char>
    decreases s.len(),
{
    if s.len() > 0 && is_space(s[0]) {
        trimmed(s.drop_first())
    } else {
        trimmed_end(s)
    }
}

fn space(c: char) -> (b: bool)
    ensures
        b == is_space(c),
{
    (c >= '\u{9}' && '\u{d}' >= c) || c == ' ' || c == '\u{85}' || c == '\u{a0}' || c == '\u{1680}'
        || (c >= '\u{2000}' && '\u{200a}' >= c) || c == '\u{2028}' || c == '\u{2029}'
        || c == '\u{202f}' || c == '\u{205f}' || c == '\u{3000}'
}

/// The text without the white space at its start and at its end.
pub fn trim(text: &str) -> (t: &str)
    ensures
        t@ == trimmed(text@),
{
    let len: usize = text.unicode_len();
    let mut start: usize = 0;
    assert(text@.skip(0) =~= text@);
    while start < len && space(text.get_char(start))
        invariant
            start <= len,
            len == text@.len(),
            trimmed(text@) == trimmed(text@.skip(start as int)),
        ensures
            start <= len,
            trimmed(text@) == trimmed_end(text@.skip(start as int)),
        decreases len - start,
    {
        assert(text@.skip(start as int).drop_first() =~= text@.skip(start + 1));
        start = start + 1;
    }
    let mut end: usize = len;
    assert(text@.subrange(start as int, end as int) =~= text@.skip(start as int));
    while end > start && space(text.get_char(end - 1))
        invariant
            start <= end <= len,
            len == text@.len(),
            trimmed(text@) == trimmed_end(text@.subrange(start as int, end as int)),
        ensures
            start <= end <= len,
            trimmed(text@) == text@.subrange(start as int, end as int),
        decreases end,
    {
        assert(text@.subrange(start as int, end as int).drop_last() =~= text@.subrange(
            start as int,
            end - 1,
        ));
        end = end - 1;
    }
    text.substring_char(start, end)
}

} // verus!
