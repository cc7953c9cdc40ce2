//! Text the library reads and writes: decimal numbers and padded character fields.

use vstd::prelude::*;

verus! {

/// `String::push`: appends one character to the end.
#[verifier::external_body]
pub(crate) fn push_char(s: &mut String, c: char)
    ensures
        final(s)@ == old(s)@.push(c),
{
    s.push(c)
}

/// The characters of a left-aligned field, the spaces that pad it on the right dropped.
pub open spec fn padded_field(field: Seq<u8>) -> Seq<char>
    decreases field.len(),
{
    if field.len() > 0 && field.last() == 0x20 {
        padded_field(field.drop_last())
    } else {
        field.map_values(|b: u8| b as char)
    }
}

/// Read a left-aligned field padded with spaces.
pub fn read_padded_field(field: &[u8]) -> (out: String)
    ensures
        out@ == padded_field(field@),
{
    let mut end: usize = field.len();
    assert(field@.take(end as int) =~= field@);
    while end > 0 && field[end - 1] == 0x20
        invariant
            end <= field@.len(),
            padded_field(field@.take(end as int)) == padded_field(field@),
        decreases end,
    {
        assert(field@.take(end as int).drop_last() =~= field@.take(end - 1));
        end = end - 1;
    }
    let mut out = String::new();
    for i in 0..end
        invariant
            end <= field@.len(),
            out@ == field@.take(i as int).map_values(|b: u8| b as char),
    {
        push_char(&mut out, field[i] as char);
        assert(out@ =~= field@.take(i + 1).map_values(|b: u8| b as char));
    }
    out
}

/// Whether `c` is a decimal digit.
pub open spec fn is_digit(c: char) -> bool {
    '0' <= c <= '9'
}

/// The character of digit `d`.
pub open spec fn digit_char(d: int) -> char {
    (0x30 + d) as char
}

/// What digits are worth as a decimal number.
pub open spec fn decimal_value(digits: Seq<char>) -> nat
    decreases digits.len(),
{
    if digits.len() == 0 {
        0
    } else {
        10 * decimal_value(digits.drop_last()) + (digits.last() as int - 0x30) as nat
    }
}

/// Whether `s` is at least one character, and only decimal digits.
pub open spec fn is_digits(s: Seq<char>) -> bool {
    s.len() > 0 && forall|i: int| 0 <= i < s.len() ==> is_digit(#[trigger] s[i])
}

/// A text without the plus sign that it begins with, if it does.
pub open spec fn without_plus(s: Seq<char>) -> Seq<char> {
    if s.len() > 0 && s[0] == '+' {
        s.skip(1)
    } else {
        s
    }
}

/// The unsigned number that a text spells: at least one digit, after a plus sign or none.
pub open spec fn spelled_number(s: Seq<char>) -> Option<nat> {
    if is_digits(without_plus(s)) {
        Some(decimal_value(without_plus(s)))
    } else {
        None
    }
}

/// `n` in decimal.
pub open spec fn decimal(n: nat) -> Seq<char>
    decreases n,
{
    if n < 10 {
        seq![digit_char(n as int)]
    } else {
        decimal(n / 10).push(digit_char((n % 10) as int))
    }
}

/// `n` in decimal, with at least two digits.
pub open spec fn two_digits(n: nat) -> Seq<char> {
    if n < 10 {
        seq!['0'] + decimal(n)
    } else {
        decimal(n)
    }
}

/// A number written in decimal is spelled, and reads back as itself.
pub proof fn lemma_decimal_round_trip(n: nat)
    ensures
        spelled_number(decimal(n)) == Some(n),
{
    lemma_decimal(n);
}

/// The digits of a decimal number are worth the number.
proof fn lemma_decimal(n: nat)
    ensures
        is_digits(decimal(n)),
        decimal_value(decimal(n)) == n,
    decreases n,
{
    if n < 10 {
        let s = seq![digit_char(n as int)];
        assert(s.drop_last() =~= Seq::<char>::empty());
        assert(decimal_value(Seq::<char>::empty()) == 0);
    } else {
        lemma_decimal(n / 10);
        let s = decimal(n / 10).push(digit_char((n % 10) as int));
        assert(s.drop_last() =~= decimal(n / 10));
    }
}

/// Numbers with at least two digits read back as well, so different numbers differ.
pub proof fn lemma_two_digits_round_trip(n: nat)
    ensures
        spelled_number(two_digits(n)) == Some(n),
{
    lemma_decimal(n);
    if n < 10 {
        let s = two_digits(n);
        assert(s =~= seq!['0', digit_char(n as int)]);
        assert(s.drop_last() =~= seq!['0']);
        assert(seq!['0'].drop_last() =~= Seq::<char>::empty());
        assert(decimal_value(Seq::<char>::empty()) == 0);
        assert(decimal_value(seq!['0']) == 0);
    }
}

/// Append `n` in decimal.
pub fn push_decimal(out: &mut String, n: u64)
    ensures
        final(out)@ == old(out)@ + decimal(n as nat),
    decreases n,
{
    if n >= 10 {
        push_decimal(out, n / 10);
    }
    push_char(out, (0x30 + (n % 10) as u8) as char);
    assert(out@ =~= old(out)@ + decimal(n as nat));
}

/// Append `n` in decimal, with at least two digits.
pub fn push_two_digits(out: &mut String, n: u64)
    ensures
        final(out)@ == old(out)@ + two_digits(n as nat),
{
    if n < 10 {
        push_char(out, '0');
    }
    push_decimal(out, n);
    assert(out@ =~= old(out)@ + two_digits(n as nat));
}

/// Read an unsigned number of at most 255.
pub fn parse_u8(s: &str) -> (r: Option<u8>)
    ensures
        match r {
            Some(n) => spelled_number(s@) == Some(n as nat),
            None => spelled_number(s@) is None || spelled_number(s@)->0 > u8::MAX,
        },
{
    let len: usize = s.unicode_len();
    let start: usize = if len > 0 && s.get_char(0) == '+' {
        1
    } else {
        0
    };
    let ghost digits = without_plus(s@);
    assert(digits =~= s@.skip(start as int));
    if start == len {
        return None;
    }
    // A value beyond 255 is remembered as 256.
    let mut value: u32 = 0;
    let mut i: usize = start;
    assert(digits.take(0) =~= Seq::<char>::empty());
    while i < len
        invariant
            start <= i <= len,
            start <= 1,
            len == s@.len(),
            digits == s@.skip(start as int),
            digits == without_plus(s@),
            forall|j: int| 0 <= j < i - start ==> is_digit(#[trigger] digits[j]),
            value <= 256,
            value <= 255 ==> value == decimal_value(digits.take(i - start)),
            value == 256 ==> decimal_value(digits.take(i - start)) > 255,
        decreases len - i,
    {
        let c: char = s.get_char(i);
        assert(c == digits[i - start]);
        if c < '0' || c > '9' {
            assert(!is_digit(digits[i - start]));
            return None;
        }
        assert(digits.take(i - start + 1).drop_last() =~= digits.take(i - start));
        value = value * 10 + (c as u32 - 0x30);
        if value > 255 {
            value = 256;
        }
        i = i + 1;
    }
    assert(digits.take(len - start) =~= digits);
    if value > 255 {
        None
    } else {
        Some(value as u8)
    }
}

/// The characters of `s`.
pub fn chars_of(s: &str) -> (r: Vec<char>)
    ensures
        r@ == s@,
{
    let len: usize = s.unicode_len();
    let mut r: Vec<char> = Vec::new();
    for i in 0..len
        invariant
            len == s@.len(),
            r@ == s@.take(i as int),
    {
        r.push(s.get_char(i));
        assert(r@ =~= s@.take(i + 1));
    }
    assert(r@ =~= s@);
    r
}

/// Append the characters of `chars` from `from` up to `to`.
pub fn push_chars(out: &mut String, chars: &Vec<char>, from: usize, to: usize)
    requires
        from <= to <= chars@.len(),
    ensures
        final(out)@ == old(out)@ + chars@.subrange(from as int, to as int),
{
    let ghost before = out@;
    for i in from..to
        invariant
            from <= to <= chars@.len(),
            out@ == before + chars@.subrange(from as int, i as int),
    {
        push_char(out, chars[i]);
        assert(out@ =~= before + chars@.subrange(from as int, i + 1));
    }
    assert(out@ =~= before + chars@.subrange(from as int, to as int));
}

} // verus!
