//! Numbers and bytes as text.

use vstd::prelude::*;
use crate::outside::push_char;

verus! {

/// The character of a decimal or hexadecimal digit.
pub open spec fn digit_char(d: int) -> char {
    if d == 0 {
        '0'
    } else if d == 1 {
        '1'
    } else if d == 2 {
        '2'
    } else if d == 3 {
        '3'
    } else if d == 4 {
        '4'
    } else if d == 5 {
        '5'
    } else if d == 6 {
        '6'
    } else if d == 7 {
        '7'
    } else if d == 8 {
        '8'
    } else if d == 9 {
        '9'
    } else if d == 10 {
        'a'
    } else if d == 11 {
        'b'
    } else if d == 12 {
        'c'
    } else if d == 13 {
        'd'
    } else if d == 14 {
        'e'
    } else {
        'f'
    }
}

/// A number in decimal, without leading zeros.
pub open spec fn decimal(n: nat) -> Seq<char>
    decreases n,
{
    if n < 10 {
        seq![digit_char(n as int)]
    } else {
        decimal(n / 10).push(digit_char((n % 10) as int))
    }
}

/// Bytes in lower-case hexadecimal, two digits each.
pub open spec fn hex(bytes: Seq<u8>) -> Seq<char>
    decreases bytes.len(),
{
    if bytes.len() == 0 {
        Seq::empty()
    } else {
        hex(bytes.drop_last()).push(digit_char(bytes.last() as int / 16)).push(
            digit_char(bytes.last() as int % 16),
        )
    }
}

/// The character of the digit `d`.
pub fn digit(d: u8) -> (c: char)
    requires
        d < 16,
    ensures
        c == digit_char(d as int),
{
    match d {
        0 => '0',
        1 => '1',
        2 => '2',
        3 => '3',
        4 => '4',
        5 => '5',
        6 => '6',
        7 => '7',
        8 => '8',
        9 => '9',
        10 => 'a',
        11 => 'b',
        12 => 'c',
        13 => 'd',
        14 => 'e',
        _ => 'f',
    }
}

/// Appends `n` in decimal.
pub fn append_decimal(out: &mut String, n: u128)
    ensures
        final(out)@ == old(out)@ + decimal(n as nat),
    decreases n,
{
    if n >= 10 {
        append_decimal(out, n / 10);
    }
    let last: u8 = (n % 10) as u8;
    push_char(out, digit(last));
    proof {
        if n >= 10 {
            assert(out@ =~= old(out)@ + decimal(n as nat));
        } else {
            assert(out@ =~= old(out)@ + decimal(n as nat));
        }
    }
}

/// Appends `bytes` in lower-case hexadecimal.
pub fn append_hex(out: &mut String, bytes: &Vec<u8>)
    ensures
        final(out)@ == old(out)@ + hex(bytes@),
{
    let mut i: usize = 0;
    assert(bytes@.take(0) =~= Seq::empty());
    assert(out@ =~= old(out)@ + hex(bytes@.take(0)));
    while i < bytes.len()
        invariant
            i <= bytes.len(),
            out@ == old(out)@ + hex(bytes@.take(i as int)),
        decreases bytes.len() - i,
    {
        let b = bytes[i];
        push_char(out, digit(b / 16));
        push_char(out, digit(b % 16));
        proof {
            let now = bytes@.take(i as int + 1);
            assert(now.drop_last() =~= bytes@.take(i as int));
            assert(now.last() == b);
            assert(out@ =~= old(out)@ + hex(now));
        }
        i += 1;
    }
    assert(bytes@.take(bytes@.len() as int) =~= bytes@);
}


/// The characters of a text.
pub fn chars_of(text: &str) -> (chars: Vec<char>)
    ensures
        chars@ == text@,
{
    let mut chars: Vec<char> = Vec::new();
    for c in iter: text.chars()
        invariant
            chars@ == iter.seq().take(iter.index() as int),
            iter.seq() == text@,
    {
        chars.push(c);
    }
    chars
}


/// Whether `c` is a decimal digit.
pub open spec fn is_digit(c: char) -> bool {
    '0' <= c <= '9'
}

/// The value of a decimal digit.
pub open spec fn digit_value(c: char) -> int {
    c as int - '0' as int
}

/// The number that a run of decimal digits stands for.
pub open spec fn digits_value(digits: Seq<char>) -> nat
    decreases digits.len(),
{
    if digits.len() == 0 {
        0
    } else {
        (digits_value(digits.drop_last()) * 10 + digit_value(digits.last())) as nat
    }
}

/// `text` is a number as `decimal` writes it: digits alone, at least one,
/// and no zero in front of others.
pub open spec fn is_decimal(text: Seq<char>) -> bool {
    &&& text.len() >= 1
    &&& forall|i: int| 0 <= i < text.len() ==> is_digit(#[trigger] text[i])
    &&& text.len() > 1 ==> text[0] != '0'
}

proof fn lemma_digit_char(d: int)
    requires
        0 <= d < 10,
    ensures
        is_digit(digit_char(d)),
        digit_value(digit_char(d)) == d,
{
}

/// What `decimal` writes is a decimal, and stands for the number written.
pub proof fn lemma_decimal_parses(n: nat)
    ensures
        is_decimal(decimal(n)),
        digits_value(decimal(n)) == n,
        n > 0 ==> decimal(n)[0] != '0',
    decreases n,
{
    if n < 10 {
        lemma_digit_char(n as int);
        assert(decimal(n).drop_last() =~= Seq::<char>::empty());
        assert(digits_value(decimal(n).drop_last()) == 0);
    } else {
        lemma_decimal_parses(n / 10);
        lemma_digit_char((n % 10) as int);
        assert(decimal(n).drop_last() =~= decimal(n / 10));
        assert(decimal(n)[0] == decimal(n / 10)[0]);
    }
}

/// A decimal is what `decimal` writes of the number that it stands for.
pub proof fn lemma_decimal_is_canonical(text: Seq<char>)
    requires
        is_decimal(text),
    ensures
        decimal(digits_value(text)) == text,
    decreases text.len(),
{
    let last = text.last();
    let d = digit_value(last);
    assert(is_digit(text[text.len() - 1]));
    assert(digit_char(d) == last);
    if text.len() == 1 {
        assert(text.drop_last() =~= Seq::<char>::empty());
        assert(digits_value(text.drop_last()) == 0);
        assert(decimal(d as nat) =~= text);
    } else {
        let front = text.drop_last();
        assert(is_decimal(front)) by {
            assert forall|i: int| 0 <= i < front.len() implies is_digit(#[trigger] front[i]) by {
                assert(front[i] == text[i]);
            }
            assert(front[0] == text[0]);
        }
        lemma_decimal_is_canonical(front);
        lemma_leading_digit(front);
        let v = digits_value(front);
        assert(v >= 1);
        let n = (v * 10 + d) as nat;
        assert(n >= 10);
        assert(n / 10 == v && n % 10 == d) by (nonlinear_arith)
            requires
                n == v * 10 + d,
                0 <= d < 10,
        {
        }
        assert(decimal(n) =~= text);
    }
}

proof fn lemma_leading_digit(text: Seq<char>)
    requires
        text.len() >= 1,
        forall|i: int| 0 <= i < text.len() ==> is_digit(#[trigger] text[i]),
        text[0] != '0',
    ensures
        digits_value(text) >= 1,
    decreases text.len(),
{
    assert(is_digit(text[text.len() - 1]));
    if text.len() == 1 {
        assert(text.drop_last() =~= Seq::<char>::empty());
        assert(digits_value(text.drop_last()) == 0);
        assert(is_digit(text[0]));
    } else {
        let front = text.drop_last();
        assert forall|i: int| 0 <= i < front.len() implies is_digit(#[trigger] front[i]) by {
            assert(front[i] == text[i]);
        }
        assert(front[0] == text[0]);
        lemma_leading_digit(front);
    }
}

/// The number that `text` is the decimal of, if it is at most `max`.
pub open spec fn parse_decimal(text: Seq<char>, max: nat) -> Option<nat> {
    if is_decimal(text) && digits_value(text) <= max {
        Some(digits_value(text))
    } else {
        None
    }
}

/// Reading undoes writing, and only what `decimal` writes is read.
pub proof fn lemma_parse_decimal(text: Seq<char>, max: nat)
    ensures
        match parse_decimal(text, max) {
            Some(n) => n <= max && decimal(n) == text,
            None => forall|n: nat| n <= max ==> decimal(n) != text,
        },
{
    if is_decimal(text) {
        lemma_decimal_is_canonical(text);
    }
    if parse_decimal(text, max) is None {
        assert forall|n: nat| n <= max implies decimal(n) != text by {
            lemma_decimal_parses(n);
        }
    }
}

/// Reads a number of at most `max` from its decimal digits.
pub fn read_decimal(text: &Vec<char>, max: u128) -> (number: Option<u128>)
    ensures
        match number {
            Some(n) => parse_decimal(text@, max as nat) == Some(n as nat),
            None => parse_decimal(text@, max as nat) is None,
        },
{
    let n = text.len();
    if n == 0 {
        return None;
    }
    if n > 1 && text[0] == '0' {
        return None;
    }
    let mut value: u128 = 0;
    let mut i: usize = 0;
    assert(text@.take(0) =~= Seq::<char>::empty());
    while i < n
        invariant
            i <= n,
            n == text@.len(),
            forall|k: int| 0 <= k < i ==> is_digit(#[trigger] text@[k]),
            value == digits_value(text@.take(i as int)),
            value <= max,
        decreases n - i,
    {
        let c = text[i];
        if !('0' <= c && c <= '9') {
            return None;
        }
        let d: u128 = (c as u32 - '0' as u32) as u128;
        proof {
            let now = text@.take(i as int + 1);
            assert(now.drop_last() =~= text@.take(i as int));
            assert(now.last() == c);
            assert(d == digit_value(c));
            lemma_digits_grow(text@, i as int + 1, n as int);
        }
        if d > max || value > (max - d) / 10 {
            proof {
                assert(value * 10 + d > max) by (nonlinear_arith)
                    requires
                        d > max || value > (max - d) / 10,
                        0 <= d < 10,
                        value >= 0,
                {
                }
                assert(text@.take(n as int) =~= text@);
                if is_decimal(text@) {
                    assert(digits_value(text@) >= value * 10 + d);
                }
            }
            return None;
        }
        assert(value * 10 + d <= max) by (nonlinear_arith)
            requires
                value <= (max - d) / 10,
                d <= max,
        {
        }
        value = value * 10 + d;
        i += 1;
    }
    assert(text@.take(n as int) =~= text@);
    Some(value)
}

/// A run of digits stands for no less than any of its beginnings.
proof fn lemma_digits_grow(text: Seq<char>, shorter: int, longer: int)
    requires
        0 <= shorter <= longer <= text.len(),
    ensures
        digits_value(text.take(shorter)) <= digits_value(text.take(longer)) || exists|k: int|
            0 <= k < longer && !is_digit(#[trigger] text[k]),
    decreases longer - shorter,
{
    if shorter < longer {
        lemma_digits_grow(text, shorter, longer - 1);
        assert(text.take(longer).drop_last() =~= text.take(longer - 1));
        assert(text.take(longer).last() == text[longer - 1]);
        if is_digit(text[longer - 1]) {
            assert(digits_value(text.take(longer)) >= digits_value(text.take(longer - 1))) by (nonlinear_arith)
                requires
                    digits_value(text.take(longer)) == digits_value(text.take(longer - 1)) * 10 + digit_value(
                        text[longer - 1],
                    ),
                    digit_value(text[longer - 1]) >= 0,
                    digits_value(text.take(longer - 1)) >= 0,
            {
            }
        }
    }
}

} // verus!
