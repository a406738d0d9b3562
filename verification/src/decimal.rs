//! Whole numbers as decimal text.
use vstd::prelude::*;

verus! {

/// Whether a byte is a decimal digit.
pub open spec fn is_digit(b: u8) -> bool {
    0x30 <= b <= 0x39
}

/// The digit of the ones.
pub open spec fn last_digit(n: nat) -> u8 {
    (0x30 + n % 10) as u8
}

/// The decimal digits of a number, the greatest first, without leading zeros.
pub open spec fn decimal(n: nat) -> Seq<u8>
    decreases n,
{
    if n < 10 {
        seq![last_digit(n)]
    } else {
        decimal(n / 10).push(last_digit(n))
    }
}

/// Whether a text is a number: digits, and at least one of them.
pub open spec fn is_number(text: Seq<u8>) -> bool {
    &&& text.len() > 0
    &&& forall|i: int| 0 <= i < text.len() ==> is_digit(#[trigger] text[i])
}

/// The number that digits stand for.
pub open spec fn number(text: Seq<u8>) -> int
    decreases text.len(),
{
    if text.len() == 0 {
        0
    } else {
        10 * number(text.drop_last()) + (text.last() - 0x30)
    }
}

/// The number that a text stands for, if it is one that fits into 32 bits.
pub open spec fn number_in(text: Seq<u8>) -> Option<u32> {
    if is_number(text) && number(text) <= u32::MAX {
        Some(number(text) as u32)
    } else {
        None
    }
}

/// The digits of a number are a number, and that number.
pub proof fn lemma_decimal(n: nat)
    ensures
        is_number(decimal(n)),
        number(decimal(n)) == n,
    decreases n,
{
    if n < 10 {
        assert(decimal(n).drop_last() == Seq::<u8>::empty());
        assert(number(decimal(n).drop_last()) == 0);
    } else {
        lemma_decimal(n / 10);
        assert(decimal(n).drop_last() == decimal(n / 10));
    }
}

/// More digits make no smaller number.
proof fn lemma_number_grows(text: Seq<u8>, i: int)
    requires
        forall|j: int| 0 <= j < text.len() ==> is_digit(#[trigger] text[j]),
        0 <= i <= text.len(),
    ensures
        0 <= number(text.take(i)) <= number(text),
    decreases text.len(),
{
    if i == text.len() {
        assert(text.take(i) == text);
        if i > 0 {
            lemma_number_grows(text.drop_last(), i - 1);
        }
    } else {
        assert(text.drop_last().take(i) == text.take(i));
        lemma_number_grows(text.drop_last(), i);
    }
}

/// Writes a number behind a text.
pub(crate) fn push_decimal(text: &mut Vec<u8>, n: u32)
    ensures
        final(text)@ == old(text)@ + decimal(n as nat),
    decreases n,
{
    if n >= 10 {
        push_decimal(text, n / 10);
    }
    text.push((0x30 + n % 10) as u8);
    assert(text@ =~= old(text)@ + decimal(n as nat));
}

/// Reads the number that stands in `text` from `from` up to `to`.
pub(crate) fn read_number(text: &Vec<u8>, from: usize, to: usize) -> (r: Option<u32>)
    requires
        from <= to <= text@.len(),
    ensures
        r == number_in(text@.subrange(from as int, to as int)),
{
    let ghost part = text@.subrange(from as int, to as int);
    if from == to {
        return None;
    }
    let mut n: u32 = 0;
    let mut i: usize = from;
    while i < to
        invariant
            from <= i <= to <= text@.len(),
            part == text@.subrange(from as int, to as int),
            forall|j: int| 0 <= j < i - from ==> is_digit(#[trigger] part[j]),
            n == number(part.take(i - from)),
        decreases to - i,
    {
        let b: u8 = text[i];
        let ghost k = i - from;
        assert(b == part[k]);
        if b < 0x30 || b > 0x39 {
            return None;
        }
        assert(part.take(k + 1).drop_last() == part.take(k));
        assert(part.take(k + 1).last() == b);
        let next: u64 = 10 * (n as u64) + (b - 0x30) as u64;
        if next > 0xffff_ffff {
            proof {
                if is_number(part) {
                    lemma_number_grows(part, k + 1);
                }
            }
            return None;
        }
        n = next as u32;
        i = i + 1;
    }
    assert(part.take(to - from) == part);
    Some(n)
}

/// Digits without a leading zero are the digits of the number that they stand for.
pub proof fn law_digits_are_the_number(text: Seq<u8>)
    requires
        is_number(text),
        text[0] != 0x30 || text.len() == 1,
    ensures
        number(text) >= 0,
        decimal(number(text) as nat) == text,
        text.len() > 1 ==> number(text) >= 10,
    decreases text.len(),
{
    let before = text.drop_last();
    let digit = text.last() - 0x30;
    assert(is_digit(text[text.len() - 1]));
    if text.len() == 1 {
        assert(number(before) == 0);
        assert(decimal(number(text) as nat) =~= text);
    } else {
        assert(is_digit(text[0]));
        assert(before[0] == text[0]);
        assert forall|i: int| 0 <= i < before.len() implies is_digit(#[trigger] before[i]) by {
            assert(before[i] == text[i]);
        }
        law_digits_are_the_number(before);
        if before.len() == 1 {
            assert(before.drop_last() == Seq::<u8>::empty());
            assert(number(before.drop_last()) == 0);
            assert(number(before) == before.last() - 0x30);
            assert(number(before) >= 1);
        }
        let n = number(text) as nat;
        assert(n / 10 == number(before) && n % 10 == digit);
        assert(decimal(n) =~= text);
    }
}

/// How numbers are written and read: a single digit is its character, and a digit behind others
/// makes ten times as much and itself.
pub proof fn law_numbers_are_decimal(n: nat, digit: nat, text: Seq<u8>)
    requires
        digit < 10,
    ensures
        decimal(digit) == seq![(0x30 + digit) as u8],
        n > 0 ==> decimal(10 * n + digit) == decimal(n).push((0x30 + digit) as u8),
        number(text.push((0x30 + digit) as u8)) == 10 * number(text) + digit,
        number(Seq::<u8>::empty()) == 0,
{
    assert(text.push((0x30 + digit) as u8).drop_last() == text);
    if n > 0 {
        assert((10 * n + digit) / 10 == n && (10 * n + digit) % 10 == digit);
    }
}

/// A text is read as a number exactly if it is digits, at least one, whose number fits into 32
/// bits; then it is that number.
pub proof fn law_only_digits_are_read(text: Seq<u8>)
    ensures
        number_in(text) is Some <==> {
            &&& text.len() > 0
            &&& forall|i: int| 0 <= i < text.len() ==> 0x30 <= #[trigger] text[i] <= 0x39
            &&& number(text) <= 0xffff_ffff
        },
        number_in(text) matches Some(n) ==> n == number(text),
{
    if is_number(text) {
        assert forall|i: int| 0 <= i < text.len() implies 0x30 <= #[trigger] text[i] <= 0x39 by {
            assert(is_digit(text[i]));
        }
        lemma_number_grows(text, 0);
    }
}

} // verus!
