//! How numbers are written and read, digit by digit.

use vstd::prelude::*;

use crate::numbers;

verus! {

/// The digit for a number below ten.
pub open spec fn figure(d: int) -> char {
    (48 + d) as char
}

/// Whether a character is a decimal digit.
pub open spec fn is_figure(c: char) -> bool {
    '0' <= c <= '9'
}

/// A number below ten is written as its digit, and any other as the number without its last digit,
/// and that digit.
pub proof fn lemma_written_digit_by_digit(n: nat, d: nat)
    requires
        d < 10,
    ensures
        numbers::decimal(d) == seq![figure(d as int)],
        n > 0 ==> numbers::decimal(n * 10 + d) == numbers::decimal(n).push(figure(d as int)),
{
    if n > 0 {
        assert((n * 10 + d) / 10 == n && (n * 10 + d) % 10 == d);
    }
}

/// A number that is to be so wide has zeros in front of it, and as many of them as it takes.
pub proof fn lemma_zeros_fill_up(n: nat, width: nat)
    ensures
        ({
            let plain = numbers::decimal(n);
            let wide = numbers::padded(n, width);
            &&& wide.len() == if plain.len() < width {
                width
            } else {
                plain.len()
            }
            &&& forall|i: int| 0 <= i < wide.len() - plain.len() ==> wide[i] == '0'
            &&& wide.skip(wide.len() - plain.len()) == plain
        }),
{
    let plain = numbers::decimal(n);
    let wide = numbers::padded(n, width);
    assert(wide.skip(wide.len() - plain.len()) =~= plain);
}

proof fn lemma_push_digit(s: Seq<char>, c: char)
    requires
        is_figure(c),
    ensures
        numbers::value_of(s.push(c)) == numbers::value_of(s) * 10 + (c as int - 48),
        numbers::all_digits(s.push(c)) <==> numbers::all_digits(s),
{
    assert(s.push(c).drop_last() =~= s);
    if numbers::all_digits(s) {
        assert forall|i: int| 0 <= i < s.push(c).len() implies numbers::is_digit(
            #[trigger] s.push(c)[i],
        ) by {
            if i < s.len() {
                assert(s.push(c)[i] == s[i]);
            }
        }
    }
    if numbers::all_digits(s.push(c)) {
        assert forall|i: int| 0 <= i < s.len() implies numbers::is_digit(#[trigger] s[i]) by {
            assert(s.push(c)[i] == s[i]);
        }
    }
}

/// Reading a number: a digit stands for itself; one more digit makes ten times as much and the
/// digit, where that fits in 64 bits; a plus sign in front changes nothing; and what holds anything
/// else is no number.
pub proof fn lemma_read_digit_by_digit(s: Seq<char>, c: char)
    requires
        is_figure(c),
    ensures
        numbers::unsigned_of(seq![c]) == Some((c as int - 48) as u64),
        numbers::unsigned_of(Seq::empty()) is None,
        numbers::unsigned_of(seq!['+']) is None,
        numbers::unsigned_of(s) matches Some(n) ==> numbers::unsigned_of(s.push(c)) == if n * 10 + (
        c as int - 48) <= u64::MAX {
            Some((n * 10 + (c as int - 48)) as u64)
        } else {
            None
        },
        s.len() > 0 && is_figure(s[0]) ==> numbers::unsigned_of(seq!['+'] + s)
            == numbers::unsigned_of(s),
        forall|i: int|
            0 <= i < s.len() && !is_figure(#[trigger] s[i]) && !(i == 0 && s[i] == '+')
                ==> numbers::unsigned_of(s) is None,
{
    let none = Seq::<char>::empty();
    lemma_push_digit(none, c);
    assert(none.push(c) =~= seq![c]);
    assert(numbers::all_digits(none));
    assert(seq!['+'].skip(1) =~= none);
    assert((seq!['+'] + s).skip(1) =~= s);
    if s.len() > 0 {
        let digits = if s[0] == '+' {
            s.skip(1)
        } else {
            s
        };
        lemma_push_digit(digits, c);
        if s[0] == '+' {
            assert(s.push(c).skip(1) =~= digits.push(c));
        }
        assert(s.push(c)[0] == s[0]);
        assert forall|i: int|
            0 <= i < s.len() && !is_figure(#[trigger] s[i]) && !(i == 0 && s[i]
                == '+') implies numbers::unsigned_of(s) is None by {
            if s[0] == '+' {
                assert(digits[i - 1] == s[i]);
            } else {
                assert(digits[i] == s[i]);
            }
        }
    }
}

/// What is written is read back.
pub proof fn lemma_number_round_trip(n: u64)
    ensures
        numbers::unsigned_of(numbers::decimal(n as nat)) == Some(n),
{
    numbers::lemma_decimal_reads_back(n as nat);
    assert(numbers::is_digit(numbers::decimal(n as nat)[0]));
}

} // verus!
