//! Decimal numbers: how they are written and read.

use vstd::prelude::*;

use crate::text;
use crate::text::to_chars;

verus! {

/// The decimal digit that stands for `d`.
pub open spec fn digit(d: nat) -> char {
    (48 + d) as char
}

/// Whether `c` is one of `0` to `9`.
pub open spec fn is_digit(c: char) -> bool {
    '0' <= c <= '9'
}

/// What a digit stands for.
pub open spec fn digit_value(c: char) -> nat
    recommends
        is_digit(c),
{
    (c as int - 48) as nat
}

/// `n` in decimal, without leading zeros.
pub open spec fn decimal(n: nat) -> Seq<char>
    decreases n,
{
    if n < 10 {
        seq![digit(n)]
    } else {
        decimal(n / 10).push(digit(n % 10))
    }
}

/// As many zeros as `count`.
pub open spec fn zeros(count: nat) -> Seq<char> {
    Seq::new(count, |i: int| '0')
}

/// `n` in decimal, with zeros in front where it is shorter than `width`.
pub open spec fn padded(n: nat, width: nat) -> Seq<char> {
    if decimal(n).len() < width {
        zeros((width - decimal(n).len()) as nat) + decimal(n)
    } else {
        decimal(n)
    }
}

/// Whether `s` is made of digits alone.
pub open spec fn all_digits(s: Seq<char>) -> bool {
    forall|i: int| 0 <= i < s.len() ==> is_digit(#[trigger] s[i])
}

/// The number that a row of digits stands for.
pub open spec fn value_of(s: Seq<char>) -> nat
    decreases s.len(),
{
    if s.len() == 0 {
        0
    } else {
        value_of(s.drop_last()) * 10 + digit_value(s.last())
    }
}

/// The unsigned number that `s` is: digits, at least one, with at most one `+` in front, and a
/// value that fits in 64 bits.
pub open spec fn unsigned_of(s: Seq<char>) -> Option<u64> {
    let digits = if s.len() != 0 && s[0] == '+' {
        s.skip(1)
    } else {
        s
    };
    if digits.len() != 0 && all_digits(digits) && value_of(digits) <= u64::MAX {
        Some(value_of(digits) as u64)
    } else {
        None
    }
}

/// The signed number that `s` is: digits, at least one, with at most one `+` or `-` in front.
pub open spec fn signed_of(s: Seq<char>) -> Option<int> {
    let digits = if s.len() != 0 && (s[0] == '+' || s[0] == '-') {
        s.skip(1)
    } else {
        s
    };
    if digits.len() != 0 && all_digits(digits) {
        Some(
            if s[0] == '-' {
                -(value_of(digits) as int)
            } else {
                value_of(digits) as int
            },
        )
    } else {
        None
    }
}

/// Writing a number in decimal and reading it back gives the number.
pub proof fn lemma_decimal_reads_back(n: nat)
    ensures
        decimal(n).len() > 0,
        all_digits(decimal(n)),
        value_of(decimal(n)) == n,
    decreases n,
{
    if n < 10 {
        reveal_with_fuel(value_of, 2);
        assert(decimal(n).drop_last() =~= Seq::<char>::empty());
    } else {
        lemma_decimal_reads_back(n / 10);
        assert(decimal(n).drop_last() =~= decimal(n / 10));
    }
}

/// Zeros in front of digits do not change the number.
pub proof fn lemma_leading_zeros(count: nat, s: Seq<char>)
    requires
        all_digits(s),
    ensures
        all_digits(zeros(count) + s),
        value_of(zeros(count) + s) == value_of(s),
    decreases count + s.len(),
{
    let t = zeros(count) + s;
    if s.len() != 0 {
        lemma_leading_zeros(count, s.drop_last());
        assert(t.drop_last() =~= zeros(count) + s.drop_last());
        assert(t.last() == s.last());
    } else if count != 0 {
        lemma_leading_zeros((count - 1) as nat, s);
        assert(t.drop_last() =~= zeros((count - 1) as nat) + s);
        assert(t.last() == '0');
    } else {
        assert(t =~= s);
    }
}

/// Writing a number with leading zeros and reading it back gives the number.
pub proof fn lemma_padded_reads_back(n: nat, width: nat)
    ensures
        padded(n, width).len() > 0,
        padded(n, width).len() >= width,
        all_digits(padded(n, width)),
        value_of(padded(n, width)) == n,
{
    lemma_decimal_reads_back(n);
    if decimal(n).len() < width {
        lemma_leading_zeros((width - decimal(n).len()) as nat, decimal(n));
    }
}

/// A number below a power of ten has no more digits than the power has zeros.
pub proof fn lemma_decimal_len(n: nat)
    ensures
        n < 100 ==> decimal(n).len() <= 2,
        n < 10000 ==> decimal(n).len() <= 4,
        n >= 10000 ==> decimal(n).len() > 4,
{
    reveal_with_fuel(decimal, 5);
    if n >= 10000 {
        assert(n / 10 / 10 / 10 >= 10);
        lemma_decimal_reads_back(n / 10 / 10 / 10 / 10);
    }
}

/// Rows of digits of the same length that stand for the same number are the same.
pub proof fn lemma_value_injective(s: Seq<char>, t: Seq<char>)
    requires
        s.len() == t.len(),
        all_digits(s),
        all_digits(t),
        value_of(s) == value_of(t),
    ensures
        s == t,
    decreases s.len(),
{
    if s.len() > 0 {
        assert(is_digit(s[s.len() - 1]) && is_digit(t[t.len() - 1]));
        lemma_value_injective(s.drop_last(), t.drop_last());
        assert(s =~= s.drop_last().push(s.last()));
        assert(t =~= t.drop_last().push(t.last()));
    } else {
        assert(s =~= t);
    }
}

/// Of rows of digits of the same length, that for the smaller number comes first in the order of
/// texts.
pub proof fn lemma_value_order(s: Seq<char>, t: Seq<char>) -> (at: int)
    requires
        s.len() == t.len(),
        all_digits(s),
        all_digits(t),
        value_of(s) < value_of(t),
    ensures
        text::smaller_at(s, t, at),
    decreases s.len(),
{
    assert(s.len() > 0);
    assert(is_digit(s[s.len() - 1]) && is_digit(t[t.len() - 1]));
    let a = s.drop_last();
    let b = t.drop_last();
    if value_of(a) < value_of(b) {
        let at = lemma_value_order(a, b);
        assert forall|j: int| 0 <= j < at implies s[j] == t[j] by {
            assert(a[j] == b[j]);
        }
        assert(s[at] == a[at] && t[at] == b[at]);
        at
    } else {
        lemma_value_injective(a, b);
        let at = s.len() - 1;
        assert forall|j: int| 0 <= j < at implies s[j] == t[j] by {
            assert(a[j] == b[j]);
        }
        at
    }
}

/// Appends `n` in decimal.
pub fn push_decimal(out: &mut String, n: u64)
    ensures
        final(out)@ == old(out)@ + decimal(n as nat),
    decreases n,
{
    if n >= 10 {
        push_decimal(out, n / 10);
    }
    let d: u8 = (n % 10) as u8;
    out.push((48u8 + d) as char);
    proof {
        assert(out@ =~= old(out)@ + decimal(n as nat));
    }
}

/// `n` in decimal.
pub fn to_decimal(n: u64) -> (written: String)
    ensures
        written@ == decimal(n as nat),
{
    let mut written = String::new();
    push_decimal(&mut written, n);
    proof {
        assert(written@ =~= decimal(n as nat));
    }
    written
}

/// Appends `n` in decimal, with zeros in front where it is shorter than `width`.
pub fn push_padded(out: &mut String, n: u64, width: usize)
    ensures
        final(out)@ == old(out)@ + padded(n as nat, width as nat),
{
    let written = to_decimal(n);
    let len: usize = to_chars(written.as_str()).len();
    let mut count: usize = len;
    let ghost start = out@;
    while count < width
        invariant
            len <= count,
            count <= width || len == count,
            out@ == start + zeros((count - len) as nat),
        decreases width - count,
    {
        out.push('0');
        count += 1;
        proof {
            assert(out@ =~= start + zeros((count - len) as nat));
        }
    }
    proof {
        assert(start + zeros(0) =~= start);
    }
    out.append(written.as_str());
    proof {
        assert(out@ =~= start + padded(n as nat, width as nat));
    }
}

/// What a digit stands for.
fn read_digit(c: char) -> (d: Option<u64>)
    ensures
        match d {
            Some(v) => is_digit(c) && v == digit_value(c),
            None => !is_digit(c),
        },
{
    let code: u32 = c as u32;
    if 48 <= code && code <= 57 {
        Some((code - 48) as u64)
    } else {
        None
    }
}

/// The number that the digits from `from` up to `to` stand for, where they are digits and it fits
/// in 64 bits.
fn read_digits(chars: &Vec<char>, from: usize, to: usize) -> (n: Option<u64>)
    requires
        from <= to <= chars@.len(),
    ensures
        ({
            let digits = chars@.subrange(from as int, to as int);
            n == if all_digits(digits) && value_of(digits) <= u64::MAX {
                Some(value_of(digits) as u64)
            } else {
                None
            }
        }),
{
    let ghost digits = chars@.subrange(from as int, to as int);
    let mut n: u64 = 0;
    let mut i: usize = from;
    while i < to
        invariant
            from <= i <= to <= chars@.len(),
            digits == chars@.subrange(from as int, to as int),
            all_digits(digits.take(i - from)),
            value_of(digits.take(i - from)) == n,
        decreases to - i,
    {
        let c: char = chars[i];
        proof {
            assert(digits[i - from] == c);
            assert(digits.take(i - from + 1).drop_last() =~= digits.take(i - from));
            assert(digits.take(i - from + 1).last() == c);
        }
        let d: u64 = match read_digit(c) {
            Some(d) => d,
            None => return None,
        };
        proof {
            assert(value_of(digits.take(i - from + 1)) == n * 10 + d);
            lemma_value_grows(digits, i - from + 1);
        }
        if n > (u64::MAX - d) / 10 {
            proof {
                assert(n * 10 + d > u64::MAX);
            }
            return None;
        }
        n = n * 10 + d;
        i += 1;
    }
    proof {
        assert(digits.take(to - from) =~= digits);
    }
    Some(n)
}

/// More digits make no smaller number.
proof fn lemma_value_grows(digits: Seq<char>, upto: int)
    requires
        0 <= upto <= digits.len(),
    ensures
        value_of(digits.take(upto)) <= value_of(digits),
    decreases digits.len(),
{
    if upto == digits.len() {
        assert(digits.take(upto) =~= digits);
    } else {
        lemma_value_grows(digits.drop_last(), upto);
        assert(digits.drop_last().take(upto) =~= digits.take(upto));
    }
}

/// The unsigned number that `text` is, if it is one.
pub fn parse_unsigned(text: &str) -> (n: Option<u64>)
    ensures
        n == unsigned_of(text@),
{
    let chars = to_chars(text);
    let from: usize = if chars.len() > 0 && chars[0] == '+' {
        1
    } else {
        0
    };
    proof {
        assert(chars@.subrange(0, chars@.len() as int) =~= chars@);
        if from == 1 {
            assert(chars@.subrange(1, chars@.len() as int) =~= chars@.skip(1));
        }
    }
    if from == chars.len() {
        return None;
    }
    read_digits(&chars, from, chars.len())
}

/// The signed number that the characters from `from` up to `to`, at most four of them, are.
pub fn parse_signed(chars: &Vec<char>, from: usize, to: usize) -> (n: Option<i64>)
    requires
        from <= to <= chars@.len(),
        to - from <= 4,
    ensures
        match signed_of(chars@.subrange(from as int, to as int)) {
            Some(v) => n == Some(v as i64) && -9999 <= v <= 9999,
            None => n is None,
        },
        to - from == 2 ==> (n matches Some(v) ==> -9 <= v <= 99),
        to - from == 4 ==> (n matches Some(v) ==> -999 <= v <= 9999),
{
    let ghost s = chars@.subrange(from as int, to as int);
    let signed: bool = from < to && (chars[from] == '+' || chars[from] == '-');
    let start: usize = if signed {
        from + 1
    } else {
        from
    };
    if start == to {
        return None;
    }
    let ghost digits = chars@.subrange(start as int, to as int);
    proof {
        if signed {
            assert(digits =~= s.skip(1));
        } else {
            assert(digits =~= s);
        }
        reveal_with_fuel(value_of, 5);
        if all_digits(digits) {
            lemma_few_digits(digits);
        }
        assert(s[0] == chars@[from as int]);
    }
    match read_digits(chars, start, to) {
        None => None,
        Some(v) => {
            if chars[from] == '-' {
                Some(-(v as i64))
            } else {
                Some(v as i64)
            }
        },
    }
}

/// Few digits stand for a small number.
proof fn lemma_few_digits(s: Seq<char>)
    requires
        s.len() <= 4,
        all_digits(s),
    ensures
        s.len() <= 1 ==> value_of(s) <= 9,
        s.len() <= 2 ==> value_of(s) <= 99,
        s.len() <= 3 ==> value_of(s) <= 999,
        value_of(s) <= 9999,
    decreases s.len(),
{
    if s.len() > 0 {
        assert(is_digit(s[s.len() - 1]));
        lemma_few_digits(s.drop_last());
    }
}

} // verus!
