use vstd::prelude::*;

use crate::text;

verus! {

/// The decimal digit of a number below ten.
pub open spec fn digit_char(d: nat) -> char {
    if d == 0 {
        '0'
    } else if d == 1 {
        '1'
    } else if d == 2 {
        '2'
    } else if d == 3 {
        '3'
    } else if d == 4 {
        '4'
    } else if d == 5 {
        '5'
    } else if d == 6 {
        '6'
    } else if d == 7 {
        '7'
    } else if d == 8 {
        '8'
    } else {
        '9'
    }
}

/// A number in decimal, without leading zeros.
pub open spec fn decimal(n: nat) -> Seq<char>
    decreases n,
{
    if n < 10 {
        seq![digit_char(n)]
    } else {
        decimal(n / 10).push(digit_char(n % 10))
    }
}

/// A signed number in decimal, with a minus before it where it is negative.
pub open spec fn signed_decimal(n: int) -> Seq<char> {
    if n < 0 {
        seq!['-'] + decimal((-n) as nat)
    } else {
        decimal(n as nat)
    }
}

fn digit_of(d: u64) -> (c: char)
    requires
        d < 10,
    ensures
        c == digit_char(d as nat),
{
    match d {
        0 => '0',
        1 => '1',
        2 => '2',
        3 => '3',
        4 => '4',
        5 => '5',
        6 => '6',
        7 => '7',
        8 => '8',
        _ => '9',
    }
}

/// Writes a number in decimal.
pub fn to_decimal(n: u64) -> (s: String)
    ensures
        s@ == decimal(n as nat),
    decreases n,
{
    if n < 10 {
        text::char_string(digit_of(n))
    } else {
        let mut s: String = to_decimal(n / 10);
        s.push(digit_of(n % 10));
        s
    }
}

/// Writes a signed number in decimal.
pub fn to_signed_decimal(n: i32) -> (s: String)
    ensures
        s@ == signed_decimal(n as int),
{
    if n < 0 {
        let magnitude: i64 = -(n as i64);
        let mut s: String = text::char_string('-');
        s.append(to_decimal(magnitude as u64).as_str());
        s
    } else {
        to_decimal(n as u64)
    }
}

pub open spec fn is_digit(c: char) -> bool {
    '0' <= c <= '9'
}

/// The number that a sequence of digits stands for.
pub open spec fn number(digits: Seq<char>) -> nat
    decreases digits.len(),
{
    if digits.len() == 0 {
        0
    } else {
        number(digits.drop_last()) * 10 + (digits.last() as nat - '0' as nat) as nat
    }
}

pub open spec fn all_digits(s: Seq<char>) -> bool {
    forall|i: int| 0 <= i < s.len() ==> is_digit(#[trigger] s[i])
}

/// What a string says as an unsigned number of 64 bits: one digit or more, with or without a
/// plus before them.
pub open spec fn parsed(s: Seq<char>) -> Option<u64> {
    let digits = if s.len() > 0 && s[0] == '+' {
        s.drop_first()
    } else {
        s
    };
    if digits.len() > 0 && all_digits(digits) && number(digits) <= u64::MAX {
        Some(number(digits) as u64)
    } else {
        None
    }
}

/// More digits never make a smaller number.
proof fn lemma_number_grows(digits: Seq<char>, n: int)
    requires
        0 <= n <= digits.len(),
    ensures
        number(digits.take(n)) <= number(digits),
    decreases digits.len() - n,
{
    if n < digits.len() {
        lemma_number_grows(digits, n + 1);
        assert(digits.take(n + 1).drop_last() =~= digits.take(n));
    } else {
        assert(digits.take(n) =~= digits);
    }
}

/// Reads an unsigned number of 64 bits.
#[verifier::loop_isolation(false)]
pub fn parse_u64(s: &str) -> (n: Option<u64>)
    ensures
        n == parsed(s@),
{
    let x = text::chars_of(s);
    let start: usize = if x.len() > 0 && x[0] == '+' { 1 } else { 0 };
    let ghost digits = s@.skip(start as int);
    assert(start == 0 ==> digits =~= s@);
    if start == x.len() {
        return None;
    }
    let mut n: u64 = 0;
    for i in start..x.len()
        invariant
            start <= i <= x@.len(),
            n == number(digits.take(i - start)),
            all_digits(digits.take(i - start)),
    {
        let c: char = x[i];
        let ghost next = digits.take(i - start + 1);
        proof {
            assert(next.drop_last() =~= digits.take(i - start));
            assert(next.last() == c);
            assert(digits[i - start] == c);
            lemma_number_grows(digits, i - start + 1);
        }
        if c < '0' || c > '9' {
            return None;
        }
        let d: u64 = c as u64 - '0' as u64;
        if n > (u64::MAX - d) / 10 {
            return None;
        }
        n = n * 10 + d;
        assert forall|j: int| 0 <= j < next.len() implies is_digit(#[trigger] next[j]) by {
            if j < i - start {
                assert(digits.take(i - start)[j] == next[j]);
            }
        }
    }
    assert(digits.take(digits.len() as int) =~= digits);
    Some(n)
}

/// Reading a number that was written in decimal gives it back.
pub proof fn law_decimal_is_read_back(n: u64)
    ensures
        parsed(decimal(n as nat)) == Some(n),
{
    lemma_decimal(n as nat);
    let s = decimal(n as nat);
    assert(is_digit(s[0]));
}

proof fn lemma_decimal(n: nat)
    ensures
        decimal(n).len() > 0,
        all_digits(decimal(n)),
        number(decimal(n)) == n,
    decreases n,
{
    let s = decimal(n);
    if n < 10 {
        assert(s.drop_last() =~= Seq::empty());
        assert(number(s.drop_last()) == 0);
    } else {
        lemma_decimal(n / 10);
        assert(s.drop_last() =~= decimal(n / 10));
        assert forall|i: int| 0 <= i < s.len() implies is_digit(#[trigger] s[i]) by {
            if i < s.len() - 1 {
                assert(s[i] == decimal(n / 10)[i]);
            }
        }
    }
}

/// A number is written digit by digit, the last one being what is left of it by ten.
pub proof fn law_digits_come_in_order(n: nat, d: nat)
    requires
        d < 10,
    ensures
        decimal(d) == seq![('0' as int + d) as char],
        n > 0 ==> decimal(10 * n + d) == decimal(n).push(('0' as int + d) as char),
{
    assert(digit_char(d) == ('0' as int + d) as char);
    if n > 0 {
        let m = 10 * n + d;
        assert(m / 10 == n && m % 10 == d);
    }
}

/// A negative number is its magnitude behind a minus, any other is written plainly.
pub proof fn law_sign_comes_first(n: int)
    ensures
        n >= 0 ==> signed_decimal(n) == decimal(n as nat),
        n < 0 ==> signed_decimal(n) == seq!['-'] + decimal((-n) as nat),
{
}

/// One digit is read as itself.
pub proof fn law_one_digit_is_read(c: char)
    requires
        '0' <= c <= '9',
    ensures
        parsed(seq![c]) == Some((c as int - '0' as int) as u64),
{
    let s = seq![c];
    assert(s.drop_last() =~= Seq::empty());
    assert(number(s.drop_last()) == 0);
    assert(all_digits(s));
}

/// One digit more makes ten times the number and that digit, as long as it fits; a number that
/// did not fit does not fit with one digit more.
pub proof fn law_one_digit_more_is_read(s: Seq<char>, c: char)
    requires
        '0' <= c <= '9',
        s.len() > 0,
        '0' <= s[0] <= '9',
    ensures
        parsed(s) matches Some(n) ==> parsed(s.push(c)) == (if 10 * n + (c as int - '0' as int)
            <= u64::MAX {
            Some((10 * n + (c as int - '0' as int)) as u64)
        } else {
            None::<u64>
        }),
        parsed(s) is None ==> parsed(s.push(c)) is None,
{
    let t = s.push(c);
    assert(t.drop_last() =~= s);
    assert(t[0] == s[0]);
    if all_digits(s) {
        assert forall|i: int| 0 <= i < t.len() implies is_digit(#[trigger] t[i]) by {
            if i < s.len() {
                assert(t[i] == s[i]);
            }
        }
    } else {
        let i = choose|i: int| 0 <= i < s.len() && !is_digit(#[trigger] s[i]);
        assert(!is_digit(t[i]));
    }
}

/// A plus before the digits makes no difference.
pub proof fn law_plus_makes_no_difference(s: Seq<char>)
    requires
        s.len() == 0 || s[0] != '+',
    ensures
        parsed(seq!['+'] + s) == parsed(s),
{
    assert((seq!['+'] + s).drop_first() =~= s);
}

/// Whatever is read has a digit, and holds nothing but digits behind its sign.
pub proof fn law_only_digits_are_read(s: Seq<char>, i: int)
    requires
        parsed(s) is Some,
        0 <= i < s.len(),
    ensures
        '0' <= s[i] <= '9' || (i == 0 && s[0] == '+'),
        '0' <= s.last() <= '9',
{
    if s[0] == '+' {
        let rest = s.drop_first();
        assert(is_digit(rest[rest.len() - 1]));
        if i > 0 {
            assert(is_digit(rest[i - 1]));
        }
    } else {
        assert(is_digit(s[i]));
        assert(is_digit(s[s.len() - 1]));
    }
}

/// Nothing is read from a text without a digit.
pub proof fn law_nothing_is_read_from_nothing()
    ensures
        parsed(Seq::<char>::empty()) is None,
        parsed(seq!['+']) is None,
{
    assert(seq!['+'].drop_first() =~= Seq::empty());
}

} // verus!
