//! Text building blocks: decimal numerals and the characters of strings.

use vstd::prelude::*;
use vstd::string::*;

verus! {

/// The character that writes the decimal digit `d`.
pub open spec fn digit_char(d: int) -> char {
    if d == 0 {
        '0'
    } else if d == 1 {
        '1'
    } else if d == 2 {
        '2'
    } else if d == 3 {
        '3'
    } else if d == 4 {
        '4'
    } else if d == 5 {
        '5'
    } else if d == 6 {
        '6'
    } else if d == 7 {
        '7'
    } else if d == 8 {
        '8'
    } else {
        '9'
    }
}

/// Whether `c` is one of the ten ASCII decimal digits.
pub open spec fn is_digit(c: char) -> bool {
    '0' <= c && c <= '9'
}

/// The number that the decimal digit `c` writes.
pub open spec fn digit_value(c: char) -> int {
    c as int - '0' as int
}

/// The decimal numeral of `n`, without sign or leading zeros.
pub open spec fn decimal(n: nat) -> Seq<char>
    decreases n,
{
    if n < 10 {
        seq![digit_char(n as int)]
    } else {
        decimal(n / 10).push(digit_char((n % 10) as int))
    }
}

/// The number written by a sequence of decimal digits, read most significant
/// digit first; the empty sequence reads as zero.
pub open spec fn decimal_value(s: Seq<char>) -> nat
    decreases s.len(),
{
    if s.len() == 0 {
        0
    } else {
        (decimal_value(s.drop_last()) * 10 + digit_value(s.last())) as nat
    }
}

/// Whether every character of `s` is a decimal digit.
pub open spec fn all_digits(s: Seq<char>) -> bool {
    forall|i: int| 0 <= i < s.len() ==> is_digit(#[trigger] s[i])
}

/// A digit character is a digit and writes the digit it was made from.
pub proof fn lemma_digit_char(d: int)
    requires
        0 <= d < 10,
    ensures
        is_digit(digit_char(d)),
        digit_value(digit_char(d)) == d,
{
}

/// A numeral is never empty and consists of digits only.
pub proof fn lemma_decimal_digits(n: nat)
    ensures
        decimal(n).len() >= 1,
        all_digits(decimal(n)),
        n >= 10 ==> decimal(n).len() >= 2,
    decreases n,
{
    if n < 10 {
        lemma_digit_char(n as int);
    } else {
        lemma_decimal_digits(n / 10);
        lemma_digit_char((n % 10) as int);
    }
}

/// Reading a numeral gives back the number it was written from.
pub proof fn lemma_decimal_value_of_decimal(n: nat)
    ensures
        decimal_value(decimal(n)) == n,
    decreases n,
{
    reveal_with_fuel(decimal_value, 2);
    if n < 10 {
        lemma_digit_char(n as int);
        assert(decimal(n).drop_last() =~= Seq::<char>::empty());
    } else {
        lemma_decimal_value_of_decimal(n / 10);
        lemma_digit_char((n % 10) as int);
        assert(decimal(n).drop_last() =~= decimal(n / 10));
    }
}

/// Two numbers with the same numeral are the same number.
pub proof fn lemma_decimal_injective(a: nat, b: nat)
    requires
        decimal(a) == decimal(b),
    ensures
        a == b,
{
    lemma_decimal_value_of_decimal(a);
    lemma_decimal_value_of_decimal(b);
}

/// The number read from the first digits of a numeral is no greater than
/// the number read from all of them.
pub proof fn lemma_decimal_value_monotone(s: Seq<char>, k: int)
    requires
        all_digits(s),
        0 <= k <= s.len(),
    ensures
        decimal_value(s.take(k)) <= decimal_value(s),
    decreases s.len(),
{
    if k == s.len() {
        assert(s.take(k) =~= s);
    } else {
        assert(s.drop_last().take(k) =~= s.take(k));
        assert(is_digit(s.last()));
        lemma_decimal_value_monotone(s.drop_last(), k);
    }
}

/// The digit that `c` writes, if it writes one.
pub fn digit_of(c: char) -> (d: Option<usize>)
    ensures
        d is Some <==> is_digit(c),
        d matches Some(v) ==> v == digit_value(c) && v < 10,
{
    if c == '0' {
        Some(0)
    } else if c == '1' {
        Some(1)
    } else if c == '2' {
        Some(2)
    } else if c == '3' {
        Some(3)
    } else if c == '4' {
        Some(4)
    } else if c == '5' {
        Some(5)
    } else if c == '6' {
        Some(6)
    } else if c == '7' {
        Some(7)
    } else if c == '8' {
        Some(8)
    } else if c == '9' {
        Some(9)
    } else {
        None
    }
}

/// The decimal digits that `s` ends with.
pub open spec fn digit_suffix(s: Seq<char>) -> Seq<char>
    decreases s.len(),
{
    if s.len() == 0 || !is_digit(s.last()) {
        Seq::empty()
    } else {
        digit_suffix(s.drop_last()).push(s.last())
    }
}

/// The number that the decimal digits at the end of `s` write.
pub open spec fn trailing_number(s: Seq<char>) -> nat {
    decimal_value(digit_suffix(s))
}

/// The digits at the end of a text made of a text that ends with no digit
/// and of digits are those digits.
pub proof fn lemma_digit_suffix(p: Seq<char>, digits: Seq<char>)
    requires
        p.len() == 0 || !is_digit(p.last()),
        all_digits(digits),
    ensures
        digit_suffix(p + digits) == digits,
    decreases digits.len(),
{
    if digits.len() == 0 {
        assert(p + digits =~= p);
    } else {
        assert((p + digits).drop_last() =~= p + digits.drop_last());
        assert((p + digits).last() == digits.last());
        assert(is_digit(digits.last()));
        lemma_digit_suffix(p, digits.drop_last());
        assert(digits.drop_last().push(digits.last()) =~= digits);
    }
}

/// A text that ends with no digit, followed by a numeral, ends with the
/// number of that numeral.
pub proof fn lemma_trailing_number(p: Seq<char>, n: nat)
    requires
        p.len() == 0 || !is_digit(p.last()),
    ensures
        trailing_number(p + decimal(n)) == n,
        digit_suffix(p + decimal(n)) == decimal(n),
{
    lemma_decimal_digits(n);
    lemma_digit_suffix(p, decimal(n));
    lemma_decimal_value_of_decimal(n);
}

/// Two texts that end with no digit, each followed by a numeral, are the
/// same text only if the texts are the same and the numbers are the same.
pub proof fn lemma_numbered_injective(p: Seq<char>, a: nat, q: Seq<char>, b: nat)
    requires
        p.len() == 0 || !is_digit(p.last()),
        q.len() == 0 || !is_digit(q.last()),
        p + decimal(a) == q + decimal(b),
    ensures
        p == q,
        a == b,
{
    lemma_trailing_number(p, a);
    lemma_trailing_number(q, b);
    let t = p + decimal(a);
    assert(p =~= t.subrange(0, t.len() - decimal(a).len()));
    assert(q =~= t.subrange(0, t.len() - decimal(b).len()));
}

/// The one-character text of the decimal digit `d`.
fn digit_str(d: usize) -> (s: &'static str)
    requires
        d < 10,
    ensures
        s@ == seq![digit_char(d as int)],
{
    proof {
        reveal_strlit("0");
        reveal_strlit("1");
        reveal_strlit("2");
        reveal_strlit("3");
        reveal_strlit("4");
        reveal_strlit("5");
        reveal_strlit("6");
        reveal_strlit("7");
        reveal_strlit("8");
        reveal_strlit("9");
    }
    let s = if d == 0 {
        "0"
    } else if d == 1 {
        "1"
    } else if d == 2 {
        "2"
    } else if d == 3 {
        "3"
    } else if d == 4 {
        "4"
    } else if d == 5 {
        "5"
    } else if d == 6 {
        "6"
    } else if d == 7 {
        "7"
    } else if d == 8 {
        "8"
    } else {
        "9"
    };
    assert(s@ =~= seq![digit_char(d as int)]);
    s
}

/// Writes `n` as a decimal numeral.
pub fn decimal_string(n: usize) -> (s: String)
    ensures
        s@ == decimal(n as nat),
    decreases n,
{
    if n < 10 {
        String::from_str(digit_str(n))
    } else {
        let mut s = decimal_string(n / 10);
        s.append(digit_str(n % 10));
        assert(s@ =~= decimal(n as nat));
        s
    }
}

/// The characters of a string.
pub fn chars_of(s: &str) -> (v: Vec<char>)
    ensures
        v@ == s@,
{
    let mut v: Vec<char> = Vec::new();
    for c in it: s.chars()
        invariant
            it.seq() == s@,
            v@ == s@.take(it.index() as int),
    {
        v.push(c);
        assert(v@ =~= s@.take(it.index() + 1));
    }
    assert(v@ =~= s@);
    v
}

} // verus!
