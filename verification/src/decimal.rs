//! Unsigned decimal integers: reading them the way `str::parse` does for the
//! unsigned integer types, and writing them the way `Display` does.
use vstd::prelude::*;

use crate::text::push_char;

verus! {

/// Why a text is not an unsigned decimal integer (the kinds that
/// `str::parse` reports for an unsigned integer type).
#[derive(Debug, Clone, Copy, PartialEq, Eq)]
pub enum IntErrorKind {
    /// The text is empty.
    Empty,
    /// A character that is not a decimal digit, or a lone sign.
    InvalidDigit,
    /// The number is too large for the target type.
    PosOverflow,
}

impl IntErrorKind {
    /// The text `Display` gives the corresponding `ParseIntError`.
    pub open spec fn description_spec(self) -> Seq<char> {
        match self {
            IntErrorKind::Empty => "cannot parse integer from empty string"@,
            IntErrorKind::InvalidDigit => "invalid digit found in string"@,
            IntErrorKind::PosOverflow => "number too large to fit in target type"@,
        }
    }

    /// The error's description, as `ParseIntError`'s `Display` writes it.
    pub fn description(&self) -> (r: String)
        ensures
            r@ == self.description_spec(),
    {
        match self {
            IntErrorKind::Empty => "cannot parse integer from empty string".to_owned(),
            IntErrorKind::InvalidDigit => "invalid digit found in string".to_owned(),
            IntErrorKind::PosOverflow => "number too large to fit in target type".to_owned(),
        }
    }
}

pub open spec fn is_digit(c: char) -> bool {
    48 <= c as u32 <= 57
}

pub open spec fn digit_value(c: char) -> nat {
    (c as u32 - 48) as nat
}

/// The number that a run of decimal digits denotes.
pub open spec fn digits_value(d: Seq<char>) -> nat
    decreases d.len(),
{
    if d.len() == 0 {
        0
    } else {
        digits_value(d.drop_last()) * 10 + digit_value(d.last())
    }
}

pub open spec fn all_digits(d: Seq<char>) -> bool {
    forall|j: int| 0 <= j < d.len() ==> is_digit(#[trigger] d[j])
}

/// Reads the digits of `d` from index `i` on, with `acc` read so far; stops
/// at the first character that is not a digit or that takes the number
/// above `max`.
pub open spec fn scan_digits(d: Seq<char>, i: int, acc: nat, max: nat) -> Result<nat, IntErrorKind>
    decreases d.len() - i,
{
    if i < 0 || i >= d.len() {
        Ok(acc)
    } else if !is_digit(d[i]) {
        Err(IntErrorKind::InvalidDigit)
    } else if acc * 10 + digit_value(d[i]) > max {
        Err(IntErrorKind::PosOverflow)
    } else {
        scan_digits(d, i + 1, acc * 10 + digit_value(d[i]), max)
    }
}

/// An unsigned integer no larger than `max`, read from `s` as `str::parse`
/// reads one: an optional `+`, then decimal digits only.
pub open spec fn parse_int_seq(s: Seq<char>, max: nat) -> Result<nat, IntErrorKind> {
    if s.len() == 0 {
        Err(IntErrorKind::Empty)
    } else if s.len() == 1 && (s[0] == '+' || s[0] == '-') {
        Err(IntErrorKind::InvalidDigit)
    } else if s[0] == '+' {
        scan_digits(s.drop_first(), 0, 0, max)
    } else {
        scan_digits(s, 0, 0, max)
    }
}

/// Reads an unsigned decimal integer no larger than `max` from `s`.
pub fn parse_int(s: &str, max: u64) -> (r: Result<u64, IntErrorKind>)
    ensures
        r matches Ok(v) ==> v <= max,
        match r {
            Ok(v) => parse_int_seq(s@, max as nat) == Ok::<nat, IntErrorKind>(v as nat),
            Err(k) => parse_int_seq(s@, max as nat) == Err::<nat, IntErrorKind>(k),
        },
{
    let cs = crate::text::chars_of(s);
    let n = cs.len();
    if n == 0 {
        return Err(IntErrorKind::Empty);
    }
    if n == 1 && (cs[0] == '+' || cs[0] == '-') {
        return Err(IntErrorKind::InvalidDigit);
    }
    let st: usize = if cs[0] == '+' {
        1
    } else {
        0
    };
    let ghost d = s@.skip(st as int);
    assert(st == 1 ==> d =~= s@.drop_first());
    assert(st == 0 ==> d =~= s@);
    let mut i: usize = 0;
    let mut acc: u64 = 0;
    while st + i < n
        invariant
            n == cs@.len(),
            cs@ == s@,
            st <= 1,
            st <= n,
            d == s@.skip(st as int),
            i <= d.len(),
            acc <= max,
            scan_digits(d, i as int, acc as nat, max as nat) == parse_int_seq(s@, max as nat),
        decreases n - st - i,
    {
        let c = cs[st + i];
        assert(c == d[i as int]);
        let u = c as u32;
        if u < 48 || u > 57 {
            return Err(IntErrorKind::InvalidDigit);
        }
        let next: u128 = (acc as u128) * 10 + ((u - 48) as u128);
        if next > max as u128 {
            return Err(IntErrorKind::PosOverflow);
        }
        acc = next as u64;
        i = i + 1;
    }
    Ok(acc)
}

/// Reads a `u64` as `<u64 as FromStr>::from_str` does.
pub fn parse_u64(s: &str) -> (r: Result<u64, IntErrorKind>)
    ensures
        match r {
            Ok(v) => parse_int_seq(s@, u64::MAX as nat) == Ok::<nat, IntErrorKind>(v as nat),
            Err(k) => parse_int_seq(s@, u64::MAX as nat) == Err::<nat, IntErrorKind>(k),
        },
{
    parse_int(s, u64::MAX)
}

/// Reads a `usize` as `<usize as FromStr>::from_str` does.
pub fn parse_usize(s: &str) -> (r: Result<usize, IntErrorKind>)
    ensures
        match r {
            Ok(v) => parse_int_seq(s@, usize::MAX as nat) == Ok::<nat, IntErrorKind>(v as nat),
            Err(k) => parse_int_seq(s@, usize::MAX as nat) == Err::<nat, IntErrorKind>(k),
        },
{
    match parse_int(s, usize::MAX as u64) {
        Ok(v) => Ok(v as usize),
        Err(k) => Err(k),
    }
}

/// The character of a decimal digit.
pub open spec fn digit_char(d: nat) -> char {
    if d == 0 {
        '0'
    } else if d == 1 {
        '1'
    } else if d == 2 {
        '2'
    } else if d == 3 {
        '3'
    } else if d == 4 {
        '4'
    } else if d == 5 {
        '5'
    } else if d == 6 {
        '6'
    } else if d == 7 {
        '7'
    } else if d == 8 {
        '8'
    } else {
        '9'
    }
}

/// The decimal digits of `n`, most significant first, without leading zeros.
pub open spec fn decimal_seq(n: nat) -> Seq<char>
    decreases n,
{
    if n < 10 {
        seq![digit_char(n)]
    } else {
        decimal_seq(n / 10).push(digit_char(n % 10))
    }
}

fn digit_to_char(d: u64) -> (c: char)
    requires
        d < 10,
    ensures
        c == digit_char(d as nat),
{
    if d == 0 {
        '0'
    } else if d == 1 {
        '1'
    } else if d == 2 {
        '2'
    } else if d == 3 {
        '3'
    } else if d == 4 {
        '4'
    } else if d == 5 {
        '5'
    } else if d == 6 {
        '6'
    } else if d == 7 {
        '7'
    } else if d == 8 {
        '8'
    } else {
        '9'
    }
}

/// Appends the decimal digits of `n` to `s`.
pub fn push_decimal(s: &mut String, n: u64)
    ensures
        final(s)@ == old(s)@ + decimal_seq(n as nat),
    decreases n,
{
    if n >= 10 {
        push_decimal(s, n / 10);
    }
    push_char(s, digit_to_char(n % 10));
    proof {
        if n < 10 {
            assert(decimal_seq(n as nat) =~= seq![digit_char(n as nat)]);
        }
    }
    assert(final(s)@ =~= old(s)@ + decimal_seq(n as nat));
}

proof fn lemma_scan_bound(d: Seq<char>, i: int, acc: nat, max: nat)
    requires
        acc <= max,
    ensures
        scan_digits(d, i, acc, max) matches Ok(v) ==> v <= max,
    decreases d.len() - i,
{
    if 0 <= i < d.len() && is_digit(d[i]) && acc * 10 + digit_value(d[i]) <= max {
        lemma_scan_bound(d, i + 1, acc * 10 + digit_value(d[i]), max);
    }
}

proof fn lemma_scan_digits_only(d: Seq<char>, i: int, acc: nat, max: nat)
    requires
        0 <= i,
    ensures
        scan_digits(d, i, acc, max) is Ok ==> forall|j: int| i <= j < d.len() ==> is_digit(
            #[trigger] d[j],
        ),
    decreases d.len() - i,
{
    if 0 <= i < d.len() && is_digit(d[i]) && acc * 10 + digit_value(d[i]) <= max {
        lemma_scan_digits_only(d, i + 1, acc * 10 + digit_value(d[i]), max);
    }
}

/// A text read as a number holds only digits, after an optional `+`.
pub proof fn lemma_parse_digits_only(s: Seq<char>, max: nat)
    ensures
        parse_int_seq(s, max) is Ok ==> forall|j: int|
            0 <= j < s.len() ==> is_digit(#[trigger] s[j]) || (j == 0 && s[0] == '+'),
{
    if s.len() > 0 {
        lemma_scan_digits_only(s, 0, 0, max);
        lemma_scan_digits_only(s.drop_first(), 0, 0, max);
        if s[0] == '+' && parse_int_seq(s, max) is Ok {
            assert forall|j: int| 0 < j < s.len() implies is_digit(#[trigger] s[j]) by {
                assert(s[j] == s.drop_first()[j - 1]);
            }
        }
    }
}

/// A number read with the bound `max` is at most `max`.
pub proof fn lemma_parse_bound(s: Seq<char>, max: nat)
    ensures
        parse_int_seq(s, max) matches Ok(v) ==> v <= max,
{
    if s.len() > 0 {
        lemma_scan_bound(s.drop_first(), 0, 0, max);
        lemma_scan_bound(s, 0, 0, max);
    }
}

pub proof fn lemma_digit_char(d: nat)
    requires
        d < 10,
    ensures
        is_digit(digit_char(d)),
        digit_value(digit_char(d)) == d,
{
}

pub proof fn lemma_decimal_seq(n: nat)
    ensures
        decimal_seq(n).len() >= 1,
        all_digits(decimal_seq(n)),
        digits_value(decimal_seq(n)) == n,
    decreases n,
{
    if n < 10 {
        lemma_digit_char(n);
        assert(seq![digit_char(n)].drop_last() =~= Seq::<char>::empty());
        assert(digits_value(Seq::<char>::empty()) == 0);
        assert(digits_value(decimal_seq(n)) == digits_value(Seq::<char>::empty()) * 10 + digit_value(digit_char(n)));
    } else {
        lemma_decimal_seq(n / 10);
        lemma_digit_char(n % 10);
        let d = decimal_seq(n);
        assert(d.drop_last() =~= decimal_seq(n / 10));
        assert(d.last() == digit_char(n % 10));
        assert(n == (n / 10) * 10 + n % 10) by (nonlinear_arith);
        assert(digits_value(d) == digits_value(d.drop_last()) * 10 + digit_value(d.last()));
    }
}

pub proof fn lemma_value_prefix_le(d: Seq<char>, k: int)
    requires
        0 <= k <= d.len(),
    ensures
        digits_value(d.take(k)) <= digits_value(d),
    decreases d.len(),
{
    if k < d.len() {
        assert(d.drop_last().take(k) =~= d.take(k));
        lemma_value_prefix_le(d.drop_last(), k);
    } else {
        assert(d.take(k) =~= d);
    }
}

pub proof fn lemma_scan_ok(d: Seq<char>, i: int, max: nat)
    requires
        0 <= i <= d.len(),
        all_digits(d),
        digits_value(d) <= max,
    ensures
        scan_digits(d, i, digits_value(d.take(i)), max) == Ok::<nat, IntErrorKind>(digits_value(d)),
    decreases d.len() - i,
{
    if i < d.len() {
        assert(d.take(i + 1).drop_last() =~= d.take(i));
        assert(d.take(i + 1).last() == d[i]);
        lemma_value_prefix_le(d, i + 1);
        lemma_scan_ok(d, i + 1, max);
    } else {
        assert(d.take(i) =~= d);
    }
}

/// A run of digits whose value fits is read as that value.
pub proof fn lemma_parse_digits(d: Seq<char>, max: nat)
    requires
        d.len() >= 1,
        all_digits(d),
        digits_value(d) <= max,
    ensures
        parse_int_seq(d, max) == Ok::<nat, IntErrorKind>(digits_value(d)),
{
    assert(d.take(0) =~= Seq::<char>::empty());
    lemma_scan_ok(d, 0, max);
    assert(is_digit(d[0]));
}

/// Writing a number in decimal and reading it back gives the number.
pub proof fn law_decimal_round_trip(n: nat, max: nat)
    requires
        n <= max,
    ensures
        parse_int_seq(decimal_seq(n), max) == Ok::<nat, IntErrorKind>(n),
{
    lemma_decimal_seq(n);
    lemma_parse_digits(decimal_seq(n), max);
}

} // verus!
