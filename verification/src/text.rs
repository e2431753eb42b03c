//! Text primitives: decimal rendering and parsing, comparison, and the
//! conversion between strings, characters and UTF-8 bytes.

use vstd::prelude::*;

verus! {

/// Appending a character: `String::push` adds `c` behind the characters that
/// the string already holds.
pub assume_specification[ String::push ](s: &mut String, c: char)
    ensures
        final(s)@ == old(s)@.push(c),
;

/// `std::str::from_utf8` accepts exactly the well-formed UTF-8 sequences; the
/// text it returns is the one that the bytes encode.
#[verifier::external_body]
pub(crate) fn utf8_text(bytes: &[u8]) -> (r: Option<String>)
    ensures
        r is Some <==> vstd::utf8::valid_utf8(bytes@),
        r matches Some(s) ==> s@ == vstd::utf8::decode_utf8(bytes@),
{
    std::str::from_utf8(bytes).ok().map(|s| s.to_string())
}

// ---------------------------------------------------------------------------
// Characters
// ---------------------------------------------------------------------------
/// The characters of `s`, in order.
pub fn chars_of(s: &str) -> (r: Vec<char>)
    ensures
        r@ == s@,
{
    let mut out: Vec<char> = Vec::new();
    for c in it: s.chars()
        invariant
            out@ == it.seq().take(it.index()),
            it.seq() == s@,
    {
        out.push(c);
    }
    assert(s@.take(s@.len() as int) =~= s@);
    out
}

/// The string that the characters `from..to` of `cs` spell.
pub fn string_of(cs: &Vec<char>, from: usize, to: usize) -> (r: String)
    requires
        from <= to <= cs.len(),
    ensures
        r@ == cs@.subrange(from as int, to as int),
{
    let mut out: String = String::new();
    let mut i: usize = from;
    while i < to
        invariant
            from <= i <= to <= cs.len(),
            out@ == cs@.subrange(from as int, i as int),
        decreases to - i,
    {
        out.push(cs[i]);
        i = i + 1;
        assert(cs@.subrange(from as int, i as int) =~= cs@.subrange(from as int, i - 1).push(
            cs@[i - 1],
        ));
    }
    out
}

/// Whether two strings hold the same characters.
pub fn same_text(a: &str, b: &str) -> (r: bool)
    ensures
        r == (a@ == b@),
{
    let x: &[u8] = a.as_bytes();
    let y: &[u8] = b.as_bytes();
    proof {
        vstd::utf8::encode_utf8_decode_utf8(a@);
        vstd::utf8::encode_utf8_decode_utf8(b@);
    }
    if x.len() != y.len() {
        return false;
    }
    let mut i: usize = 0;
    while i < x.len()
        invariant
            i <= x.len(),
            x.len() == y.len(),
            x@ == vstd::utf8::encode_utf8(a@),
            y@ == vstd::utf8::encode_utf8(b@),
            forall|j: int| 0 <= j < i ==> x@[j] == y@[j],
        decreases x.len() - i,
    {
        if x[i] != y[i] {
            return false;
        }
        i = i + 1;
    }
    assert(x@ =~= y@);
    true
}

// ---------------------------------------------------------------------------
// Decimal numbers
// ---------------------------------------------------------------------------
/// The character of a decimal digit.
pub open spec fn digit(d: nat) -> char {
    (48 + d) as char
}

/// Whether `c` is one of `0` to `9`.
pub open spec fn is_digit(c: char) -> bool {
    '0' <= c <= '9'
}

/// The shortest decimal rendering of `n`: no sign, no leading zero.
pub open spec fn decimal(n: nat) -> Seq<char>
    decreases n,
{
    if n < 10 {
        seq![digit(n)]
    } else {
        decimal(n / 10).push(digit(n % 10))
    }
}

/// Whether every character of `s` is a decimal digit.
pub open spec fn all_digits(s: Seq<char>) -> bool {
    forall|i: int| 0 <= i < s.len() ==> is_digit(#[trigger] s[i])
}

/// The number that a run of decimal digits denotes.
pub open spec fn digits_value(s: Seq<char>) -> nat
    decreases s.len(),
{
    if s.len() == 0 {
        0
    } else {
        digits_value(s.drop_last()) * 10 + ((s.last() as int - 48) as nat)
    }
}

/// What is left of `s` behind an optional plus sign.
pub open spec fn without_plus(s: Seq<char>) -> Seq<char> {
    if s.len() > 0 && s[0] == '+' {
        s.drop_first()
    } else {
        s
    }
}

/// The number that `s` denotes, if `s` is an optional plus sign followed by one
/// or more decimal digits and the number is at most `max`.
pub open spec fn unsigned_value(s: Seq<char>, max: nat) -> Option<nat> {
    let body = without_plus(s);
    if body.len() > 0 && all_digits(body) && digits_value(body) <= max {
        Some(digits_value(body))
    } else {
        None
    }
}

/// The number that `s` denotes as a signed 64-bit integer: an optional sign
/// followed by one or more decimal digits, within range.
pub open spec fn signed_value(s: Seq<char>) -> Option<int> {
    let negative = s.len() > 0 && s[0] == '-';
    let body = if negative {
        s.drop_first()
    } else {
        without_plus(s)
    };
    let magnitude = digits_value(body) as int;
    let value = if negative {
        -magnitude
    } else {
        magnitude
    };
    if body.len() > 0 && all_digits(body) && i64::MIN <= value <= i64::MAX {
        Some(value)
    } else {
        None
    }
}

/// Cutting digits off the end never makes the number larger.
pub proof fn lemma_prefix_value(s: Seq<char>, i: int)
    requires
        all_digits(s),
        0 <= i <= s.len(),
    ensures
        digits_value(s.take(i)) <= digits_value(s),
    decreases s.len() - i,
{
    if i == s.len() {
        assert(s.take(i) =~= s);
    } else {
        lemma_prefix_value(s, i + 1);
        assert(s.take(i + 1).drop_last() =~= s.take(i));
        assert(is_digit(s[i]));
    }
}

/// A decimal rendering consists of digits and denotes the number it was made of.
pub proof fn lemma_decimal_value(n: nat)
    ensures
        decimal(n).len() > 0,
        all_digits(decimal(n)),
        digits_value(decimal(n)) == n,
    decreases n,
{
    reveal_with_fuel(digits_value, 2);
    if n < 10 {
        assert(decimal(n).drop_last() =~= Seq::<char>::empty());
    } else {
        lemma_decimal_value(n / 10);
        assert(decimal(n).drop_last() =~= decimal(n / 10));
        assert forall|i: int| 0 <= i < decimal(n).len() implies is_digit(
            #[trigger] decimal(n)[i],
        ) by {
            if i < decimal(n).len() - 1 {
                assert(is_digit(decimal(n / 10)[i]));
            }
        }
    }
}

/// Parsing undoes rendering: every number within range is read back from its
/// decimal form.
pub proof fn decimal_round_trips(n: nat, max: nat)
    requires
        n <= max,
    ensures
        unsigned_value(decimal(n), max) == Some(n),
{
    lemma_decimal_value(n);
    assert(is_digit(decimal(n)[0]));
}

/// Two numbers with the same decimal form are the same number.
pub proof fn decimal_is_injective(a: nat, b: nat)
    requires
        decimal(a) == decimal(b),
    ensures
        a == b,
{
    lemma_decimal_value(a);
    lemma_decimal_value(b);
}

/// The decimal digit of `d`.
fn digit_char(d: u64) -> (c: char)
    requires
        d < 10,
    ensures
        c == digit(d as nat),
{
    ((48 + d) as u8) as char
}

/// The decimal rendering of `n`.
pub fn decimal_text(n: u64) -> (r: String)
    ensures
        r@ == decimal(n as nat),
    decreases n,
{
    if n < 10 {
        let mut out: String = String::new();
        out.push(digit_char(n));
        assert(out@ =~= seq![digit(n as nat)]);
        out
    } else {
        let mut out: String = decimal_text(n / 10);
        out.push(digit_char(n % 10));
        out
    }
}

/// The number that the digits `cs[from..]` denote, if there is at least one,
/// all of them are digits and the number is at most `max`.
fn digits_number(cs: &Vec<char>, from: usize, max: u64) -> (r: Option<u64>)
    requires
        from <= cs.len(),
    ensures
        ({
            let body = cs@.skip(from as int);
            if body.len() > 0 && all_digits(body) && digits_value(body) <= max {
                r == Some(digits_value(body) as u64)
            } else {
                r is None
            }
        }),
{
    let ghost body = cs@.skip(from as int);
    if from == cs.len() {
        return None;
    }
    let mut acc: u64 = 0;
    let mut i: usize = from;
    while i < cs.len()
        invariant
            from <= i <= cs.len(),
            body == cs@.skip(from as int),
            acc == digits_value(body.take(i - from)),
            acc <= max,
            forall|j: int| 0 <= j < i - from ==> is_digit(#[trigger] body[j]),
        decreases cs.len() - i,
    {
        let c: char = cs[i];
        assert(c == body[i - from]);
        if !('0' <= c && c <= '9') {
            return None;
        }
        let d: u64 = (c as u32 - 48) as u64;
        assert(body.take(i - from + 1).drop_last() =~= body.take(i - from));
        assert(digits_value(body.take(i - from + 1)) == acc * 10 + d);
        if acc > max / 10 || d > max || acc * 10 > max - d {
            proof {
                if all_digits(body) {
                    lemma_prefix_value(body, i - from + 1);
                }
            }
            return None;
        }
        acc = acc * 10 + d;
        i = i + 1;
    }
    assert(body.take(i - from) =~= body);
    Some(acc)
}

/// The number that `s` denotes, at most `max`.
fn unsigned_number(s: &str, max: u64) -> (r: Option<u64>)
    ensures
        r is Some <==> unsigned_value(s@, max as nat) is Some,
        r matches Some(n) ==> unsigned_value(s@, max as nat) == Some(n as nat),
{
    let cs: Vec<char> = chars_of(s);
    assert(cs@.skip(0) =~= cs@);
    assert(cs.len() > 0 ==> cs@.skip(1) =~= cs@.drop_first());
    if cs.len() > 0 && cs[0] == '+' {
        digits_number(&cs, 1, max)
    } else {
        digits_number(&cs, 0, max)
    }
}

/// Parses an unsigned 64-bit number: an optional `+` and decimal digits.
pub fn parse_u64(s: &str) -> (r: Option<u64>)
    ensures
        r is Some <==> unsigned_value(s@, u64::MAX as nat) is Some,
        r matches Some(n) ==> unsigned_value(s@, u64::MAX as nat) == Some(n as nat),
{
    unsigned_number(s, u64::MAX)
}

/// Parses an unsigned 32-bit number: an optional `+` and decimal digits.
pub fn parse_u32(s: &str) -> (r: Option<u32>)
    ensures
        r is Some <==> unsigned_value(s@, u32::MAX as nat) is Some,
        r matches Some(n) ==> unsigned_value(s@, u32::MAX as nat) == Some(n as nat),
{
    match unsigned_number(s, u32::MAX as u64) {
        Some(n) => Some(n as u32),
        None => None,
    }
}

/// Parses a signed 64-bit number: an optional sign and decimal digits.
pub fn parse_i64(s: &str) -> (r: Option<i64>)
    ensures
        r is Some <==> signed_value(s@) is Some,
        r matches Some(n) ==> signed_value(s@) == Some(n as int),
{
    let cs: Vec<char> = chars_of(s);
    assert(cs@.skip(0) =~= cs@);
    assert(cs.len() > 0 ==> cs@.skip(1) =~= cs@.drop_first());
    if cs.len() > 0 && cs[0] == '-' {
        match digits_number(&cs, 1, 9223372036854775808) {
            Some(m) => if m == 9223372036854775808 {
                Some(i64::MIN)
            } else {
                Some(-(m as i64))
            },
            None => None,
        }
    } else {
        let from: usize = if cs.len() > 0 && cs[0] == '+' {
            1
        } else {
            0
        };
        match digits_number(&cs, from, 9223372036854775807) {
            Some(m) => Some(m as i64),
            None => None,
        }
    }
}

// ---------------------------------------------------------------------------
// Laws
// ---------------------------------------------------------------------------
/// Numbers are read from left to right: every digit weighs ten times the one
/// behind it, and counts as many as its distance from `0`.
pub proof fn digits_weigh_ten_times(s: Seq<char>, c: char)
    requires
        is_digit(c),
    ensures
        digits_value(Seq::empty()) == 0,
        digits_value(s.push(c)) == 10 * digits_value(s) + (c as int - '0' as int),
        is_digit(c) <==> '0' <= c <= '9',
{
    assert(s.push(c).drop_last() =~= s);
}

/// The decimal form is the shortest: digits only, and no zero in front but for
/// zero itself.
pub proof fn decimals_have_no_leading_zero(n: nat)
    ensures
        n == 0 ==> decimal(n) == seq!['0'],
        n > 0 ==> decimal(n)[0] != '0',
        n < 10 ==> decimal(n).len() == 1,
        10 <= n < 100 ==> decimal(n).len() == 2,
        n >= 10 ==> decimal(n).len() == decimal(n / 10).len() + 1,
    decreases n,
{
    lemma_decimal_value(n);
    reveal_with_fuel(decimal, 2);
    if n >= 10 {
        decimals_have_no_leading_zero(n / 10);
        lemma_decimal_value(n / 10);
        assert(decimal(n)[0] == decimal(n / 10)[0]);
    }
}

/// An unsigned number is one or more digits, with a plus sign in front or not, of
/// a value within range; nothing else is read.
pub proof fn unsigned_numbers_are_digits(s: Seq<char>, max: nat)
    ensures
        s.len() == 0 ==> unsigned_value(s, max) is None,
        s.len() > 0 && s[0] != '+' ==> unsigned_value(s, max) == if (forall|i: int|
            0 <= i < s.len() ==> '0' <= #[trigger] s[i] <= '9') && digits_value(s) <= max {
            Some(digits_value(s))
        } else {
            None
        },
        s.len() > 0 && s[0] == '+' && s.len() == 1 ==> unsigned_value(s, max) is None,
        s.len() > 1 && s[0] == '+' && s[1] != '+' ==> unsigned_value(s, max) == unsigned_value(
            s.drop_first(),
            max,
        ),
        s.len() > 1 && s[0] == '+' && s[1] == '+' ==> unsigned_value(s, max) is None,
{
    if s.len() > 0 && s[0] != '+' {
        assert(all_digits(s) <==> forall|i: int| 0 <= i < s.len() ==> '0' <= #[trigger] s[i] <= '9') by {
            if forall|i: int| 0 <= i < s.len() ==> '0' <= #[trigger] s[i] <= '9' {
                assert forall|i: int| 0 <= i < s.len() implies is_digit(#[trigger] s[i]) by {}
            }
            if all_digits(s) {
                assert forall|i: int| 0 <= i < s.len() implies '0' <= #[trigger] s[i] <= '9' by {
                    assert(is_digit(s[i]));
                }
            }
        }
    }
    if s.len() > 1 && s[0] == '+' && s[1] == '+' {
        assert(!is_digit(s.drop_first()[0]));
    }
}

/// A signed number is an unsigned one, or one behind a minus sign, which turns
/// its sign, as long as 64 bits hold it.
pub proof fn minus_turns_the_sign(s: Seq<char>, m: nat)
    ensures
        s.len() > 0 && s[0] == '-' && m == digits_value(s.drop_first()) ==> signed_value(s) == if s.len() > 1
            && all_digits(s.drop_first()) && m <= 0x8000_0000_0000_0000 {
            Some(-(m as int))
        } else {
            None
        },
        s.len() == 0 ==> signed_value(s) is None,
        s.len() > 0 && s[0] != '-' ==> (signed_value(s) is Some <==> unsigned_value(
            s,
            i64::MAX as nat,
        ) is Some),
        s.len() > 0 && s[0] != '-' ==> (signed_value(s) matches Some(v) ==> unsigned_value(
            s,
            i64::MAX as nat,
        ) == Some(v as nat) && v >= 0),
{
}

} // verus!
