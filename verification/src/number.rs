//! Unsigned numbers written as digits, in base ten or base sixteen.

use vstd::prelude::*;

verus! {

/// The base in which a number is written.
#[derive(Clone, Copy, Debug, PartialEq, Eq, Structural)]
pub enum Radix {
    /// Base ten: the digits `0` to `9`.
    Decimal,
    /// Base sixteen: the digits `0` to `9` and the letters `a` to `f`, in
    /// either case.
    Hex,
}

impl Radix {
    /// The base as a number: 10 or 16.
    pub open spec fn base(self) -> nat {
        match self {
            Radix::Decimal => 10,
            Radix::Hex => 16,
        }
    }
}

/// The value of `c` as a digit of the given base, if it is one.
pub open spec fn digit_value(c: char, radix: Radix) -> Option<u8> {
    let u = c as u32;
    if 0x30 <= u <= 0x39 {
        Some((u - 0x30) as u8)
    } else if radix == Radix::Hex && 0x61 <= u <= 0x66 {
        Some((u - 0x61 + 10) as u8)
    } else if radix == Radix::Hex && 0x41 <= u <= 0x46 {
        Some((u - 0x41 + 10) as u8)
    } else {
        None
    }
}

/// Whether `t` is a number in the given base: at least one character, and
/// digits of that base only.
pub open spec fn is_number(t: Seq<char>, radix: Radix) -> bool {
    t.len() > 0 && forall|k: int| 0 <= k < t.len() ==> digit_value(t[k], radix) is Some
}

/// The value of the digits `t`, the most significant digit first. A
/// character that is no digit counts as zero.
pub open spec fn number(t: Seq<char>, radix: Radix) -> nat
    decreases t.len(),
{
    if t.len() == 0 {
        0
    } else {
        let last = match digit_value(t.last(), radix) {
            Some(d) => d as nat,
            None => 0,
        };
        number(t.drop_last(), radix) * radix.base() + last
    }
}

/// The value of `t` if `t` is a number of the given base that is at most
/// `max`.
pub open spec fn bounded_number(t: Seq<char>, radix: Radix, max: u8) -> Option<u8> {
    if is_number(t, radix) && number(t, radix) <= max {
        Some(number(t, radix) as u8)
    } else {
        None
    }
}

/// More digits never make a number smaller: the value of a prefix of `t` is
/// at most the value of `t`.
pub proof fn lemma_number_prefix(t: Seq<char>, radix: Radix, n: int)
    requires
        0 <= n <= t.len(),
    ensures
        number(t.take(n), radix) <= number(t, radix),
    decreases t.len() - n,
{
    if n == t.len() {
        assert(t.take(n) =~= t);
    } else {
        lemma_number_prefix(t.drop_last(), radix, n);
        assert(t.drop_last().take(n) =~= t.take(n));
        assert(number(t.drop_last(), radix) <= number(t.drop_last(), radix) * radix.base())
            by (nonlinear_arith)
            requires
                radix.base() >= 1,
        ;
    }
}

/// The value of `c` as a digit of the given base, if it is one.
pub fn parse_digit(c: char, radix: Radix) -> (digit: Option<u8>)
    ensures
        digit == digit_value(c, radix),
        digit is Some ==> digit->Some_0 < radix.base(),
{
    let u: u32 = c as u32;
    let hex = match radix {
        Radix::Decimal => false,
        Radix::Hex => true,
    };
    if 0x30 <= u && u <= 0x39 {
        Some((u - 0x30) as u8)
    } else if hex && 0x61 <= u && u <= 0x66 {
        Some((u - 0x61 + 10) as u8)
    } else if hex && 0x41 <= u && u <= 0x46 {
        Some((u - 0x41 + 10) as u8)
    } else {
        None
    }
}

/// Reads the characters of `token` from position `from` on as a number of
/// the given base that is at most `max`.
pub fn parse_number(token: &Vec<char>, from: usize, radix: Radix, max: u8) -> (value: Option<u8>)
    requires
        from <= token.len(),
    ensures
        value == bounded_number(token@.skip(from as int), radix, max),
{
    let ghost digits = token@.skip(from as int);
    let base: u32 = match radix {
        Radix::Decimal => 10,
        Radix::Hex => 16,
    };
    let mut acc: u32 = 0;
    let mut i: usize = from;
    assert(digits.take(0) =~= Seq::<char>::empty());
    while i < token.len()
        invariant
            from <= i <= token.len(),
            digits == token@.skip(from as int),
            base == radix.base(),
            acc <= max,
            acc == number(digits.take(i - from), radix),
            forall|k: int| 0 <= k < i - from ==> digit_value(digits[k], radix) is Some,
        decreases token.len() - i,
    {
        let ghost prefix = digits.take(i - from + 1);
        proof {
            assert(prefix.drop_last() =~= digits.take(i - from));
            assert(prefix.last() == token[i as int]);
            assert(digits[i - from] == token[i as int]);
        }
        match parse_digit(token[i], radix) {
            None => {
                return None;
            },
            Some(d) => {
                let next: u32 = acc * base + d as u32;
                assert(next == number(prefix, radix));
                if next > max as u32 {
                    proof {
                        lemma_number_prefix(digits, radix, i - from + 1);
                    }
                    return None;
                }
                acc = next;
            },
        }
        i = i + 1;
    }
    assert(digits.take(i - from) =~= digits);
    if i == from {
        None
    } else {
        Some(acc as u8)
    }
}

} // verus!
