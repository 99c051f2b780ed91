//! Reading integers from digits in a radix, as `from_str_radix` does.

use vstd::prelude::*;
use crate::text::{LOWER_A, LOWER_Z, MINUS, NINE, PLUS, UPPER_A, UPPER_Z, ZERO};

verus! {

/// The width of the integer type that a number must fit in.
#[derive(Copy, Clone, Debug, PartialEq, Eq, Structural)]
pub enum Width {
    /// Sixty-four bits: `u64` and `i64`.
    Bits64,
    /// A hundred and twenty-eight bits: `u128` and `i128`.
    Bits128,
}

impl Width {
    /// The largest unsigned value of the width.
    pub open spec fn unsigned_max(self) -> nat {
        match self {
            Width::Bits64 => u64::MAX as nat,
            Width::Bits128 => u128::MAX as nat,
        }
    }

    /// The largest signed value of the width.
    pub open spec fn signed_max(self) -> nat {
        match self {
            Width::Bits64 => i64::MAX as nat,
            Width::Bits128 => i128::MAX as nat,
        }
    }

    /// The size of the least signed value of the width.
    pub open spec fn signed_min_size(self) -> nat {
        match self {
            Width::Bits64 => (-(i64::MIN as int)) as nat,
            Width::Bits128 => (-(i128::MIN as int)) as nat,
        }
    }
}

/// What the byte `b` is worth as a digit in `radix`: `0` to `9`, then the
/// letters of either case from ten on; nothing if that is not below the radix.
pub open spec fn digit_value(b: u8, radix: nat) -> Option<nat> {
    let v: nat = if ZERO <= b <= NINE {
        (b - ZERO) as nat
    } else if LOWER_A <= b <= LOWER_Z {
        (b - LOWER_A + 10) as nat
    } else if UPPER_A <= b <= UPPER_Z {
        (b - UPPER_A + 10) as nat
    } else {
        36
    };
    if v < radix {
        Some(v)
    } else {
        None
    }
}

/// The number that the digits `s` write in `radix`; nothing if a byte is no
/// digit of the radix.
pub open spec fn digits_value(s: Seq<u8>, radix: nat) -> Option<nat>
    decreases s.len(),
{
    if s.len() == 0 {
        Some(0)
    } else {
        match (digits_value(s.drop_last(), radix), digit_value(s.last(), radix)) {
            (Some(high), Some(low)) => Some(high * radix + low),
            _ => None,
        }
    }
}

/// The number that `s` writes, if `s` is one digit or more of the radix and
/// the number is at most `limit`.
pub open spec fn magnitude(s: Seq<u8>, radix: nat, limit: nat) -> Option<nat> {
    if s.len() == 0 {
        None
    } else {
        match digits_value(s, radix) {
            Some(v) => if v <= limit {
                Some(v)
            } else {
                None
            },
            None => None,
        }
    }
}

/// `s` without one leading `+`.
pub open spec fn without_plus(s: Seq<u8>) -> Seq<u8> {
    if s.len() > 0 && s[0] == PLUS {
        s.skip(1)
    } else {
        s
    }
}

/// An unsigned integer from text: an optional `+`, then digits of the radix
/// whose number fits the width.
pub open spec fn parse_radix_unsigned(s: Seq<u8>, radix: nat, width: Width) -> Option<nat> {
    magnitude(without_plus(s), radix, width.unsigned_max())
}

/// A signed integer from text: an optional `+` or `-`, then digits of the
/// radix whose number, with the sign, fits the width.
pub open spec fn parse_radix_signed(s: Seq<u8>, radix: nat, width: Width) -> Option<int> {
    if s.len() > 0 && s[0] == MINUS {
        match magnitude(s.skip(1), radix, width.signed_min_size()) {
            Some(v) => Some(-(v as int)),
            None => None,
        }
    } else {
        match magnitude(without_plus(s), radix, width.signed_max()) {
            Some(v) => Some(v as int),
            None => None,
        }
    }
}

/// A number's leading digits are digits too, and write no more than the number.
pub proof fn lemma_digits_prefix(s: Seq<u8>, k: int, radix: nat)
    requires
        0 <= k <= s.len(),
        digits_value(s, radix) is Some,
    ensures
        digits_value(s.take(k), radix) is Some,
        digits_value(s.take(k), radix)->Some_0 <= digits_value(s, radix)->Some_0,
    decreases s.len(),
{
    if k == s.len() {
        assert(s.take(k) =~= s);
    } else {
        lemma_digits_prefix(s.drop_last(), k, radix);
        assert(s.drop_last().take(k) =~= s.take(k));
        let high = digits_value(s.drop_last(), radix)->Some_0;
        let low = digit_value(s.last(), radix)->Some_0;
        assert(high * radix + low >= high) by (nonlinear_arith)
            requires
                radix >= 1,
        ;
    }
}

/// What the byte `b` is worth as a digit in `radix`.
pub fn digit_of(b: u8, radix: u32) -> (r: Option<u32>)
    requires
        2 <= radix <= 36,
    ensures
        match digit_value(b, radix as nat) {
            Some(v) => r == Some(v as u32),
            None => r is None,
        },
{
    let v: u32 = if b >= ZERO && b <= NINE {
        (b - ZERO) as u32
    } else if b >= LOWER_A && b <= LOWER_Z {
        (b - LOWER_A) as u32 + 10
    } else if b >= UPPER_A && b <= UPPER_Z {
        (b - UPPER_A) as u32 + 10
    } else {
        36
    };
    if v < radix {
        Some(v)
    } else {
        None
    }
}

/// The number that `s[from..]` writes in `radix`, if it is one digit or more
/// and at most `limit`.
pub fn parse_magnitude(s: &[u8], from: usize, radix: u32, limit: u128) -> (r: Option<u128>)
    requires
        from <= s.len(),
        2 <= radix <= 36,
    ensures
        match magnitude(s@.skip(from as int), radix as nat, limit as nat) {
            Some(v) => r == Some(v as u128),
            None => r is None,
        },
{
    let ghost text = s@.skip(from as int);
    if from == s.len() {
        return None;
    }
    let mut acc: u128 = 0;
    let mut i: usize = from;
    assert(text.take(0) =~= Seq::<u8>::empty());
    while i < s.len()
        invariant
            from <= i <= s.len(),
            2 <= radix <= 36,
            text == s@.skip(from as int),
            digits_value(text.take(i - from), radix as nat) == Some(acc as nat),
            acc <= limit,
        decreases s.len() - i,
    {
        let ghost next = text.take(i - from + 1);
        proof {
            assert(next.drop_last() =~= text.take(i - from));
            assert(next.last() == s@[i as int]);
        }
        let digit = match digit_of(s[i], radix) {
            Some(digit) => digit,
            None => {
                proof {
                    if digits_value(text, radix as nat) is Some {
                        lemma_digits_prefix(text, i - from + 1, radix as nat);
                    }
                }
                return None;
            },
        };
        let grown = match acc.checked_mul(radix as u128) {
            Some(product) => product.checked_add(digit as u128),
            None => None,
        };
        match grown {
            Some(value) if value <= limit => {
                acc = value;
            },
            _ => {
                proof {
                    assert(digits_value(next, radix as nat) == Some(
                        (acc as nat) * (radix as nat) + (digit as nat),
                    ));
                    assert((acc as nat) * (radix as nat) + (digit as nat) > limit);
                    if digits_value(text, radix as nat) is Some {
                        lemma_digits_prefix(text, i - from + 1, radix as nat);
                    }
                }
                return None;
            },
        }
        i = i + 1;
    }
    assert(text.take(i - from) =~= text);
    Some(acc)
}

/// An unsigned integer from `s[from..]`: an optional `+`, then digits of the
/// radix whose number fits the width.
pub fn unsigned_from_str_radix(s: &[u8], from: usize, radix: u32, width: Width) -> (r: Option<
    u128,
>)
    requires
        from <= s.len(),
        2 <= radix <= 36,
    ensures
        match parse_radix_unsigned(s@.skip(from as int), radix as nat, width) {
            Some(v) => r == Some(v as u128),
            None => r is None,
        },
{
    let limit: u128 = match width {
        Width::Bits64 => 0xffff_ffff_ffff_ffffu128,
        Width::Bits128 => 0xffff_ffff_ffff_ffff_ffff_ffff_ffff_ffffu128,
    };
    let ghost text = s@.skip(from as int);
    if from < s.len() && s[from] == PLUS {
        assert(text.skip(1) =~= s@.skip(from + 1));
        parse_magnitude(s, from + 1, radix, limit)
    } else {
        parse_magnitude(s, from, radix, limit)
    }
}

/// The negative of a size that is at most the size of the least value.
fn negative(size: u128) -> (r: i128)
    requires
        size <= 0x8000_0000_0000_0000_0000_0000_0000_0000u128,
    ensures
        r == -(size as int),
{
    if size == 0x8000_0000_0000_0000_0000_0000_0000_0000u128 {
        i128::MIN
    } else {
        -(size as i128)
    }
}

/// The integer that `-` and then `s[from..]` write: digits of the radix
/// whose number, negated, fits the width.
pub fn negated_from_str_radix(s: &[u8], from: usize, radix: u32, width: Width) -> (r: Option<
    i128,
>)
    requires
        from <= s.len(),
        2 <= radix <= 36,
    ensures
        match parse_radix_signed(seq![MINUS] + s@.skip(from as int), radix as nat, width) {
            Some(v) => r == Some(v as i128),
            None => r is None,
        },
{
    let limit: u128 = match width {
        Width::Bits64 => 0x8000_0000_0000_0000u128,
        Width::Bits128 => 0x8000_0000_0000_0000_0000_0000_0000_0000u128,
    };
    assert((seq![MINUS] + s@.skip(from as int)).skip(1) =~= s@.skip(from as int));
    match parse_magnitude(s, from, radix, limit) {
        Some(size) => Some(negative(size)),
        None => None,
    }
}

/// A signed integer from `s[from..]`: an optional `+` or `-`, then digits of
/// the radix whose number, with the sign, fits the width.
pub fn signed_from_str_radix(s: &[u8], from: usize, radix: u32, width: Width) -> (r: Option<i128>)
    requires
        from <= s.len(),
        2 <= radix <= 36,
    ensures
        match parse_radix_signed(s@.skip(from as int), radix as nat, width) {
            Some(v) => r == Some(v as i128),
            None => r is None,
        },
{
    let ghost text = s@.skip(from as int);
    if from < s.len() && s[from] == MINUS {
        assert(text.skip(1) =~= s@.skip(from + 1));
        assert(seq![MINUS] + s@.skip(from + 1) =~= text);
        negated_from_str_radix(s, from + 1, radix, width)
    } else {
        let limit: u128 = match width {
            Width::Bits64 => 0x7fff_ffff_ffff_ffffu128,
            Width::Bits128 => 0x7fff_ffff_ffff_ffff_ffff_ffff_ffff_ffffu128,
        };
        let found = if from < s.len() && s[from] == PLUS {
            assert(text.skip(1) =~= s@.skip(from + 1));
            parse_magnitude(s, from + 1, radix, limit)
        } else {
            parse_magnitude(s, from, radix, limit)
        };
        match found {
            Some(size) => Some(size as i128),
            None => None,
        }
    }
}

} // verus!
