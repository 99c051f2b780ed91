//! Implicit typing of plain scalars by the YAML 1.2 core schema.

use vstd::prelude::*;
use vstd::string::*;
use crate::number::{
    digit_value, digits_value, magnitude, negated_from_str_radix, parse_radix_signed,
    parse_radix_unsigned, signed_from_str_radix, unsigned_from_str_radix, without_plus, Width,
};
use crate::text::{
    after_first, bytes_eq, has_prefix, DOT, LOWER_B, LOWER_O, LOWER_X, MINUS, NINE, PLUS, ZERO,
};

verus! {

/// Whether `s` is one of the words for null: `null`, `Null`, `NULL`, `~`.
pub open spec fn is_null(s: Seq<u8>) -> bool {
    s == "null".spec_bytes() || s == "Null".spec_bytes() || s == "NULL".spec_bytes() || s
        == "~".spec_bytes()
}

/// The boolean that `s` is a word for: `true`, `True`, `TRUE`, `false`,
/// `False`, `FALSE`.
pub open spec fn bool_of(s: Seq<u8>) -> Option<bool> {
    if s == "true".spec_bytes() || s == "True".spec_bytes() || s == "TRUE".spec_bytes() {
        Some(true)
    } else if s == "false".spec_bytes() || s == "False".spec_bytes() || s
        == "FALSE".spec_bytes() {
        Some(false)
    } else {
        None
    }
}

/// Whether `b` is a sign.
pub open spec fn is_sign(b: u8) -> bool {
    b == PLUS || b == MINUS
}

/// Whether `s` begins with a sign.
pub open spec fn starts_with_sign(s: Seq<u8>) -> bool {
    s.len() > 0 && is_sign(s[0])
}

/// Whether `b` is a decimal digit.
pub open spec fn is_digit(b: u8) -> bool {
    ZERO <= b <= NINE
}

/// `s` without one leading sign.
pub open spec fn without_sign(s: Seq<u8>) -> Seq<u8> {
    if starts_with_sign(s) {
        s.skip(1)
    } else {
        s
    }
}

/// Whether `s` is, after one optional sign, a zero followed by one or more
/// further digits: text that looks like a number and is none.
pub open spec fn is_digits_but_not_number(s: Seq<u8>) -> bool {
    let rest = without_sign(s);
    rest.len() > 1 && rest[0] == ZERO && forall|i: int| 1 <= i < rest.len() ==> is_digit(rest[i])
}

/// The mark of a radix: `0` and the radix's letter.
pub open spec fn radix_prefix(letter: u8) -> Seq<u8> {
    seq![ZERO, letter]
}

/// The mark of a radix behind a minus.
pub open spec fn negative_radix_prefix(letter: u8) -> Seq<u8> {
    seq![MINUS, ZERO, letter]
}

/// The number behind a radix mark: digits without a sign.
pub open spec fn unsigned_digits(rest: Seq<u8>, radix: nat, width: Width) -> Option<nat> {
    if starts_with_sign(rest) {
        None
    } else {
        parse_radix_unsigned(rest, radix, width)
    }
}

/// The number behind a radix mark, in a signed width: digits without a sign.
pub open spec fn signed_digits(rest: Seq<u8>, radix: nat, width: Width) -> Option<int> {
    if starts_with_sign(rest) {
        None
    } else {
        parse_radix_signed(rest, radix, width)
    }
}

/// The unsigned integer that `s` writes, if it writes one that fits `width`.
///
/// One leading `+` is passed over. Behind `0x`, `0o` or `0b` stand digits of
/// that radix and no sign. Otherwise the text is decimal, without a further
/// sign and without a superfluous leading zero.
pub open spec fn unsigned_int(s: Seq<u8>, width: Width) -> Option<nat> {
    let rest = without_plus(s);
    if has_prefix(rest, radix_prefix(LOWER_X)) {
        unsigned_digits(rest.skip(2), 16, width)
    } else if has_prefix(rest, radix_prefix(LOWER_O)) {
        unsigned_digits(rest.skip(2), 8, width)
    } else if has_prefix(rest, radix_prefix(LOWER_B)) {
        unsigned_digits(rest.skip(2), 2, width)
    } else if starts_with_sign(rest) {
        None
    } else if is_digits_but_not_number(s) {
        None
    } else {
        parse_radix_unsigned(rest, 10, width)
    }
}

/// Whether `s` begins with `+` and a second sign.
pub open spec fn doubly_signed(s: Seq<u8>) -> bool {
    s.len() > 0 && s[0] == PLUS && starts_with_sign(s.skip(1))
}

/// The negative integer that `s` writes behind `-0x`, `-0o` or `-0b`: the
/// digits of that radix, read with the minus before them.
pub open spec fn negative_radix_int(s: Seq<u8>, width: Width) -> Option<Option<int>> {
    if has_prefix(s, negative_radix_prefix(LOWER_X)) {
        Some(parse_radix_signed(seq![MINUS] + s.skip(3), 16, width))
    } else if has_prefix(s, negative_radix_prefix(LOWER_O)) {
        Some(parse_radix_signed(seq![MINUS] + s.skip(3), 8, width))
    } else if has_prefix(s, negative_radix_prefix(LOWER_B)) {
        Some(parse_radix_signed(seq![MINUS] + s.skip(3), 2, width))
    } else {
        None
    }
}

/// The signed integer that `s` writes, if it writes one that fits `width`.
///
/// One leading `+` is passed over, and a second sign behind it is refused.
/// Behind `0x`, `0o` or `0b` stand digits of that radix and no sign; behind
/// `-0x`, `-0o` or `-0b` the digits are read with the minus. Otherwise the
/// text is decimal, with its sign, and without a superfluous leading zero.
pub open spec fn signed_int(s: Seq<u8>, width: Width) -> Option<int> {
    let rest = without_plus(s);
    if doubly_signed(s) {
        None
    } else if has_prefix(rest, radix_prefix(LOWER_X)) {
        signed_digits(rest.skip(2), 16, width)
    } else if has_prefix(rest, radix_prefix(LOWER_O)) {
        signed_digits(rest.skip(2), 8, width)
    } else if has_prefix(rest, radix_prefix(LOWER_B)) {
        signed_digits(rest.skip(2), 2, width)
    } else if negative_radix_int(s, width) is Some {
        negative_radix_int(s, width)->Some_0
    } else if is_digits_but_not_number(s) {
        None
    } else {
        parse_radix_signed(rest, 10, width)
    }
}

/// The integer that `s` writes when read for a negative number: behind
/// `-0x`, `-0o` or `-0b` the digits with the minus, else decimal text with
/// its sign and without a superfluous leading zero.
pub open spec fn negative_int(s: Seq<u8>, width: Width) -> Option<int> {
    if negative_radix_int(s, width) is Some {
        negative_radix_int(s, width)->Some_0
    } else if is_digits_but_not_number(s) {
        None
    } else {
        parse_radix_signed(s, 10, width)
    }
}

/// An integer of a plain scalar, in the first type that holds it.
#[derive(Copy, Clone, Debug, PartialEq, Eq, Structural)]
pub enum Int {
    U64(u64),
    I64(i64),
    U128(u128),
    I128(i128),
}

/// The integer that `s` writes: unsigned in 64 bits, else negative in 64
/// bits, else unsigned in 128 bits, else negative in 128 bits.
pub open spec fn int_of(s: Seq<u8>) -> Option<Int> {
    if unsigned_int(s, Width::Bits64) is Some {
        Some(Int::U64(unsigned_int(s, Width::Bits64)->Some_0 as u64))
    } else if negative_int(s, Width::Bits64) is Some {
        Some(Int::I64(negative_int(s, Width::Bits64)->Some_0 as i64))
    } else if unsigned_int(s, Width::Bits128) is Some {
        Some(Int::U128(unsigned_int(s, Width::Bits128)->Some_0 as u128))
    } else if negative_int(s, Width::Bits128) is Some {
        Some(Int::I128(negative_int(s, Width::Bits128)->Some_0 as i128))
    } else {
        None
    }
}

/// How text may stand for a float.
#[derive(Copy, Clone, Debug, PartialEq, Eq, Structural)]
pub enum FloatKind {
    /// Positive infinity.
    Infinity,
    /// Negative infinity.
    NegInfinity,
    /// Not a number.
    Nan,
    /// Digits for the standard float parser: a float if they give a finite value.
    Decimal,
}

/// How `s` may stand for a float, if at all. One leading `+` is passed over,
/// and a second sign behind it is refused. `.inf`, `-.inf` and `.nan` are
/// taken in their three spellings, the last two without a `+` before them.
/// All other text goes to the standard float parser.
pub open spec fn float_kind(s: Seq<u8>) -> Option<FloatKind> {
    let rest = without_plus(s);
    if doubly_signed(s) {
        None
    } else if rest == ".inf".spec_bytes() || rest == ".Inf".spec_bytes() || rest
        == ".INF".spec_bytes() {
        Some(FloatKind::Infinity)
    } else if s == "-.inf".spec_bytes() || s == "-.Inf".spec_bytes() || s
        == "-.INF".spec_bytes() {
        Some(FloatKind::NegInfinity)
    } else if s == ".nan".spec_bytes() || s == ".NaN".spec_bytes() || s == ".NAN".spec_bytes() {
        Some(FloatKind::Nan)
    } else {
        Some(FloatKind::Decimal)
    }
}

/// What a plain scalar's text holds by the core schema: null, a boolean, an
/// integer, a float, or else a string.
#[derive(Copy, Clone, Debug, PartialEq, Eq, Structural)]
pub enum Kind {
    Null,
    Bool(bool),
    Int(Int),
    Float(FloatKind),
    Str,
}

/// The core schema's reading of a plain scalar: empty text and the words for
/// null are null; then the words for booleans; then integers; then, unless
/// the text is digits behind a superfluous zero, floats; all else is a string.
pub open spec fn classify(s: Seq<u8>) -> Kind {
    if s.len() == 0 || is_null(s) {
        Kind::Null
    } else if bool_of(s) is Some {
        Kind::Bool(bool_of(s)->Some_0)
    } else if int_of(s) is Some {
        Kind::Int(int_of(s)->Some_0)
    } else if !is_digits_but_not_number(s) && float_kind(s) is Some {
        Kind::Float(float_kind(s)->Some_0)
    } else {
        Kind::Str
    }
}

/// Whether the scalar is a word for null.
pub fn parse_null(scalar: &[u8]) -> (r: Option<()>)
    ensures
        r is Some <==> is_null(scalar@),
{
    if bytes_eq(scalar, "null".as_bytes()) || bytes_eq(scalar, "Null".as_bytes()) || bytes_eq(
        scalar,
        "NULL".as_bytes(),
    ) || bytes_eq(scalar, "~".as_bytes()) {
        Some(())
    } else {
        None
    }
}

/// The boolean that the scalar is a word for.
pub fn parse_bool(scalar: &str) -> (r: Option<bool>)
    ensures
        r == bool_of(scalar.spec_bytes()),
{
    let s = scalar.as_bytes();
    if bytes_eq(s, "true".as_bytes()) || bytes_eq(s, "True".as_bytes()) || bytes_eq(
        s,
        "TRUE".as_bytes(),
    ) {
        Some(true)
    } else if bytes_eq(s, "false".as_bytes()) || bytes_eq(s, "False".as_bytes()) || bytes_eq(
        s,
        "FALSE".as_bytes(),
    ) {
        Some(false)
    } else {
        None
    }
}

/// Whether a sign stands at `s[at]`.
fn sign_at(s: &[u8], at: usize) -> (r: bool)
    requires
        at <= s.len(),
    ensures
        r == starts_with_sign(s@.skip(at as int)),
{
    at < s.len() && (s[at] == PLUS || s[at] == MINUS)
}

/// Whether `0` and `letter` stand at `s[at]`.
fn radix_at(s: &[u8], at: usize, letter: u8) -> (r: bool)
    requires
        at <= s.len(),
    ensures
        r == has_prefix(s@.skip(at as int), radix_prefix(letter)),
        r ==> at + 2 <= s.len(),
{
    let r = s.len() - at >= 2 && s[at] == ZERO && s[at + 1] == letter;
    proof {
        let rest = s@.skip(at as int);
        if r {
            assert(rest.subrange(0, 2) =~= radix_prefix(letter));
        } else if rest.len() >= 2 {
            assert(rest.subrange(0, 2)[0] == rest[0]);
            assert(rest.subrange(0, 2)[1] == rest[1]);
        }
    }
    r
}

/// Whether `-`, `0` and `letter` stand at the head of `s`.
fn negative_radix_at(s: &[u8], letter: u8) -> (r: bool)
    ensures
        r == has_prefix(s@, negative_radix_prefix(letter)),
        r ==> 3 <= s.len(),
{
    let r = s.len() >= 3 && s[0] == MINUS && s[1] == ZERO && s[2] == letter;
    proof {
        if r {
            assert(s@.subrange(0, 3) =~= negative_radix_prefix(letter));
        } else if s@.len() >= 3 {
            assert(s@.subrange(0, 3)[0] == s@[0]);
            assert(s@.subrange(0, 3)[1] == s@[1]);
            assert(s@.subrange(0, 3)[2] == s@[2]);
        }
    }
    r
}

/// Where `s` goes on behind one leading `+`.
fn behind_plus(s: &[u8]) -> (r: usize)
    ensures
        r <= s.len(),
        s@.skip(r as int) == without_plus(s@),
        r == if s@.len() > 0 && s@[0] == PLUS {
            1usize
        } else {
            0usize
        },
{
    if s.len() > 0 && s[0] == PLUS {
        1
    } else {
        assert(s@.skip(0) =~= s@);
        0
    }
}

/// Whether text is digits behind a superfluous leading zero, after one
/// optional sign: by YAML 1.2 such text is a string.
pub fn digits_but_not_number(scalar: &str) -> (r: bool)
    ensures
        r == is_digits_but_not_number(scalar.spec_bytes()),
{
    let s = scalar.as_bytes();
    let from: usize = if s.len() > 0 && (s[0] == PLUS || s[0] == MINUS) {
        1
    } else {
        0
    };
    let ghost rest = without_sign(s@);
    assert(rest =~= s@.skip(from as int));
    if s.len() - from <= 1 || s[from] != ZERO {
        return false;
    }
    let mut i: usize = from + 1;
    while i < s.len()
        invariant
            from + 1 <= i <= s.len(),
            s@ == scalar.spec_bytes(),
            rest == without_sign(s@),
            rest == s@.skip(from as int),
            rest.len() > 1,
            rest[0] == ZERO,
            forall|j: int| 1 <= j < i - from ==> is_digit(rest[j]),
        decreases s.len() - i,
    {
        if !(s[i] >= ZERO && s[i] <= NINE) {
            assert(!is_digit(rest[i - from]));
            return false;
        }
        i = i + 1;
    }
    true
}

/// The digits behind a radix mark at `s[at]`, without a sign before them.
fn unsigned_behind_mark(s: &[u8], at: usize, radix: u32, width: Width) -> (r: Option<u128>)
    requires
        at + 2 <= s.len(),
        2 <= radix <= 36,
    ensures
        match unsigned_digits(s@.skip(at as int).skip(2), radix as nat, width) {
            Some(v) => r == Some(v as u128),
            None => r is None,
        },
{
    assert(s@.skip(at as int).skip(2) =~= s@.skip(at + 2));
    if sign_at(s, at + 2) {
        None
    } else {
        unsigned_from_str_radix(s, at + 2, radix, width)
    }
}

/// The digits behind a radix mark at `s[at]`, without a sign before them,
/// in a signed width.
fn signed_behind_mark(s: &[u8], at: usize, radix: u32, width: Width) -> (r: Option<i128>)
    requires
        at + 2 <= s.len(),
        2 <= radix <= 36,
    ensures
        match signed_digits(s@.skip(at as int).skip(2), radix as nat, width) {
            Some(v) => r == Some(v as i128),
            None => r is None,
        },
{
    assert(s@.skip(at as int).skip(2) =~= s@.skip(at + 2));
    if sign_at(s, at + 2) {
        None
    } else {
        signed_from_str_radix(s, at + 2, radix, width)
    }
}

/// The unsigned integer that the scalar writes, if it writes one that fits
/// `width`.
pub fn parse_unsigned_int(scalar: &str, width: Width) -> (r: Option<u128>)
    ensures
        match unsigned_int(scalar.spec_bytes(), width) {
            Some(v) => r == Some(v as u128),
            None => r is None,
        },
{
    let s = scalar.as_bytes();
    let at = behind_plus(s);
    if radix_at(s, at, LOWER_X) {
        return unsigned_behind_mark(s, at, 16, width);
    }
    if radix_at(s, at, LOWER_O) {
        return unsigned_behind_mark(s, at, 8, width);
    }
    if radix_at(s, at, LOWER_B) {
        return unsigned_behind_mark(s, at, 2, width);
    }
    if sign_at(s, at) {
        return None;
    }
    if digits_but_not_number(scalar) {
        return None;
    }
    unsigned_from_str_radix(s, at, 10, width)
}

/// The negative integer behind `-0x`, `-0o` or `-0b`, if `s` begins so.
fn parse_negative_radix(s: &[u8], width: Width) -> (r: Option<Option<i128>>)
    ensures
        match negative_radix_int(s@, width) {
            Some(Some(v)) => r == Some(Some(v as i128)),
            Some(None) => r == Some(None::<i128>),
            None => r is None,
        },
{
    if negative_radix_at(s, LOWER_X) {
        return Some(negated_from_str_radix(s, 3, 16, width));
    }
    if negative_radix_at(s, LOWER_O) {
        return Some(negated_from_str_radix(s, 3, 8, width));
    }
    if negative_radix_at(s, LOWER_B) {
        return Some(negated_from_str_radix(s, 3, 2, width));
    }
    None
}

/// The signed integer that the scalar writes, if it writes one that fits
/// `width`.
pub fn parse_signed_int(scalar: &str, width: Width) -> (r: Option<i128>)
    ensures
        match signed_int(scalar.spec_bytes(), width) {
            Some(v) => r == Some(v as i128),
            None => r is None,
        },
{
    let s = scalar.as_bytes();
    let at = behind_plus(s);
    if at == 1 && sign_at(s, 1) {
        return None;
    }
    if radix_at(s, at, LOWER_X) {
        return signed_behind_mark(s, at, 16, width);
    }
    if radix_at(s, at, LOWER_O) {
        return signed_behind_mark(s, at, 8, width);
    }
    if radix_at(s, at, LOWER_B) {
        return signed_behind_mark(s, at, 2, width);
    }
    if let Some(found) = parse_negative_radix(s, width) {
        return found;
    }
    if digits_but_not_number(scalar) {
        return None;
    }
    signed_from_str_radix(s, at, 10, width)
}

/// The integer that the scalar writes when it is read for a negative number.
pub fn parse_negative_int(scalar: &str, width: Width) -> (r: Option<i128>)
    ensures
        match negative_int(scalar.spec_bytes(), width) {
            Some(v) => r == Some(v as i128),
            None => r is None,
        },
{
    let s = scalar.as_bytes();
    if let Some(found) = parse_negative_radix(s, width) {
        return found;
    }
    if digits_but_not_number(scalar) {
        return None;
    }
    assert(s@.skip(0) =~= s@);
    signed_from_str_radix(s, 0, 10, width)
}

/// The integer that the text writes, in the first type that holds it.
pub fn visit_int(v: &str) -> (r: Option<Int>)
    ensures
        r == int_of(v.spec_bytes()),
{
    if let Some(n) = parse_unsigned_int(v, Width::Bits64) {
        return Some(Int::U64(n as u64));
    }
    if let Some(n) = parse_negative_int(v, Width::Bits64) {
        return Some(Int::I64(n as i64));
    }
    if let Some(n) = parse_unsigned_int(v, Width::Bits128) {
        return Some(Int::U128(n));
    }
    if let Some(n) = parse_negative_int(v, Width::Bits128) {
        return Some(Int::I128(n));
    }
    None
}

/// A float as its text stands for it.
#[derive(Copy, Clone, Debug)]
pub enum Float<'a> {
    /// Positive infinity.
    Infinity,
    /// Negative infinity.
    NegInfinity,
    /// Not a number, with the sign bit clear.
    Nan,
    /// The digits to hand to the standard float parser. They stand for a
    /// float if that parser reads a finite value from them, and for none
    /// otherwise.
    Decimal(&'a str),
}

impl<'a> Float<'a> {
    /// Which of the four the float is.
    pub open spec fn kind(self) -> FloatKind {
        match self {
            Float::Infinity => FloatKind::Infinity,
            Float::NegInfinity => FloatKind::NegInfinity,
            Float::Nan => FloatKind::Nan,
            Float::Decimal(_) => FloatKind::Decimal,
        }
    }
}

/// How the scalar may stand for a float, if at all. For digits, they are the
/// scalar without one leading `+`.
pub fn parse_f64<'a>(scalar: &'a str) -> (r: Option<Float<'a>>)
    ensures
        match r {
            Some(float) => float_kind(scalar.spec_bytes()) == Some(float.kind()) && (
            float matches Float::Decimal(digits) ==> digits.spec_bytes() == without_plus(
                scalar.spec_bytes(),
            )),
            None => float_kind(scalar.spec_bytes()) is None,
        },
{
    let s = scalar.as_bytes();
    let unpositive: &str = if s.len() > 0 && s[0] == PLUS {
        if sign_at(s, 1) {
            return None;
        }
        after_first(scalar)
    } else {
        scalar
    };
    let u = unpositive.as_bytes();
    if bytes_eq(u, ".inf".as_bytes()) || bytes_eq(u, ".Inf".as_bytes()) || bytes_eq(
        u,
        ".INF".as_bytes(),
    ) {
        return Some(Float::Infinity);
    }
    if bytes_eq(s, "-.inf".as_bytes()) || bytes_eq(s, "-.Inf".as_bytes()) || bytes_eq(
        s,
        "-.INF".as_bytes(),
    ) {
        return Some(Float::NegInfinity);
    }
    if bytes_eq(s, ".nan".as_bytes()) || bytes_eq(s, ".NaN".as_bytes()) || bytes_eq(
        s,
        ".NAN".as_bytes(),
    ) {
        return Some(Float::Nan);
    }
    Some(Float::Decimal(unpositive))
}


/// The lowercase of text by Unicode's rules.
pub uninterp spec fn lowercase_text(s: Seq<char>) -> Seq<char>;

/// Makes text lowercase with `str::to_lowercase`. The result is a function
/// of the text; no more is claimed of it.
#[verifier::external_body]
fn to_lowercase(s: &str) -> (r: String)
    ensures
        r@ == lowercase_text(s@),
{
    s.to_lowercase()
}

/// Whether lowercase text `s` is one of the words that some YAML parser
/// reads as a boolean or as null, beyond the words of the core schema.
pub open spec fn is_loose_word(s: Seq<u8>) -> bool {
    s == "y".spec_bytes() || s == "yes".spec_bytes() || s == "n".spec_bytes() || s
        == "no".spec_bytes() || s == "on".spec_bytes() || s == "off".spec_bytes() || s
        == "true".spec_bytes() || s == "false".spec_bytes() || s == "null".spec_bytes() || s
        == "nil".spec_bytes() || s == "~".spec_bytes() || s == "nan".spec_bytes()
}

/// Whether lowercase text `s` could be read as something other than a
/// string: it is a word for a boolean or for null, it is empty, it begins
/// with a digit, a sign or a dot, or it is a loose word.
pub open spec fn is_ambiguous(s: Seq<u8>) -> bool {
    bool_of(s) is Some || is_null(s) || s.len() == 0 || is_digit(s[0]) || s[0] == MINUS || s[0]
        == DOT || s[0] == PLUS || is_loose_word(s)
}

/// Whether text that has been made lowercase could be read as something
/// other than a string.
pub fn ambiguous_lowercase(lower_scalar: &str) -> (r: bool)
    ensures
        r == is_ambiguous(lower_scalar.spec_bytes()),
{
    let s = lower_scalar.as_bytes();
    parse_bool(lower_scalar).is_some() || parse_null(s).is_some() || s.len() == 0 || (s[0] >= ZERO
        && s[0] <= NINE) || s[0] == MINUS || s[0] == DOT || s[0] == PLUS || bytes_eq(
        s,
        "y".as_bytes(),
    ) || bytes_eq(s, "yes".as_bytes()) || bytes_eq(s, "n".as_bytes()) || bytes_eq(
        s,
        "no".as_bytes(),
    ) || bytes_eq(s, "on".as_bytes()) || bytes_eq(s, "off".as_bytes()) || bytes_eq(
        s,
        "true".as_bytes(),
    ) || bytes_eq(s, "false".as_bytes()) || bytes_eq(s, "null".as_bytes()) || bytes_eq(
        s,
        "nil".as_bytes(),
    ) || bytes_eq(s, "~".as_bytes()) || bytes_eq(s, "nan".as_bytes())
}

/// Whether a string needs quotes on output, lest a YAML parser read it as
/// something other than a string: its lowercase is ambiguous.
pub fn ambiguous_string(scalar: &str) -> (r: bool)
    ensures
        r == is_ambiguous(vstd::utf8::encode_utf8(lowercase_text(scalar@))),
{
    let lower_scalar = to_lowercase(scalar);
    ambiguous_lowercase(lower_scalar.as_str())
}


/// The base ten numeral of `n` in bytes, without leading zeros.
pub open spec fn decimal_bytes(n: nat) -> Seq<u8>
    decreases n,
{
    if n < 10 {
        seq![(ZERO + n) as u8]
    } else {
        decimal_bytes(n / 10).push((ZERO + n % 10) as u8)
    }
}

/// How an integer is written out: in base ten, behind a minus where it is
/// negative.
pub open spec fn written_int(v: int) -> Seq<u8> {
    if v < 0 {
        seq![MINUS] + decimal_bytes((-v) as nat)
    } else {
        decimal_bytes(v as nat)
    }
}

/// How a boolean is written out.
pub open spec fn written_bool(b: bool) -> Seq<u8> {
    if b {
        "true".spec_bytes()
    } else {
        "false".spec_bytes()
    }
}

/// How null is written out.
pub open spec fn written_null() -> Seq<u8> {
    "null".spec_bytes()
}

impl Int {
    /// The integer, whatever its type.
    pub open spec fn value(self) -> int {
        match self {
            Int::U64(n) => n as int,
            Int::I64(n) => n as int,
            Int::U128(n) => n as int,
            Int::I128(n) => n as int,
        }
    }
}

/// A numeral is digits that write its number, and begins with a zero only
/// where it is `0`.
pub proof fn lemma_decimal_bytes(n: nat)
    ensures
        decimal_bytes(n).len() >= 1,
        forall|i: int| 0 <= i < decimal_bytes(n).len() ==> is_digit(#[trigger] decimal_bytes(n)[i]),
        decimal_bytes(n)[0] == ZERO ==> decimal_bytes(n).len() == 1 && n == 0,
        digits_value(decimal_bytes(n), 10) == Some(n),
    decreases n,
{
    let d = decimal_bytes(n);
    if n < 10 {
        assert(d.drop_last() =~= Seq::<u8>::empty());
        assert(digits_value(d.drop_last(), 10) == Some(0nat));
        assert(digit_value(d.last(), 10) == Some(n));
    } else {
        lemma_decimal_bytes(n / 10);
        let high = decimal_bytes(n / 10);
        assert(d.drop_last() =~= high);
        assert(d.last() == (ZERO + n % 10) as u8);
        assert(digit_value(d.last(), 10) == Some(n % 10));
        assert((n / 10) * 10 + n % 10 == n);
        assert(d[0] == high[0]);
    }
}

/// The first byte of each word for null and for a boolean.
proof fn lemma_words()
    ensures
        "null".spec_bytes().len() == 4 && "null".spec_bytes()[0] == 0x6e,
        "Null".spec_bytes().len() == 4 && "Null".spec_bytes()[0] == 0x4e,
        "NULL".spec_bytes().len() == 4 && "NULL".spec_bytes()[0] == 0x4e,
        "~".spec_bytes().len() == 1 && "~".spec_bytes()[0] == 0x7e,
        "true".spec_bytes().len() == 4 && "true".spec_bytes()[0] == 0x74,
        "True".spec_bytes().len() == 4 && "True".spec_bytes()[0] == 0x54,
        "TRUE".spec_bytes().len() == 4 && "TRUE".spec_bytes()[0] == 0x54,
        "false".spec_bytes().len() == 5 && "false".spec_bytes()[0] == 0x66,
        "False".spec_bytes().len() == 5 && "False".spec_bytes()[0] == 0x46,
        "FALSE".spec_bytes().len() == 5 && "FALSE".spec_bytes()[0] == 0x46,
{
    reveal_strlit("null");
    reveal_strlit("Null");
    reveal_strlit("NULL");
    reveal_strlit("~");
    reveal_strlit("true");
    reveal_strlit("True");
    reveal_strlit("TRUE");
    reveal_strlit("false");
    reveal_strlit("False");
    reveal_strlit("FALSE");
    is_ascii_spec_bytes("null");
    is_ascii_spec_bytes("Null");
    is_ascii_spec_bytes("NULL");
    is_ascii_spec_bytes("~");
    is_ascii_spec_bytes("true");
    is_ascii_spec_bytes("True");
    is_ascii_spec_bytes("TRUE");
    is_ascii_spec_bytes("false");
    is_ascii_spec_bytes("False");
    is_ascii_spec_bytes("FALSE");
}

/// Null, written out, reads as null.
pub proof fn lemma_null_round_trip()
    ensures
        classify(written_null()) == Kind::Null,
{
}

/// A boolean, written out, reads as the same boolean.
pub proof fn lemma_bool_round_trip(b: bool)
    ensures
        classify(written_bool(b)) == Kind::Bool(b),
{
    lemma_words();
}

/// A numeral without a sign is no word, bears no mark of a radix, and reads
/// as its number in either width that holds it.
proof fn lemma_numeral_reads(n: nat, width: Width)
    ensures
        decimal_bytes(n).len() != 0,
        !is_null(decimal_bytes(n)),
        bool_of(decimal_bytes(n)) is None,
        !is_digits_but_not_number(decimal_bytes(n)),
        unsigned_int(decimal_bytes(n), width) == if n <= width.unsigned_max() {
            Some(n)
        } else {
            None
        },
        negative_int(decimal_bytes(n), width) == if n <= width.signed_max() {
            Some(n as int)
        } else {
            None
        },
{
    lemma_words();
    lemma_decimal_bytes(n);
    let d = decimal_bytes(n);
    assert(is_digit(d[0]));
    assert(without_plus(d) == d);
    assert(without_sign(d) == d);
    assert forall|letter: u8| letter != ZERO && !is_digit(letter) implies !has_prefix(
        d,
        radix_prefix(letter),
    ) by {
        if d.len() >= 2 {
            assert(d.subrange(0, 2)[1] == d[1]);
            assert(is_digit(d[1]));
        }
    }
    assert forall|letter: u8| !has_prefix(d, negative_radix_prefix(letter)) by {
        if d.len() >= 3 {
            assert(d.subrange(0, 3)[0] == d[0]);
        }
    }
    assert(magnitude(d, 10, width.unsigned_max()) == if n <= width.unsigned_max() {
        Some(n)
    } else {
        None
    });
}

/// A numeral behind a minus is no word, bears no mark of a radix, is no
/// unsigned integer, and reads as its negative number in either width that
/// holds it.
proof fn lemma_negative_numeral_reads(n: nat, width: Width)
    requires
        n >= 1,
    ensures
        (seq![MINUS] + decimal_bytes(n)).len() != 0,
        !is_null(seq![MINUS] + decimal_bytes(n)),
        bool_of(seq![MINUS] + decimal_bytes(n)) is None,
        unsigned_int(seq![MINUS] + decimal_bytes(n), width) is None,
        negative_int(seq![MINUS] + decimal_bytes(n), width) == if n <= width.signed_min_size() {
            Some(-(n as int))
        } else {
            None
        },
{
    lemma_words();
    lemma_decimal_bytes(n);
    let d = decimal_bytes(n);
    let s = seq![MINUS] + d;
    assert(s[0] == MINUS);
    assert(s.skip(1) =~= d);
    assert(without_plus(s) == s);
    assert(without_sign(s) == d);
    assert(starts_with_sign(s));
    assert forall|letter: u8| !has_prefix(s, radix_prefix(letter)) by {
        if s.len() >= 2 {
            assert(s.subrange(0, 2)[0] == s[0]);
        }
    }
    assert forall|letter: u8| letter != ZERO && !is_digit(letter) implies !has_prefix(
        s,
        negative_radix_prefix(letter),
    ) by {
        if s.len() >= 3 {
            assert(s.subrange(0, 3)[2] == s[2]);
            assert(s[2] == d[1]);
            assert(is_digit(d[1]));
        }
    }
}

/// An integer, written out, reads as an integer of the same value.
pub proof fn lemma_int_round_trip(v: int)
    requires
        i128::MIN <= v <= u128::MAX,
    ensures
        classify(written_int(v)) matches Kind::Int(read) && read.value() == v,
{
    if v >= 0 {
        lemma_numeral_reads(v as nat, Width::Bits64);
        lemma_numeral_reads(v as nat, Width::Bits128);
    } else {
        lemma_negative_numeral_reads((-v) as nat, Width::Bits64);
        lemma_negative_numeral_reads((-v) as nat, Width::Bits128);
    }
}

/// How a float that is no finite number is written out: an infinity as
/// `.inf` or `-.inf`, and not-a-number as `.nan`.
pub open spec fn written_float(kind: FloatKind) -> Seq<u8>
    recommends
        kind != FloatKind::Decimal,
{
    match kind {
        FloatKind::Infinity => ".inf".spec_bytes(),
        FloatKind::NegInfinity => "-.inf".spec_bytes(),
        _ => ".nan".spec_bytes(),
    }
}

/// Text whose first byte is no digit writes no number.
proof fn lemma_no_digits(s: Seq<u8>, limit: nat)
    requires
        s.len() > 0,
        !is_digit(s[0]),
    ensures
        magnitude(s, 10, limit) is None,
{
    if digits_value(s, 10) is Some {
        crate::number::lemma_digits_prefix(s, 1, 10);
        assert(s.take(1).drop_last() =~= Seq::<u8>::empty());
        assert(s.take(1).last() == s[0]);
    }
}

/// Text that begins with a dot, or with a minus and a dot, is no integer
/// and is not digits behind a superfluous zero.
proof fn lemma_dotted_is_no_int(s: Seq<u8>)
    requires
        s.len() > 1,
        s[0] == DOT || (s[0] == MINUS && s[1] == DOT),
    ensures
        int_of(s) is None,
        !is_digits_but_not_number(s),
{
    assert(without_plus(s) == s);
    assert forall|letter: u8| !has_prefix(s, radix_prefix(letter)) by {
        assert(s.subrange(0, 2)[0] == s[0]);
    }
    assert forall|letter: u8| !has_prefix(s, negative_radix_prefix(letter)) by {
        if s.len() >= 3 {
            assert(s.subrange(0, 3)[0] == s[0]);
            assert(s.subrange(0, 3)[1] == s[1]);
        }
    }
    if s[0] == DOT {
        assert(without_sign(s) == s);
        lemma_no_digits(s, Width::Bits64.unsigned_max());
        lemma_no_digits(s, Width::Bits128.unsigned_max());
        lemma_no_digits(s, Width::Bits64.signed_max());
        lemma_no_digits(s, Width::Bits128.signed_max());
    } else {
        assert(s.skip(1)[0] == s[1]);
        lemma_no_digits(s.skip(1), Width::Bits64.signed_min_size());
        lemma_no_digits(s.skip(1), Width::Bits128.signed_min_size());
    }
}

/// The bytes of the words for the floats that are no finite numbers.
proof fn lemma_float_words()
    ensures
        ".inf".spec_bytes() == seq![DOT, 0x69u8, 0x6eu8, 0x66u8],
        "-.inf".spec_bytes() == seq![MINUS, DOT, 0x69u8, 0x6eu8, 0x66u8],
        ".nan".spec_bytes() == seq![DOT, 0x6eu8, 0x61u8, 0x6eu8],
        ".Inf".spec_bytes().len() == 4 && ".Inf".spec_bytes()[1] == 0x49,
        ".INF".spec_bytes().len() == 4 && ".INF".spec_bytes()[1] == 0x49,
        "-.Inf".spec_bytes().len() == 5 && "-.Inf".spec_bytes()[0] == MINUS,
        "-.INF".spec_bytes().len() == 5 && "-.INF".spec_bytes()[0] == MINUS,
{
    reveal_strlit(".inf");
    reveal_strlit("-.inf");
    reveal_strlit(".nan");
    reveal_strlit(".Inf");
    reveal_strlit(".INF");
    reveal_strlit("-.Inf");
    reveal_strlit("-.INF");
    is_ascii_spec_bytes(".inf");
    is_ascii_spec_bytes("-.inf");
    is_ascii_spec_bytes(".nan");
    is_ascii_spec_bytes(".Inf");
    is_ascii_spec_bytes(".INF");
    is_ascii_spec_bytes("-.Inf");
    is_ascii_spec_bytes("-.INF");
    assert(".inf".spec_bytes() =~= seq![DOT, 0x69u8, 0x6eu8, 0x66u8]);
    assert("-.inf".spec_bytes() =~= seq![MINUS, DOT, 0x69u8, 0x6eu8, 0x66u8]);
    assert(".nan".spec_bytes() =~= seq![DOT, 0x6eu8, 0x61u8, 0x6eu8]);
}

/// An infinity and not-a-number, written out, read as the same.
pub proof fn lemma_float_round_trip(kind: FloatKind)
    requires
        kind != FloatKind::Decimal,
    ensures
        classify(written_float(kind)) == Kind::Float(kind),
{
    lemma_words();
    lemma_float_words();
    let s = written_float(kind);
    lemma_dotted_is_no_int(s);
    assert(s[0] == DOT || s[0] == MINUS);
    assert(!is_null(s));
    assert(bool_of(s) is None);
    assert(!doubly_signed(s));
    assert(without_plus(s) == s);
    match kind {
        FloatKind::Infinity => {},
        FloatKind::NegInfinity => {
            assert(s.len() == 5);
        },
        _ => {
            assert(s[1] == 0x6e);
            assert(s.len() == 4);
        },
    }
    assert(float_kind(s) == Some(kind));
}

/// Implicit typing is stable: where plain text reads as null, as a boolean,
/// as an integer, as an infinity or as not-a-number, the value written out
/// again reads as the same.
pub proof fn lemma_round_trip(s: Seq<u8>)
    ensures
        match classify(s) {
            Kind::Null => classify(written_null()) == Kind::Null,
            Kind::Bool(b) => classify(written_bool(b)) == Kind::Bool(b),
            Kind::Int(found) => classify(written_int(found.value())) matches Kind::Int(read)
                && read.value() == found.value(),
            Kind::Float(FloatKind::Decimal) => true,
            Kind::Float(kind) => classify(written_float(kind)) == Kind::Float(kind),
            Kind::Str => true,
        },
{
    match classify(s) {
        Kind::Null => {
            lemma_null_round_trip();
        },
        Kind::Bool(b) => {
            lemma_bool_round_trip(b);
        },
        Kind::Int(found) => {
            lemma_int_round_trip(found.value());
        },
        Kind::Float(FloatKind::Decimal) => {},
        Kind::Float(kind) => {
            lemma_float_round_trip(kind);
        },
        Kind::Str => {},
    }
}

} // verus!
