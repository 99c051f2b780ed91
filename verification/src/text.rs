//! Helpers for text: numerals, comparisons of bytes, and the step from bytes
//! to text and back.

use vstd::prelude::*;
use vstd::string::*;

verus! {

/// The byte `+`.
pub const PLUS: u8 = 0x2b;

/// The byte `-`.
pub const MINUS: u8 = 0x2d;

/// The byte `.`.
pub const DOT: u8 = 0x2e;

/// The byte `!`.
pub const BANG: u8 = 0x21;

/// The byte `b`.
pub const LOWER_B: u8 = 0x62;

/// The byte `o`.
pub const LOWER_O: u8 = 0x6f;

/// The byte `x`.
pub const LOWER_X: u8 = 0x78;

/// The byte `0`.
pub const ZERO: u8 = 0x30;

/// The byte `9`.
pub const NINE: u8 = 0x39;

/// The byte `a`.
pub const LOWER_A: u8 = 0x61;

/// The byte `z`.
pub const LOWER_Z: u8 = 0x7a;

/// The byte `A`.
pub const UPPER_A: u8 = 0x41;

/// The byte `Z`.
pub const UPPER_Z: u8 = 0x5a;

/// The character that writes the digit `d` in base ten.
pub open spec fn digit_char(d: nat) -> char {
    if d == 0 {
        '0'
    } else if d == 1 {
        '1'
    } else if d == 2 {
        '2'
    } else if d == 3 {
        '3'
    } else if d == 4 {
        '4'
    } else if d == 5 {
        '5'
    } else if d == 6 {
        '6'
    } else if d == 7 {
        '7'
    } else if d == 8 {
        '8'
    } else {
        '9'
    }
}

/// The base ten numeral of `n`, without leading zeros.
pub open spec fn decimal(n: nat) -> Seq<char>
    decreases n,
{
    if n < 10 {
        seq![digit_char(n)]
    } else {
        decimal(n / 10).push(digit_char(n % 10))
    }
}

/// The one-character text of a digit below ten.
pub fn digit_str(d: u8) -> (r: &'static str)
    requires
        d < 10,
    ensures
        r@ == seq![digit_char(d as nat)],
{
    proof {
        reveal_strlit("0");
        reveal_strlit("1");
        reveal_strlit("2");
        reveal_strlit("3");
        reveal_strlit("4");
        reveal_strlit("5");
        reveal_strlit("6");
        reveal_strlit("7");
        reveal_strlit("8");
        reveal_strlit("9");
    }
    let r = if d == 0 {
        "0"
    } else if d == 1 {
        "1"
    } else if d == 2 {
        "2"
    } else if d == 3 {
        "3"
    } else if d == 4 {
        "4"
    } else if d == 5 {
        "5"
    } else if d == 6 {
        "6"
    } else if d == 7 {
        "7"
    } else if d == 8 {
        "8"
    } else {
        "9"
    };
    assert(r@ =~= seq![digit_char(d as nat)]);
    r
}

/// Appends the base ten numeral of `n` to `out`.
pub fn push_decimal(out: &mut String, n: u128)
    ensures
        final(out)@ == old(out)@ + decimal(n as nat),
    decreases n,
{
    if n >= 10 {
        push_decimal(out, n / 10);
    }
    let d: u8 = (n % 10) as u8;
    out.append(digit_str(d));
    assert(final(out)@ =~= old(out)@ + decimal(n as nat));
}

/// Whether two byte strings hold the same bytes.
pub fn bytes_eq(a: &[u8], b: &[u8]) -> (r: bool)
    ensures
        r == (a@ == b@),
{
    if a.len() != b.len() {
        return false;
    }
    let mut i: usize = 0;
    while i < a.len()
        invariant
            a.len() == b.len(),
            i <= a.len(),
            forall|j: int| 0 <= j < i ==> a@[j] == b@[j],
        decreases a.len() - i,
    {
        if a[i] != b[i] {
            return false;
        }
        i = i + 1;
    }
    assert(a@ =~= b@);
    true
}

/// Whether `s` begins with the bytes of `prefix`.
pub open spec fn has_prefix(s: Seq<u8>, prefix: Seq<u8>) -> bool {
    prefix.len() <= s.len() && s.subrange(0, prefix.len() as int) == prefix
}

/// Whether `s` begins with `prefix`.
pub fn starts_with(s: &[u8], prefix: &[u8]) -> (r: bool)
    ensures
        r == has_prefix(s@, prefix@),
{
    if prefix.len() > s.len() {
        return false;
    }
    let mut i: usize = 0;
    while i < prefix.len()
        invariant
            prefix.len() <= s.len(),
            i <= prefix.len(),
            forall|j: int| 0 <= j < i ==> s@[j] == prefix@[j],
        decreases prefix.len() - i,
    {
        if s[i] != prefix[i] {
            assert(s@.subrange(0, prefix.len() as int)[i as int] != prefix@[i as int]);
            return false;
        }
        i = i + 1;
    }
    assert(s@.subrange(0, prefix.len() as int) =~= prefix@);
    true
}


/// A byte string is settled by the text it encodes.
pub proof fn lemma_same_bytes_same_text(a: Seq<char>, b: Seq<char>)
    ensures
        vstd::utf8::encode_utf8(a) == vstd::utf8::encode_utf8(b) <==> a == b,
{
    vstd::utf8::encode_utf8_decode_utf8(a);
    vstd::utf8::encode_utf8_decode_utf8(b);
}

/// Whether two texts are the same.
pub fn str_eq(a: &str, b: &str) -> (r: bool)
    ensures
        r == (a@ == b@),
{
    proof {
        lemma_same_bytes_same_text(a@, b@);
    }
    bytes_eq(a.as_bytes(), b.as_bytes())
}

/// After a leading ASCII byte, valid UTF-8 goes on as valid UTF-8.
pub proof fn lemma_boundary_after_ascii(bytes: Seq<u8>)
    requires
        vstd::utf8::valid_utf8(bytes),
        bytes.len() > 0,
        bytes[0] < 0x80,
    ensures
        vstd::utf8::is_char_boundary(bytes, 1),
        vstd::utf8::valid_utf8(bytes.skip(1)),
{
    reveal_with_fuel(vstd::utf8::is_char_boundary, 2);
    reveal_with_fuel(vstd::utf8::valid_utf8, 2);
    assert(vstd::utf8::length_of_first_scalar(bytes) == 1);
    assert(vstd::utf8::pop_first_scalar(bytes) =~= bytes.skip(1));
}

/// The text of `s` after its first byte, which is ASCII.
pub fn after_first(s: &str) -> (r: &str)
    requires
        s.spec_bytes().len() > 0,
        s.spec_bytes()[0] < 0x80,
    ensures
        r.spec_bytes() == s.spec_bytes().skip(1),
{
    proof {
        vstd::utf8::encode_utf8_valid_utf8(s@);
        lemma_boundary_after_ascii(s.spec_bytes());
    }
    let (_, rest) = s.split_at(1);
    assert(rest.spec_bytes() =~= s.spec_bytes().skip(1));
    rest
}


/// Whether the first `n` bytes are the longest head of the bytes that is
/// valid UTF-8.
pub open spec fn is_valid_up_to(bytes: Seq<u8>, n: int) -> bool {
    &&& 0 <= n <= bytes.len()
    &&& vstd::utf8::valid_utf8(bytes.take(n))
    &&& forall|k: int| n < k <= bytes.len() ==> !vstd::utf8::valid_utf8(#[trigger] bytes.take(k))
}

/// How many leading bytes are valid UTF-8: the length of the longest head
/// of the bytes that is.
pub open spec fn valid_up_to(bytes: Seq<u8>) -> nat {
    choose|n: nat| is_valid_up_to(bytes, n as int)
}

/// The longest valid head is one: its length is [`valid_up_to`].
pub proof fn lemma_valid_up_to(bytes: Seq<u8>, n: int)
    requires
        is_valid_up_to(bytes, n),
    ensures
        valid_up_to(bytes) == n,
        n == bytes.len() <==> vstd::utf8::valid_utf8(bytes),
{
    assert(is_valid_up_to(bytes, (n as nat) as int));
    let m = valid_up_to(bytes) as int;
    assert(is_valid_up_to(bytes, m));
    if m < n {
        assert(!vstd::utf8::valid_utf8(bytes.take(n)));
    }
    if n < m {
        assert(!vstd::utf8::valid_utf8(bytes.take(m)));
    }
    assert(bytes.take(bytes.len() as int) =~= bytes);
}

/// How long the sequence of bytes is that breaks UTF-8; nothing where the
/// bytes end in the middle of a character.
pub uninterp spec fn error_len(bytes: Seq<u8>) -> Option<nat>;

/// Reads bytes as text with `str::from_utf8`, and where they are none, reads
/// the place of the break from the error's `valid_up_to` and `error_len`.
///
/// Valid UTF-8 gives the text, which has the given bytes. Else the bytes
/// before the break are the longest head that is valid UTF-8, and the
/// sequence that breaks, where its length is given, is of one byte or more
/// and lies within the bytes.
#[verifier::external_body]
pub(crate) fn checked_utf8<'a>(bytes: &'a [u8]) -> (r: Result<&'a str, (usize, Option<usize>)>)
    ensures
        r is Ok <==> vstd::utf8::valid_utf8(bytes@),
        r matches Ok(text) ==> text.spec_bytes() == bytes@,
        r matches Err((up_to, len)) ==> {
            &&& is_valid_up_to(bytes@, up_to as int)
            &&& match len {
                Some(n) => error_len(bytes@) == Some(n as nat) && 1 <= n && up_to + n
                    <= bytes@.len(),
                None => error_len(bytes@) is None,
            }
        },
{
    match std::str::from_utf8(bytes) {
        Ok(text) => Ok(text),
        Err(error) => Err((error.valid_up_to(), error.error_len())),
    }
}

/// The text that the bytes are, where they are valid UTF-8.
pub fn from_utf8<'a>(bytes: &'a [u8]) -> (r: Option<&'a str>)
    ensures
        r is Some <==> vstd::utf8::valid_utf8(bytes@),
        r matches Some(text) ==> text.spec_bytes() == bytes@,
{
    match checked_utf8(bytes) {
        Ok(text) => Some(text),
        Err(_) => None,
    }
}

/// The text that valid UTF-8 bytes encode.
pub open spec fn text_of(bytes: Seq<u8>) -> Seq<char> {
    vstd::utf8::decode_utf8(bytes)
}

/// Text is the text of its bytes.
pub proof fn lemma_text_of_bytes(s: &str)
    ensures
        text_of(s.spec_bytes()) == s@,
        vstd::utf8::valid_utf8(s.spec_bytes()),
{
    vstd::utf8::encode_utf8_decode_utf8(s@);
    vstd::utf8::encode_utf8_valid_utf8(s@);
}


/// How text reads between quotes, with its escapes, in a debug rendering.
pub uninterp spec fn debug_text(s: Seq<char>) -> Seq<char>;

/// Renders text as `{:?}` does, with `format!`: between double quotes and
/// with escapes. The rendering is a function of the text; no more is claimed
/// of it.
#[verifier::external_body]
pub(crate) fn debug_str(s: &str) -> (r: String)
    ensures
        r@ == debug_text(s@),
{
    format!("{:?}", s)
}

} // verus!
