//! Rendering bytes that are meant as text, whether or not they are UTF-8.

use vstd::prelude::*;
use vstd::string::*;
use vstd::utf8::{decode_utf8, valid_utf8};
use crate::text::{
    checked_utf8, error_len, from_utf8, lemma_text_of_bytes, lemma_valid_up_to, valid_up_to,
};

verus! {

/// How a character reads with its escape in a debug rendering.
pub uninterp spec fn escape_debug_text(c: char) -> Seq<char>;

/// Renders a character with `char::escape_debug`. The rendering is a
/// function of the character; no more is claimed of it.
#[verifier::external_body]
fn escape_debug(c: char) -> (r: String)
    ensures
        r@ == escape_debug_text(c),
{
    c.escape_debug().to_string()
}

/// Appends a character with `String::push`.
#[verifier::external_body]
fn push_char(out: &mut String, c: char)
    ensures
        final(out)@ == old(out)@.push(c),
{
    out.push(c)
}

/// Where the bytes that break UTF-8 end: behind the breaking sequence, or
/// at the end of the bytes where they end in the middle of a character.
pub open spec fn break_end(bytes: Seq<u8>) -> int {
    match error_len(bytes) {
        Some(n) => (valid_up_to(bytes) + n) as int,
        None => bytes.len() as int,
    }
}

/// The text of bytes, with the replacement character for each sequence that
/// breaks UTF-8; the text ends with the replacement where the bytes end in
/// the middle of a character.
pub open spec fn lossy_text(bytes: Seq<u8>) -> Seq<char>
    decreases bytes.len(),
{
    if valid_utf8(bytes) {
        decode_utf8(bytes)
    } else {
        let up_to = valid_up_to(bytes) as int;
        let end = break_end(bytes);
        decode_utf8(bytes.take(up_to)) + seq!['\u{fffd}'] + if error_len(bytes) is Some && 0 < end
            <= bytes.len() {
            lossy_text(bytes.skip(end))
        } else {
            Seq::empty()
        }
    }
}

/// The text of bytes, with the replacement character where they are not
/// UTF-8.
pub fn display_lossy(bytes: &[u8]) -> (r: String)
    ensures
        r@ == lossy_text(bytes@),
{
    let mut out = String::new();
    let mut from: usize = 0;
    assert(bytes@.skip(0) =~= bytes@);
    assert(out@ + lossy_text(bytes@) =~= lossy_text(bytes@));
    loop
        invariant
            from <= bytes.len(),
            out@ + lossy_text(bytes@.skip(from as int)) == lossy_text(bytes@),
        decreases bytes.len() - from,
    {
        let rest = &bytes[from..bytes.len()];
        assert(rest@ =~= bytes@.skip(from as int));
        match checked_utf8(rest) {
            Ok(valid) => {
                proof {
                    lemma_text_of_bytes(valid);
                }
                out.append(valid);
                return out;
            },
            Err((valid_up_to, error_len)) => {
                proof {
                    lemma_valid_up_to(rest@, valid_up_to as int);
                }
                let head = &rest[0..valid_up_to];
                assert(head@ =~= rest@.take(valid_up_to as int));
                if let Some(valid) = from_utf8(head) {
                    proof {
                        lemma_text_of_bytes(valid);
                    }
                    out.append(valid);
                }
                proof {
                    reveal_strlit("\u{fffd}");
                }
                out.append("\u{fffd}");
                assert("\u{fffd}"@ =~= seq!['\u{fffd}']);
                match error_len {
                    Some(error_len) => {
                        assert(rest@.skip(valid_up_to + error_len) =~= bytes@.skip(
                            from + valid_up_to + error_len,
                        ));
                        from = from + valid_up_to + error_len;
                    },
                    None => {
                        return out;
                    },
                }
            },
        }
    }
}

/// How a character of text reads in a debug rendering: with its escape
/// where that is more than the character, but for the single quote.
pub open spec fn escaped(c: char) -> Seq<char> {
    if escape_debug_text(c).len() != 1 && c != '\'' {
        escape_debug_text(c)
    } else {
        seq![c]
    }
}

/// How text reads in a debug rendering, character by character.
pub open spec fn escaped_text(s: Seq<char>) -> Seq<char>
    decreases s.len(),
{
    if s.len() == 0 {
        Seq::empty()
    } else {
        escaped_text(s.drop_last()) + escaped(s.last())
    }
}

/// The digit of `d` in base sixteen, in lower case.
pub open spec fn hex_char(d: nat) -> char {
    if d < 10 {
        crate::text::digit_char(d)
    } else if d == 10 {
        'a'
    } else if d == 11 {
        'b'
    } else if d == 12 {
        'c'
    } else if d == 13 {
        'd'
    } else if d == 14 {
        'e'
    } else {
        'f'
    }
}

/// How a byte that is no text reads in a debug rendering: `\x` and two
/// digits in base sixteen.
pub open spec fn hex_byte(b: u8) -> Seq<char> {
    "\\x"@ + seq![hex_char((b / 16) as nat), hex_char((b % 16) as nat)]
}

/// How bytes that are no text read in a debug rendering.
pub open spec fn hex_bytes(s: Seq<u8>) -> Seq<char>
    decreases s.len(),
{
    if s.len() == 0 {
        Seq::empty()
    } else {
        hex_bytes(s.drop_last()) + hex_byte(s.last())
    }
}

/// How bytes read between the quotes of a debug rendering: text with its
/// escapes, and each sequence that breaks UTF-8 byte by byte.
pub open spec fn debug_body(bytes: Seq<u8>) -> Seq<char>
    decreases bytes.len(),
{
    if bytes.len() == 0 {
        Seq::empty()
    } else if valid_utf8(bytes) {
        escaped_text(decode_utf8(bytes))
    } else {
        let up_to = valid_up_to(bytes) as int;
        let end = break_end(bytes);
        escaped_text(decode_utf8(bytes.take(up_to))) + hex_bytes(bytes.subrange(up_to, end))
            + if 0 < end <= bytes.len() {
            debug_body(bytes.skip(end))
        } else {
            Seq::empty()
        }
    }
}

/// How bytes read in a debug rendering: between double quotes, as
/// [`debug_body`] says.
pub open spec fn debug_lossy_text(bytes: Seq<u8>) -> Seq<char> {
    "\""@ + debug_body(bytes) + "\""@
}

/// The one-character text of a digit in base sixteen.
fn hex_str(d: u8) -> (r: &'static str)
    requires
        d < 16,
    ensures
        r@ == seq![hex_char(d as nat)],
{
    if d < 10 {
        crate::text::digit_str(d)
    } else {
        proof {
            reveal_strlit("a");
            reveal_strlit("b");
            reveal_strlit("c");
            reveal_strlit("d");
            reveal_strlit("e");
            reveal_strlit("f");
        }
        let r = if d == 10 {
            "a"
        } else if d == 11 {
            "b"
        } else if d == 12 {
            "c"
        } else if d == 13 {
            "d"
        } else if d == 14 {
            "e"
        } else {
            "f"
        };
        assert(r@ =~= seq![hex_char(d as nat)]);
        r
    }
}

/// Appends text as it reads in a debug rendering.
fn push_escaped(out: &mut String, valid: &str)
    ensures
        final(out)@ == old(out)@ + escaped_text(valid@),
{
    let ghost before = out@;
    for ch in it: valid.chars()
        invariant
            it.seq() == valid@,
            out@ == before + escaped_text(valid@.take(it.index() as int)),
    {
        assert(valid@.take(it.index() + 1).drop_last() =~= valid@.take(it.index() as int));
        let esc = escape_debug(ch);
        if esc.as_str().unicode_len() != 1 && ch != '\'' {
            out.append(esc.as_str());
        } else {
            push_char(out, ch);
        }
        assert(out@ =~= before + escaped_text(valid@.take(it.index() + 1)));
    }
    assert(valid@.take(valid@.len() as int) =~= valid@);
}

/// Appends bytes `bytes[from..to]` as they read, byte by byte, in a debug
/// rendering.
fn push_hex(out: &mut String, bytes: &[u8], from: usize, to: usize)
    requires
        from <= to <= bytes.len(),
    ensures
        final(out)@ == old(out)@ + hex_bytes(bytes@.subrange(from as int, to as int)),
{
    let ghost before = out@;
    let mut i: usize = from;
    assert(bytes@.subrange(from as int, from as int) =~= Seq::<u8>::empty());
    while i < to
        invariant
            from <= i <= to <= bytes.len(),
            out@ == before + hex_bytes(bytes@.subrange(from as int, i as int)),
        decreases to - i,
    {
        let b = bytes[i];
        proof {
            reveal_strlit("\\x");
            assert(bytes@.subrange(from as int, i + 1).drop_last() =~= bytes@.subrange(
                from as int,
                i as int,
            ));
        }
        out.append("\\x");
        out.append(hex_str(b / 16));
        out.append(hex_str(b % 16));
        assert(out@ =~= before + hex_bytes(bytes@.subrange(from as int, i + 1)));
        i = i + 1;
    }
}

/// Bytes in a debug rendering: between double quotes, text with its
/// escapes, and what is not UTF-8 byte by byte.
pub fn debug_lossy(bytes: &[u8]) -> (r: String)
    ensures
        r@ == debug_lossy_text(bytes@),
{
    let mut out = "\"".to_owned();
    let mut from: usize = 0;
    assert(bytes@.skip(0) =~= bytes@);
    while from < bytes.len()
        invariant
            from <= bytes.len(),
            out@ + debug_body(bytes@.skip(from as int)) == "\""@ + debug_body(bytes@),
        decreases bytes.len() - from,
    {
        let rest = &bytes[from..bytes.len()];
        assert(rest@ =~= bytes@.skip(from as int));
        match checked_utf8(rest) {
            Ok(valid) => {
                proof {
                    lemma_text_of_bytes(valid);
                }
                push_escaped(&mut out, valid);
                assert(bytes@.skip(bytes@.len() as int) =~= Seq::<u8>::empty());
                from = bytes.len();
                assert(out@ + debug_body(bytes@.skip(from as int)) =~= "\""@ + debug_body(bytes@));
            },
            Err((valid_up_to, error_len)) => {
                proof {
                    lemma_valid_up_to(rest@, valid_up_to as int);
                }
                let head = &rest[0..valid_up_to];
                assert(head@ =~= rest@.take(valid_up_to as int));
                if let Some(valid) = from_utf8(head) {
                    proof {
                        lemma_text_of_bytes(valid);
                    }
                    push_escaped(&mut out, valid);
                }
                let end_of_broken = match error_len {
                    Some(error_len) => valid_up_to + error_len,
                    None => rest.len(),
                };
                push_hex(&mut out, rest, valid_up_to, end_of_broken);
                assert(rest@.skip(end_of_broken as int) =~= bytes@.skip(from + end_of_broken));
                from = from + end_of_broken;
            },
        }
    }
    assert(bytes@.skip(from as int) =~= Seq::<u8>::empty());
    out.append("\"");
    assert(out@ =~= debug_lossy_text(bytes@));
    out
}

} // verus!
