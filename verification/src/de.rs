//! Decoding a document's events on demand.

use vstd::prelude::*;
use vstd::string::*;
use std::sync::Arc;
use crate::libyml::error::Mark;
use crate::libyml::parser::{MappingStart, Parser, Scalar, ScalarStyle, SequenceStart};
use crate::libyml::tag::Tag;
use crate::loader::{bracket_of, brackets, load, matched, Bracket, Document, Loader, Loading};
use crate::modules::error::{
    self, invalid_type_text, invalid_value_text, is_message, Error, ErrorImpl, Unexpected,
    UnexpectedView,
};
use crate::modules::path::Path;
use crate::number::{without_plus, Width};
use crate::scalar::{
    bool_of, classify, digits_but_not_number, float_kind, int_of, is_null, parse_bool, parse_f64,
    parse_null, parse_signed_int, parse_unsigned_int, signed_int, unsigned_int, visit_int, Float,
    FloatKind, Int, Kind,
};
use crate::text::{
    bytes_eq, decimal, from_utf8, has_prefix, lemma_text_of_bytes, push_decimal, text_of, BANG,
};

verus! {

broadcast use vstd::std_specs::btree::group_btree_axioms;

/// An event of a loaded document. Anchors have been taken off the nodes, and
/// an alias holds the id of its anchor.
#[derive(Debug)]
pub enum Event<'de> {
    /// A reference to the node whose anchor has the given id.
    Alias(usize),
    /// A scalar node.
    Scalar(Scalar<'de>),
    /// The start of a sequence node.
    SequenceStart(SequenceStart),
    /// The end of a sequence node.
    SequenceEnd,
    /// The start of a mapping node.
    MappingStart(MappingStart),
    /// The end of a mapping node.
    MappingEnd,
    /// No value: the content of an empty stream.
    Void,
}

/// How far the input of a [`Deserializer`] has been taken.
#[derive(Debug)]
pub enum Progress<'de> {
    /// Text, tokenized and not yet loaded.
    Str(Parser<'de>),
    /// Bytes, tokenized and not yet loaded.
    Slice(Parser<'de>),
    /// A stream, read to its end and tokenized, or the error of reading it.
    Read(Result<Parser<'de>, std::io::Error>),
    /// A loader that hands out the documents one by one.
    Iterable(Loader<'de>),
    /// One loaded document.
    Document(Document<'de>),
    /// An error met on the way, held for every later request.
    Fail(Arc<ErrorImpl>),
}

/// The text of a scalar: borrowed from the input where the input holds it
/// as it stands, else held by the document.
#[derive(Copy, Clone, Debug)]
pub enum Text<'de, 'a> {
    /// Text that lives as long as the input.
    Borrowed(&'de str),
    /// Text that lives as long as the document.
    Transient(&'a str),
}

impl<'de, 'a> Text<'de, 'a> {
    /// The bytes of the text.
    pub open spec fn bytes(self) -> Seq<u8> {
        match self {
            Text::Borrowed(text) => text.spec_bytes(),
            Text::Transient(text) => text.spec_bytes(),
        }
    }
}

/// What a scalar was found to hold: the call that it makes on a visitor.
#[derive(Debug)]
pub enum Found<'de, 'a> {
    /// Null.
    Unit,
    /// A boolean.
    Bool(bool),
    /// An integer that fits `u64`.
    U64(u64),
    /// A negative integer that fits `i64`.
    I64(i64),
    /// An integer beyond `u64`.
    U128(u128),
    /// A negative integer beyond `i64`.
    I128(i128),
    /// A float that needs no parsing: an infinity, or not a number.
    Float(Float<'a>),
    /// Digits for the standard float parser. Where it reads a finite value
    /// from them the scalar is that float; else it is what `otherwise` says.
    Decimal { digits: &'a str, otherwise: Result<Text<'de, 'a>, Error> },
    /// Text.
    Str(Text<'de, 'a>),
    /// Bytes that are not text, which no visitor expects.
    Bytes(&'a [u8]),
}

/// How many bytes of delimiter close a scalar of the given style in the
/// input; nothing for the block styles, which are not written as they read.
pub open spec fn closing_delimiter(style: ScalarStyle) -> Option<int> {
    match style {
        ScalarStyle::Plain => Some(0),
        ScalarStyle::SingleQuoted => Some(1),
        ScalarStyle::DoubleQuoted => Some(1),
        ScalarStyle::Literal => None,
        ScalarStyle::Folded => None,
    }
}

/// Whether the input holds `value` as it stands: the stretch `repr` that the
/// scalar was read from ends, before its closing delimiter, in `value`.
pub open spec fn borrowable(value: Seq<u8>, repr: Option<&[u8]>, style: ScalarStyle) -> bool {
    match (repr, closing_delimiter(style)) {
        (Some(repr), Some(delimiter)) => {
            let end = repr@.len() - delimiter;
            let start = end - value.len();
            0 <= start && repr@.subrange(start, end) == value
        },
        _ => false,
    }
}

/// Whether `text` is the text of `value`, borrowed from the input exactly
/// where the input holds it.
pub open spec fn is_text_of(
    text: Text<'_, '_>,
    value: Seq<u8>,
    repr: Option<&[u8]>,
    style: ScalarStyle,
) -> bool {
    text.bytes() == value && (text is Borrowed <==> borrowable(value, repr, style))
}

/// The text of `utf8_value` as the input holds it, if it does.
pub fn parse_borrowed_str<'de>(utf8_value: &str, repr: Option<&'de [u8]>, style: ScalarStyle) -> (r:
    Option<&'de str>)
    ensures
        r is Some <==> borrowable(utf8_value.spec_bytes(), repr, style),
        r matches Some(text) ==> text.spec_bytes() == utf8_value.spec_bytes(),
{
    let borrowed_repr = match repr {
        Some(borrowed_repr) => borrowed_repr,
        None => {
            return None;
        },
    };
    let expected_offset: usize = match style {
        ScalarStyle::Plain => 0,
        ScalarStyle::SingleQuoted => 1,
        ScalarStyle::DoubleQuoted => 1,
        ScalarStyle::Literal => {
            return None;
        },
        ScalarStyle::Folded => {
            return None;
        },
    };
    let value = utf8_value.as_bytes();
    if borrowed_repr.len() < expected_offset {
        return None;
    }
    let expected_end = borrowed_repr.len() - expected_offset;
    if expected_end < value.len() {
        return None;
    }
    let expected_start = expected_end - value.len();
    let borrowed_bytes = &borrowed_repr[expected_start..expected_end];
    if bytes_eq(borrowed_bytes, value) {
        proof {
            lemma_text_of_bytes(utf8_value);
        }
        return from_utf8(borrowed_bytes);
    }
    None
}

/// The scalar's text, borrowed from the input where the input holds it.
fn text_of_scalar<'de, 'a>(v: &'a str, repr: Option<&'de [u8]>, style: ScalarStyle) -> (r: Text<
    'de,
    'a,
>)
    ensures
        is_text_of(r, v.spec_bytes(), repr, style),
{
    if let Some(borrowed) = parse_borrowed_str(v, repr, style) {
        Text::Borrowed(borrowed)
    } else {
        Text::Transient(v)
    }
}

/// Whether `found` is what plain text `value` holds by the core schema.
pub open spec fn is_untagged(
    found: Found<'_, '_>,
    value: Seq<u8>,
    repr: Option<&[u8]>,
    style: ScalarStyle,
) -> bool {
    match classify(value) {
        Kind::Null => found is Unit,
        Kind::Bool(b) => found matches Found::Bool(x) && x == b,
        Kind::Int(Int::U64(n)) => found matches Found::U64(x) && x == n,
        Kind::Int(Int::I64(n)) => found matches Found::I64(x) && x == n,
        Kind::Int(Int::U128(n)) => found matches Found::U128(x) && x == n,
        Kind::Int(Int::I128(n)) => found matches Found::I128(x) && x == n,
        Kind::Float(FloatKind::Decimal) => {
            &&& found matches Found::Decimal { digits, otherwise }
            &&& digits.spec_bytes() == without_plus(value)
            &&& otherwise matches Ok(text)
            &&& is_text_of(text, value, repr, style)
        },
        Kind::Float(kind) => found matches Found::Float(float) && float.kind() == kind,
        Kind::Str => found matches Found::Str(text) && is_text_of(text, value, repr, style),
    }
}

/// What plain text holds by the core schema.
pub fn visit_untagged_scalar<'de, 'a>(v: &'a str, repr: Option<&'de [u8]>, style: ScalarStyle) -> (r:
    Found<'de, 'a>)
    ensures
        is_untagged(r, v.spec_bytes(), repr, style),
{
    if v.as_bytes().len() == 0 || parse_null(v.as_bytes()).is_some() {
        return Found::Unit;
    }
    if let Some(boolean) = parse_bool(v) {
        return Found::Bool(boolean);
    }
    match visit_int(v) {
        Some(Int::U64(n)) => {
            return Found::U64(n);
        },
        Some(Int::I64(n)) => {
            return Found::I64(n);
        },
        Some(Int::U128(n)) => {
            return Found::U128(n);
        },
        Some(Int::I128(n)) => {
            return Found::I128(n);
        },
        None => {},
    }
    if !digits_but_not_number(v) {
        match parse_f64(v) {
            Some(Float::Decimal(digits)) => {
                return Found::Decimal { digits, otherwise: Ok(text_of_scalar(v, repr, style)) };
            },
            Some(float) => {
                return Found::Float(float);
            },
            None => {},
        }
    }
    Found::Str(text_of_scalar(v, repr, style))
}

/// Whether the scalar may be read as the type that the tag `expected`
/// names: it is plain, or it is a literal block that bears that very tag
/// and no enum's tag has been read for it.
pub open spec fn plain_or_tagged_literal(
    expected: Seq<u8>,
    scalar: Scalar<'_>,
    tagged_already: bool,
) -> bool {
    match scalar.style {
        ScalarStyle::Plain => true,
        ScalarStyle::Literal => !tagged_already && scalar.tag is Some
            && scalar.tag->Some_0.bytes() == expected,
        _ => false,
    }
}

/// Whether the scalar may be read as the type that the tag `expected` names.
pub fn is_plain_or_tagged_literal_scalar(expected: &str, scalar: &Scalar<'_>, tagged_already: bool) -> (r:
    bool)
    ensures
        r == plain_or_tagged_literal(expected.spec_bytes(), *scalar, tagged_already),
{
    match scalar.style {
        ScalarStyle::Plain => true,
        ScalarStyle::Literal => match &scalar.tag {
            Some(tag) => !tagged_already && tag.eq_str(expected),
            None => false,
        },
        _ => false,
    }
}

/// The name in a tag that begins with `!`: the tag without the `!`, and
/// without a second `!` that stands before something more; the tag `!`
/// alone names itself.
pub open spec fn tag_name_start(tag: Seq<u8>) -> int {
    if tag.len() <= 1 {
        0
    } else if tag[1] == BANG && tag.len() > 2 {
        2
    } else {
        1
    }
}

/// The name of the variant that a tag selects: the name in a tag that begins
/// with `!`, where that is text. Other tags, and none, select no variant.
pub open spec fn variant_tag(tag: Option<Tag>) -> Option<Seq<u8>> {
    match tag {
        Some(tag) => {
            let bytes = tag.bytes();
            let name = bytes.skip(tag_name_start(bytes));
            if bytes.len() > 0 && bytes[0] == BANG && vstd::utf8::valid_utf8(name) {
                Some(name)
            } else {
                None
            }
        },
        None => None,
    }
}

/// The name of the variant that a tag selects, if it selects one.
pub fn parse_tag(libyml_tag: &Option<Tag>) -> (r: Option<&str>)
    ensures
        match variant_tag(*libyml_tag) {
            Some(name) => r matches Some(text) && text.spec_bytes() == name,
            None => r is None,
        },
{
    let tag = match libyml_tag {
        Some(tag) => tag,
        None => {
            return None;
        },
    };
    let bytes = tag.0.as_slice();
    if bytes.len() == 0 || bytes[0] != BANG {
        return None;
    }
    let start: usize = if bytes.len() == 1 {
        0
    } else if bytes[1] == BANG && bytes.len() > 2 {
        2
    } else {
        1
    };
    let name = &bytes[start..bytes.len()];
    assert(name@ =~= bytes@.skip(start as int));
    from_utf8(name)
}

/// Whether `r` reports that the text of `value` is no `expected`.
pub open spec fn is_wrong_value(r: Result<Found<'_, '_>, Error>, value: Seq<u8>, expected: Seq<char>) -> bool {
    r matches Err(err) && is_message(
        err,
        invalid_value_text(UnexpectedView::Str(text_of(value)), expected),
    )
}

/// Whether `r` is what the scalar holds.
///
/// Bytes that are not text are found as bytes. A tag of the core schema,
/// unless an enum's tag has been read for the scalar, makes the text a
/// boolean, an integer, a float or null, or an error where the text is none.
/// Under a tag that begins with `!`, and without a tag, plain text is typed
/// by the core schema. All other text is a string.
pub open spec fn is_resolved(scalar: Scalar<'_>, tagged_already: bool, r: Result<Found<'_, '_>, Error>) -> bool {
    let value = scalar.value@;
    if !vstd::utf8::valid_utf8(value) {
        r matches Ok(Found::Bytes(bytes)) && bytes@ == value
    } else if scalar.tag is Some && !tagged_already {
        let tag = scalar.tag->Some_0.bytes();
        if tag == Tag::BOOL.spec_bytes() {
            match bool_of(value) {
                Some(b) => r matches Ok(Found::Bool(x)) && x == b,
                None => is_wrong_value(r, value, "a boolean"@),
            }
        } else if tag == Tag::INT.spec_bytes() {
            match int_of(value) {
                Some(Int::U64(n)) => r matches Ok(Found::U64(x)) && x == n,
                Some(Int::I64(n)) => r matches Ok(Found::I64(x)) && x == n,
                Some(Int::U128(n)) => r matches Ok(Found::U128(x)) && x == n,
                Some(Int::I128(n)) => r matches Ok(Found::I128(x)) && x == n,
                None => is_wrong_value(r, value, "an integer"@),
            }
        } else if tag == Tag::FLOAT.spec_bytes() {
            match float_kind(value) {
                Some(FloatKind::Decimal) => {
                    &&& r matches Ok(Found::Decimal { digits, otherwise })
                    &&& digits.spec_bytes() == without_plus(value)
                    &&& otherwise matches Err(err)
                    &&& is_message(
                        err,
                        invalid_value_text(UnexpectedView::Str(text_of(value)), "a float"@),
                    )
                },
                Some(kind) => r matches Ok(Found::Float(float)) && float.kind() == kind,
                None => is_wrong_value(r, value, "a float"@),
            }
        } else if tag == Tag::NULL.spec_bytes() {
            if is_null(value) {
                r matches Ok(Found::Unit)
            } else {
                is_wrong_value(r, value, "null"@)
            }
        } else if has_prefix(tag, "!".spec_bytes()) && scalar.style == ScalarStyle::Plain {
            r matches Ok(found) && is_untagged(found, value, scalar.repr, scalar.style)
        } else {
            r matches Ok(Found::Str(text)) && is_text_of(text, value, scalar.repr, scalar.style)
        }
    } else if scalar.style == ScalarStyle::Plain {
        r matches Ok(found) && is_untagged(found, value, scalar.repr, scalar.style)
    } else {
        r matches Ok(Found::Str(text)) && is_text_of(text, value, scalar.repr, scalar.style)
    }
}

/// What the scalar holds.
pub fn visit_scalar<'de, 'a>(scalar: &'a Scalar<'de>, tagged_already: bool) -> (r: Result<
    Found<'de, 'a>,
    Error,
>)
    ensures
        is_resolved(*scalar, tagged_already, r),
{
    let v = match from_utf8(scalar.value.as_slice()) {
        Some(v) => v,
        None => {
            return Ok(Found::Bytes(scalar.value.as_slice()));
        },
    };
    proof {
        lemma_text_of_bytes(v);
    }
    if let (Some(tag), false) = (&scalar.tag, tagged_already) {
        if tag.eq_str(Tag::BOOL) {
            return match parse_bool(v) {
                Some(v) => Ok(Found::Bool(v)),
                None => Err(error::invalid_value(&Unexpected::Str(v), "a boolean")),
            };
        } else if tag.eq_str(Tag::INT) {
            return match visit_int(v) {
                Some(Int::U64(n)) => Ok(Found::U64(n)),
                Some(Int::I64(n)) => Ok(Found::I64(n)),
                Some(Int::U128(n)) => Ok(Found::U128(n)),
                Some(Int::I128(n)) => Ok(Found::I128(n)),
                None => Err(error::invalid_value(&Unexpected::Str(v), "an integer")),
            };
        } else if tag.eq_str(Tag::FLOAT) {
            return match parse_f64(v) {
                Some(Float::Decimal(digits)) => Ok(
                    Found::Decimal {
                        digits,
                        otherwise: Err(error::invalid_value(&Unexpected::Str(v), "a float")),
                    },
                ),
                Some(float) => Ok(Found::Float(float)),
                None => Err(error::invalid_value(&Unexpected::Str(v), "a float")),
            };
        } else if tag.eq_str(Tag::NULL) {
            return match parse_null(v.as_bytes()) {
                Some(()) => Ok(Found::Unit),
                None => Err(error::invalid_value(&Unexpected::Str(v), "null")),
            };
        } else if tag.starts_with("!") && scalar.style == ScalarStyle::Plain {
            return Ok(visit_untagged_scalar(v, scalar.repr, scalar.style));
        }
    } else if scalar.style == ScalarStyle::Plain {
        return Ok(visit_untagged_scalar(v, scalar.repr, scalar.style));
    }
    Ok(Found::Str(text_of_scalar(v, scalar.repr, scalar.style)))
}

/// The enum whose tag has been read and whose content is being decoded.
#[derive(Copy, Clone, Debug)]
pub struct CurrentEnum<'document> {
    /// The name of the enum's type, where the request gave one.
    pub name: Option<&'static str>,
    /// The tag that named the variant.
    pub tag: &'document str,
}

/// A cursor over a document's events. The position and the count of alias
/// jumps are shared with the cursors of the enclosing values; the depth left,
/// the path and the enum context are the cursor's own.
pub struct DeserializerFromEvents<'de, 'document> {
    /// The document that is read.
    pub document: &'document Document<'de>,
    /// The index of the next event.
    pub pos: &'document mut usize,
    /// How many aliases have been followed in the document so far.
    pub jumpcount: &'document mut usize,
    /// The path to the value at the cursor.
    pub path: Path<'document>,
    /// How many levels of nesting may still be entered.
    pub remaining_depth: u8,
    /// The enum whose content is at the cursor, if its tag has been read.
    pub current_enum: Option<CurrentEnum<'document>>,
}

/// Makes a second pointer to a shared error with `Arc::clone`: the result
/// points to the same error.
#[verifier::external_body]
fn share(error: &Arc<ErrorImpl>) -> (r: Arc<ErrorImpl>)
    ensures
        r == *error,
{
    Arc::clone(error)
}

/// The error met where the events of `document` have run out: the error
/// that cut the document short, or else the end of the stream.
pub open spec fn exhausted<'de>(document: &Document<'de>) -> ErrorImpl {
    match document.error {
        Some(parse_error) => ErrorImpl::Shared(parse_error),
        None => ErrorImpl::EndOfStream,
    }
}

impl<'de, 'document> DeserializerFromEvents<'de, 'document> {
    /// The events of the document.
    pub open spec fn events(&self) -> Seq<(Event<'de>, Mark)> {
        self.document.events@
    }

    /// The index of the next event.
    pub open spec fn at(&self) -> int {
        *self.pos as int
    }

    /// Whether an event stands at the cursor.
    pub open spec fn has_event(&self) -> bool {
        *self.pos < self.events().len()
    }

    /// The event at the cursor.
    pub open spec fn event(&self) -> Event<'de> {
        self.events()[*self.pos as int].0
    }

    /// The mark of the event at the cursor.
    pub open spec fn mark(&self) -> Mark {
        self.events()[*self.pos as int].1
    }

    /// Whether `other` is this cursor but for its position and enum context.
    pub open spec fn same_frame(&self, other: &Self) -> bool {
        &&& self.document == other.document
        &&& *self.jumpcount == *other.jumpcount
        &&& self.path == other.path
        &&& self.remaining_depth == other.remaining_depth
    }

    /// Whether `other` is this cursor, with nothing read.
    pub open spec fn same(&self, other: &Self) -> bool {
        &&& self.same_frame(other)
        &&& *self.pos == *other.pos
        &&& self.current_enum == other.current_enum
    }

    /// Whether `other` is this cursor after it has read one event.
    pub open spec fn advanced(&self, other: &Self) -> bool {
        &&& self.same_frame(other)
        &&& *other.pos == *self.pos + 1
        &&& other.current_enum is None
    }

    /// A cursor at the start of `document`, with the full depth of 128.
    pub fn new(
        document: &'document Document<'de>,
        pos: &'document mut usize,
        jumpcount: &'document mut usize,
    ) -> (r: Self)
        ensures
            r.document == document,
            *r.pos == *old(pos),
            *r.jumpcount == *old(jumpcount),
            *final(pos) == *final(r.pos),
            *final(jumpcount) == *final(r.jumpcount),
            r.path == Path::Root,
            r.remaining_depth == 128,
            r.current_enum is None,
    {
        DeserializerFromEvents {
            document,
            pos,
            jumpcount,
            path: Path::Root,
            remaining_depth: 128,
            current_enum: None,
        }
    }

    /// The event at the cursor with its mark, or the error of a document
    /// whose events have run out.
    pub fn peek_event_mark(&self) -> (r: Result<(&'document Event<'de>, Mark), Error>)
        ensures
            match r {
                Ok((event, mark)) => self.has_event() && *event == self.event() && mark
                    == self.mark(),
                Err(err) => !self.has_event() && *err.0 == exhausted(self.document),
            },
    {
        if *self.pos < self.document.events.len() {
            let pair = &self.document.events[*self.pos];
            Ok((&pair.0, pair.1))
        } else {
            Err(
                match &self.document.error {
                    Some(parse_error) => error::shared(share(parse_error)),
                    None => error::new(ErrorImpl::EndOfStream),
                },
            )
        }
    }

    /// The event at the cursor, or the error of a document whose events have
    /// run out.
    pub fn peek_event(&self) -> (r: Result<&'document Event<'de>, Error>)
        ensures
            match r {
                Ok(event) => self.has_event() && *event == self.event(),
                Err(err) => !self.has_event() && *err.0 == exhausted(self.document),
            },
    {
        match self.peek_event_mark() {
            Ok((event, _mark)) => Ok(event),
            Err(err) => Err(err),
        }
    }

    /// Reads the event at the cursor with its mark: the cursor moves behind
    /// it and leaves the enum context. Where the events have run out, that
    /// error is returned and nothing changes.
    pub fn next_event_mark(&mut self) -> (r: Result<(&'document Event<'de>, Mark), Error>)
        ensures
            match r {
                Ok((event, mark)) => old(self).has_event() && *event == old(self).event() && mark
                    == old(self).mark() && old(self).advanced(final(self)),
                Err(err) => !old(self).has_event() && *err.0 == exhausted(old(self).document)
                    && old(self).same(final(self)),
            },
    {
        match self.peek_event_mark() {
            Ok((event, mark)) => {
                let count = self.document.events.len();
                assert(*self.pos < count);
                *self.pos = *self.pos + 1;
                self.current_enum = None;
                Ok((event, mark))
            },
            Err(err) => Err(err),
        }
    }

    /// Reads the event at the cursor.
    pub fn next_event(&mut self) -> (r: Result<&'document Event<'de>, Error>)
        ensures
            match r {
                Ok(event) => old(self).has_event() && *event == old(self).event()
                    && old(self).advanced(final(self)),
                Err(err) => !old(self).has_event() && *err.0 == exhausted(old(self).document)
                    && old(self).same(final(self)),
            },
    {
        match self.next_event_mark() {
            Ok((event, _mark)) => Ok(event),
            Err(err) => Err(err),
        }
    }

    /// Enters one level of nesting at `mark` and returns the depth that was
    /// left before, to be restored on the way out; with no depth left, the
    /// recursion limit is exceeded at `mark` and nothing changes.
    pub fn recursion_check(&mut self, mark: Mark) -> (r: Result<u8, Error>)
        ensures
            final(self).document == old(self).document,
            *final(self).jumpcount == *old(self).jumpcount,
            final(self).path == old(self).path,
            *final(self).pos == *old(self).pos,
            final(self).current_enum == old(self).current_enum,
            match r {
                Ok(previous) => previous == old(self).remaining_depth && previous > 0
                    && final(self).remaining_depth == previous - 1,
                Err(err) => old(self).remaining_depth == 0 && final(self).remaining_depth == 0
                    && *err.0 == ErrorImpl::RecursionLimitExceeded(mark),
            },
    {
        let previous_depth = self.remaining_depth;
        if previous_depth == 0 {
            return Err(error::new(ErrorImpl::RecursionLimitExceeded(mark)));
        }
        self.remaining_depth = previous_depth - 1;
        Ok(previous_depth)
    }

    /// Leaves the level of nesting that was entered: the depth is again
    /// `previous`, the depth that was left before the level was entered, so
    /// that the next value at this level has the whole of it. Nothing else
    /// changes.
    pub fn leave(&mut self, previous: u8)
        ensures
            final(self).remaining_depth == previous,
            final(self).document == old(self).document,
            *final(self).pos == *old(self).pos,
            *final(self).jumpcount == *old(self).jumpcount,
            final(self).path == old(self).path,
            final(self).current_enum == old(self).current_enum,
    {
        self.remaining_depth = previous;
    }
}

/// The kinds of node that can be open.
#[derive(Copy, Clone, Debug, PartialEq, Eq, Structural)]
pub enum Nest {
    Sequence,
    Mapping,
}

/// Where passing over a node ends.
pub enum Skipped {
    /// Behind the node, at the given index.
    To(int),
    /// Nowhere: the events ran out inside the node.
    Exhausted,
    /// Nowhere: a sequence or a mapping, as given, ended that was not the
    /// innermost open one.
    Broken(Nest),
}

/// The kind of collection that the event ends, where it ends one.
pub open spec fn ended<'de>(event: Event<'de>) -> Nest {
    if event is SequenceEnd {
        Nest::Sequence
    } else {
        Nest::Mapping
    }
}

/// The nodes open after `event`, given those open before it; nothing if the
/// event ends a node that is not the innermost open one.
pub open spec fn nest_after<'de>(event: Event<'de>, stack: Seq<Nest>) -> Option<Seq<Nest>> {
    match event {
        Event::Alias(_) => Some(stack),
        Event::Scalar(_) => Some(stack),
        Event::Void => Some(stack),
        Event::SequenceStart(_) => Some(stack.push(Nest::Sequence)),
        Event::MappingStart(_) => Some(stack.push(Nest::Mapping)),
        Event::SequenceEnd => if stack.len() > 0 && stack.last() == Nest::Sequence {
            Some(stack.drop_last())
        } else {
            None
        },
        Event::MappingEnd => if stack.len() > 0 && stack.last() == Nest::Mapping {
            Some(stack.drop_last())
        } else {
            None
        },
    }
}

/// Where passing over events ends, from the index `pos` on and with the
/// nodes of `stack` open: behind the event that leaves no node open.
pub open spec fn skip<'de>(events: Seq<(Event<'de>, Mark)>, pos: int, stack: Seq<Nest>) -> Skipped
    decreases events.len() - pos,
{
    if pos < 0 || pos >= events.len() {
        Skipped::Exhausted
    } else {
        match nest_after(events[pos].0, stack) {
            None => Skipped::Broken(ended(events[pos].0)),
            Some(open) => if open.len() == 0 {
                Skipped::To(pos + 1)
            } else {
                skip(events, pos + 1, open)
            },
        }
    }
}

/// Passing over a node ends behind where it began.
pub proof fn lemma_skip_advances<'de>(events: Seq<(Event<'de>, Mark)>, pos: int, stack: Seq<Nest>)
    requires
        skip(events, pos, stack) is To,
    ensures
        pos < skip(events, pos, stack)->To_0 <= events.len(),
    decreases events.len() - pos,
{
    if 0 <= pos < events.len() {
        match nest_after(events[pos].0, stack) {
            None => {},
            Some(open) => {
                if open.len() != 0 {
                    lemma_skip_advances(events, pos + 1, open);
                }
            },
        }
    }
}

/// Behind any number of events of a well-nested document, what follows is
/// well nested beside the sequences and mappings that are open there.
pub proof fn lemma_matched_suffix<'de>(events: Seq<(Event<'de>, Mark)>, pos: int)
    requires
        matched(brackets(events), Seq::empty()),
        0 <= pos <= events.len(),
    ensures
        exists|open: Seq<Nest>| matched(brackets(events.skip(pos)), open),
    decreases pos,
{
    if pos == 0 {
        assert(events.skip(0) =~= events);
    } else {
        lemma_matched_suffix(events, pos - 1);
        let before = events.skip(pos - 1);
        let open = choose|open: Seq<Nest>| matched(brackets(before), open);
        assert(before.drop_first() =~= events.skip(pos));
        let own = bracket_of(before[0].0);
        let later = brackets(events.skip(pos));
        if own.len() == 0 {
            assert(own + later =~= later);
        } else {
            assert((own + later).drop_first() =~= later);
            match own[0] {
                Bracket::Open(nest) => {
                    assert(matched(later, open.push(nest)));
                },
                Bracket::Close(nest) => {
                    assert(matched(later, open.drop_last()));
                },
            }
        }
    }
}

/// Passing over events never breaks where they are well nested beside what
/// is open around them, and the nodes that the passing has opened are the
/// innermost of those.
proof fn lemma_matched_skip<'de>(
    events: Seq<(Event<'de>, Mark)>,
    pos: int,
    around: Seq<Nest>,
    stack: Seq<Nest>,
)
    requires
        0 <= pos,
        pos <= events.len() ==> matched(brackets(events.skip(pos)), around + stack),
        stack.len() == 0 && pos < events.len() ==> !(events[pos].0 is SequenceEnd
            || events[pos].0 is MappingEnd),
    ensures
        !(skip(events, pos, stack) is Broken),
    decreases events.len() - pos,
{
    if pos < events.len() {
        let here = events.skip(pos);
        assert(here.drop_first() =~= events.skip(pos + 1));
        assert(here[0] == events[pos]);
        let own = bracket_of(events[pos].0);
        let later = brackets(events.skip(pos + 1));
        if own.len() == 0 {
            assert(own + later =~= later);
            if stack.len() != 0 {
                lemma_matched_skip(events, pos + 1, around, stack);
            }
        } else {
            assert((own + later).drop_first() =~= later);
            match own[0] {
                Bracket::Open(nest) => {
                    assert((around + stack).push(nest) =~= around + stack.push(nest));
                    lemma_matched_skip(events, pos + 1, around, stack.push(nest));
                },
                Bracket::Close(nest) => {
                    assert((around + stack).last() == stack.last());
                    assert((around + stack).drop_last() =~= around + stack.drop_last());
                    if stack.drop_last().len() != 0 {
                        lemma_matched_skip(events, pos + 1, around, stack.drop_last());
                    }
                },
            }
        }
    }
}

/// In a well-nested document a node can be passed over wherever a value
/// can stand: nothing breaks, unless the cursor is at the end of a sequence
/// or mapping.
pub proof fn lemma_well_nested_passes<'de>(events: Seq<(Event<'de>, Mark)>, pos: int)
    requires
        matched(brackets(events), Seq::empty()),
        0 <= pos,
        pos < events.len() ==> !(events[pos].0 is SequenceEnd || events[pos].0 is MappingEnd),
    ensures
        !(skip(events, pos, Seq::empty()) is Broken),
{
    if pos <= events.len() {
        lemma_matched_suffix(events, pos);
        let around = choose|open: Seq<Nest>| matched(brackets(events.skip(pos)), open);
        assert(around + Seq::<Nest>::empty() =~= around);
        lemma_matched_skip(events, pos, around, Seq::empty());
    }
}

/// Whether the event ends a collection of the kind `nest`: its own end, or
/// the event for no value.
pub open spec fn closes<'de>(event: Event<'de>, nest: Nest) -> bool {
    event is Void || match nest {
        Nest::Sequence => event is SequenceEnd,
        Nest::Mapping => event is MappingEnd,
    }
}

/// Where passing over one more member of a collection ends: an element of
/// a sequence is one node, an entry of a mapping is a key and a value.
pub open spec fn skip_member<'de>(events: Seq<(Event<'de>, Mark)>, pos: int, nest: Nest) -> Skipped {
    match nest {
        Nest::Sequence => skip(events, pos, Seq::empty()),
        Nest::Mapping => match skip(events, pos, Seq::empty()) {
            Skipped::To(value) => skip(events, value, Seq::empty()),
            other => other,
        },
    }
}

/// How the rest of a collection is passed over.
pub enum Drained {
    /// The collection ends; the cursor comes to stand at the given index,
    /// behind the end, after the given number of members.
    Closed(int, nat),
    /// The events ran out before the end.
    Exhausted,
    /// A sequence or a mapping, as given, ended that was not the innermost
    /// open one.
    Broken(Nest),
}

/// How the rest of a collection of the kind `nest` is passed over from the
/// index `pos` on, `passed` members having been passed already.
pub open spec fn drain<'de>(events: Seq<(Event<'de>, Mark)>, pos: int, nest: Nest, passed: nat) -> Drained
    decreases events.len() - pos,
{
    if pos < 0 || pos >= events.len() {
        Drained::Exhausted
    } else if closes(events[pos].0, nest) {
        Drained::Closed(pos + 1, passed)
    } else {
        match skip_member(events, pos, nest) {
            Skipped::To(next) => if pos < next <= events.len() {
                drain(events, next, nest, passed + 1)
            } else {
                Drained::Exhausted
            },
            Skipped::Exhausted => Drained::Exhausted,
            Skipped::Broken(kind) => Drained::Broken(kind),
        }
    }
}

/// Where passing over a node ends, as [`skip`] says it.
#[derive(Copy, Clone, Debug, PartialEq, Eq, Structural)]
pub enum Passage {
    /// Behind the node, at the given index.
    To(usize),
    /// Nowhere: the events ran out inside the node.
    Exhausted,
    /// Nowhere: a sequence or a mapping, as given, ended that was not the
    /// innermost open one.
    Broken(Nest),
}

impl Passage {
    /// Whether the passage is `skipped`.
    pub open spec fn agrees(self, skipped: Skipped) -> bool {
        match skipped {
            Skipped::To(end) => self == Passage::To(end as usize),
            Skipped::Exhausted => self == Passage::Exhausted,
            Skipped::Broken(kind) => self == Passage::Broken(kind),
        }
    }
}

impl<'de, 'document> DeserializerFromEvents<'de, 'document> {
    /// Where passing over the node at the index `from` would end; nothing is
    /// read.
    pub fn passage(&self, from: usize) -> (r: Passage)
        ensures
            r.agrees(skip(self.events(), from as int, Seq::empty())),
    {
        let mut stack: Vec<Nest> = Vec::new();
        let mut at: usize = from;
        loop
            invariant
                at >= from,
                skip(self.events(), at as int, stack@) == skip(
                    self.events(),
                    from as int,
                    Seq::empty(),
                ),
            decreases self.events().len() - at,
        {
            if at >= self.document.events.len() {
                return Passage::Exhausted;
            }
            match &self.document.events[at].0 {
                Event::Alias(_) => {},
                Event::Scalar(_) => {},
                Event::Void => {},
                Event::SequenceStart(_) => {
                    stack.push(Nest::Sequence);
                },
                Event::MappingStart(_) => {
                    stack.push(Nest::Mapping);
                },
                Event::SequenceEnd => match stack.pop() {
                    Some(Nest::Sequence) => {},
                    _ => {
                        return Passage::Broken(Nest::Sequence);
                    },
                },
                Event::MappingEnd => match stack.pop() {
                    Some(Nest::Mapping) => {},
                    _ => {
                        return Passage::Broken(Nest::Mapping);
                    },
                },
            }
            at = at + 1;
            if stack.len() == 0 {
                return Passage::To(at);
            }
        }
    }

    /// Whether the node at the cursor can be passed over: no sequence or
    /// mapping ends in it that is not the innermost open one.
    pub fn can_ignore(&self) -> (r: bool)
        ensures
            r == !(skip(self.events(), self.at(), Seq::empty()) is Broken),
    {
        match self.passage(*self.pos) {
            Passage::Broken(_) => false,
            _ => true,
        }
    }

    /// The kind of collection whose end stands in the way of ending a
    /// collection of the kind `nest` at the cursor: in what is left of the
    /// collection it is not the innermost open one. Nothing where the
    /// collection can be ended.
    pub fn broken_end(&self, nest: Nest) -> (r: Option<Nest>)
        ensures
            match drain(self.events(), self.at(), nest, 0) {
                Drained::Broken(kind) => r == Some(kind),
                _ => r is None,
            },
    {
        let mut at: usize = *self.pos;
        let ghost mut passed: nat = 0;
        loop
            invariant
                drain(self.events(), at as int, nest, passed) == drain(
                    self.events(),
                    *self.pos as int,
                    nest,
                    0,
                ),
            decreases self.events().len() - at,
        {
            if at >= self.document.events.len() {
                return None;
            }
            let done = match &self.document.events[at].0 {
                Event::Void => true,
                Event::SequenceEnd => match nest {
                    Nest::Sequence => true,
                    Nest::Mapping => false,
                },
                Event::MappingEnd => match nest {
                    Nest::Sequence => false,
                    Nest::Mapping => true,
                },
                _ => false,
            };
            if done {
                return None;
            }
            proof {
                if skip(self.events(), at as int, Seq::empty()) is To {
                    lemma_skip_advances(self.events(), at as int, Seq::empty());
                }
            }
            let next = match self.passage(at) {
                Passage::To(next) => next,
                Passage::Exhausted => {
                    return None;
                },
                Passage::Broken(kind) => {
                    return Some(kind);
                },
            };
            let next = match nest {
                Nest::Sequence => next,
                Nest::Mapping => {
                    proof {
                        if skip(self.events(), next as int, Seq::empty()) is To {
                            lemma_skip_advances(self.events(), next as int, Seq::empty());
                        }
                    }
                    match self.passage(next) {
                        Passage::To(value) => value,
                        Passage::Exhausted => {
                            return None;
                        },
                        Passage::Broken(kind) => {
                            return Some(kind);
                        },
                    }
                },
            };
            at = next;
            proof {
                passed = passed + 1;
            }
        }
    }

    /// Whether a collection of the kind `nest` can be ended at the cursor:
    /// no sequence or mapping ends in what is left of it that is not the
    /// innermost open one.
    pub fn can_end(&self, nest: Nest) -> (r: bool)
        ensures
            r == !(drain(self.events(), self.at(), nest, 0) is Broken),
    {
        self.broken_end(nest).is_none()
    }
}

/// How many alias jumps are allowed in a document of `events` events.
pub open spec fn jump_limit(events: nat) -> nat {
    events * 100
}

/// The count of alias jumps after one more.
pub open spec fn jumped(count: usize) -> usize {
    if count < usize::MAX {
        (count + 1) as usize
    } else {
        count
    }
}

/// What a sequence of `len` elements is called in a message.
pub open spec fn expected_sequence(len: usize) -> Seq<char> {
    if len == 1 {
        "sequence of 1 element"@
    } else {
        "sequence of "@ + decimal(len as nat) + " elements"@
    }
}

/// What a mapping of `len` entries is called in a message.
pub open spec fn expected_mapping(len: usize) -> Seq<char> {
    if len == 1 {
        "map containing 1 entry"@
    } else {
        "map containing "@ + decimal(len as nat) + " entries"@
    }
}

/// What a sequence of `len` elements is called in a message.
pub fn expected_sequence_text(len: usize) -> (r: String)
    ensures
        r@ == expected_sequence(len),
{
    if len == 1 {
        "sequence of 1 element".to_owned()
    } else {
        let mut out = "sequence of ".to_owned();
        push_decimal(&mut out, len as u128);
        out.append(" elements");
        assert(out@ =~= expected_sequence(len));
        out
    }
}

/// What a mapping of `len` entries is called in a message.
pub fn expected_mapping_text(len: usize) -> (r: String)
    ensures
        r@ == expected_mapping(len),
{
    if len == 1 {
        "map containing 1 entry".to_owned()
    } else {
        let mut out = "map containing ".to_owned();
        push_decimal(&mut out, len as u128);
        out.append(" entries");
        assert(out@ =~= expected_mapping(len));
        out
    }
}

impl<'de, 'document> DeserializerFromEvents<'de, 'document> {
    /// Whether one more alias may be followed: the count of jumps, with this
    /// one, stays within a hundred times the number of events.
    pub open spec fn may_jump(&self) -> bool {
        jumped(*self.jumpcount) <= jump_limit(self.events().len())
    }

    /// Whether [`DeserializerFromEvents::may_jump`] holds.
    pub fn can_jump(&self) -> (r: bool)
        ensures
            r == self.may_jump(),
    {
        let count: usize = if *self.jumpcount < usize::MAX {
            *self.jumpcount + 1
        } else {
            *self.jumpcount
        };
        count as u128 <= self.document.events.len() as u128 * 100
    }

    /// Follows the alias that was read at `mark`. `pos` holds the anchor's id
    /// and comes to hold the index at which the anchor's node begins; the
    /// cursor returned reads from there, under this cursor's count of
    /// jumps, one level deeper than this cursor.
    ///
    /// The jump is counted first: past the limit the repetition limit is
    /// exceeded. The jump is a descent: with no depth left, the recursion
    /// limit is exceeded at `mark`. Either way `pos` stays as it is. This
    /// cursor's own depth is not changed.
    pub fn jump<'anchor>(&'anchor mut self, pos: &'anchor mut usize, mark: Mark) -> (r: Result<
        DeserializerFromEvents<'de, 'anchor>,
        Error,
    >)
        requires
            old(self).may_jump() && old(self).remaining_depth > 0
                ==> old(self).document.anchor_event_map@.contains_key(*old(pos)),
        ensures
            match r {
                Ok(target) => {
                    &&& old(self).may_jump()
                    &&& old(self).remaining_depth > 0
                    &&& target.document == old(self).document
                    &&& *target.pos == old(self).document.anchor_event_map@[*old(pos)]
                    &&& *target.jumpcount == jumped(*old(self).jumpcount)
                    &&& target.path == (Path::Alias { parent: &old(self).path })
                    &&& target.remaining_depth == old(self).remaining_depth - 1
                    &&& target.current_enum is None
                    &&& *final(self).jumpcount == *final(target.jumpcount)
                    &&& *final(pos) == *final(target.pos)
                },
                Err(err) => {
                    &&& *final(self).jumpcount == jumped(*old(self).jumpcount)
                    &&& *final(pos) == *old(pos)
                    &&& if old(self).may_jump() {
                        old(self).remaining_depth == 0 && *err.0
                            == ErrorImpl::RecursionLimitExceeded(mark)
                    } else {
                        *err.0 == ErrorImpl::RepetitionLimitExceeded
                    }
                },
            },
            final(self).document == old(self).document,
            *final(self).pos == *old(self).pos,
            final(self).path == old(self).path,
            final(self).remaining_depth == old(self).remaining_depth,
            final(self).current_enum == old(self).current_enum,
    {
        if *self.jumpcount < usize::MAX {
            *self.jumpcount = *self.jumpcount + 1;
        }
        if *self.jumpcount as u128 > self.document.events.len() as u128 * 100 {
            return Err(error::new(ErrorImpl::RepetitionLimitExceeded));
        }
        if self.remaining_depth == 0 {
            return Err(error::new(ErrorImpl::RecursionLimitExceeded(mark)));
        }
        match self.document.anchor_event_map.get(pos) {
            Some(found) => {
                *pos = *found;
                Ok(
                    DeserializerFromEvents {
                        document: self.document,
                        pos,
                        jumpcount: self.jumpcount,
                        path: Path::Alias { parent: &self.path },
                        remaining_depth: self.remaining_depth - 1,
                        current_enum: None,
                    },
                )
            },
            None => {
                proof {
                    assert(false);
                }
                Err(error::new(ErrorImpl::RepetitionLimitExceeded))
            },
        }
    }

    /// Passes over the node at the cursor, whatever it holds. An alias is
    /// passed over as the one event it is.
    pub fn ignore_any(&mut self) -> (r: Result<(), Error>)
        requires
            !(skip(old(self).events(), *old(self).pos as int, Seq::empty()) is Broken),
        ensures
            old(self).same_frame(final(self)),
            match skip(old(self).events(), *old(self).pos as int, Seq::empty()) {
                Skipped::To(end) => r is Ok && *final(self).pos == end && final(self).current_enum
                    is None,
                Skipped::Exhausted => r matches Err(err) && *err.0 == exhausted(
                    old(self).document,
                ) && !final(self).has_event() && *final(self).pos >= *old(self).pos,
                Skipped::Broken(_) => false,
            },
    {
        let mut stack: Vec<Nest> = Vec::new();
        loop
            invariant
                old(self).same_frame(self),
                *self.pos >= *old(self).pos,
                skip(self.events(), *self.pos as int, stack@) == skip(
                    old(self).events(),
                    *old(self).pos as int,
                    Seq::empty(),
                ),
                !(skip(self.events(), *self.pos as int, stack@) is Broken),
            decreases self.events().len() - *self.pos,
        {
            let event = match self.next_event() {
                Ok(event) => event,
                Err(err) => {
                    return Err(err);
                },
            };
            match event {
                Event::Alias(_) => {},
                Event::Scalar(_) => {},
                Event::Void => {},
                Event::SequenceStart(_) => {
                    stack.push(Nest::Sequence);
                },
                Event::MappingStart(_) => {
                    stack.push(Nest::Mapping);
                },
                Event::SequenceEnd => match stack.pop() {
                    Some(Nest::Sequence) => {},
                    _ => {
                        proof {
                            assert(false);
                        }
                    },
                },
                Event::MappingEnd => match stack.pop() {
                    Some(Nest::Mapping) => {},
                    _ => {
                        proof {
                            assert(false);
                        }
                    },
                },
            }
            if stack.len() == 0 {
                return Ok(());
            }
        }
    }

    /// Passes over what is left of a collection of the kind `nest`, up to its
    /// end, and returns how many members there were: `len` and those passed.
    fn drain_members(&mut self, nest: Nest, len: usize) -> (r: Result<usize, Error>)
        requires
            !(drain(old(self).events(), *old(self).pos as int, nest, 0) is Broken),
            len + old(self).events().len() <= usize::MAX,
        ensures
            old(self).same_frame(final(self)),
            match drain(old(self).events(), *old(self).pos as int, nest, 0) {
                Drained::Closed(end, passed) => passed <= old(self).events().len()
                    && r == Ok::<usize, Error>((len + passed) as usize)
                    && *final(self).pos == end - 1
                    && final(self).has_event()
                    && closes(
                    final(self).event(),
                    nest,
                ),
                Drained::Exhausted => r matches Err(err) && *err.0 == exhausted(
                    old(self).document,
                ) && !final(self).has_event(),
                Drained::Broken(_) => false,
            },
    {
        let mut total: usize = len;
        let ghost start = *self.pos;
        loop
            invariant
                old(self).same_frame(self),
                start == *old(self).pos,
                *self.pos >= start,
                total >= len,
                total == len || (total - len <= *self.pos - start && *self.pos
                    <= self.events().len()),
                len + self.events().len() <= usize::MAX,
                drain(self.events(), *self.pos as int, nest, (total - len) as nat) == drain(
                    old(self).events(),
                    start as int,
                    nest,
                    0,
                ),
                !(drain(self.events(), *self.pos as int, nest, (total - len) as nat) is Broken),
            decreases self.events().len() - *self.pos,
        {
            let ghost here = *self.pos as int;
            let event = match self.peek_event() {
                Ok(event) => event,
                Err(err) => {
                    return Err(err);
                },
            };
            let done = match event {
                Event::Void => true,
                Event::SequenceEnd => match nest {
                    Nest::Sequence => true,
                    Nest::Mapping => false,
                },
                Event::MappingEnd => match nest {
                    Nest::Sequence => false,
                    Nest::Mapping => true,
                },
                _ => false,
            };
            if done {
                return Ok(total);
            }
            total = total + 1;
            proof {
                if skip(self.events(), here, Seq::empty()) is To {
                    lemma_skip_advances(self.events(), here, Seq::empty());
                }
            }
            match self.ignore_any() {
                Ok(()) => {},
                Err(err) => {
                    return Err(err);
                },
            }
            match nest {
                Nest::Sequence => {},
                Nest::Mapping => {
                    proof {
                        let value = *self.pos as int;
                        if skip(self.events(), value, Seq::empty()) is To {
                            lemma_skip_advances(self.events(), value, Seq::empty());
                        }
                    }
                    match self.ignore_any() {
                        Ok(()) => {},
                        Err(err) => {
                            return Err(err);
                        },
                    }
                },
            }
        }
    }

    /// Ends a sequence of which `len` elements have been decoded: passes over
    /// the elements that are left and over the sequence's end. Where elements
    /// were left, the sequence is of the wrong length.
    pub fn end_sequence(&mut self, len: usize) -> (r: Result<(), Error>)
        requires
            !(drain(old(self).events(), *old(self).pos as int, Nest::Sequence, 0) is Broken),
            len + old(self).events().len() <= usize::MAX,
        ensures
            old(self).same_frame(final(self)),
            match drain(old(self).events(), *old(self).pos as int, Nest::Sequence, 0) {
                Drained::Closed(end, passed) => {
                    &&& *final(self).pos == end
                    &&& final(self).current_enum is None
                    &&& if passed == 0 {
                        r is Ok
                    } else {
                        r matches Err(err) && error::is_message(
                            err,
                            error::invalid_length_text(
                                (len + passed) as usize,
                                expected_sequence(len),
                            ),
                        )
                    }
                },
                Drained::Exhausted => r matches Err(err) && *err.0 == exhausted(
                    old(self).document,
                ) && !final(self).has_event(),
                Drained::Broken(_) => false,
            },
    {
        let total = match self.drain_members(Nest::Sequence, len) {
            Ok(total) => total,
            Err(err) => {
                return Err(err);
            },
        };
        match self.next_event() {
            Ok(_) => {},
            Err(err) => {
                return Err(err);
            },
        }
        if total == len {
            Ok(())
        } else {
            let expected = expected_sequence_text(len);
            Err(error::invalid_length(total, expected.as_str()))
        }
    }

    /// Ends a mapping of which `len` entries have been decoded: passes over
    /// the entries that are left and over the mapping's end. Where entries
    /// were left, the mapping is of the wrong length.
    pub fn end_mapping(&mut self, len: usize) -> (r: Result<(), Error>)
        requires
            !(drain(old(self).events(), *old(self).pos as int, Nest::Mapping, 0) is Broken),
            len + old(self).events().len() <= usize::MAX,
        ensures
            old(self).same_frame(final(self)),
            match drain(old(self).events(), *old(self).pos as int, Nest::Mapping, 0) {
                Drained::Closed(end, passed) => {
                    &&& *final(self).pos == end
                    &&& final(self).current_enum is None
                    &&& if passed == 0 {
                        r is Ok
                    } else {
                        r matches Err(err) && error::is_message(
                            err,
                            error::invalid_length_text(
                                (len + passed) as usize,
                                expected_mapping(len),
                            ),
                        )
                    }
                },
                Drained::Exhausted => r matches Err(err) && *err.0 == exhausted(
                    old(self).document,
                ) && !final(self).has_event(),
                Drained::Broken(_) => false,
            },
    {
        let total = match self.drain_members(Nest::Mapping, len) {
            Ok(total) => total,
            Err(err) => {
                return Err(err);
            },
        };
        match self.next_event() {
            Ok(_) => {},
            Err(err) => {
                return Err(err);
            },
        }
        if total == len {
            Ok(())
        } else {
            let expected = expected_mapping_text(len);
            Err(error::invalid_length(total, expected.as_str()))
        }
    }
}

/// What a request for a value of one type meets at the cursor.
#[derive(Debug)]
pub enum Step<'de, 'document, T> {
    /// An alias to the anchor with the given id: the request goes on at the
    /// anchor's node, after a jump.
    Alias(usize),
    /// The value to hand to the visitor.
    Visit(T),
    /// An event that holds no such value: it is of an invalid type for the
    /// visitor, whatever the visitor expects.
    Invalid(&'document Event<'de>),
}

/// Whether `step` is what a request meets in `event`, where `value` is the
/// value that the event holds for the request, if it holds one.
pub open spec fn is_step<'de, 'document, T>(
    step: Step<'de, 'document, T>,
    event: Event<'de>,
    value: Option<T>,
) -> bool {
    match event {
        Event::Alias(id) => step == Step::<T>::Alias(id),
        _ => match value {
            Some(value) => step == Step::Visit(value),
            None => step matches Step::Invalid(found) && *found == event,
        },
    }
}

/// The text of the event, where it is a scalar that may be read as the type
/// that the tag `expected` names, and is text.
pub open spec fn typed_text<'de>(event: Event<'de>, expected: Seq<u8>, tagged_already: bool) -> Option<
    Seq<u8>,
> {
    match event {
        Event::Scalar(scalar) => if plain_or_tagged_literal(expected, scalar, tagged_already)
            && vstd::utf8::valid_utf8(scalar.value@) {
            Some(scalar.value@)
        } else {
            None
        },
        _ => None,
    }
}

/// The text of the event, where it is a scalar that may be read as the type
/// that the tag `expected` names, and is text.
fn text_for<'de, 'document>(event: &'document Event<'de>, expected: &str, tagged_already: bool) -> (r:
    Option<&'document str>)
    ensures
        match typed_text(*event, expected.spec_bytes(), tagged_already) {
            Some(value) => r matches Some(text) && text.spec_bytes() == value,
            None => r is None,
        },
{
    match event {
        Event::Scalar(scalar) => {
            if is_plain_or_tagged_literal_scalar(expected, scalar, tagged_already) {
                from_utf8(scalar.value.as_slice())
            } else {
                None
            }
        },
        _ => None,
    }
}

/// Whether `err` is the message `text`, placed at `mark` and `path`.
pub open spec fn is_placed_message(err: Error, text: Seq<char>, mark: Mark, path: Path<'_>) -> bool {
    &&& *err.0 matches ErrorImpl::Message(msg, Some(pos))
    &&& msg@ == text
    &&& pos.mark == mark
    &&& pos.path@ == path.text()
}

/// The boolean that the event holds for a request for one.
pub open spec fn bool_in<'de>(event: Event<'de>, tagged_already: bool) -> Option<bool> {
    match typed_text(event, Tag::BOOL.spec_bytes(), tagged_already) {
        Some(value) => bool_of(value),
        None => None,
    }
}

/// The integer that the event holds for a request for a signed one.
pub open spec fn signed_in<'de>(event: Event<'de>, tagged_already: bool, width: Width) -> Option<int> {
    match typed_text(event, Tag::INT.spec_bytes(), tagged_already) {
        Some(value) => signed_int(value, width),
        None => None,
    }
}

/// The integer that the event holds for a request for an unsigned one.
pub open spec fn unsigned_in<'de>(event: Event<'de>, tagged_already: bool, width: Width) -> Option<
    nat,
> {
    match typed_text(event, Tag::INT.spec_bytes(), tagged_already) {
        Some(value) => unsigned_int(value, width),
        None => None,
    }
}

/// Whether a collection is there in full or stands empty.
#[derive(Copy, Clone, Debug, PartialEq, Eq, Structural)]
pub enum Collection {
    /// The collection's start has been read; its members follow.
    Nested,
    /// An empty plain scalar or no value stood for the collection: it has
    /// no members, and nothing more is to be read.
    Empty,
}

/// Whether the event stands for an empty collection: no value, or an empty
/// plain scalar.
pub open spec fn stands_empty<'de>(event: Event<'de>) -> bool {
    match event {
        Event::Void => true,
        Event::Scalar(scalar) => scalar.value@.len() == 0 && scalar.style == ScalarStyle::Plain,
        _ => false,
    }
}

/// The collection of the kind `nest` that the event holds, if it holds one.
pub open spec fn collection_in<'de>(event: Event<'de>, nest: Nest) -> Option<Collection> {
    let starts = match nest {
        Nest::Sequence => event is SequenceStart,
        Nest::Mapping => event is MappingStart,
    };
    if starts {
        Some(Collection::Nested)
    } else if stands_empty(event) {
        Some(Collection::Empty)
    } else {
        None
    }
}

impl<'de, 'document> DeserializerFromEvents<'de, 'document> {
    /// Whether `r` is the outcome of a request that reads one event: the
    /// error of events that have run out, with nothing changed, or the
    /// event's mark and a step that satisfies `fits`, with the cursor behind
    /// the event.
    pub open spec fn reads_one<T>(
        &self,
        after: &Self,
        r: Result<(Step<'de, 'document, T>, Mark), Error>,
        value: Option<T>,
    ) -> bool {
        match r {
            Ok((step, mark)) => self.has_event() && self.advanced(after) && mark == self.mark()
                && is_step(step, self.event(), value),
            Err(err) => !self.has_event() && *err.0 == exhausted(self.document) && self.same(
                after,
            ),
        }
    }

    /// Meets a request for a boolean.
    pub fn deserialize_bool(&mut self) -> (r: Result<(Step<'de, 'document, bool>, Mark), Error>)
        ensures
            old(self).reads_one(
                final(self),
                r,
                bool_in(old(self).event(), old(self).current_enum is Some),
            ),
    {
        let tagged_already = self.current_enum.is_some();
        let (next, mark) = match self.next_event_mark() {
            Ok(pair) => pair,
            Err(err) => {
                return Err(err);
            },
        };
        if let Event::Alias(pos) = next {
            return Ok((Step::Alias(*pos), mark));
        }
        if let Some(value) = text_for(next, Tag::BOOL, tagged_already) {
            if let Some(boolean) = parse_bool(value) {
                return Ok((Step::Visit(boolean), mark));
            }
        }
        Ok((Step::Invalid(next), mark))
    }

    /// Meets a request for a signed integer of 64 bits.
    pub fn deserialize_i64(&mut self) -> (r: Result<(Step<'de, 'document, i64>, Mark), Error>)
        ensures
            old(self).reads_one(
                final(self),
                r,
                match signed_in(old(self).event(), old(self).current_enum is Some, Width::Bits64) {
                    Some(n) => Some(n as i64),
                    None => None,
                },
            ),
    {
        let tagged_already = self.current_enum.is_some();
        let (next, mark) = match self.next_event_mark() {
            Ok(pair) => pair,
            Err(err) => {
                return Err(err);
            },
        };
        if let Event::Alias(pos) = next {
            return Ok((Step::Alias(*pos), mark));
        }
        if let Some(value) = text_for(next, Tag::INT, tagged_already) {
            if let Some(n) = parse_signed_int(value, Width::Bits64) {
                return Ok((Step::Visit(n as i64), mark));
            }
        }
        Ok((Step::Invalid(next), mark))
    }

    /// Meets a request for a signed integer of 128 bits.
    pub fn deserialize_i128(&mut self) -> (r: Result<(Step<'de, 'document, i128>, Mark), Error>)
        ensures
            old(self).reads_one(
                final(self),
                r,
                match signed_in(old(self).event(), old(self).current_enum is Some, Width::Bits128) {
                    Some(n) => Some(n as i128),
                    None => None,
                },
            ),
    {
        let tagged_already = self.current_enum.is_some();
        let (next, mark) = match self.next_event_mark() {
            Ok(pair) => pair,
            Err(err) => {
                return Err(err);
            },
        };
        if let Event::Alias(pos) = next {
            return Ok((Step::Alias(*pos), mark));
        }
        if let Some(value) = text_for(next, Tag::INT, tagged_already) {
            if let Some(n) = parse_signed_int(value, Width::Bits128) {
                return Ok((Step::Visit(n), mark));
            }
        }
        Ok((Step::Invalid(next), mark))
    }

    /// Meets a request for an unsigned integer of 64 bits.
    pub fn deserialize_u64(&mut self) -> (r: Result<(Step<'de, 'document, u64>, Mark), Error>)
        ensures
            old(self).reads_one(
                final(self),
                r,
                match unsigned_in(old(self).event(), old(self).current_enum is Some, Width::Bits64) {
                    Some(n) => Some(n as u64),
                    None => None,
                },
            ),
    {
        let tagged_already = self.current_enum.is_some();
        let (next, mark) = match self.next_event_mark() {
            Ok(pair) => pair,
            Err(err) => {
                return Err(err);
            },
        };
        if let Event::Alias(pos) = next {
            return Ok((Step::Alias(*pos), mark));
        }
        if let Some(value) = text_for(next, Tag::INT, tagged_already) {
            if let Some(n) = parse_unsigned_int(value, Width::Bits64) {
                return Ok((Step::Visit(n as u64), mark));
            }
        }
        Ok((Step::Invalid(next), mark))
    }

    /// Meets a request for an unsigned integer of 128 bits.
    pub fn deserialize_u128(&mut self) -> (r: Result<(Step<'de, 'document, u128>, Mark), Error>)
        ensures
            old(self).reads_one(
                final(self),
                r,
                match unsigned_in(
                    old(self).event(),
                    old(self).current_enum is Some,
                    Width::Bits128,
                ) {
                    Some(n) => Some(n as u128),
                    None => None,
                },
            ),
    {
        let tagged_already = self.current_enum.is_some();
        let (next, mark) = match self.next_event_mark() {
            Ok(pair) => pair,
            Err(err) => {
                return Err(err);
            },
        };
        if let Event::Alias(pos) = next {
            return Ok((Step::Alias(*pos), mark));
        }
        if let Some(value) = text_for(next, Tag::INT, tagged_already) {
            if let Some(n) = parse_unsigned_int(value, Width::Bits128) {
                return Ok((Step::Visit(n), mark));
            }
        }
        Ok((Step::Invalid(next), mark))
    }

    /// Meets a request for a float. Digits are handed out with their event:
    /// where the standard float parser reads no finite value from them, the
    /// event is of an invalid type.
    pub fn deserialize_f64(&mut self) -> (r: Result<
        (Step<'de, 'document, (Float<'document>, &'document Event<'de>)>, Mark),
        Error,
    >)
        ensures
            match r {
                Ok((step, mark)) => {
                    let event = old(self).event();
                    let text = typed_text(
                        event,
                        Tag::FLOAT.spec_bytes(),
                        old(self).current_enum is Some,
                    );
                    &&& old(self).has_event()
                    &&& old(self).advanced(final(self))
                    &&& mark == old(self).mark()
                    &&& match event {
                        Event::Alias(id) => step matches Step::Alias(x) && x == id,
                        _ => if text is Some && float_kind(text->Some_0) is Some {
                            &&& step matches Step::Visit((float, found))
                            &&& *found == event
                            &&& float_kind(text->Some_0) == Some(float.kind())
                            &&& float matches Float::Decimal(digits) ==> digits.spec_bytes()
                                == without_plus(text->Some_0)
                        } else {
                            step matches Step::Invalid(found) && *found == event
                        },
                    }
                },
                Err(err) => !old(self).has_event() && *err.0 == exhausted(old(self).document)
                    && old(self).same(final(self)),
            },
    {
        let tagged_already = self.current_enum.is_some();
        let (next, mark) = match self.next_event_mark() {
            Ok(pair) => pair,
            Err(err) => {
                return Err(err);
            },
        };
        if let Event::Alias(pos) = next {
            return Ok((Step::Alias(*pos), mark));
        }
        if let Some(value) = text_for(next, Tag::FLOAT, tagged_already) {
            if let Some(float) = parse_f64(value) {
                return Ok((Step::Visit((float, next)), mark));
            }
        }
        Ok((Step::Invalid(next), mark))
    }

    /// Meets a request for text: any scalar that is text, whatever its style
    /// and tag.
    pub fn deserialize_str(&mut self) -> (r: Result<
        (Step<'de, 'document, Text<'de, 'document>>, Mark),
        Error,
    >)
        ensures
            match r {
                Ok((step, mark)) => {
                    let event = old(self).event();
                    &&& old(self).has_event()
                    &&& old(self).advanced(final(self))
                    &&& mark == old(self).mark()
                    &&& match event {
                        Event::Alias(id) => step matches Step::Alias(x) && x == id,
                        Event::Scalar(scalar) => if vstd::utf8::valid_utf8(scalar.value@) {
                            step matches Step::Visit(text) && is_text_of(
                                text,
                                scalar.value@,
                                scalar.repr,
                                scalar.style,
                            )
                        } else {
                            step matches Step::Invalid(found) && *found == event
                        },
                        _ => step matches Step::Invalid(found) && *found == event,
                    }
                },
                Err(err) => !old(self).has_event() && *err.0 == exhausted(old(self).document)
                    && old(self).same(final(self)),
            },
    {
        let (next, mark) = match self.next_event_mark() {
            Ok(pair) => pair,
            Err(err) => {
                return Err(err);
            },
        };
        match next {
            Event::Scalar(scalar) => {
                if let Some(v) = from_utf8(scalar.value.as_slice()) {
                    Ok((Step::Visit(text_of_scalar(v, scalar.repr, scalar.style)), mark))
                } else {
                    Ok((Step::Invalid(next), mark))
                }
            },
            Event::Alias(pos) => Ok((Step::Alias(*pos), mark)),
            other => Ok((Step::Invalid(other), mark)),
        }
    }

    /// Meets a request for a collection of the kind `nest`: a sequence for
    /// `deserialize_seq`, a mapping for `deserialize_map`.
    fn deserialize_collection(&mut self, nest: Nest) -> (r: Result<
        (Step<'de, 'document, Collection>, Mark),
        Error,
    >)
        ensures
            old(self).reads_one(final(self), r, collection_in(old(self).event(), nest)),
    {
        let (next, mark) = match self.next_event_mark() {
            Ok(pair) => pair,
            Err(err) => {
                return Err(err);
            },
        };
        let step = match next {
            Event::Alias(pos) => Step::Alias(*pos),
            Event::SequenceStart(_) => match nest {
                Nest::Sequence => Step::Visit(Collection::Nested),
                Nest::Mapping => Step::Invalid(next),
            },
            Event::MappingStart(_) => match nest {
                Nest::Sequence => Step::Invalid(next),
                Nest::Mapping => Step::Visit(Collection::Nested),
            },
            Event::Void => Step::Visit(Collection::Empty),
            Event::Scalar(scalar) => {
                if scalar.value.len() == 0 && scalar.style == ScalarStyle::Plain {
                    Step::Visit(Collection::Empty)
                } else {
                    Step::Invalid(next)
                }
            },
            other => Step::Invalid(other),
        };
        Ok((step, mark))
    }

    /// Meets a request for a sequence: the sequence that starts at the
    /// cursor, or an empty one where no value or an empty plain scalar stands.
    pub fn deserialize_seq(&mut self) -> (r: Result<(Step<'de, 'document, Collection>, Mark), Error>)
        ensures
            old(self).reads_one(final(self), r, collection_in(old(self).event(), Nest::Sequence)),
    {
        self.deserialize_collection(Nest::Sequence)
    }

    /// Meets a request for a mapping: the mapping that starts at the cursor,
    /// or an empty one where no value or an empty plain scalar stands.
    pub fn deserialize_map(&mut self) -> (r: Result<(Step<'de, 'document, Collection>, Mark), Error>)
        ensures
            old(self).reads_one(final(self), r, collection_in(old(self).event(), Nest::Mapping)),
    {
        self.deserialize_collection(Nest::Mapping)
    }

    /// Meets a request for bytes, which YAML does not have.
    pub fn deserialize_bytes(&mut self) -> (r: Result<(), Error>)
        ensures
            r matches Err(err) && *err.0 == ErrorImpl::BytesUnsupported,
            old(self).same(final(self)),
    {
        Err(error::new(ErrorImpl::BytesUnsupported))
    }
}

/// Whether a scalar stands for null in a request for the unit value: it is
/// plain, and under a tag of its own it bears the tag for null and is a word
/// for null, and without one it is empty or a word for null.
pub open spec fn unit_in(scalar: Scalar<'_>, tagged_already: bool) -> bool {
    if scalar.style != ScalarStyle::Plain {
        false
    } else if scalar.tag is Some && !tagged_already {
        scalar.tag->Some_0.bytes() == Tag::NULL.spec_bytes() && is_null(scalar.value@)
    } else {
        scalar.value@.len() == 0 || is_null(scalar.value@)
    }
}

/// The message that `value` is not null.
pub open spec fn not_null_text(value: Seq<u8>) -> Seq<char> {
    if vstd::utf8::valid_utf8(value) {
        invalid_value_text(UnexpectedView::Str(text_of(value)), "null"@)
    } else {
        invalid_value_text(UnexpectedView::Bytes(value), "null"@)
    }
}

/// The error that the scalar's value is not null.
fn not_null(scalar: &Scalar<'_>) -> (r: Error)
    ensures
        is_message(r, not_null_text(scalar.value@)),
{
    match from_utf8(scalar.value.as_slice()) {
        Some(v) => {
            proof {
                lemma_text_of_bytes(v);
            }
            error::invalid_value(&Unexpected::Str(v), "null")
        },
        None => error::invalid_value(&Unexpected::Bytes(scalar.value.as_slice()), "null"),
    }
}

/// Whether an optional value is there, as the event shows it; nothing where
/// the event bears the tag for null and is no word for null.
pub open spec fn present_in<'de>(event: Event<'de>, tagged_already: bool) -> Option<bool> {
    match event {
        Event::Scalar(scalar) => if scalar.style != ScalarStyle::Plain {
            Some(true)
        } else if scalar.tag is Some && !tagged_already {
            if scalar.tag->Some_0.bytes() == Tag::NULL.spec_bytes() {
                if is_null(scalar.value@) {
                    Some(false)
                } else {
                    None
                }
            } else {
                Some(true)
            }
        } else {
            Some(scalar.value@.len() != 0 && !is_null(scalar.value@))
        },
        Event::Void => Some(false),
        _ => Some(true),
    }
}

/// What a request for an optional value meets at the cursor.
#[derive(Copy, Clone, Debug, PartialEq, Eq, Structural)]
pub enum Presence {
    /// An alias to the anchor with the given id, which has been read.
    Alias(usize),
    /// A value, which is still to be read.
    Present,
    /// No value: the event that said so has been read.
    Absent,
}

/// What a request for any value meets at the cursor.
#[derive(Debug)]
pub enum Any<'de, 'document> {
    /// An alias to the anchor with the given id.
    Alias(usize),
    /// A node with a tag that names a variant; the node is still to be read.
    Enum(&'document str),
    /// A scalar, and what it holds.
    Scalar(Found<'de, 'document>),
    /// The start of a sequence.
    Sequence,
    /// The start of a mapping.
    Mapping,
    /// No value.
    Void,
}

/// The tag on the node that the event begins.
pub open spec fn tag_of<'de>(event: Event<'de>) -> Option<Tag> {
    match event {
        Event::Scalar(scalar) => scalar.tag,
        Event::SequenceStart(start) => start.tag,
        Event::MappingStart(start) => start.tag,
        _ => None,
    }
}

/// The variant that the event's tag names, unless an enum's tag has been
/// read already.
pub open spec fn enum_tag<'de>(event: Event<'de>, tagged_already: bool) -> Option<Seq<u8>> {
    if tagged_already {
        None
    } else {
        variant_tag(tag_of(event))
    }
}

/// The message with which a scalar is refused under a tag of the core
/// schema that its text does not fit; nothing where it is not refused.
pub open spec fn refusal(scalar: Scalar<'_>, tagged_already: bool) -> Option<Seq<char>> {
    let value = scalar.value@;
    let unexpected = UnexpectedView::Str(text_of(value));
    if !vstd::utf8::valid_utf8(value) || scalar.tag is None || tagged_already {
        None
    } else {
        let tag = scalar.tag->Some_0.bytes();
        if tag == Tag::BOOL.spec_bytes() {
            if bool_of(value) is None {
                Some(invalid_value_text(unexpected, "a boolean"@))
            } else {
                None
            }
        } else if tag == Tag::INT.spec_bytes() {
            if int_of(value) is None {
                Some(invalid_value_text(unexpected, "an integer"@))
            } else {
                None
            }
        } else if tag == Tag::FLOAT.spec_bytes() {
            if float_kind(value) is None {
                Some(invalid_value_text(unexpected, "a float"@))
            } else {
                None
            }
        } else if tag == Tag::NULL.spec_bytes() {
            if !is_null(value) {
                Some(invalid_value_text(unexpected, "null"@))
            } else {
                None
            }
        } else {
            None
        }
    }
}

/// What a request for an enum meets at the cursor.
#[derive(Copy, Clone, Debug)]
pub enum Variant<'document> {
    /// An alias to the anchor with the given id, which has been read.
    Alias(usize),
    /// A scalar that names a unit variant; it is still to be read.
    Unit,
    /// A node whose tag names the variant; the node is still to be read.
    Tagged(&'document str),
}

/// The message that an enum stands inside the enum `current`.
pub open spec fn nested_enum_text(current: CurrentEnum<'_>) -> Seq<char> {
    match current.name {
        Some(name) => "deserializing nested enum in "@ + name@ + "::"@ + current.tag@
            + " from YAML is not supported yet"@,
        None => "deserializing nested enum in !"@ + current.tag@
            + " from YAML is not supported yet"@,
    }
}

/// The error that an enum stands inside the enum `current`.
fn nested_enum(current: &CurrentEnum<'_>) -> (r: Error)
    ensures
        is_message(r, nested_enum_text(*current)),
{
    let mut message = String::new();
    match current.name {
        Some(name) => {
            message.append("deserializing nested enum in ");
            message.append(name);
            message.append("::");
        },
        None => {
            message.append("deserializing nested enum in !");
        },
    }
    message.append(current.tag);
    message.append(" from YAML is not supported yet");
    assert(message@ =~= nested_enum_text(*current));
    error::custom(message)
}

/// What is expected of a collection that is asked for as an enum.
pub open spec fn tag_expected() -> Seq<char> {
    "a YAML tag starting with '!'"@
}

impl<'de, 'document> DeserializerFromEvents<'de, 'document> {
    /// Whether the event at the cursor can begin a value: it is not the end
    /// of a sequence or mapping.
    pub open spec fn at_value(&self) -> bool {
        self.has_event() ==> !(self.event() is SequenceEnd || self.event() is MappingEnd)
    }

    /// Whether [`DeserializerFromEvents::at_value`] holds.
    pub fn is_at_value(&self) -> (r: bool)
        ensures
            r == self.at_value(),
    {
        if *self.pos < self.document.events.len() {
            match &self.document.events[*self.pos].0 {
                Event::SequenceEnd => false,
                Event::MappingEnd => false,
                _ => true,
            }
        } else {
            true
        }
    }

    /// Meets a request for the unit value: a scalar that stands for null, or
    /// no value. A scalar that does not stand for null is an error, placed
    /// at the scalar.
    pub fn deserialize_unit(&mut self) -> (r: Result<(Step<'de, 'document, ()>, Mark), Error>)
        ensures
            old(self).same_frame(final(self)),
            match r {
                Ok((step, mark)) => {
                    &&& old(self).has_event()
                    &&& old(self).advanced(final(self))
                    &&& mark == old(self).mark()
                    &&& match old(self).event() {
                        Event::Alias(id) => step matches Step::Alias(x) && x == id,
                        Event::Scalar(scalar) => step is Visit && unit_in(
                            scalar,
                            old(self).current_enum is Some,
                        ),
                        Event::Void => step is Visit,
                        event => step matches Step::Invalid(found) && *found == event,
                    }
                },
                Err(err) => if old(self).has_event() {
                    &&& old(self).advanced(final(self))
                    &&& old(self).event() matches Event::Scalar(scalar)
                    &&& !unit_in(scalar, old(self).current_enum is Some)
                    &&& is_placed_message(
                        err,
                        not_null_text(scalar.value@),
                        old(self).mark(),
                        old(self).path,
                    )
                } else {
                    *err.0 == exhausted(old(self).document) && old(self).same(final(self))
                },
            },
    {
        let tagged_already = self.current_enum.is_some();
        let (next, mark) = match self.next_event_mark() {
            Ok(pair) => pair,
            Err(err) => {
                return Err(err);
            },
        };
        match next {
            Event::Scalar(scalar) => {
                let is_null = if scalar.style != ScalarStyle::Plain {
                    false
                } else if let (Some(tag), false) = (&scalar.tag, tagged_already) {
                    tag.eq_str(Tag::NULL) && parse_null(scalar.value.as_slice()).is_some()
                } else {
                    scalar.value.len() == 0 || parse_null(scalar.value.as_slice()).is_some()
                };
                if is_null {
                    Ok((Step::Visit(()), mark))
                } else {
                    Err(error::fix_mark(not_null(scalar), mark, self.path))
                }
            },
            Event::Alias(pos) => Ok((Step::Alias(*pos), mark)),
            Event::Void => Ok((Step::Visit(()), mark)),
            other => Ok((Step::Invalid(other), mark)),
        }
    }

    /// Meets a request for an optional value, and gives the mark of the
    /// event met. Null is none, and any other value is some. The event is
    /// read only where it is an alias or shows that there is no value.
    pub fn deserialize_option(&mut self) -> (r: Result<(Presence, Mark), Error>)
        requires
            old(self).at_value(),
        ensures
            old(self).same_frame(final(self)),
            r matches Ok((_, mark)) ==> old(self).has_event() && mark == old(self).mark(),
            match r {
                Ok((Presence::Alias(id), _)) => {
                    &&& old(self).has_event()
                    &&& old(self).event() == Event::Alias(id)
                    &&& *final(self).pos == *old(self).pos + 1
                    &&& final(self).current_enum == old(self).current_enum
                },
                Ok((Presence::Present, _)) => {
                    &&& old(self).has_event()
                    &&& !(old(self).event() is Alias)
                    &&& present_in(old(self).event(), old(self).current_enum is Some) == Some(true)
                    &&& old(self).same(final(self))
                },
                Ok((Presence::Absent, _)) => {
                    &&& old(self).has_event()
                    &&& !(old(self).event() is Alias)
                    &&& present_in(old(self).event(), old(self).current_enum is Some) == Some(
                        false,
                    )
                    &&& old(self).advanced(final(self))
                },
                Err(err) => old(self).same(final(self)) && if old(self).has_event() {
                    &&& old(self).event() matches Event::Scalar(scalar)
                    &&& present_in(old(self).event(), old(self).current_enum is Some) is None
                    &&& is_message(err, not_null_text(scalar.value@))
                } else {
                    *err.0 == exhausted(old(self).document)
                },
            },
    {
        let (next, mark) = match self.peek_event_mark() {
            Ok(pair) => pair,
            Err(err) => {
                return Err(err);
            },
        };
        let count = self.document.events.len();
        let is_some = match next {
            Event::Alias(pos) => {
                *self.pos = *self.pos + 1;
                return Ok((Presence::Alias(*pos), mark));
            },
            Event::Scalar(scalar) => {
                let tagged_already = self.current_enum.is_some();
                if scalar.style != ScalarStyle::Plain {
                    true
                } else if let (Some(tag), false) = (&scalar.tag, tagged_already) {
                    if tag.eq_str(Tag::NULL) {
                        if let Some(()) = parse_null(scalar.value.as_slice()) {
                            false
                        } else {
                            return Err(not_null(scalar));
                        }
                    } else {
                        true
                    }
                } else {
                    scalar.value.len() != 0 && parse_null(scalar.value.as_slice()).is_none()
                }
            },
            Event::SequenceStart(_) => true,
            Event::MappingStart(_) => true,
            Event::SequenceEnd => {
                proof {
                    assert(false);
                }
                true
            },
            Event::MappingEnd => {
                proof {
                    assert(false);
                }
                true
            },
            Event::Void => false,
        };
        if is_some {
            Ok((Presence::Present, mark))
        } else {
            *self.pos = *self.pos + 1;
            self.current_enum = None;
            Ok((Presence::Absent, mark))
        }
    }

    /// Meets a request for whatever value stands at the cursor.
    ///
    /// A tag that names a variant makes the node an enum, unless an enum's
    /// tag has been read already; the node is then left unread. Else an
    /// alias, a scalar, or the start of a sequence or mapping is read. A
    /// scalar that its tag refuses is an error, placed at the scalar.
    pub fn deserialize_any(&mut self) -> (r: Result<(Any<'de, 'document>, Mark), Error>)
        requires
            old(self).at_value(),
        ensures
            old(self).same_frame(final(self)),
            match r {
                Ok((any, mark)) => {
                    let event = old(self).event();
                    let tagged_already = old(self).current_enum is Some;
                    &&& old(self).has_event()
                    &&& mark == old(self).mark()
                    &&& match event {
                        Event::Alias(id) => any matches Any::Alias(x) && x == id
                            && old(self).advanced(final(self)),
                        Event::Void => any is Void && old(self).advanced(final(self)),
                        _ => match enum_tag(event, tagged_already) {
                            Some(name) => any matches Any::Enum(tag) && tag.spec_bytes() == name
                                && old(self).same(final(self)),
                            None => old(self).advanced(final(self)) && match event {
                                Event::Scalar(scalar) => any matches Any::Scalar(found)
                                    && is_resolved(scalar, tagged_already, Ok(found)),
                                Event::SequenceStart(_) => any is Sequence,
                                _ => any is Mapping,
                            },
                        },
                    }
                },
                Err(err) => if old(self).has_event() {
                    &&& old(self).advanced(final(self))
                    &&& old(self).event() matches Event::Scalar(scalar)
                    &&& enum_tag(old(self).event(), old(self).current_enum is Some) is None
                    &&& refusal(scalar, old(self).current_enum is Some) matches Some(text)
                    &&& is_placed_message(err, text, old(self).mark(), old(self).path)
                } else {
                    *err.0 == exhausted(old(self).document) && old(self).same(final(self))
                },
            },
    {
        let tagged_already = self.current_enum.is_some();
        let (next, mark) = match self.next_event_mark() {
            Ok(pair) => pair,
            Err(err) => {
                return Err(err);
            },
        };
        match next {
            Event::Alias(pos) => Ok((Any::Alias(*pos), mark)),
            Event::Scalar(scalar) => {
                if !tagged_already {
                    if let Some(tag) = parse_tag(&scalar.tag) {
                        *self.pos = *self.pos - 1;
                        return Ok((Any::Enum(tag), mark));
                    }
                }
                match visit_scalar(scalar, tagged_already) {
                    Ok(found) => Ok((Any::Scalar(found), mark)),
                    Err(err) => Err(error::fix_mark(err, mark, self.path)),
                }
            },
            Event::SequenceStart(sequence) => {
                if !tagged_already {
                    if let Some(tag) = parse_tag(&sequence.tag) {
                        *self.pos = *self.pos - 1;
                        return Ok((Any::Enum(tag), mark));
                    }
                }
                Ok((Any::Sequence, mark))
            },
            Event::MappingStart(mapping) => {
                if !tagged_already {
                    if let Some(tag) = parse_tag(&mapping.tag) {
                        *self.pos = *self.pos - 1;
                        return Ok((Any::Enum(tag), mark));
                    }
                }
                Ok((Any::Mapping, mark))
            },
            Event::SequenceEnd => {
                proof {
                    assert(false);
                }
                Ok((Any::Void, mark))
            },
            Event::MappingEnd => {
                proof {
                    assert(false);
                }
                Ok((Any::Void, mark))
            },
            Event::Void => Ok((Any::Void, mark)),
        }
    }

    /// Meets a request for an enum. The node is left unread, but for an alias.
    ///
    /// Inside an enum whose tag has been read, a scalar that is not empty
    /// names a unit variant, and anything else is a nested enum, which is an
    /// error. Else a tag that names a variant selects it; a scalar without
    /// such a tag names a unit variant; a sequence or mapping without one is
    /// an error, and so is the absence of a value.
    pub fn deserialize_enum(&mut self, name: &'static str) -> (r: Result<
        (Variant<'document>, Mark),
        Error,
    >)
        requires
            old(self).current_enum is None ==> old(self).at_value(),
        ensures
            old(self).same_frame(final(self)),
            match r {
                Ok((variant, mark)) => {
                    let event = old(self).event();
                    &&& old(self).has_event()
                    &&& mark == old(self).mark()
                    &&& if old(self).current_enum is Some {
                        &&& variant is Unit
                        &&& event matches Event::Scalar(scalar)
                        &&& scalar.value@.len() > 0
                        &&& old(self).same(final(self))
                    } else {
                        match event {
                            Event::Alias(id) => variant matches Variant::Alias(x) && x == id
                                && *final(self).pos == *old(self).pos + 1
                                && final(self).current_enum is None,
                            Event::Scalar(_) => old(self).same(final(self)) && match variant_tag(
                                tag_of(event),
                            ) {
                                Some(tag) => variant matches Variant::Tagged(text)
                                    && text.spec_bytes() == tag,
                                None => variant is Unit,
                            },
                            _ => {
                                &&& old(self).same(final(self))
                                &&& variant_tag(tag_of(event)) matches Some(tag)
                                &&& variant matches Variant::Tagged(text)
                                &&& text.spec_bytes() == tag
                            },
                        }
                    }
                },
                Err(err) => old(self).same(final(self)) && if !old(self).has_event() {
                    *err.0 == exhausted(old(self).document)
                } else if old(self).current_enum is Some {
                    &&& !(old(self).event() matches Event::Scalar(scalar) && scalar.value@.len()
                        > 0)
                    &&& is_placed_message(
                        err,
                        nested_enum_text(old(self).current_enum->Some_0),
                        old(self).mark(),
                        old(self).path,
                    )
                } else {
                    match old(self).event() {
                        Event::MappingStart(start) => variant_tag(start.tag) is None
                            && is_placed_message(
                            err,
                            invalid_type_text(UnexpectedView::Mapping, tag_expected()),
                            old(self).mark(),
                            old(self).path,
                        ),
                        Event::SequenceStart(start) => variant_tag(start.tag) is None
                            && is_placed_message(
                            err,
                            invalid_type_text(UnexpectedView::Sequence, tag_expected()),
                            old(self).mark(),
                            old(self).path,
                        ),
                        Event::Void => *err.0 == ErrorImpl::EndOfStream,
                        _ => false,
                    }
                },
            },
    {
        let (next, mark) = match self.peek_event_mark() {
            Ok(pair) => pair,
            Err(err) => {
                return Err(err);
            },
        };
        let count = self.document.events.len();
        if let Some(current_enum) = self.current_enum {
            if let Event::Scalar(scalar) = next {
                if scalar.value.len() != 0 {
                    return Ok((Variant::Unit, mark));
                }
            }
            return Err(error::fix_mark(nested_enum(&current_enum), mark, self.path));
        }
        match next {
            Event::Alias(pos) => {
                *self.pos = *self.pos + 1;
                Ok((Variant::Alias(*pos), mark))
            },
            Event::Scalar(scalar) => {
                if let Some(tag) = parse_tag(&scalar.tag) {
                    return Ok((Variant::Tagged(tag), mark));
                }
                Ok((Variant::Unit, mark))
            },
            Event::MappingStart(mapping) => {
                if let Some(tag) = parse_tag(&mapping.tag) {
                    return Ok((Variant::Tagged(tag), mark));
                }
                let err = error::invalid_type(
                    &Unexpected::Mapping,
                    "a YAML tag starting with '!'",
                );
                Err(error::fix_mark(err, mark, self.path))
            },
            Event::SequenceStart(sequence) => {
                if let Some(tag) = parse_tag(&sequence.tag) {
                    return Ok((Variant::Tagged(tag), mark));
                }
                let err = error::invalid_type(
                    &Unexpected::Sequence,
                    "a YAML tag starting with '!'",
                );
                Err(error::fix_mark(err, mark, self.path))
            },
            Event::SequenceEnd => {
                proof {
                    assert(false);
                }
                Err(error::new(ErrorImpl::EndOfStream))
            },
            Event::MappingEnd => {
                proof {
                    assert(false);
                }
                Err(error::new(ErrorImpl::EndOfStream))
            },
            Event::Void => Err(error::new(ErrorImpl::EndOfStream)),
        }
    }
}

/// The error for an event that is of an invalid type for a visitor that
/// expects `expected`, where the error does not hang on what the event
/// holds: the end of the stream where no value stands, and a sequence or a
/// mapping in serde's words. A scalar gives nothing here: its error hangs
/// on what the scalar is found to hold.
pub fn invalid_event(event: &Event<'_>, expected: &str) -> (r: Option<Error>)
    requires
        !(event is Alias),
        !(event is SequenceEnd),
        !(event is MappingEnd),
    ensures
        match *event {
            Event::Void => r matches Some(e) && *e.0 == ErrorImpl::EndOfStream,
            Event::SequenceStart(_) => r matches Some(e) && is_message(
                e,
                invalid_type_text(UnexpectedView::Sequence, expected@),
            ),
            Event::MappingStart(_) => r matches Some(e) && is_message(
                e,
                invalid_type_text(UnexpectedView::Mapping, expected@),
            ),
            _ => r is None,
        },
{
    match event {
        Event::SequenceStart(_) => Some(error::invalid_type(&Unexpected::Sequence, expected)),
        Event::MappingStart(_) => Some(error::invalid_type(&Unexpected::Mapping, expected)),
        Event::Void => Some(error::new(ErrorImpl::EndOfStream)),
        _ => None,
    }
}

/// A request follows an alias only where an alias stands: over events
/// without an alias no step is a jump, and the count of jumps stays as it is.
pub proof fn lemma_only_aliases_jump<'de, 'document, T>(
    step: Step<'de, 'document, T>,
    event: Event<'de>,
    value: Option<T>,
)
    requires
        is_step(step, event, value),
    ensures
        step is Alias <==> event is Alias,
{
}

impl<'de, 'document> DeserializerFromEvents<'de, 'document> {
    /// Whether `child` reads for this cursor: from the same document, at
    /// this cursor's position, under its count of jumps and depth, and with
    /// no enum context unless `current_enum` gives one.
    pub open spec fn lends(&self, child: &DeserializerFromEvents<'de, '_>) -> bool {
        &&& child.document == self.document
        &&& *child.pos == *self.pos
        &&& *child.jumpcount == *self.jumpcount
        &&& child.remaining_depth == self.remaining_depth
    }

    /// Whether what is this cursor's own has stayed in `after`: its document,
    /// path, depth and enum context.
    pub open spec fn keeps(&self, after: &Self) -> bool {
        &&& after.document == self.document
        &&& after.path == self.path
        &&& after.remaining_depth == self.remaining_depth
        &&& after.current_enum == self.current_enum
    }

    /// Whether more members of a collection of the kind `nest` follow: the
    /// event at the cursor does not end it.
    pub fn has_next(&self, nest: Nest) -> (r: Result<bool, Error>)
        ensures
            match r {
                Ok(more) => self.has_event() && more == !closes(self.event(), nest),
                Err(err) => !self.has_event() && *err.0 == exhausted(self.document),
            },
    {
        match self.peek_event() {
            Ok(event) => Ok(
                match event {
                    Event::Void => false,
                    Event::SequenceEnd => match nest {
                        Nest::Sequence => false,
                        Nest::Mapping => true,
                    },
                    Event::MappingEnd => match nest {
                        Nest::Sequence => true,
                        Nest::Mapping => false,
                    },
                    _ => true,
                },
            ),
            Err(err) => Err(err),
        }
    }

    /// The cursor for the element at `index` of the sequence that this
    /// cursor reads.
    pub fn element<'seq>(&'seq mut self, index: usize) -> (r: DeserializerFromEvents<'de, 'seq>)
        ensures
            old(self).lends(&r),
            r.path == (Path::Sequence { parent: &old(self).path, index }),
            r.current_enum is None,
            old(self).keeps(final(self)),
            *final(self).pos == *final(r.pos),
            *final(self).jumpcount == *final(r.jumpcount),
    {
        DeserializerFromEvents {
            document: self.document,
            pos: self.pos,
            jumpcount: self.jumpcount,
            path: Path::Sequence { parent: &self.path, index },
            remaining_depth: self.remaining_depth,
            current_enum: None,
        }
    }

    /// The bytes of the scalar at the cursor, by which a mapping's value is
    /// found again in the path; nothing where the key is no scalar.
    pub fn key(&self) -> (r: Option<&'document [u8]>)
        ensures
            match r {
                Some(bytes) => {
                    &&& self.has_event()
                    &&& self.event() matches Event::Scalar(scalar)
                    &&& bytes@ == scalar.value@
                },
                None => !(self.has_event() && self.event() is Scalar),
            },
    {
        match self.peek_event() {
            Ok(Event::Scalar(scalar)) => Some(scalar.value.as_slice()),
            _ => None,
        }
    }

    /// The path to the value under `key` in the mapping at `parent`: by the
    /// key where it is text, else unknown.
    pub open spec fn value_path<'a>(parent: &'a Path<'a>, key: Option<&'a [u8]>, path: Path<'a>) -> bool {
        match key {
            Some(bytes) if vstd::utf8::valid_utf8(bytes@) => path matches Path::Mapping {
                parent: p,
                key: text,
            } && p == parent && text.spec_bytes() == bytes@,
            _ => path == (Path::Unknown { parent }),
        }
    }

    /// The cursor for the value under `key` in the mapping that this cursor
    /// reads.
    pub fn value<'map>(&'map mut self, key: Option<&'map [u8]>) -> (r: DeserializerFromEvents<
        'de,
        'map,
    >)
        ensures
            old(self).lends(&r),
            Self::value_path(&old(self).path, key, r.path),
            r.current_enum is None,
            old(self).keeps(final(self)),
            *final(self).pos == *final(r.pos),
            *final(self).jumpcount == *final(r.jumpcount),
    {
        let text = match key {
            Some(bytes) => from_utf8(bytes),
            None => None,
        };
        DeserializerFromEvents {
            document: self.document,
            pos: self.pos,
            jumpcount: self.jumpcount,
            path: if let Some(key) = text {
                Path::Mapping { parent: &self.path, key }
            } else {
                Path::Unknown { parent: &self.path }
            },
            remaining_depth: self.remaining_depth,
            current_enum: None,
        }
    }

    /// The cursor for the content of the variant that `tag` has named, in
    /// the enum of the type `name`: it reads on under this cursor's path,
    /// inside that enum.
    pub fn variant<'variant>(&'variant mut self, name: Option<&'static str>, tag: &'variant str) -> (r:
        DeserializerFromEvents<'de, 'variant>)
        ensures
            old(self).lends(&r),
            r.path == old(self).path,
            r.current_enum == Some(CurrentEnum { name, tag }),
            old(self).keeps(final(self)),
            *final(self).pos == *final(r.pos),
            *final(self).jumpcount == *final(r.jumpcount),
    {
        DeserializerFromEvents {
            document: self.document,
            pos: self.pos,
            jumpcount: self.jumpcount,
            path: self.path,
            remaining_depth: self.remaining_depth,
            current_enum: Some(CurrentEnum { name, tag }),
        }
    }
}

/// The elements of a sequence, handed out one by one, and counted.
pub struct SeqAccess<'de, 'document, 'seq> {
    /// Whether the sequence stands empty, with nothing to read.
    pub empty: bool,
    /// The cursor that reads the sequence.
    pub de: &'seq mut DeserializerFromEvents<'de, 'document>,
    /// How many elements have been handed out.
    pub len: usize,
}

impl<'de, 'document, 'seq> SeqAccess<'de, 'document, 'seq> {
    /// The cursor for the next element, if there is one: none in an empty
    /// sequence, and none before the sequence's end.
    pub fn next_element<'a>(&'a mut self) -> (r: Result<
        Option<DeserializerFromEvents<'de, 'a>>,
        Error,
    >)
        requires
            old(self).len < usize::MAX,
        ensures
            final(self).empty == old(self).empty,
            match r {
                Ok(Some(child)) => {
                    &&& !old(self).empty
                    &&& old(self).de.has_event()
                    &&& !closes(old(self).de.event(), Nest::Sequence)
                    &&& final(self).len == old(self).len + 1
                    &&& old(self).de.lends(&child)
                    &&& child.path == (Path::Sequence {
                        parent: &old(self).de.path,
                        index: old(self).len,
                    })
                    &&& child.current_enum is None
                    &&& old(self).de.keeps(final(self).de)
                    &&& *final(self).de.pos == *final(child.pos)
                    &&& *final(self).de.jumpcount == *final(child.jumpcount)
                },
                Ok(None) => {
                    &&& old(self).empty || (old(self).de.has_event() && closes(
                        old(self).de.event(),
                        Nest::Sequence,
                    ))
                    &&& final(self).len == old(self).len
                    &&& old(self).de.same(final(self).de)
                },
                Err(err) => {
                    &&& !old(self).empty
                    &&& !old(self).de.has_event()
                    &&& *err.0 == exhausted(old(self).de.document)
                    &&& final(self).len == old(self).len
                    &&& old(self).de.same(final(self).de)
                },
            },
    {
        if self.empty {
            return Ok(None);
        }
        match self.de.has_next(Nest::Sequence) {
            Ok(true) => {
                let index = self.len;
                self.len = self.len + 1;
                Ok(Some(self.de.element(index)))
            },
            Ok(false) => Ok(None),
            Err(err) => Err(err),
        }
    }
}

/// The entries of a mapping, handed out key by key and value by value, and
/// counted.
pub struct MapAccess<'de, 'document, 'map> {
    /// Whether the mapping stands empty, with nothing to read.
    pub empty: bool,
    /// The cursor that reads the mapping.
    pub de: &'map mut DeserializerFromEvents<'de, 'document>,
    /// How many keys have been handed out.
    pub len: usize,
    /// The bytes of the last key, where it was a scalar.
    pub key: Option<&'document [u8]>,
}

impl<'de, 'document, 'map> MapAccess<'de, 'document, 'map> {
    /// Whether a key follows: none in an empty mapping, and none before the
    /// mapping's end. A key that follows is counted and, where it is a
    /// scalar, noted for the path of its value; it is then read by the
    /// mapping's own cursor.
    pub fn next_key(&mut self) -> (r: Result<bool, Error>)
        requires
            old(self).len < usize::MAX,
        ensures
            final(self).empty == old(self).empty,
            old(self).de.same(final(self).de),
            match r {
                Ok(true) => {
                    &&& !old(self).empty
                    &&& old(self).de.has_event()
                    &&& !closes(old(self).de.event(), Nest::Mapping)
                    &&& final(self).len == old(self).len + 1
                    &&& match old(self).de.event() {
                        Event::Scalar(scalar) => final(self).key matches Some(bytes) && bytes@
                            == scalar.value@,
                        _ => final(self).key is None,
                    }
                },
                Ok(false) => {
                    &&& old(self).empty || (old(self).de.has_event() && closes(
                        old(self).de.event(),
                        Nest::Mapping,
                    ))
                    &&& final(self).len == old(self).len
                    &&& final(self).key == old(self).key
                },
                Err(err) => {
                    &&& !old(self).empty
                    &&& !old(self).de.has_event()
                    &&& *err.0 == exhausted(old(self).de.document)
                    &&& final(self).len == old(self).len
                    &&& final(self).key == old(self).key
                },
            },
    {
        if self.empty {
            return Ok(false);
        }
        match self.de.has_next(Nest::Mapping) {
            Ok(true) => {
                self.len = self.len + 1;
                self.key = self.de.key();
                Ok(true)
            },
            Ok(false) => Ok(false),
            Err(err) => Err(err),
        }
    }

    /// The cursor for the value of the last key.
    pub fn next_value<'a>(&'a mut self) -> (r: DeserializerFromEvents<'de, 'a>)
        ensures
            final(self).empty == old(self).empty,
            final(self).len == old(self).len,
            final(self).key == old(self).key,
            old(self).de.lends(&r),
            r.current_enum is None,
            old(self).de.keeps(final(self).de),
            *final(self).de.pos == *final(r.pos),
            *final(self).de.jumpcount == *final(r.jumpcount),
            match old(self).key {
                Some(bytes) if vstd::utf8::valid_utf8(bytes@) => r.path matches Path::Mapping {
                    parent,
                    key,
                } && *parent == old(self).de.path && key.spec_bytes() == bytes@,
                _ => r.path == (Path::Unknown { parent: &old(self).de.path }),
            },
    {
        self.de.value(self.key)
    }
}

/// One input of YAML, and how far it has been taken.
#[derive(Debug)]
pub struct Deserializer<'de> {
    pub progress: Progress<'de>,
}

/// The one document of an input, with the loader that says whether another
/// follows; there is no loader where the input was a document already.
#[derive(Debug)]
pub struct Single<'de> {
    pub document: Document<'de>,
    pub loader: Option<Loader<'de>>,
}

impl<'de> Progress<'de> {
    /// Whether the progress can be taken further: its parser, wherever it
    /// holds one, is terminated.
    pub open spec fn wf(self) -> bool {
        match self {
            Progress::Iterable(loader) => loader.wf(),
            Progress::Document(_) => true,
            fresh => Loader::loadable(fresh),
        }
    }
}

impl<'de> Single<'de> {
    /// Whether the loader, if there is one, can go on.
    pub open spec fn wf(&self) -> bool {
        self.loader matches Some(loader) ==> loader.wf()
    }

    /// Whether another document follows in the input.
    pub open spec fn has_more(&self) -> bool {
        self.loader matches Some(loader) && loader.parser matches Some(parser) && load(
            parser.events@,
            parser.failure,
            loader.parsed_document_count == 0,
            Loading::start(),
        ).document is Some
    }

    /// Closes the request for the one document, after its value has been
    /// decoded: the error that cut the document short comes first, and then
    /// a second document is one too many.
    pub fn finish(self) -> (r: Result<(), Error>)
        requires
            self.wf(),
        ensures
            match self.document.error {
                Some(parse_error) => r matches Err(err) && *err.0 == ErrorImpl::Shared(
                    parse_error,
                ),
                None => if self.has_more() {
                    r matches Err(err) && *err.0 == ErrorImpl::MoreThanOneDocument
                } else {
                    r is Ok
                },
            },
    {
        let Single { document, loader } = self;
        if let Some(parse_error) = document.error {
            return Err(error::shared(parse_error));
        }
        match loader {
            None => Ok(()),
            Some(mut loader) => {
                if loader.next_document().is_none() {
                    Ok(())
                } else {
                    Err(error::new(ErrorImpl::MoreThanOneDocument))
                }
            },
        }
    }
}

impl<'de> Deserializer<'de> {
    /// A deserializer of tokenized text.
    pub fn from_str(s: Parser<'de>) -> (r: Self)
        ensures
            r.progress == Progress::Str(s),
    {
        Deserializer { progress: Progress::Str(s) }
    }

    /// A deserializer of tokenized bytes.
    pub fn from_slice(v: Parser<'de>) -> (r: Self)
        ensures
            r.progress == Progress::Slice(v),
    {
        Deserializer { progress: Progress::Slice(v) }
    }

    /// A deserializer of a stream that has been read and tokenized, or that
    /// failed to be read.
    pub fn from_reader(rdr: Result<Parser<'de>, std::io::Error>) -> (r: Self)
        ensures
            r.progress == Progress::Read(rdr),
    {
        Deserializer { progress: Progress::Read(rdr) }
    }

    /// Opens the request for the one document of the input.
    ///
    /// A deserializer that iterates over documents holds more than one. A
    /// deserializer of one document gives that document. Fresh input is
    /// loaded: an input that cannot be read, or that stands for an error,
    /// gives that error; an input without a document has ended too soon;
    /// else the first document is given, with the loader.
    pub fn de(self) -> (r: Result<Single<'de>, Error>)
        requires
            self.progress.wf(),
        ensures
            r matches Ok(single) ==> single.wf(),
            match self.progress {
                Progress::Iterable(_) => r matches Err(err) && *err.0
                    == ErrorImpl::MoreThanOneDocument,
                Progress::Document(document) => r matches Ok(single) && single.document
                    == document && single.loader is None,
                Progress::Read(Err(io_error)) => r matches Err(err) && *err.0 == ErrorImpl::Io(
                    io_error,
                ),
                Progress::Fail(shared) => r matches Err(err) && *err.0 == ErrorImpl::Shared(
                    shared,
                ),
                Progress::Str(parser) => Self::opened(parser, r),
                Progress::Slice(parser) => Self::opened(parser, r),
                Progress::Read(Ok(parser)) => Self::opened(parser, r),
            },
    {
        match self.progress {
            Progress::Iterable(_) => {
                return Err(error::new(ErrorImpl::MoreThanOneDocument));
            },
            Progress::Document(document) => {
                return Ok(Single { document, loader: None });
            },
            progress => {
                let mut loader = match Loader::new(progress) {
                    Ok(loader) => loader,
                    Err(err) => {
                        return Err(err);
                    },
                };
                let document = match loader.next_document() {
                    Some(document) => document,
                    None => {
                        return Err(error::new(ErrorImpl::EndOfStream));
                    },
                };
                Ok(Single { document, loader: Some(loader) })
            },
        }
    }

    /// Whether `r` is the first document of the fresh input behind `parser`,
    /// with its loader, or the end of the stream where there is none.
    pub open spec fn opened(parser: Parser<'de>, r: Result<Single<'de>, Error>) -> bool {
        let fresh = Loader { parser: Some(parser), parsed_document_count: 0 };
        match r {
            Ok(single) => single.loader matches Some(loader) && fresh.yields(
                &loader,
                Some(single.document),
            ),
            Err(err) => *err.0 == ErrorImpl::EndOfStream && exists|loader: Loader<'de>|
                fresh.yields(&loader, None),
        }
    }

    /// The deserializer of the next document of the input.
    ///
    /// Fresh input gets a loader first, or turns into the error of making
    /// one. A loader gives its next document, or none at the end. A single
    /// document has no next. An error is given again on every request.
    pub fn next(&mut self) -> (r: Option<Deserializer<'de>>)
        requires
            old(self).progress.wf(),
        ensures
            final(self).progress.wf(),
            match old(self).progress {
                Progress::Iterable(loader) => Self::iterated(&loader, final(self).progress, r),
                Progress::Document(document) => r is None && final(self).progress
                    == old(self).progress,
                Progress::Fail(shared) => r matches Some(next) && next.progress
                    == Progress::Fail(shared) && final(self).progress == old(self).progress,
                Progress::Read(Err(io_error)) => {
                    &&& r matches Some(next)
                    &&& next.progress matches Progress::Fail(shared)
                    &&& *shared == ErrorImpl::Io(io_error)
                    &&& final(self).progress == Progress::Fail(shared)
                },
                Progress::Str(parser) => Self::iterated(
                    &Loader { parser: Some(parser), parsed_document_count: 0 },
                    final(self).progress,
                    r,
                ),
                Progress::Slice(parser) => Self::iterated(
                    &Loader { parser: Some(parser), parsed_document_count: 0 },
                    final(self).progress,
                    r,
                ),
                Progress::Read(Ok(parser)) => Self::iterated(
                    &Loader { parser: Some(parser), parsed_document_count: 0 },
                    final(self).progress,
                    r,
                ),
            },
    {
        let mut input = Progress::Fail(Arc::new(ErrorImpl::EndOfStream));
        core::mem::swap(&mut self.progress, &mut input);
        match input {
            Progress::Iterable(mut loader) => {
                let document = loader.next_document();
                self.progress = Progress::Iterable(loader);
                match document {
                    Some(document) => Some(Deserializer { progress: Progress::Document(document) }),
                    None => None,
                }
            },
            Progress::Document(document) => {
                self.progress = Progress::Document(document);
                None
            },
            Progress::Fail(err) => {
                let again = share(&err);
                self.progress = Progress::Fail(err);
                Some(Deserializer { progress: Progress::Fail(again) })
            },
            fresh => match Loader::new(fresh) {
                Ok(mut loader) => {
                    let document = loader.next_document();
                    self.progress = Progress::Iterable(loader);
                    match document {
                        Some(document) => Some(
                            Deserializer { progress: Progress::Document(document) },
                        ),
                        None => None,
                    }
                },
                Err(err) => {
                    let fail = err.shared();
                    self.progress = Progress::Fail(share(&fail));
                    Some(Deserializer { progress: Progress::Fail(fail) })
                },
            },
        }
    }

    /// Whether a request to `loader` has left `progress` behind, a loader
    /// again, and has given `r`: the deserializer of the document that the
    /// loader yields, or none.
    pub open spec fn iterated(
        loader: &Loader<'de>,
        progress: Progress<'de>,
        r: Option<Deserializer<'de>>,
    ) -> bool {
        &&& progress matches Progress::Iterable(after)
        &&& match r {
            Some(next) => next.progress matches Progress::Document(document) && loader.yields(
                &after,
                Some(document),
            ),
            None => loader.yields(&after, None),
        }
    }
}

} // verus!
