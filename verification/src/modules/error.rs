//! Errors of loading and decoding, with the place in the input where known.

use vstd::prelude::*;
use vstd::string::*;
use std::sync::Arc;
use crate::libyml::error::Mark;
use crate::modules::path::Path;
use crate::text::{debug_str, debug_text, decimal, push_decimal, str_eq};
use serde::de::Unexpected as Found;

verus! {

/// `std::io::Error`, which is held and handed on and never looked into.
#[verifier::external_type_specification]
#[verifier::external_body]
pub struct ExIoError(std::io::Error);

/// `std::string::FromUtf8Error`, which is held and handed on and never
/// looked into.
#[verifier::external_type_specification]
#[verifier::external_body]
pub struct ExFromUtf8Error(std::string::FromUtf8Error);

/// The place of an error: its mark and the path to the value.
#[derive(Debug)]
pub struct Pos {
    pub mark: Mark,
    pub path: String,
}

/// What went wrong.
#[derive(Debug)]
pub enum ErrorImpl {
    /// A message, with its place once that is known.
    Message(String, Option<Pos>),
    /// An error of the tokenizer.
    Libyaml(crate::libyml::error::Error),
    /// An input or output failure.
    Io(std::io::Error),
    /// Bytes that are not UTF-8.
    FromUtf8(std::string::FromUtf8Error),
    /// The events ended where a value was expected.
    EndOfStream,
    /// A second document where exactly one was expected.
    MoreThanOneDocument,
    /// Nesting beyond the depth limit, at the given mark.
    RecursionLimitExceeded(Mark),
    /// More alias jumps than the document's budget.
    RepetitionLimitExceeded,
    /// A request for bytes, which YAML does not have.
    BytesUnsupported,
    /// An alias without an anchor, at the given mark.
    UnknownAnchor(Mark),
    /// An enum inside an enum on output.
    SerializeNestedEnum,
    /// A scalar where a merge wants a mapping or a list of mappings.
    ScalarInMerge,
    /// A tagged value in a merge.
    TaggedInMerge,
    /// A scalar among the mappings of a merge.
    ScalarInMergeElement,
    /// A sequence among the mappings of a merge.
    SequenceInMergeElement,
    /// A tag without a name.
    EmptyTag,
    /// A number that could not be read.
    FailedToParseNumber,
    /// An error held in common by several results.
    Shared(Arc<ErrorImpl>),
}

/// An error of loading or decoding.
#[derive(Debug)]
pub struct Error(pub Box<ErrorImpl>);

/// The input location of an error, with line and column counted from one.
#[derive(Debug)]
pub struct Location {
    pub index: usize,
    pub line: usize,
    pub column: usize,
}

impl Location {
    /// The byte index of the error.
    pub fn index(&self) -> (r: usize)
        ensures
            r == self.index,
    {
        self.index
    }

    /// The line of the error.
    pub fn line(&self) -> (r: usize)
        ensures
            r == self.line,
    {
        self.line
    }

    /// The column of the error.
    pub fn column(&self) -> (r: usize)
        ensures
            r == self.column,
    {
        self.column
    }

    /// Whether the mark's line and column can be counted from one in `usize`.
    pub open spec fn representable(mark: Mark) -> bool {
        (mark.line as usize) < usize::MAX && (mark.column as usize) < usize::MAX
    }

    /// The location of a mark: the same byte offset, and line and column
    /// counted from one.
    pub open spec fn of(mark: Mark) -> Location {
        Location {
            index: mark.index as usize,
            line: ((mark.line as usize) + 1) as usize,
            column: ((mark.column as usize) + 1) as usize,
        }
    }

    /// The location of a mark: the same byte offset, and line and column
    /// counted from one.
    pub fn from_mark(mark: Mark) -> (r: Location)
        requires
            Location::representable(mark),
        ensures
            r == Location::of(mark),
    {
        Location {
            index: mark.index() as usize,
            line: mark.line() as usize + 1,
            column: mark.column() as usize + 1,
        }
    }
}

impl ErrorImpl {
    /// The mark that the error carries: that of a placed message, of a
    /// recursion limit, of an unknown anchor or of the tokenizer's problem;
    /// for a shared error, that of the error shared.
    pub open spec fn spec_mark(&self) -> Option<Mark>
        decreases self,
    {
        match self {
            ErrorImpl::Message(_, Some(pos)) => Some(pos.mark),
            ErrorImpl::RecursionLimitExceeded(mark) => Some(*mark),
            ErrorImpl::UnknownAnchor(mark) => Some(*mark),
            ErrorImpl::Libyaml(err) => Some(err.problem_mark),
            ErrorImpl::Shared(err) => err.spec_mark(),
            _ => None,
        }
    }

    /// The mark that the error carries, if any.
    #[verifier::when_used_as_spec(spec_mark)]
    pub fn mark(&self) -> (r: Option<Mark>)
        ensures
            r == self.spec_mark(),
        decreases self,
    {
        match self {
            ErrorImpl::Message(_, Some(pos)) => Some(pos.mark),
            ErrorImpl::RecursionLimitExceeded(mark) => Some(*mark),
            ErrorImpl::UnknownAnchor(mark) => Some(*mark),
            ErrorImpl::Libyaml(err) => Some(err.mark()),
            ErrorImpl::Shared(err) => err.mark(),
            _ => None,
        }
    }

    /// The location of the error's mark, if it carries one.
    pub fn location(&self) -> (r: Option<Location>)
        requires
            self.mark() matches Some(mark) ==> Location::representable(mark),
        ensures
            r == match self.mark() {
                Some(mark) => Some(Location::of(mark)),
                None => None,
            },
    {
        match self.mark() {
            Some(mark) => Some(Location::from_mark(mark)),
            None => None,
        }
    }

    /// Whether the error is a message that has not been given a place yet.
    pub open spec fn is_unplaced_message(&self) -> bool {
        self matches ErrorImpl::Message(_, None)
    }
}

impl Error {
    /// Returns the location from the error if one exists.
    pub fn location(&self) -> (r: Option<Location>)
        requires
            self.0.mark() matches Some(mark) ==> Location::representable(mark),
        ensures
            r == match self.0.mark() {
                Some(mark) => Some(Location::of(mark)),
                None => None,
            },
    {
        self.0.location()
    }

    /// Gives up the error for sharing: the error already shared inside it,
    /// or the error itself behind a new shared pointer.
    pub fn shared(self) -> (r: Arc<ErrorImpl>)
        ensures
            match *self.0 {
                ErrorImpl::Shared(err) => r == err,
                other => *r == other,
            },
    {
        match *self.0 {
            ErrorImpl::Shared(err) => err,
            other => Arc::new(other),
        }
    }
}

/// Creates a new `Error` from an `ErrorImpl`.
pub fn new(inner: ErrorImpl) -> (r: Error)
    ensures
        *r.0 == inner,
{
    Error(Box::new(inner))
}

/// Creates a new `Error` from a shared `ErrorImpl`.
pub fn shared(error: Arc<ErrorImpl>) -> (r: Error)
    ensures
        *r.0 == ErrorImpl::Shared(error),
{
    Error(Box::new(ErrorImpl::Shared(error)))
}

/// Whether `fixed` is `error` with its place filled in: a message without a
/// place has gained `mark` and the text of `path`, and any other error is
/// unchanged.
pub open spec fn placed(error: Error, mark: Mark, path: Path<'_>, fixed: Error) -> bool {
    match *error.0 {
        ErrorImpl::Message(msg, None) => {
            &&& *fixed.0 matches ErrorImpl::Message(text, Some(pos))
            &&& text == msg
            &&& pos.mark == mark
            &&& pos.path@ == path.text()
        },
        _ => fixed == error,
    }
}

/// An error is given its place once: a second fix leaves the place that the
/// first one gave, so that the innermost place stands.
pub proof fn lemma_fix_mark_once(
    error: Error,
    inner_mark: Mark,
    inner_path: Path<'_>,
    once: Error,
    outer_mark: Mark,
    outer_path: Path<'_>,
    twice: Error,
)
    requires
        placed(error, inner_mark, inner_path, once),
        placed(once, outer_mark, outer_path, twice),
    ensures
        twice == once,
{
}

/// Fixes the mark and path in an error.
pub fn fix_mark(error: Error, mark: Mark, path: Path<'_>) -> (r: Error)
    ensures
        placed(error, mark, path, r),
{
    match *error.0 {
        ErrorImpl::Message(msg, None) => {
            Error(Box::new(ErrorImpl::Message(msg, Some(Pos { mark, path: path.to_string() }))))
        },
        other => Error(Box::new(other)),
    }
}


/// What stood in the input where something else was expected.
#[derive(Copy, Clone, Debug)]
pub enum Unexpected<'a> {
    /// A boolean.
    Bool(bool),
    /// An integer without a sign.
    Unsigned(u64),
    /// An integer with a sign.
    Signed(i64),
    /// Text.
    Str(&'a str),
    /// Bytes that are not text.
    Bytes(&'a [u8]),
    /// The unit value.
    Unit,
    /// A sequence.
    Sequence,
    /// A mapping.
    Mapping,
    /// A unit variant of an enum.
    UnitVariant,
    /// Something that the given text describes.
    Other(&'a str),
}

/// An [`Unexpected`] as plain values.
pub enum UnexpectedView {
    Bool(bool),
    Unsigned(u64),
    Signed(i64),
    Str(Seq<char>),
    Bytes(Seq<u8>),
    Unit,
    Sequence,
    Mapping,
    UnitVariant,
    Other(Seq<char>),
}

impl<'a> View for Unexpected<'a> {
    type V = UnexpectedView;

    open spec fn view(&self) -> UnexpectedView {
        match *self {
            Unexpected::Bool(b) => UnexpectedView::Bool(b),
            Unexpected::Unsigned(n) => UnexpectedView::Unsigned(n),
            Unexpected::Signed(n) => UnexpectedView::Signed(n),
            Unexpected::Str(s) => UnexpectedView::Str(s@),
            Unexpected::Bytes(b) => UnexpectedView::Bytes(b@),
            Unexpected::Unit => UnexpectedView::Unit,
            Unexpected::Sequence => UnexpectedView::Sequence,
            Unexpected::Mapping => UnexpectedView::Mapping,
            Unexpected::UnitVariant => UnexpectedView::UnitVariant,
            Unexpected::Other(s) => UnexpectedView::Other(s@),
        }
    }
}

/// The message with which serde reports a value of the wrong type.
pub uninterp spec fn invalid_type_text(unexpected: UnexpectedView, expected: Seq<char>) -> Seq<char>;

/// The message with which serde reports a value that is of the right type and wrong.
pub uninterp spec fn invalid_value_text(unexpected: UnexpectedView, expected: Seq<char>) -> Seq<char>;

/// The message with which serde reports a collection of the wrong length:
/// the length met, in base ten, and what was expected.
pub open spec fn invalid_length_text(len: usize, expected: Seq<char>) -> Seq<char> {
    "invalid length "@ + decimal(len as nat) + ", expected "@ + expected
}

/// Calls `serde::de::Error::invalid_type` on serde's own error type and
/// takes the message. The message is a function of what was found and of the
/// text of what was expected; no more is claimed of it.
#[verifier::external_body]
fn invalid_type_message(unexpected: &Unexpected<'_>, expected: &str) -> (r: String)
    ensures
        r@ == invalid_type_text(unexpected@, expected@),
{
    let found = match *unexpected {
        Unexpected::Bool(b) => Found::Bool(b),
        Unexpected::Unsigned(n) => Found::Unsigned(n),
        Unexpected::Signed(n) => Found::Signed(n),
        Unexpected::Str(s) => Found::Str(s),
        Unexpected::Bytes(b) => Found::Bytes(b),
        Unexpected::Unit => Found::Unit,
        Unexpected::Sequence => Found::Seq,
        Unexpected::Mapping => Found::Map,
        Unexpected::UnitVariant => Found::UnitVariant,
        Unexpected::Other(s) => Found::Other(s),
    };
    <serde::de::value::Error as serde::de::Error>::invalid_type(found, &expected).to_string()
}

/// Calls `serde::de::Error::invalid_value` on serde's own error type and
/// takes the message. The message is a function of what was found and of the
/// text of what was expected; no more is claimed of it.
#[verifier::external_body]
fn invalid_value_message(unexpected: &Unexpected<'_>, expected: &str) -> (r: String)
    ensures
        r@ == invalid_value_text(unexpected@, expected@),
{
    let found = match *unexpected {
        Unexpected::Bool(b) => Found::Bool(b),
        Unexpected::Unsigned(n) => Found::Unsigned(n),
        Unexpected::Signed(n) => Found::Signed(n),
        Unexpected::Str(s) => Found::Str(s),
        Unexpected::Bytes(b) => Found::Bytes(b),
        Unexpected::Unit => Found::Unit,
        Unexpected::Sequence => Found::Seq,
        Unexpected::Mapping => Found::Map,
        Unexpected::UnitVariant => Found::UnitVariant,
        Unexpected::Other(s) => Found::Other(s),
    };
    <serde::de::value::Error as serde::de::Error>::invalid_value(found, &expected).to_string()
}

/// Calls `serde::de::Error::invalid_length` on serde's own error type and
/// takes the message: `invalid length `, the length met in base ten,
/// `, expected ` and the text of what was expected.
#[verifier::external_body]
fn invalid_length_message(len: usize, expected: &str) -> (r: String)
    ensures
        r@ == invalid_length_text(len, expected@),
{
    <serde::de::value::Error as serde::de::Error>::invalid_length(len, &expected).to_string()
}

/// Whether `error` is the message `text`, without a place yet.
pub open spec fn is_message(error: Error, text: Seq<char>) -> bool {
    *error.0 matches ErrorImpl::Message(msg, None) && msg@ == text
}

/// An error that holds `text` as its message, without a place yet.
pub fn custom(text: String) -> (r: Error)
    ensures
        *r.0 == ErrorImpl::Message(text, None),
{
    Error(Box::new(ErrorImpl::Message(text, None)))
}

/// The error for a value of the wrong type, in serde's words.
pub fn invalid_type(unexpected: &Unexpected<'_>, expected: &str) -> (r: Error)
    ensures
        is_message(r, invalid_type_text(unexpected@, expected@)),
{
    custom(invalid_type_message(unexpected, expected))
}

/// The error for a wrong value of the right type, in serde's words.
pub fn invalid_value(unexpected: &Unexpected<'_>, expected: &str) -> (r: Error)
    ensures
        is_message(r, invalid_value_text(unexpected@, expected@)),
{
    custom(invalid_value_message(unexpected, expected))
}

/// The error for a collection of the wrong length, in serde's words.
pub fn invalid_length(len: usize, expected: &str) -> (r: Error)
    ensures
        is_message(r, invalid_length_text(len, expected@)),
{
    custom(invalid_length_message(len, expected))
}


impl ErrorImpl {
    /// Whether the error has a message of its own: it is neither the
    /// tokenizer's error nor a shared one.
    pub open spec fn has_message(&self) -> bool {
        !(self is Libyaml) && !(self is Shared)
    }

    /// The words for an error that holds no text of its own.
    pub open spec fn words(&self) -> Seq<char> {
        match self {
            ErrorImpl::EndOfStream => "EOF while parsing a value"@,
            ErrorImpl::MoreThanOneDocument =>
                "deserializing from YAML containing more than one document is not supported"@,
            ErrorImpl::RecursionLimitExceeded(_) => "recursion limit exceeded"@,
            ErrorImpl::RepetitionLimitExceeded => "repetition limit exceeded"@,
            ErrorImpl::BytesUnsupported =>
                "serialization and deserialization of bytes in YAML is not implemented"@,
            ErrorImpl::UnknownAnchor(_) => "unknown anchor"@,
            ErrorImpl::SerializeNestedEnum =>
                "serializing nested enums in YAML is not supported yet"@,
            ErrorImpl::ScalarInMerge =>
                "expected a mapping or list of mappings for merging, but found scalar"@,
            ErrorImpl::TaggedInMerge => "unexpected tagged value in merge"@,
            ErrorImpl::ScalarInMergeElement => "expected a mapping for merging, but found scalar"@,
            ErrorImpl::SequenceInMergeElement =>
                "expected a mapping for merging, but found sequence"@,
            ErrorImpl::EmptyTag => "empty YAML tag is not allowed"@,
            ErrorImpl::FailedToParseNumber => "failed to parse YAML number"@,
            _ => Seq::empty(),
        }
    }

    /// Whether `text` is the error's message without its mark: a message's
    /// own text, and behind it a colon and its path where the path is not
    /// the root;
    /// the display of an input or output failure or of bytes that are not
    /// UTF-8; for the rest their [words](ErrorImpl::words).
    pub open spec fn is_message_no_mark(&self, text: String) -> bool {
        match self {
            ErrorImpl::Message(msg, None) => text@ == msg@,
            ErrorImpl::Message(msg, Some(pos)) => text@ == if pos.path@ != "."@ {
                msg@ + ": "@ + pos.path@
            } else {
                msg@
            },
            ErrorImpl::Io(err) => to_string_from_display_ensures::<std::io::Error>(err, text),
            ErrorImpl::FromUtf8(err) => to_string_from_display_ensures::<
                std::string::FromUtf8Error,
            >(err, text),
            _ => text@ == self.words(),
        }
    }

    /// The error's message without its mark.
    pub fn message_no_mark(&self) -> (r: String)
        requires
            self.has_message(),
        ensures
            self.is_message_no_mark(r),
    {
        match self {
            ErrorImpl::Message(msg, None) => msg.clone(),
            ErrorImpl::Message(msg, Some(pos)) => {
                if !str_eq(pos.path.as_str(), ".") {
                    let mut out = msg.clone();
                    out.append(": ");
                    out.append(pos.path.as_str());
                    assert(out@ =~= msg@ + ": "@ + pos.path@);
                    out
                } else {
                    msg.clone()
                }
            },
            ErrorImpl::Libyaml(_) => {
                proof {
                    assert(false);
                }
                String::new()
            },
            ErrorImpl::Io(err) => err.to_string(),
            ErrorImpl::FromUtf8(err) => err.to_string(),
            ErrorImpl::EndOfStream => "EOF while parsing a value".to_owned(),
            ErrorImpl::MoreThanOneDocument => {
                "deserializing from YAML containing more than one document is not supported".to_owned()
            },
            ErrorImpl::RecursionLimitExceeded(_mark) => "recursion limit exceeded".to_owned(),
            ErrorImpl::RepetitionLimitExceeded => "repetition limit exceeded".to_owned(),
            ErrorImpl::BytesUnsupported => {
                "serialization and deserialization of bytes in YAML is not implemented".to_owned()
            },
            ErrorImpl::UnknownAnchor(_mark) => "unknown anchor".to_owned(),
            ErrorImpl::SerializeNestedEnum => {
                "serializing nested enums in YAML is not supported yet".to_owned()
            },
            ErrorImpl::ScalarInMerge => {
                "expected a mapping or list of mappings for merging, but found scalar".to_owned()
            },
            ErrorImpl::TaggedInMerge => "unexpected tagged value in merge".to_owned(),
            ErrorImpl::ScalarInMergeElement => {
                "expected a mapping for merging, but found scalar".to_owned()
            },
            ErrorImpl::SequenceInMergeElement => {
                "expected a mapping for merging, but found sequence".to_owned()
            },
            ErrorImpl::EmptyTag => "empty YAML tag is not allowed".to_owned(),
            ErrorImpl::FailedToParseNumber => "failed to parse YAML number".to_owned(),
            ErrorImpl::Shared(_) => {
                proof {
                    assert(false);
                }
                String::new()
            },
        }
    }

    /// Where the error lies, as it follows the message: the mark, where the
    /// error carries one that names a line or column.
    pub open spec fn place(&self) -> Seq<char> {
        match self.mark() {
            Some(mark) => if mark.has_line_or_column() {
                " at "@ + mark.text()
            } else {
                Seq::empty()
            },
            None => Seq::empty(),
        }
    }

    /// Whether `text` is the error as it reads to a user: the tokenizer's
    /// error in its own words, a shared error as the error shared, and any
    /// other as its message and its place.
    pub open spec fn is_display(&self, text: String) -> bool
        decreases self,
    {
        match self {
            ErrorImpl::Libyaml(err) => text@ == err.text(),
            ErrorImpl::Shared(err) => err.is_display(text),
            _ => exists|message: String| #[trigger]
                self.is_message_no_mark(message) && text@ == message@ + self.place(),
        }
    }

    /// The error as it reads to a user.
    pub fn display(&self) -> (r: String)
        ensures
            self.is_display(r),
        decreases self,
    {
        match self {
            ErrorImpl::Libyaml(err) => err.to_string(),
            ErrorImpl::Shared(err) => err.display(),
            _ => {
                let message = self.message_no_mark();
                let mut out = message.clone();
                if let Some(mark) = self.mark() {
                    if mark.line() != 0 || mark.column() != 0 {
                        out.append(" at ");
                        mark.write_to(&mut out);
                    }
                }
                assert(out@ =~= message@ + self.place());
                out
            },
        }
    }

    /// The line and column of a mark as a debug rendering shows them,
    /// counted from one.
    pub open spec fn line_and_column(mark: Mark) -> Seq<char> {
        ", line: "@ + decimal((mark.line + 1) as nat) + ", column: "@ + decimal(
            (mark.column + 1) as nat,
        )
    }

    /// A debug rendering around a message that has been quoted: `Error(`,
    /// the quoted message, the line and column of the mark where there is
    /// one, and `)`.
    pub open spec fn framed(quoted: Seq<char>, mark: Option<Mark>) -> Seq<char> {
        "Error("@ + quoted + match mark {
            Some(mark) => Self::line_and_column(mark),
            None => Seq::empty(),
        } + ")"@
    }

    /// The debug rendering around a message that has been quoted.
    pub fn frame(quoted: &str, mark: Option<Mark>) -> (r: String)
        ensures
            r@ == Self::framed(quoted@, mark),
    {
        let mut out = "Error(".to_owned();
        out.append(quoted);
        if let Some(mark) = mark {
            out.append(", line: ");
            push_decimal(&mut out, mark.line() as u128 + 1);
            out.append(", column: ");
            push_decimal(&mut out, mark.column() as u128 + 1);
        }
        out.append(")");
        assert(out@ =~= Self::framed(quoted@, mark));
        out
    }

    /// Whether `text` is the error as it reads in a debug rendering: the
    /// tokenizer's error in its own rendering, a shared error as the error
    /// shared, and any other as its quoted message in its
    /// [frame](ErrorImpl::framed).
    pub open spec fn is_debug(&self, text: String) -> bool
        decreases self,
    {
        match self {
            ErrorImpl::Libyaml(err) => text@ == err.debug_text(),
            ErrorImpl::Shared(err) => err.is_debug(text),
            _ => exists|message: String| #[trigger]
                self.is_message_no_mark(message) && text@ == Self::framed(
                    debug_text(message@),
                    self.mark(),
                ),
        }
    }

    /// The error as it reads in a debug rendering.
    pub fn debug(&self) -> (r: String)
        ensures
            self.is_debug(r),
        decreases self,
    {
        match self {
            ErrorImpl::Libyaml(err) => err.debug(),
            ErrorImpl::Shared(err) => err.debug(),
            _ => {
                let message = self.message_no_mark();
                let quoted = debug_str(message.as_str());
                Self::frame(quoted.as_str(), self.mark())
            },
        }
    }
}

impl Error {
    /// The error as it reads to a user.
    pub fn to_string(&self) -> (r: String)
        ensures
            self.0.is_display(r),
    {
        self.0.display()
    }
}

} // verus!
