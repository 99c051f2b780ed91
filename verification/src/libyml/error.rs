//! Source marks and the tokenizer's own error report.

use vstd::prelude::*;
use vstd::string::*;
use crate::text::{debug_str, debug_text, decimal, push_decimal};

verus! {

/// A position in the input: byte offset, and line and column counted from zero.
#[derive(Copy, Clone, Debug, PartialEq, Eq, Structural)]
pub struct Mark {
    pub index: u64,
    pub line: u64,
    pub column: u64,
}

impl Mark {
    /// A mark at the given byte offset, line and column.
    pub fn new(index: u64, line: u64, column: u64) -> (mark: Mark)
        ensures
            mark == (Mark { index, line, column }),
    {
        Mark { index, line, column }
    }

    /// The byte offset of the mark.
    pub fn index(&self) -> (r: u64)
        ensures
            r == self.index,
    {
        self.index
    }

    /// The line of the mark, counted from zero.
    pub fn line(&self) -> (r: u64)
        ensures
            r == self.line,
    {
        self.line
    }

    /// The column of the mark, counted from zero.
    pub fn column(&self) -> (r: u64)
        ensures
            r == self.column,
    {
        self.column
    }

    /// Whether the mark names a line or a column other than the first.
    pub open spec fn has_line_or_column(self) -> bool {
        self.line != 0 || self.column != 0
    }

    /// How the mark reads in a message: line and column counted from one,
    /// or the byte offset where both are zero.
    pub open spec fn text(self) -> Seq<char> {
        if self.has_line_or_column() {
            "line "@ + decimal((self.line + 1) as nat) + " column "@ + decimal(
                (self.column + 1) as nat,
            )
        } else {
            "position "@ + decimal(self.index as nat)
        }
    }

    /// Appends [`Mark::text`] to `out`.
    pub fn write_to(&self, out: &mut String)
        ensures
            final(out)@ == old(out)@ + self.text(),
    {
        if self.line != 0 || self.column != 0 {
            out.append("line ");
            push_decimal(out, self.line as u128 + 1);
            out.append(" column ");
            push_decimal(out, self.column as u128 + 1);
        } else {
            out.append("position ");
            push_decimal(out, self.index as u128);
        }
        assert(final(out)@ =~= old(out)@ + self.text());
    }

    /// The mark as it reads in a message.
    pub fn to_string(&self) -> (r: String)
        ensures
            r@ == self.text(),
    {
        let mut out = String::new();
        self.write_to(&mut out);
        assert(out@ =~= self.text());
        out
    }
}

/// The kind of failure that the tokenizer reports.
#[derive(Copy, Clone, Debug, PartialEq, Eq, Structural)]
pub enum ErrorKind {
    NoError,
    Memory,
    Reader,
    Scanner,
    Parser,
    Composer,
    Writer,
    Emitter,
}

/// An error reported by the tokenizer, with the place of the problem and of
/// its context.
#[derive(Debug)]
pub struct Error {
    pub kind: ErrorKind,
    pub problem: String,
    pub problem_offset: u64,
    pub problem_mark: Mark,
    pub context: Option<String>,
    pub context_mark: Mark,
}

impl Error {
    /// The mark at which the problem was found.
    pub fn mark(&self) -> (r: Mark)
        ensures
            r == self.problem_mark,
    {
        self.problem_mark
    }

    /// A second error with the same fields.
    pub fn duplicate(&self) -> (r: Error)
        ensures
            r == *self,
    {
        let context = match &self.context {
            Some(text) => Some(text.clone()),
            None => None,
        };
        Error {
            kind: self.kind,
            problem: self.problem.clone(),
            problem_offset: self.problem_offset,
            problem_mark: self.problem_mark,
            context,
            context_mark: self.context_mark,
        }
    }

    /// Where the problem lies, as it follows the problem's text: the mark
    /// when it names a line or column, else a non-zero byte offset, else nothing.
    pub open spec fn problem_place(self) -> Seq<char> {
        if self.problem_mark.has_line_or_column() {
            " at "@ + self.problem_mark.text()
        } else if self.problem_offset != 0 {
            " at position "@ + decimal(self.problem_offset as nat)
        } else {
            Seq::empty()
        }
    }

    /// Whether the context's mark is shown: it names a line or column and
    /// differs from the problem's mark in line or column.
    pub open spec fn shows_context_mark(self) -> bool {
        self.context_mark.has_line_or_column() && (self.context_mark.line
            != self.problem_mark.line || self.context_mark.column != self.problem_mark.column)
    }

    /// The context and its place, as they follow the problem.
    pub open spec fn context_text(self) -> Seq<char> {
        match self.context {
            Some(context) => ", "@ + context@ + if self.shows_context_mark() {
                " at "@ + self.context_mark.text()
            } else {
                Seq::empty()
            },
            None => Seq::empty(),
        }
    }

    /// The whole message: problem, place, context.
    pub open spec fn text(self) -> Seq<char> {
        self.problem@ + self.problem_place() + self.context_text()
    }

    /// The error as it reads in a message.
    pub fn to_string(&self) -> (r: String)
        ensures
            r@ == self.text(),
    {
        let mut out = self.problem.clone();
        if self.problem_mark.line != 0 || self.problem_mark.column != 0 {
            out.append(" at ");
            self.problem_mark.write_to(&mut out);
        } else if self.problem_offset != 0 {
            out.append(" at position ");
            push_decimal(&mut out, self.problem_offset as u128);
        }
        assert(out@ =~= self.problem@ + self.problem_place());
        if let Some(context) = &self.context {
            out.append(", ");
            out.append(context.as_str());
            if (self.context_mark.line != 0 || self.context_mark.column != 0) && (
            self.context_mark.line != self.problem_mark.line || self.context_mark.column
                != self.problem_mark.column) {
                out.append(" at ");
                self.context_mark.write_to(&mut out);
            }
        }
        assert(out@ =~= self.text());
        out
    }
}


impl Mark {
    /// How the mark reads in a debug rendering: line and column counted
    /// from one, or the byte offset where both are zero.
    pub open spec fn debug_text(self) -> Seq<char> {
        if self.has_line_or_column() {
            "Mark { line: "@ + decimal((self.line + 1) as nat) + ", column: "@ + decimal(
                (self.column + 1) as nat,
            ) + " }"@
        } else {
            "Mark { index: "@ + decimal(self.index as nat) + " }"@
        }
    }

    /// Appends [`Mark::debug_text`] to `out`.
    pub fn write_debug(&self, out: &mut String)
        ensures
            final(out)@ == old(out)@ + self.debug_text(),
    {
        if self.line != 0 || self.column != 0 {
            out.append("Mark { line: ");
            push_decimal(out, self.line as u128 + 1);
            out.append(", column: ");
            push_decimal(out, self.column as u128 + 1);
            out.append(" }");
        } else {
            out.append("Mark { index: ");
            push_decimal(out, self.index as u128);
            out.append(" }");
        }
        assert(final(out)@ =~= old(out)@ + self.debug_text());
    }
}

impl ErrorKind {
    /// The name of the kind in a debug rendering; none for no error.
    pub open spec fn name(self) -> Option<Seq<char>> {
        match self {
            ErrorKind::NoError => None,
            ErrorKind::Memory => Some("MEMORY"@),
            ErrorKind::Reader => Some("READER"@),
            ErrorKind::Scanner => Some("SCANNER"@),
            ErrorKind::Parser => Some("PARSER"@),
            ErrorKind::Composer => Some("COMPOSER"@),
            ErrorKind::Writer => Some("WRITER"@),
            ErrorKind::Emitter => Some("EMITTER"@),
        }
    }
}

impl Error {
    /// The kind, as the first field of a debug rendering.
    pub open spec fn debug_kind(self) -> Seq<char> {
        match self.kind.name() {
            Some(name) => "kind: "@ + name + ", "@,
            None => Seq::empty(),
        }
    }

    /// The problem's place, as a field of a debug rendering.
    pub open spec fn debug_place(self) -> Seq<char> {
        if self.problem_mark.has_line_or_column() {
            ", problem_mark: "@ + self.problem_mark.debug_text()
        } else if self.problem_offset != 0 {
            ", problem_offset: "@ + decimal(self.problem_offset as nat)
        } else {
            Seq::empty()
        }
    }

    /// The quoted context and its place, as fields of a debug rendering.
    pub open spec fn debug_context(self, context: Option<Seq<char>>) -> Seq<char> {
        match context {
            Some(context) => ", context: "@ + context + if self.context_mark.has_line_or_column() {
                ", context_mark: "@ + self.context_mark.debug_text()
            } else {
                Seq::empty()
            },
            None => Seq::empty(),
        }
    }

    /// A debug rendering around a problem and a context that have been
    /// quoted: the fields that say something, in the form of a struct.
    pub open spec fn framed(self, problem: Seq<char>, context: Option<Seq<char>>) -> Seq<char> {
        "Error { "@ + self.debug_kind() + "problem: "@ + problem + self.debug_place()
            + self.debug_context(context) + " }"@
    }

    /// The error in a debug rendering: its quoted problem and context in
    /// their [frame](Error::framed).
    pub open spec fn debug_text(self) -> Seq<char> {
        self.framed(
            debug_text(self.problem@),
            match self.context {
                Some(context) => Some(debug_text(context@)),
                None => None,
            },
        )
    }

    /// The debug rendering around a problem and a context that have been
    /// quoted.
    pub fn frame(&self, problem: &str, context: Option<&str>) -> (r: String)
        ensures
            r@ == self.framed(
                problem@,
                match context {
                    Some(context) => Some(context@),
                    None => None,
                },
            ),
    {
        let ghost quoted = match context {
            Some(context) => Some(context@),
            None => None,
        };
        let mut out = "Error { ".to_owned();
        let name = match self.kind {
            ErrorKind::NoError => None,
            ErrorKind::Memory => Some("MEMORY"),
            ErrorKind::Reader => Some("READER"),
            ErrorKind::Scanner => Some("SCANNER"),
            ErrorKind::Parser => Some("PARSER"),
            ErrorKind::Composer => Some("COMPOSER"),
            ErrorKind::Writer => Some("WRITER"),
            ErrorKind::Emitter => Some("EMITTER"),
        };
        if let Some(kind) = name {
            out.append("kind: ");
            out.append(kind);
            out.append(", ");
        }
        assert(out@ =~= "Error { "@ + self.debug_kind());
        out.append("problem: ");
        out.append(problem);
        if self.problem_mark.line != 0 || self.problem_mark.column != 0 {
            out.append(", problem_mark: ");
            self.problem_mark.write_debug(&mut out);
        } else if self.problem_offset != 0 {
            out.append(", problem_offset: ");
            push_decimal(&mut out, self.problem_offset as u128);
        }
        assert(out@ =~= "Error { "@ + self.debug_kind() + "problem: "@ + problem@
            + self.debug_place());
        if let Some(context) = context {
            out.append(", context: ");
            out.append(context);
            if self.context_mark.line != 0 || self.context_mark.column != 0 {
                out.append(", context_mark: ");
                self.context_mark.write_debug(&mut out);
            }
        }
        out.append(" }");
        assert(out@ =~= self.framed(problem@, quoted));
        out
    }

    /// The error in a debug rendering.
    pub fn debug(&self) -> (r: String)
        ensures
            r@ == self.debug_text(),
    {
        let problem = debug_str(self.problem.as_str());
        match &self.context {
            Some(context) => {
                let context = debug_str(context.as_str());
                self.frame(problem.as_str(), Some(context.as_str()))
            },
            None => self.frame(problem.as_str(), None),
        }
    }
}

} // verus!
