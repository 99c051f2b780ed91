//! The tokenizer's events, and the buffer from which they are drawn one by one.

use vstd::prelude::*;
use std::collections::VecDeque;
use vstd::string::*;
use crate::libyml::cstr::{debug_lossy, debug_lossy_text};
use crate::libyml::error::{Error, Mark};
use crate::libyml::tag::Tag;

verus! {

/// The name of an anchor.
#[derive(Debug, PartialEq, Eq, PartialOrd, Ord)]
pub struct Anchor(pub Vec<u8>);

impl Anchor {
    /// An anchor with the given name.
    pub fn new(name: Vec<u8>) -> (anchor: Anchor)
        ensures
            anchor.0 == name,
    {
        Anchor(name)
    }

    /// The anchor's name.
    pub open spec fn name(&self) -> Seq<u8> {
        self.0@
    }

    /// The anchor in a debug rendering: its name as text between quotes,
    /// where it is text.
    pub fn debug(&self) -> (r: String)
        ensures
            r@ == debug_lossy_text(self.name()),
    {
        debug_lossy(self.0.as_slice())
    }
}

/// How a scalar was written in the input.
#[derive(Copy, Clone, PartialEq, Eq, Debug, Structural)]
pub enum ScalarStyle {
    Plain,
    SingleQuoted,
    DoubleQuoted,
    Literal,
    Folded,
}

impl ScalarStyle {
    /// The name of the style.
    pub open spec fn name(self) -> Seq<char> {
        match self {
            ScalarStyle::Plain => "Plain"@,
            ScalarStyle::SingleQuoted => "SingleQuoted"@,
            ScalarStyle::DoubleQuoted => "DoubleQuoted"@,
            ScalarStyle::Literal => "Literal"@,
            ScalarStyle::Folded => "Folded"@,
        }
    }
}

/// An optional rendering as a debug rendering shows it: `None`, or the
/// rendering inside `Some(` and `)`.
pub open spec fn optional(rendering: Option<Seq<char>>) -> Seq<char> {
    match rendering {
        Some(rendering) => "Some("@ + rendering + ")"@,
        None => "None"@,
    }
}

/// A scalar node.
#[derive(Debug)]
pub struct Scalar<'input> {
    /// The anchor on the node, if any.
    pub anchor: Option<Anchor>,
    /// The tag on the node, if any.
    pub tag: Option<Tag>,
    /// The scalar's content.
    pub value: Vec<u8>,
    /// How the scalar was written.
    pub style: ScalarStyle,
    /// The stretch of borrowed input that the scalar was read from, if the
    /// input was borrowed.
    pub repr: Option<&'input [u8]>,
}

impl<'input> Scalar<'input> {
    /// The scalar in a debug rendering: its anchor, tag, value and style in
    /// the form of a struct, the first three as text where they are text.
    pub open spec fn debug_text(&self) -> Seq<char> {
        "Scalar { anchor: "@ + optional(
            match self.anchor {
                Some(anchor) => Some(debug_lossy_text(anchor.name())),
                None => None,
            },
        ) + ", tag: "@ + optional(
            match self.tag {
                Some(tag) => Some(debug_lossy_text(tag.bytes())),
                None => None,
            },
        ) + ", value: "@ + debug_lossy_text(self.value@) + ", style: "@ + self.style.name()
            + " }"@
    }

    /// The scalar in a debug rendering.
    pub fn debug(&self) -> (r: String)
        ensures
            r@ == self.debug_text(),
    {
        let mut out = "Scalar { anchor: ".to_owned();
        match &self.anchor {
            Some(anchor) => {
                out.append("Some(");
                out.append(anchor.debug().as_str());
                out.append(")");
            },
            None => {
                out.append("None");
            },
        }
        out.append(", tag: ");
        match &self.tag {
            Some(tag) => {
                out.append("Some(");
                out.append(tag.debug().as_str());
                out.append(")");
            },
            None => {
                out.append("None");
            },
        }
        out.append(", value: ");
        out.append(debug_lossy(self.value.as_slice()).as_str());
        out.append(", style: ");
        out.append(
            match self.style {
                ScalarStyle::Plain => "Plain",
                ScalarStyle::SingleQuoted => "SingleQuoted",
                ScalarStyle::DoubleQuoted => "DoubleQuoted",
                ScalarStyle::Literal => "Literal",
                ScalarStyle::Folded => "Folded",
            },
        );
        out.append(" }");
        assert(out@ =~= self.debug_text());
        out
    }
}

/// The start of a sequence node.
#[derive(Debug)]
pub struct SequenceStart {
    pub anchor: Option<Anchor>,
    pub tag: Option<Tag>,
}

/// The start of a mapping node.
#[derive(Debug)]
pub struct MappingStart {
    pub anchor: Option<Anchor>,
    pub tag: Option<Tag>,
}

/// An event of the tokenizer.
#[derive(Debug)]
pub enum Event<'input> {
    StreamStart,
    StreamEnd,
    DocumentStart,
    DocumentEnd,
    Alias(Anchor),
    Scalar(Scalar<'input>),
    SequenceStart(SequenceStart),
    SequenceEnd,
    MappingStart(MappingStart),
    MappingEnd,
}

/// The events that the tokenizer produced for one input, in order, and the
/// error on which it stopped, if it did. Events are drawn from the front; once
/// they are used up, every further request is answered with the error.
#[derive(Debug)]
pub struct Parser<'input> {
    pub events: VecDeque<(Event<'input>, Mark)>,
    pub failure: Option<Error>,
}

impl<'input> Parser<'input> {
    /// Whether the parser can answer every request made before the end of the
    /// stream has been seen: an event that ends the stream is still to come,
    /// or an error stands behind the events.
    pub open spec fn terminated(&self) -> bool {
        self.failure is Some || exists|i: int|
            0 <= i < self.events@.len() && (#[trigger] self.events@[i]).0 is StreamEnd
    }

    /// Whether a request can be answered now.
    pub open spec fn ready(&self) -> bool {
        self.events@.len() > 0 || self.failure is Some
    }

    /// A parser over the recorded `events`, ending in `failure`.
    pub fn new(events: Vec<(Event<'input>, Mark)>, failure: Option<Error>) -> (parser: Parser<
        'input,
    >)
        ensures
            parser.events@ == events@,
            parser.failure == failure,
    {
        let mut rest = events;
        let mut queue: VecDeque<(Event<'input>, Mark)> = VecDeque::new();
        while rest.len() > 0
            invariant
                rest@ + queue@ == events@,
            decreases rest.len(),
        {
            let ghost before = rest@;
            let ghost queued = queue@;
            let last = rest.pop();
            match last {
                Some(pair) => {
                    queue.push_front(pair);
                    assert(rest@ + queue@ =~= before + queued) by {
                        assert(before =~= rest@.push(pair));
                    }
                },
                None => {},
            }
        }
        assert(queue@ =~= events@);
        Parser { events: queue, failure }
    }

    /// Whether [`Parser::terminated`] holds.
    pub fn is_terminated(&self) -> (r: bool)
        ensures
            r == self.terminated(),
    {
        if self.failure.is_some() {
            return true;
        }
        let mut i: usize = 0;
        while i < self.events.len()
            invariant
                i <= self.events@.len(),
                forall|j: int| 0 <= j < i ==> !((#[trigger] self.events@[j]).0 is StreamEnd),
            decreases self.events@.len() - i,
        {
            match &self.events[i].0 {
                Event::StreamEnd => {
                    return true;
                },
                _ => {},
            }
            i = i + 1;
        }
        false
    }

    /// Draws the next event with its mark, or reports the error that ended
    /// the events.
    pub fn parse_next_event(&mut self) -> (r: Result<(Event<'input>, Mark), Error>)
        requires
            old(self).ready(),
        ensures
            match r {
                Ok(pair) => {
                    &&& old(self).events@.len() > 0
                    &&& pair == old(self).events@[0]
                    &&& final(self).events@ == old(self).events@.drop_first()
                    &&& final(self).failure == old(self).failure
                },
                Err(error) => {
                    &&& old(self).events@.len() == 0
                    &&& old(self).failure == Some(error)
                    &&& final(self).events@ == old(self).events@
                    &&& final(self).failure == old(self).failure
                },
            },
    {
        match self.events.pop_front() {
            Some(pair) => {
                assert(self.events@ =~= old(self).events@.drop_first());
                Ok(pair)
            },
            None => match &self.failure {
                Some(error) => Err(error.duplicate()),
                None => {
                    proof {
                        assert(false);
                    }
                    Err(
                        Error {
                            kind: crate::libyml::error::ErrorKind::NoError,
                            problem: String::new(),
                            problem_offset: 0,
                            problem_mark: Mark { index: 0, line: 0, column: 0 },
                            context: None,
                            context_mark: Mark { index: 0, line: 0, column: 0 },
                        },
                    )
                },
            },
        }
    }
}

} // verus!
