//! Loading the tokenizer's events into documents.

use vstd::prelude::*;
use std::collections::BTreeMap;
use std::sync::Arc;
use crate::de::{Event, Nest, Progress};
use crate::libyml::error::Mark;
use crate::libyml::parser::{Anchor, Event as YamlEvent, MappingStart, Parser, Scalar, SequenceStart};
use crate::modules::error::{self, Error, ErrorImpl};
use crate::text::bytes_eq;

verus! {

broadcast use vstd::std_specs::btree::group_btree_axioms;

/// Hands out the documents of one input, one by one.
#[derive(Debug)]
pub struct Loader<'input> {
    /// The tokenizer's events still to be loaded; `None` once the stream has ended.
    pub parser: Option<Parser<'input>>,
    /// How many documents have been asked for.
    pub parsed_document_count: usize,
}

/// One document: its events, the error that cut it short, and where each
/// anchor's node begins.
#[derive(Debug)]
pub struct Document<'input> {
    /// The events of the document, each with its mark.
    pub events: Vec<(Event<'input>, Mark)>,
    /// The error that ended loading, if one did.
    pub error: Option<Arc<ErrorImpl>>,
    /// From an anchor's id to the index in `events` where its node begins.
    pub anchor_event_map: BTreeMap<usize, usize>,
}

/// The content of a document as plain values.
pub struct DocumentView<'input> {
    pub events: Seq<(Event<'input>, Mark)>,
    pub error: Option<ErrorImpl>,
    pub anchor_event_map: Map<usize, usize>,
}

impl<'input> View for Document<'input> {
    type V = DocumentView<'input>;

    open spec fn view(&self) -> DocumentView<'input> {
        DocumentView {
            events: self.events@,
            error: match self.error {
                Some(shared) => Some(*shared),
                None => None,
            },
            anchor_event_map: self.anchor_event_map@,
        }
    }
}

/// A document while it is being loaded: the events so far, the id that each
/// anchor name stands for, and where each id's node begins.
pub struct Loading<'input> {
    pub events: Seq<(Event<'input>, Mark)>,
    pub anchors: Map<Seq<u8>, usize>,
    pub anchor_event_map: Map<usize, usize>,
}

/// What one request for a document gives: the document, if there is one, the
/// tokenizer's events that remain, and whether the stream goes on.
pub struct Loaded<'input> {
    pub document: Option<DocumentView<'input>>,
    pub rest: Seq<(YamlEvent<'input>, Mark)>,
    pub live: bool,
}

impl<'input> Loading<'input> {
    /// Nothing loaded yet.
    pub open spec fn start() -> Loading<'input> {
        Loading { events: Seq::empty(), anchors: Map::empty(), anchor_event_map: Map::empty() }
    }

    /// The state after a node's anchor has been noted. The anchor gets the
    /// next id in sequence, which is the number of anchors noted before; the
    /// anchor's name leads to that id from now on, and the id leads to the
    /// index that the node's event is about to take.
    pub open spec fn note(self, anchor: Option<Anchor>) -> Loading<'input> {
        match anchor {
            Some(anchor) => {
                let id = self.anchor_event_map.dom().len() as usize;
                Loading {
                    events: self.events,
                    anchors: self.anchors.insert(anchor.name(), id),
                    anchor_event_map: self.anchor_event_map.insert(id, self.events.len() as usize),
                }
            },
            None => self,
        }
    }

    /// The state after `event` has been stored with its mark.
    pub open spec fn push(self, event: Event<'input>, mark: Mark) -> Loading<'input> {
        Loading {
            events: self.events.push((event, mark)),
            anchors: self.anchors,
            anchor_event_map: self.anchor_event_map,
        }
    }

    /// The document made of what has been loaded, with the error that ended it.
    pub open spec fn document(self, error: Option<ErrorImpl>) -> DocumentView<'input> {
        DocumentView { events: self.events, error, anchor_event_map: self.anchor_event_map }
    }

    /// The document when the stream ends at `mark`: what has been loaded, or
    /// the single event for no value where nothing was.
    pub open spec fn at_stream_end(self, mark: Mark) -> DocumentView<'input> {
        if self.events.len() == 0 {
            self.push(Event::Void, mark).document(None)
        } else {
            self.document(None)
        }
    }
}

/// The scalar without its anchor.
pub open spec fn stripped<'input>(scalar: Scalar<'input>) -> Scalar<'input> {
    Scalar {
        anchor: None,
        tag: scalar.tag,
        value: scalar.value,
        style: scalar.style,
        repr: scalar.repr,
    }
}

/// What loading gives when it goes on from `state` over the tokenizer's
/// `tokens`, which end in `failure`; `first` says that this is the first
/// document asked of the input.
///
/// Stream and document starts are passed over. A document's end closes the
/// document. The stream's end closes the stream, and gives a document only on
/// the first request. An alias becomes a reference to its anchor's id, and an
/// alias without an anchor ends the document with that error. A node's anchor
/// is noted and taken off the node. Where the tokens run out, the tokenizer's
/// error ends the document.
pub open spec fn load<'input>(
    tokens: Seq<(YamlEvent<'input>, Mark)>,
    failure: Option<crate::libyml::error::Error>,
    first: bool,
    state: Loading<'input>,
) -> Loaded<'input>
    decreases tokens.len(),
{
    if tokens.len() == 0 {
        Loaded {
            document: Some(
                state.document(
                    match failure {
                        Some(err) => Some(ErrorImpl::Libyaml(err)),
                        None => None,
                    },
                ),
            ),
            rest: tokens,
            live: true,
        }
    } else {
        let mark = tokens[0].1;
        let rest = tokens.drop_first();
        match tokens[0].0 {
            YamlEvent::StreamStart => load(rest, failure, first, state),
            YamlEvent::DocumentStart => load(rest, failure, first, state),
            YamlEvent::StreamEnd => Loaded {
                document: if first {
                    Some(state.at_stream_end(mark))
                } else {
                    None
                },
                rest,
                live: false,
            },
            YamlEvent::DocumentEnd => Loaded {
                document: Some(state.document(None)),
                rest,
                live: true,
            },
            YamlEvent::Alias(anchor) => if state.anchors.contains_key(anchor.name()) {
                load(
                    rest,
                    failure,
                    first,
                    state.push(Event::Alias(state.anchors[anchor.name()]), mark),
                )
            } else {
                Loaded {
                    document: Some(state.document(Some(ErrorImpl::UnknownAnchor(mark)))),
                    rest,
                    live: true,
                }
            },
            YamlEvent::Scalar(scalar) => load(
                rest,
                failure,
                first,
                state.note(scalar.anchor).push(Event::Scalar(stripped(scalar)), mark),
            ),
            YamlEvent::SequenceStart(start) => load(
                rest,
                failure,
                first,
                state.note(start.anchor).push(
                    Event::SequenceStart(SequenceStart { anchor: None, tag: start.tag }),
                    mark,
                ),
            ),
            YamlEvent::SequenceEnd => load(rest, failure, first, state.push(Event::SequenceEnd, mark)),
            YamlEvent::MappingStart(start) => load(
                rest,
                failure,
                first,
                state.note(start.anchor).push(
                    Event::MappingStart(MappingStart { anchor: None, tag: start.tag }),
                    mark,
                ),
            ),
            YamlEvent::MappingEnd => load(rest, failure, first, state.push(Event::MappingEnd, mark)),
        }
    }
}

/// The id that each anchor name of one document stands for.
struct Anchors {
    entries: Vec<(Anchor, usize)>,
    names: Ghost<Map<Seq<u8>, usize>>,
}

impl Anchors {
    /// The entries hold each name of the map once, beside its id.
    spec fn wf(&self) -> bool {
        &&& forall|i: int, j: int|
            0 <= i < j < self.entries@.len() ==> (#[trigger] self.entries@[i]).0.name() != (
            #[trigger] self.entries@[j]).0.name()
        &&& forall|i: int|
            0 <= i < self.entries@.len() ==> self.names@.contains_key(
                (#[trigger] self.entries@[i]).0.name(),
            ) && self.names@[self.entries@[i].0.name()] == self.entries@[i].1
        &&& forall|name: Seq<u8>| #[trigger]
            self.names@.contains_key(name) ==> exists|i: int|
                0 <= i < self.entries@.len() && (#[trigger] self.entries@[i]).0.name() == name
    }

    fn new() -> (r: Anchors)
        ensures
            r.wf(),
            r.names@ == Map::<Seq<u8>, usize>::empty(),
    {
        Anchors { entries: Vec::new(), names: Ghost(Map::empty()) }
    }

    /// The place of `name` among the entries.
    fn position(&self, name: &Anchor) -> (r: Option<usize>)
        requires
            self.wf(),
        ensures
            match r {
                Some(i) => i < self.entries@.len() && self.entries@[i as int].0.name()
                    == name.name(),
                None => !self.names@.contains_key(name.name()),
            },
    {
        let mut i: usize = 0;
        while i < self.entries.len()
            invariant
                i <= self.entries@.len(),
                forall|j: int| 0 <= j < i ==> (#[trigger] self.entries@[j]).0.name() != name.name(),
            decreases self.entries@.len() - i,
        {
            if bytes_eq(self.entries[i].0.0.as_slice(), name.0.as_slice()) {
                return Some(i);
            }
            i = i + 1;
        }
        None
    }

    /// The id of `name`, if it has one.
    fn get(&self, name: &Anchor) -> (r: Option<usize>)
        requires
            self.wf(),
        ensures
            match r {
                Some(id) => self.names@.contains_key(name.name()) && self.names@[name.name()]
                    == id,
                None => !self.names@.contains_key(name.name()),
            },
    {
        match self.position(name) {
            Some(i) => Some(self.entries[i].1),
            None => None,
        }
    }

    /// Gives `name` the id `id`, in place of the id it had, if it had one.
    fn insert(&mut self, name: Anchor, id: usize)
        requires
            old(self).wf(),
        ensures
            final(self).wf(),
            final(self).names@ == old(self).names@.insert(name.name(), id),
    {
        let ghost key = name.name();
        match self.position(&name) {
            Some(i) => {
                let ghost before = self.entries@;
                let kept = self.entries.remove(i);
                self.entries.insert(i, (kept.0, id));
                self.names = Ghost(self.names@.insert(key, id));
                proof {
                    assert(self.entries@ =~= before.update(i as int, (before[i as int].0, id)));
                    assert forall|n: Seq<u8>| #[trigger] self.names@.contains_key(n) implies exists|
                        j: int,
                    |
                        0 <= j < self.entries@.len() && (#[trigger] self.entries@[j]).0.name()
                            == n by {
                        let j = choose|j: int|
                            0 <= j < before.len() && (#[trigger] before[j]).0.name() == n;
                        assert(self.entries@[j].0.name() == n);
                    }
                    assert forall|j: int| 0 <= j < self.entries@.len() implies self.names@.contains_key(
                        (#[trigger] self.entries@[j]).0.name(),
                    ) && self.names@[self.entries@[j].0.name()] == self.entries@[j].1 by {
                        assert(before[j].0.name() == self.entries@[j].0.name());
                        if j != i {
                            assert(before[j].0.name() != before[i as int].0.name());
                        }
                    }
                    assert forall|a: int, b: int| 0 <= a < b < self.entries@.len() implies (
                    #[trigger] self.entries@[a]).0.name() != (#[trigger] self.entries@[b]).0.name() by {
                        assert(before[a].0.name() != before[b].0.name());
                    }
                }
            },
            None => {
                let ghost before = self.entries@;
                self.entries.push((name, id));
                self.names = Ghost(self.names@.insert(key, id));
                proof {
                    assert forall|n: Seq<u8>| #[trigger] self.names@.contains_key(n) implies exists|
                        j: int,
                    |
                        0 <= j < self.entries@.len() && (#[trigger] self.entries@[j]).0.name()
                            == n by {
                        if n == key {
                            assert(self.entries@[before.len() as int].0.name() == n);
                        } else {
                            let j = choose|j: int|
                                0 <= j < before.len() && (#[trigger] before[j]).0.name() == n;
                            assert(self.entries@[j].0.name() == n);
                        }
                    }
                    assert forall|a: int, b: int| 0 <= a < b < self.entries@.len() implies (
                    #[trigger] self.entries@[a]).0.name() != (#[trigger] self.entries@[b]).0.name() by {
                        if b < before.len() {
                            assert(before[a].0.name() != before[b].0.name());
                        } else {
                            assert(old(self).names@.contains_key(before[a].0.name()));
                        }
                    }
                }
            },
        }
    }
}


/// The count of documents asked for, after one more request.
pub open spec fn counted(count: usize) -> usize {
    if count < usize::MAX {
        (count + 1) as usize
    } else {
        count
    }
}

/// If the stream's end lies among `tokens` and not at their head, it lies
/// among those that follow the head.
proof fn lemma_terminated_after_head<'input>(
    tokens: Seq<(YamlEvent<'input>, Mark)>,
    failure: Option<crate::libyml::error::Error>,
)
    requires
        tokens.len() > 0,
        !(tokens[0].0 is StreamEnd),
        failure is Some || exists|i: int|
            0 <= i < tokens.len() && (#[trigger] tokens[i]).0 is StreamEnd,
    ensures
        failure is Some || exists|i: int|
            0 <= i < tokens.drop_first().len() && (#[trigger] tokens.drop_first()[i]).0
                is StreamEnd,
{
    if failure is None {
        let i = choose|i: int| 0 <= i < tokens.len() && (#[trigger] tokens[i]).0 is StreamEnd;
        assert(tokens.drop_first()[i - 1] == tokens[i]);
    }
}

impl<'input> Loader<'input> {
    /// Whether the loader can go on: its parser, if it has one, is
    /// [terminated](Parser::terminated).
    pub open spec fn wf(&self) -> bool {
        self.parser matches Some(parser) ==> parser.terminated()
    }

    /// Whether a request for the next document takes the loader to `after`
    /// and gives `r`.
    ///
    /// Without a parser there is no document and nothing changes. Else the
    /// request is counted, and the document, the events that remain and the
    /// parser's fate are those of [`load`] over the parser's events from an
    /// empty state.
    pub open spec fn yields(&self, after: &Self, r: Option<Document<'input>>) -> bool {
        match self.parser {
            None => r is None && after.parser is None && after.parsed_document_count
                == self.parsed_document_count,
            Some(parser) => {
                let out = load(
                    parser.events@,
                    parser.failure,
                    self.parsed_document_count == 0,
                    Loading::start(),
                );
                &&& after.parsed_document_count == counted(self.parsed_document_count)
                &&& match out.document {
                    Some(d) => r matches Some(doc) && doc@.events == d.events && doc@.error
                        == d.error && doc@.anchor_event_map == d.anchor_event_map,
                    None => r is None,
                }
                &&& if out.live {
                    after.parser matches Some(p) && p.events@ == out.rest && p.failure
                        == parser.failure
                } else {
                    after.parser is None
                }
            },
        }
    }

    /// Whether `progress` is input that has not been loaded from yet.
    pub open spec fn loadable(progress: Progress<'input>) -> bool {
        match progress {
            Progress::Str(parser) => parser.terminated(),
            Progress::Slice(parser) => parser.terminated(),
            Progress::Read(Ok(parser)) => parser.terminated(),
            Progress::Read(Err(_)) => true,
            Progress::Fail(_) => true,
            Progress::Iterable(_) => false,
            Progress::Document(_) => false,
        }
    }

    /// A loader over fresh input: over its parser with no document counted,
    /// or the error of reading the input, or the error that the input stands for.
    pub fn new(progress: Progress<'input>) -> (r: Result<Loader<'input>, Error>)
        requires
            Loader::loadable(progress),
        ensures
            match progress {
                Progress::Str(parser) => r matches Ok(loader) && loader.parser == Some(parser)
                    && loader.parsed_document_count == 0 && loader.wf(),
                Progress::Slice(parser) => r matches Ok(loader) && loader.parser == Some(parser)
                    && loader.parsed_document_count == 0 && loader.wf(),
                Progress::Read(Ok(parser)) => r matches Ok(loader) && loader.parser == Some(
                    parser,
                ) && loader.parsed_document_count == 0 && loader.wf(),
                Progress::Read(Err(io_error)) => r matches Err(e) && *e.0 == ErrorImpl::Io(
                    io_error,
                ),
                Progress::Fail(err) => r matches Err(e) && *e.0 == ErrorImpl::Shared(err),
                _ => false,
            },
    {
        let input = match progress {
            Progress::Str(parser) => parser,
            Progress::Slice(parser) => parser,
            Progress::Read(Ok(parser)) => parser,
            Progress::Read(Err(io_error)) => {
                return Err(error::new(ErrorImpl::Io(io_error)));
            },
            Progress::Fail(err) => {
                return Err(error::shared(err));
            },
            Progress::Iterable(_) => {
                proof {
                    assert(false);
                }
                return Err(error::new(ErrorImpl::EndOfStream));
            },
            Progress::Document(_) => {
                proof {
                    assert(false);
                }
                return Err(error::new(ErrorImpl::EndOfStream));
            },
        };
        Ok(Loader { parser: Some(input), parsed_document_count: 0 })
    }

    /// Whether the tokens that the loader has still to load are those of a
    /// well-nested stream, from a document's boundary on.
    pub open spec fn nested(&self) -> bool {
        self.parser matches Some(parser) ==> nested_stream(parser.events@, Seq::empty())
    }

    /// Advances the loader to the next document and returns it.
    ///
    /// Every alias of the document can be followed: its id leads, by the
    /// document's table, to an event before the alias that begins a node.
    ///
    /// Where the tokens still to load are those of a well-nested stream, a
    /// document that is loaded without an error is well nested: each
    /// sequence and mapping that starts in it ends in it, in its turn; and
    /// the tokens that remain are those of a well-nested stream again.
    pub fn next_document(&mut self) -> (r: Option<Document<'input>>)
        requires
            old(self).wf(),
        ensures
            final(self).wf(),
            old(self).yields(final(self), r),
            r matches Some(document) ==> aliases_resolve(
                document.events@,
                document.anchor_event_map@,
            ),
            old(self).nested() ==> (r matches Some(document) ==> (document.error is None
                ==> matched(brackets(document.events@), Seq::empty()) && final(self).nested())),
    {
        let mut parser = match self.parser.take() {
            Some(parser) => parser,
            None => {
                return None;
            },
        };
        let ghost tokens = parser.events@;
        let ghost failure = parser.failure;

        let first = self.parsed_document_count == 0;
        if self.parsed_document_count < usize::MAX {
            self.parsed_document_count = self.parsed_document_count + 1;
        }
        let mut anchors = Anchors::new();
        let mut document = Document {
            events: Vec::new(),
            error: None,
            anchor_event_map: BTreeMap::new(),
        };
        let pending = parser.events.len();
        proof {
            if nested_stream(tokens, Seq::empty()) {
                lemma_nested_stream_gives_nested_document(tokens, failure, first);
            }
            lemma_loaded_aliases_resolve(tokens, failure, first, Loading::start());
        }

        loop
            invariant
                parser.terminated(),
                parser.failure == failure,
                anchors.wf(),
                document.error is None,
                self.parser is None,
                self.parsed_document_count == counted(old(self).parsed_document_count),
                first == (old(self).parsed_document_count == 0),
                old(self).parser matches Some(p) && p.events@ == tokens && p.failure == failure,
                nested_stream(tokens, Seq::empty()) ==> nested_outcome(
                    load(tokens, failure, first, Loading::start()),
                ),
                load(tokens, failure, first, Loading::start()).document matches Some(d)
                    ==> aliases_resolve(d.events, d.anchor_event_map),
                load(
                    parser.events@,
                    failure,
                    first,
                    Loading {
                        events: document.events@,
                        anchors: anchors.names@,
                        anchor_event_map: document.anchor_event_map@,
                    },
                ) == load(tokens, failure, first, Loading::start()),
            decreases parser.events@.len(),
        {
            let ghost state = Loading {
                events: document.events@,
                anchors: anchors.names@,
                anchor_event_map: document.anchor_event_map@,
            };
            let ghost pending = parser.events@;
            let (event, mark) = match parser.parse_next_event() {
                Ok((event, mark)) => (event, mark),
                Err(err) => {
                    document.error = Some(Error(Box::new(ErrorImpl::Libyaml(err))).shared());
                    self.parser = Some(parser);
                    return Some(document);
                },
            };
            proof {
                if !(event is StreamEnd) {
                    lemma_terminated_after_head(pending, failure);
                }
            }
            let event = match event {
                YamlEvent::StreamStart => {
                    continue ;
                },
                YamlEvent::StreamEnd => {
                    return if first {
                        if document.events.len() == 0 {
                            document.events.push((Event::Void, mark));
                        }
                        Some(document)
                    } else {
                        None
                    };
                },
                YamlEvent::DocumentStart => {
                    continue ;
                },
                YamlEvent::DocumentEnd => {
                    self.parser = Some(parser);
                    return Some(document);
                },
                YamlEvent::Alias(alias) => match anchors.get(&alias) {
                    Some(id) => Event::Alias(id),
                    None => {
                        document.error = Some(error::new(ErrorImpl::UnknownAnchor(mark)).shared());
                        self.parser = Some(parser);
                        return Some(document);
                    },
                },
                YamlEvent::Scalar(scalar) => {
                    let Scalar { anchor, tag, value, style, repr } = scalar;
                    if let Some(anchor) = anchor {
                        let id = document.anchor_event_map.len();
                        anchors.insert(anchor, id);
                        document.anchor_event_map.insert(id, document.events.len());
                    }
                    Event::Scalar(Scalar { anchor: None, tag, value, style, repr })
                },
                YamlEvent::SequenceStart(sequence_start) => {
                    let SequenceStart { anchor, tag } = sequence_start;
                    if let Some(anchor) = anchor {
                        let id = document.anchor_event_map.len();
                        anchors.insert(anchor, id);
                        document.anchor_event_map.insert(id, document.events.len());
                    }
                    Event::SequenceStart(SequenceStart { anchor: None, tag })
                },
                YamlEvent::SequenceEnd => Event::SequenceEnd,
                YamlEvent::MappingStart(mapping_start) => {
                    let MappingStart { anchor, tag } = mapping_start;
                    if let Some(anchor) = anchor {
                        let id = document.anchor_event_map.len();
                        anchors.insert(anchor, id);
                        document.anchor_event_map.insert(id, document.events.len());
                    }
                    Event::MappingStart(MappingStart { anchor: None, tag })
                },
                YamlEvent::MappingEnd => Event::MappingEnd,
            };
            document.events.push((event, mark));
        }
    }
}


/// How far the nesting goes up over the events: the sequences and mappings
/// that start, less those that end.
pub open spec fn nesting<'input>(events: Seq<(Event<'input>, Mark)>) -> int
    decreases events.len(),
{
    if events.len() == 0 {
        0
    } else {
        nesting(events.drop_last()) + match events.last().0 {
            Event::SequenceStart(_) => 1int,
            Event::MappingStart(_) => 1int,
            Event::SequenceEnd => -1int,
            Event::MappingEnd => -1int,
            _ => 0int,
        }
    }
}

/// How far the nesting goes up over the tokenizer's events.
pub open spec fn token_nesting<'input>(tokens: Seq<(YamlEvent<'input>, Mark)>) -> int
    decreases tokens.len(),
{
    if tokens.len() == 0 {
        0
    } else {
        token_nesting(tokens.drop_first()) + match tokens[0].0 {
            YamlEvent::SequenceStart(_) => 1int,
            YamlEvent::MappingStart(_) => 1int,
            YamlEvent::SequenceEnd => -1int,
            YamlEvent::MappingEnd => -1int,
            _ => 0int,
        }
    }
}

/// The tokens that [`load`] takes from the head of `tokens`.
pub open spec fn taken<'input>(
    tokens: Seq<(YamlEvent<'input>, Mark)>,
    failure: Option<crate::libyml::error::Error>,
    first: bool,
    state: Loading<'input>,
) -> Seq<(YamlEvent<'input>, Mark)> {
    tokens.take(tokens.len() - load(tokens, failure, first, state).rest.len())
}

/// Loading keeps the nesting of the tokenizer's events: a document's
/// nesting is that of the events it began with and of the tokens taken.
pub proof fn lemma_load_keeps_nesting<'input>(
    tokens: Seq<(YamlEvent<'input>, Mark)>,
    failure: Option<crate::libyml::error::Error>,
    first: bool,
    state: Loading<'input>,
)
    ensures
        load(tokens, failure, first, state).rest.len() <= tokens.len(),
        load(tokens, failure, first, state).document matches Some(document) ==> nesting(
            document.events,
        ) == nesting(state.events) + token_nesting(taken(tokens, failure, first, state)),
    decreases tokens.len(),
{
    let out = load(tokens, failure, first, state);
    if tokens.len() == 0 {
        assert(taken(tokens, failure, first, state) =~= Seq::empty());
    } else {
        let mark = tokens[0].1;
        let rest = tokens.drop_first();
        let head = tokens.take(1);
        assert(head.drop_first() =~= Seq::empty());
        assert(token_nesting(head.drop_first()) == 0);
        let next: Option<Loading<'input>> = match tokens[0].0 {
            YamlEvent::StreamStart => Some(state),
            YamlEvent::DocumentStart => Some(state),
            YamlEvent::StreamEnd => None,
            YamlEvent::DocumentEnd => None,
            YamlEvent::Alias(anchor) => if state.anchors.contains_key(anchor.name()) {
                Some(state.push(Event::Alias(state.anchors[anchor.name()]), mark))
            } else {
                None
            },
            YamlEvent::Scalar(scalar) => Some(
                state.note(scalar.anchor).push(Event::Scalar(stripped(scalar)), mark),
            ),
            YamlEvent::SequenceStart(start) => Some(
                state.note(start.anchor).push(
                    Event::SequenceStart(SequenceStart { anchor: None, tag: start.tag }),
                    mark,
                ),
            ),
            YamlEvent::SequenceEnd => Some(state.push(Event::SequenceEnd, mark)),
            YamlEvent::MappingStart(start) => Some(
                state.note(start.anchor).push(
                    Event::MappingStart(MappingStart { anchor: None, tag: start.tag }),
                    mark,
                ),
            ),
            YamlEvent::MappingEnd => Some(state.push(Event::MappingEnd, mark)),
        };
        match next {
            Some(after) => {
                assert(out == load(rest, failure, first, after));
                lemma_load_keeps_nesting(rest, failure, first, after);
                let count = tokens.len() - out.rest.len();
                assert(tokens.take(count).drop_first() =~= rest.take(count - 1));
                assert(taken(tokens, failure, first, state).drop_first() == taken(
                    rest,
                    failure,
                    first,
                    after,
                ));
                assert(taken(tokens, failure, first, state)[0] == tokens[0]);
                if after.events.len() > state.events.len() {
                    assert(after.events.drop_last() =~= state.events);
                }
            },
            None => {
                assert(out.rest == rest);
                assert(taken(tokens, failure, first, state) =~= head);
                if out.document is Some {
                    let document = out.document->Some_0;
                    if document.events.len() > state.events.len() {
                        assert(document.events.drop_last() =~= state.events);
                    }
                }
            },
        }
    }
}

/// Where the nesting of the tokens taken for a document comes back to where
/// it began, as many sequences and mappings end in the document as start in it.
pub proof fn lemma_balanced_tokens_give_balanced_document<'input>(
    tokens: Seq<(YamlEvent<'input>, Mark)>,
    failure: Option<crate::libyml::error::Error>,
    first: bool,
)
    requires
        token_nesting(taken(tokens, failure, first, Loading::start())) == 0,
    ensures
        load(tokens, failure, first, Loading::start()).document matches Some(document)
            ==> nesting(document.events) == 0,
{
    lemma_load_keeps_nesting(tokens, failure, first, Loading::start());
}

impl<'input> Document<'input> {
    /// Whether as many sequences and mappings end in the document as start
    /// in it.
    pub fn is_balanced(&self) -> (r: bool)
        ensures
            r == (nesting(self.events@) == 0),
    {
        let mut starts: usize = 0;
        let mut ends: usize = 0;
        let mut i: usize = 0;
        while i < self.events.len()
            invariant
                i <= self.events.len(),
                starts <= i,
                ends <= i,
                nesting(self.events@.take(i as int)) == starts - ends,
            decreases self.events.len() - i,
        {
            assert(self.events@.take(i + 1).drop_last() =~= self.events@.take(i as int));
            match &self.events[i].0 {
                Event::SequenceStart(_) => {
                    starts = starts + 1;
                },
                Event::MappingStart(_) => {
                    starts = starts + 1;
                },
                Event::SequenceEnd => {
                    ends = ends + 1;
                },
                Event::MappingEnd => {
                    ends = ends + 1;
                },
                _ => {},
            }
            i = i + 1;
        }
        assert(self.events@.take(i as int) =~= self.events@);
        starts == ends
    }
}


/// Whether the event begins a node: a scalar, a sequence or a mapping.
pub open spec fn begins_node<'input>(event: Event<'input>) -> bool {
    event is Scalar || event is SequenceStart || event is MappingStart
}

/// Whether every alias among the events can be followed: its id leads, by
/// the table, to an event before the alias that begins a node.
pub open spec fn aliases_resolve<'input>(
    events: Seq<(Event<'input>, Mark)>,
    anchor_event_map: Map<usize, usize>,
) -> bool {
    &&& forall|id: usize| #[trigger]
        anchor_event_map.contains_key(id) ==> anchor_event_map[id] < events.len() && begins_node(
            events[anchor_event_map[id] as int].0,
        )
    &&& forall|i: int|
        0 <= i < events.len() ==> ((#[trigger] events[i]).0 matches Event::Alias(id)
            ==> anchor_event_map.contains_key(id) && anchor_event_map[id] < i)
}

impl<'input> Loading<'input> {
    /// Whether the state is sound: the ids of the table are the numbers
    /// below their count, of which there are no more than events; every
    /// anchor name stands for an id of the table; and every alias can be
    /// followed.
    pub open spec fn sound(self) -> bool {
        &&& self.anchor_event_map.dom().finite()
        &&& self.anchor_event_map.dom().len() <= self.events.len()
        &&& forall|id: usize|
            self.anchor_event_map.contains_key(id) <==> id < self.anchor_event_map.dom().len()
        &&& forall|name: Seq<u8>| #[trigger]
            self.anchors.contains_key(name) ==> self.anchor_event_map.contains_key(
                self.anchors[name],
            )
        &&& aliases_resolve(self.events, self.anchor_event_map)
    }
}

/// A node that is stored with its anchor noted leaves the state sound.
proof fn lemma_node_keeps_sound<'input>(
    state: Loading<'input>,
    anchor: Option<Anchor>,
    event: Event<'input>,
    mark: Mark,
)
    requires
        state.sound(),
        state.events.len() <= usize::MAX,
        begins_node(event),
    ensures
        state.note(anchor).push(event, mark).sound(),
{
    let after = state.note(anchor).push(event, mark);
    let count = state.anchor_event_map.dom().len();
    assert(!state.anchor_event_map.contains_key(count as usize));
    assert forall|id: usize| #[trigger] after.anchor_event_map.contains_key(id) implies
        after.anchor_event_map[id] < after.events.len() && begins_node(
        after.events[after.anchor_event_map[id] as int].0,
    ) by {
        if state.anchor_event_map.contains_key(id) && after.anchor_event_map[id]
            == state.anchor_event_map[id] {
            assert(after.events[state.anchor_event_map[id] as int]
                == state.events[state.anchor_event_map[id] as int]);
        }
    }
    assert forall|i: int| 0 <= i < after.events.len() implies ((#[trigger] after.events[i]).0
        matches Event::Alias(id) ==> after.anchor_event_map.contains_key(id)
        && after.anchor_event_map[id] < i) by {
        if i < state.events.len() {
            assert(after.events[i] == state.events[i]);
        }
    }
    assert forall|id: usize|
        after.anchor_event_map.contains_key(id) <==> id < after.anchor_event_map.dom().len() by {
        if anchor is Some {
            assert(after.anchor_event_map.dom() =~= state.anchor_event_map.dom().insert(
                count as usize,
            ));
        }
    }
}

/// An event that is stored without an anchor, and that is no alias or an
/// alias that can be followed, leaves the state sound.
proof fn lemma_push_keeps_sound<'input>(state: Loading<'input>, event: Event<'input>, mark: Mark)
    requires
        state.sound(),
        event matches Event::Alias(id) ==> state.anchor_event_map.contains_key(id),
    ensures
        state.push(event, mark).sound(),
{
    let after = state.push(event, mark);
    assert forall|i: int| 0 <= i < after.events.len() implies ((#[trigger] after.events[i]).0
        matches Event::Alias(id) ==> after.anchor_event_map.contains_key(id)
        && after.anchor_event_map[id] < i) by {
        if i < state.events.len() {
            assert(after.events[i] == state.events[i]);
        }
    }
    assert forall|id: usize| #[trigger] after.anchor_event_map.contains_key(id) implies
        after.anchor_event_map[id] < after.events.len() && begins_node(
        after.events[after.anchor_event_map[id] as int].0,
    ) by {
        assert(after.events[state.anchor_event_map[id] as int]
            == state.events[state.anchor_event_map[id] as int]);
    }
}

/// In a loaded document every alias can be followed: its id is in the table
/// of anchors, and leads to an event of the document, before the alias,
/// that begins a node.
pub proof fn lemma_loaded_aliases_resolve<'input>(
    tokens: Seq<(YamlEvent<'input>, Mark)>,
    failure: Option<crate::libyml::error::Error>,
    first: bool,
    state: Loading<'input>,
)
    requires
        state.sound(),
        state.events.len() + tokens.len() <= usize::MAX,
    ensures
        load(tokens, failure, first, state).document matches Some(document) ==> aliases_resolve(
            document.events,
            document.anchor_event_map,
        ),
    decreases tokens.len(),
{
    if tokens.len() > 0 {
        let mark = tokens[0].1;
        let rest = tokens.drop_first();
        match tokens[0].0 {
            YamlEvent::StreamStart => {
                lemma_loaded_aliases_resolve(rest, failure, first, state);
            },
            YamlEvent::DocumentStart => {
                lemma_loaded_aliases_resolve(rest, failure, first, state);
            },
            YamlEvent::StreamEnd => {
                if state.events.len() == 0 {
                    lemma_push_keeps_sound(state, Event::Void, mark);
                }
            },
            YamlEvent::DocumentEnd => {},
            YamlEvent::Alias(anchor) => {
                if state.anchors.contains_key(anchor.name()) {
                    let event = Event::Alias(state.anchors[anchor.name()]);
                    lemma_push_keeps_sound(state, event, mark);
                    lemma_loaded_aliases_resolve(rest, failure, first, state.push(event, mark));
                }
            },
            YamlEvent::Scalar(scalar) => {
                let event = Event::Scalar(stripped(scalar));
                lemma_node_keeps_sound(state, scalar.anchor, event, mark);
                lemma_loaded_aliases_resolve(
                    rest,
                    failure,
                    first,
                    state.note(scalar.anchor).push(event, mark),
                );
            },
            YamlEvent::SequenceStart(start) => {
                let event = Event::SequenceStart(SequenceStart { anchor: None, tag: start.tag });
                lemma_node_keeps_sound(state, start.anchor, event, mark);
                lemma_loaded_aliases_resolve(
                    rest,
                    failure,
                    first,
                    state.note(start.anchor).push(event, mark),
                );
            },
            YamlEvent::SequenceEnd => {
                lemma_push_keeps_sound(state, Event::SequenceEnd, mark);
                lemma_loaded_aliases_resolve(
                    rest,
                    failure,
                    first,
                    state.push(Event::SequenceEnd, mark),
                );
            },
            YamlEvent::MappingStart(start) => {
                let event = Event::MappingStart(MappingStart { anchor: None, tag: start.tag });
                lemma_node_keeps_sound(state, start.anchor, event, mark);
                lemma_loaded_aliases_resolve(
                    rest,
                    failure,
                    first,
                    state.note(start.anchor).push(event, mark),
                );
            },
            YamlEvent::MappingEnd => {
                lemma_push_keeps_sound(state, Event::MappingEnd, mark);
                lemma_loaded_aliases_resolve(
                    rest,
                    failure,
                    first,
                    state.push(Event::MappingEnd, mark),
                );
            },
        }
    }
}


/// The start or the end of a sequence or mapping.
#[derive(Copy, Clone, Debug, PartialEq, Eq, Structural)]
pub enum Bracket {
    Open(Nest),
    Close(Nest),
}

/// The bracket that an event is, if it starts or ends a sequence or mapping.
pub open spec fn bracket_of<'input>(event: Event<'input>) -> Seq<Bracket> {
    match event {
        Event::SequenceStart(_) => seq![Bracket::Open(Nest::Sequence)],
        Event::MappingStart(_) => seq![Bracket::Open(Nest::Mapping)],
        Event::SequenceEnd => seq![Bracket::Close(Nest::Sequence)],
        Event::MappingEnd => seq![Bracket::Close(Nest::Mapping)],
        _ => Seq::empty(),
    }
}

/// The bracket that an event of the tokenizer is.
pub open spec fn token_bracket_of<'input>(event: YamlEvent<'input>) -> Seq<Bracket> {
    match event {
        YamlEvent::SequenceStart(_) => seq![Bracket::Open(Nest::Sequence)],
        YamlEvent::MappingStart(_) => seq![Bracket::Open(Nest::Mapping)],
        YamlEvent::SequenceEnd => seq![Bracket::Close(Nest::Sequence)],
        YamlEvent::MappingEnd => seq![Bracket::Close(Nest::Mapping)],
        _ => Seq::empty(),
    }
}

/// The brackets among the events, in their order.
pub open spec fn brackets<'input>(events: Seq<(Event<'input>, Mark)>) -> Seq<Bracket>
    decreases events.len(),
{
    if events.len() == 0 {
        Seq::empty()
    } else {
        bracket_of(events[0].0) + brackets(events.drop_first())
    }
}

/// The brackets among the tokenizer's events, in their order.
pub open spec fn token_brackets<'input>(tokens: Seq<(YamlEvent<'input>, Mark)>) -> Seq<Bracket>
    decreases tokens.len(),
{
    if tokens.len() == 0 {
        Seq::empty()
    } else {
        token_bracket_of(tokens[0].0) + token_brackets(tokens.drop_first())
    }
}

/// Whether the brackets match, with the sequences and mappings of `open`
/// open before them: each end closes the innermost that is open, and none
/// stays open.
pub open spec fn matched(brackets: Seq<Bracket>, open: Seq<Nest>) -> bool
    decreases brackets.len(),
{
    if brackets.len() == 0 {
        open.len() == 0
    } else {
        match brackets[0] {
            Bracket::Open(nest) => matched(brackets.drop_first(), open.push(nest)),
            Bracket::Close(nest) => open.len() > 0 && open.last() == nest && matched(
                brackets.drop_first(),
                open.drop_last(),
            ),
        }
    }
}

/// An event stored behind events adds its bracket behind theirs.
pub proof fn lemma_brackets_push<'input>(
    events: Seq<(Event<'input>, Mark)>,
    event: Event<'input>,
    mark: Mark,
)
    ensures
        brackets(events.push((event, mark))) == brackets(events) + bracket_of(event),
    decreases events.len(),
{
    let pushed = events.push((event, mark));
    if events.len() == 0 {
        assert(pushed.drop_first() =~= Seq::empty());
        assert(pushed[0] == (event, mark));
        assert(brackets(pushed.drop_first()) =~= Seq::empty());
        assert(brackets(events) =~= Seq::empty());
        assert(brackets(pushed) =~= brackets(events) + bracket_of(event));
    } else {
        lemma_brackets_push(events.drop_first(), event, mark);
        assert(pushed.drop_first() =~= events.drop_first().push((event, mark)));
        assert(brackets(pushed) =~= brackets(events) + bracket_of(event));
    }
}

/// Loading keeps the tokenizer's nesting, bracket for bracket: a document's
/// brackets are those of the events it began with and then those of the
/// tokens taken.
pub proof fn lemma_load_keeps_brackets<'input>(
    tokens: Seq<(YamlEvent<'input>, Mark)>,
    failure: Option<crate::libyml::error::Error>,
    first: bool,
    state: Loading<'input>,
)
    ensures
        load(tokens, failure, first, state).rest.len() <= tokens.len(),
        load(tokens, failure, first, state).document matches Some(document) ==> brackets(
            document.events,
        ) == brackets(state.events) + token_brackets(taken(tokens, failure, first, state)),
    decreases tokens.len(),
{
    let out = load(tokens, failure, first, state);
    if tokens.len() == 0 {
        assert(taken(tokens, failure, first, state) =~= Seq::empty());
        assert(brackets(state.events) + Seq::<Bracket>::empty() =~= brackets(state.events));
    } else {
        let mark = tokens[0].1;
        let rest = tokens.drop_first();
        let head = tokens.take(1);
        assert(head.drop_first() =~= Seq::empty());
        let next: Option<Loading<'input>> = match tokens[0].0 {
            YamlEvent::StreamStart => Some(state),
            YamlEvent::DocumentStart => Some(state),
            YamlEvent::StreamEnd => None,
            YamlEvent::DocumentEnd => None,
            YamlEvent::Alias(anchor) => if state.anchors.contains_key(anchor.name()) {
                Some(state.push(Event::Alias(state.anchors[anchor.name()]), mark))
            } else {
                None
            },
            YamlEvent::Scalar(scalar) => Some(
                state.note(scalar.anchor).push(Event::Scalar(stripped(scalar)), mark),
            ),
            YamlEvent::SequenceStart(start) => Some(
                state.note(start.anchor).push(
                    Event::SequenceStart(SequenceStart { anchor: None, tag: start.tag }),
                    mark,
                ),
            ),
            YamlEvent::SequenceEnd => Some(state.push(Event::SequenceEnd, mark)),
            YamlEvent::MappingStart(start) => Some(
                state.note(start.anchor).push(
                    Event::MappingStart(MappingStart { anchor: None, tag: start.tag }),
                    mark,
                ),
            ),
            YamlEvent::MappingEnd => Some(state.push(Event::MappingEnd, mark)),
        };
        match next {
            Some(after) => {
                assert(out == load(rest, failure, first, after));
                lemma_load_keeps_brackets(rest, failure, first, after);
                let count = tokens.len() - out.rest.len();
                let all = taken(tokens, failure, first, state);
                assert(tokens.take(count).drop_first() =~= rest.take(count - 1));
                assert(all.drop_first() == taken(rest, failure, first, after));
                assert(all[0] == tokens[0]);
                if after.events.len() > state.events.len() {
                    assert(after.events =~= state.events.push(after.events.last()));
                    lemma_brackets_push(state.events, after.events.last().0, mark);
                } else {
                    assert(brackets(state.events) + Seq::<Bracket>::empty() =~= brackets(
                        state.events,
                    ));
                }
                if out.document is Some {
                    let document = out.document->Some_0;
                    assert(brackets(document.events) =~= brackets(state.events) + token_brackets(
                        all,
                    ));
                }
            },
            None => {
                assert(out.rest == rest);
                assert(taken(tokens, failure, first, state) =~= head);
                assert(head[0] == tokens[0]);
                assert(token_brackets(head.drop_first()) =~= Seq::empty());
                assert(token_brackets(head) =~= Seq::empty());
                if out.document is Some {
                    let document = out.document->Some_0;
                    if document.events.len() > state.events.len() {
                        assert(document.events =~= state.events.push((Event::Void, mark)));
                        lemma_brackets_push(state.events, Event::Void, mark);
                    }
                    assert(brackets(document.events) =~= brackets(state.events) + token_brackets(
                        head,
                    ));
                }
            },
        }
    }
}

/// Where the tokens taken for a document are well nested, the document is:
/// each sequence and mapping that starts in it ends in it, in its turn.
pub proof fn lemma_nested_tokens_give_nested_document<'input>(
    tokens: Seq<(YamlEvent<'input>, Mark)>,
    failure: Option<crate::libyml::error::Error>,
    first: bool,
)
    requires
        matched(token_brackets(taken(tokens, failure, first, Loading::start())), Seq::empty()),
    ensures
        load(tokens, failure, first, Loading::start()).document matches Some(document)
            ==> matched(brackets(document.events), Seq::empty()),
{
    lemma_load_keeps_brackets(tokens, failure, first, Loading::start());
    let out = load(tokens, failure, first, Loading::start());
    if out.document is Some {
        let all = token_brackets(taken(tokens, failure, first, Loading::start()));
        assert(Seq::<Bracket>::empty() + all =~= all);
    }
}

impl<'input> Document<'input> {
    /// Whether the document is well nested: each sequence and mapping that
    /// starts in it ends in it, in its turn.
    pub fn is_well_nested(&self) -> (r: bool)
        ensures
            r == matched(brackets(self.events@), Seq::empty()),
    {
        let mut open: Vec<Nest> = Vec::new();
        let mut i: usize = 0;
        assert(self.events@.skip(0) =~= self.events@);
        while i < self.events.len()
            invariant
                i <= self.events.len(),
                matched(brackets(self.events@.skip(i as int)), open@) == matched(
                    brackets(self.events@),
                    Seq::empty(),
                ),
            decreases self.events.len() - i,
        {
            let ghost here = self.events@.skip(i as int);
            proof {
                assert(here.drop_first() =~= self.events@.skip(i + 1));
                assert(here[0] == self.events@[i as int]);
                let own = bracket_of(here[0].0);
                let later = brackets(here.drop_first());
                if own.len() == 1 {
                    assert((own + later).drop_first() =~= later);
                } else {
                    assert(own + later =~= later);
                }
            }
            match &self.events[i].0 {
                Event::SequenceStart(_) => {
                    open.push(Nest::Sequence);
                },
                Event::MappingStart(_) => {
                    open.push(Nest::Mapping);
                },
                Event::SequenceEnd => match open.pop() {
                    Some(Nest::Sequence) => {},
                    _ => {
                        return false;
                    },
                },
                Event::MappingEnd => match open.pop() {
                    Some(Nest::Mapping) => {},
                    _ => {
                        return false;
                    },
                },
                _ => {},
            }
            i = i + 1;
        }
        assert(self.events@.skip(i as int) =~= Seq::empty());
        open.len() == 0
    }
}


/// Whether the tokens are those of a well-nested stream, with the sequences
/// and mappings of `open` open before them: each end closes the innermost
/// that is open, and none is open where a document or the stream starts or
/// ends. Tokens that stop short of the stream's end may leave some open.
pub open spec fn nested_stream<'input>(tokens: Seq<(YamlEvent<'input>, Mark)>, open: Seq<Nest>) -> bool
    decreases tokens.len(),
{
    if tokens.len() == 0 {
        true
    } else {
        let rest = tokens.drop_first();
        match tokens[0].0 {
            YamlEvent::StreamStart => open.len() == 0 && nested_stream(rest, open),
            YamlEvent::DocumentStart => open.len() == 0 && nested_stream(rest, open),
            YamlEvent::DocumentEnd => open.len() == 0 && nested_stream(rest, open),
            YamlEvent::StreamEnd => open.len() == 0,
            YamlEvent::SequenceStart(_) => nested_stream(rest, open.push(Nest::Sequence)),
            YamlEvent::MappingStart(_) => nested_stream(rest, open.push(Nest::Mapping)),
            YamlEvent::SequenceEnd => open.len() > 0 && open.last() == Nest::Sequence
                && nested_stream(rest, open.drop_last()),
            YamlEvent::MappingEnd => open.len() > 0 && open.last() == Nest::Mapping
                && nested_stream(rest, open.drop_last()),
            _ => nested_stream(rest, open),
        }
    }
}

/// Whether what a request has given is well nested: a document without an
/// error is, and the tokens that remain for a parser that lives on are
/// those of a well-nested stream.
pub open spec fn nested_outcome<'input>(out: Loaded<'input>) -> bool {
    out.document matches Some(document) ==> (document.error is None ==> {
        &&& matched(brackets(document.events), Seq::empty())
        &&& out.live ==> nested_stream(out.rest, Seq::empty())
    })
}

/// From the tokens of a well-nested stream a document is loaded, if
/// without an error, from tokens that close all that was open; and the
/// tokens that remain are those of a well-nested stream.
pub proof fn lemma_nested_stream_loads_nested<'input>(
    tokens: Seq<(YamlEvent<'input>, Mark)>,
    failure: Option<crate::libyml::error::Error>,
    first: bool,
    state: Loading<'input>,
    open: Seq<Nest>,
)
    requires
        nested_stream(tokens, open),
        failure is Some || exists|i: int|
            0 <= i < tokens.len() && (#[trigger] tokens[i]).0 is StreamEnd,
    ensures
        ({
            let out = load(tokens, failure, first, state);
            out.document matches Some(document) ==> (document.error is None ==> {
                &&& matched(token_brackets(taken(tokens, failure, first, state)), open)
                &&& out.live ==> nested_stream(out.rest, Seq::empty())
            })
        }),
    decreases tokens.len(),
{
    let out = load(tokens, failure, first, state);
    if tokens.len() > 0 {
        let mark = tokens[0].1;
        let rest = tokens.drop_first();
        let head = tokens.take(1);
        let next: Option<(Loading<'input>, Seq<Nest>)> = match tokens[0].0 {
            YamlEvent::StreamStart => Some((state, open)),
            YamlEvent::DocumentStart => Some((state, open)),
            YamlEvent::StreamEnd => None,
            YamlEvent::DocumentEnd => None,
            YamlEvent::Alias(anchor) => if state.anchors.contains_key(anchor.name()) {
                Some((state.push(Event::Alias(state.anchors[anchor.name()]), mark), open))
            } else {
                None
            },
            YamlEvent::Scalar(scalar) => Some(
                (state.note(scalar.anchor).push(Event::Scalar(stripped(scalar)), mark), open),
            ),
            YamlEvent::SequenceStart(start) => Some(
                (
                    state.note(start.anchor).push(
                        Event::SequenceStart(SequenceStart { anchor: None, tag: start.tag }),
                        mark,
                    ),
                    open.push(Nest::Sequence),
                ),
            ),
            YamlEvent::SequenceEnd => Some(
                (state.push(Event::SequenceEnd, mark), open.drop_last()),
            ),
            YamlEvent::MappingStart(start) => Some(
                (
                    state.note(start.anchor).push(
                        Event::MappingStart(MappingStart { anchor: None, tag: start.tag }),
                        mark,
                    ),
                    open.push(Nest::Mapping),
                ),
            ),
            YamlEvent::MappingEnd => Some((state.push(Event::MappingEnd, mark), open.drop_last())),
        };
        match next {
            Some((after, inner)) => {
                assert(out == load(rest, failure, first, after));
                lemma_terminated_after_head(tokens, failure);
                lemma_nested_stream_loads_nested(rest, failure, first, after, inner);
                lemma_load_keeps_brackets(rest, failure, first, after);
                let count = tokens.len() - out.rest.len();
                let all = taken(tokens, failure, first, state);
                let later = taken(rest, failure, first, after);
                assert(tokens.take(count).drop_first() =~= rest.take(count - 1));
                assert(all.drop_first() == later);
                assert(all[0] == tokens[0]);
                let own = token_bracket_of(tokens[0].0);
                assert(token_brackets(all) == own + token_brackets(later));
                if own.len() == 0 {
                    assert(own + token_brackets(later) =~= token_brackets(later));
                    assert(inner == open);
                } else {
                    assert((own + token_brackets(later)).drop_first() =~= token_brackets(later));
                    assert((own + token_brackets(later))[0] == own[0]);
                }
            },
            None => {
                assert(out.rest == rest);
                assert(taken(tokens, failure, first, state) =~= head);
                assert(head[0] == tokens[0]);
                assert(head.drop_first() =~= Seq::empty());
                assert(token_brackets(head.drop_first()) =~= Seq::empty());
                assert(token_brackets(head) =~= Seq::empty());
                if tokens[0].0 is StreamEnd || tokens[0].0 is DocumentEnd {
                    assert(open =~= Seq::empty());
                }
            },
        }
    }
}

/// From the tokens of a well-nested stream, taken up at a document's
/// boundary, a document that is loaded without an error is well nested, and
/// the tokens that remain are those of a well-nested stream again.
pub proof fn lemma_nested_stream_gives_nested_document<'input>(
    tokens: Seq<(YamlEvent<'input>, Mark)>,
    failure: Option<crate::libyml::error::Error>,
    first: bool,
)
    requires
        nested_stream(tokens, Seq::empty()),
        failure is Some || exists|i: int|
            0 <= i < tokens.len() && (#[trigger] tokens[i]).0 is StreamEnd,
    ensures
        nested_outcome(load(tokens, failure, first, Loading::start())),
{
    let start = Loading::<'input>::start();
    let out = load(tokens, failure, first, start);
    lemma_nested_stream_loads_nested(tokens, failure, first, start, Seq::empty());
    lemma_load_keeps_brackets(tokens, failure, first, start);
    if out.document is Some {
        let all = token_brackets(taken(tokens, failure, first, start));
        assert(brackets(start.events) =~= Seq::empty());
        assert(Seq::<Bracket>::empty() + all =~= all);
    }
}

impl<'input> Parser<'input> {
    /// Whether the events still to be drawn are those of a well-nested
    /// stream, from a document's boundary on.
    pub fn is_nested_stream(&self) -> (r: bool)
        ensures
            r == nested_stream(self.events@, Seq::empty()),
    {
        let mut open: Vec<Nest> = Vec::new();
        let mut i: usize = 0;
        assert(self.events@.skip(0) =~= self.events@);
        while i < self.events.len()
            invariant
                i <= self.events@.len(),
                nested_stream(self.events@.skip(i as int), open@) == nested_stream(
                    self.events@,
                    Seq::empty(),
                ),
            decreases self.events@.len() - i,
        {
            let ghost here = self.events@.skip(i as int);
            proof {
                assert(here.drop_first() =~= self.events@.skip(i + 1));
                assert(here[0] == self.events@[i as int]);
            }
            match &self.events[i].0 {
                YamlEvent::StreamStart => {
                    if open.len() != 0 {
                        return false;
                    }
                },
                YamlEvent::DocumentStart => {
                    if open.len() != 0 {
                        return false;
                    }
                },
                YamlEvent::DocumentEnd => {
                    if open.len() != 0 {
                        return false;
                    }
                },
                YamlEvent::StreamEnd => {
                    return open.len() == 0;
                },
                YamlEvent::SequenceStart(_) => {
                    open.push(Nest::Sequence);
                },
                YamlEvent::MappingStart(_) => {
                    open.push(Nest::Mapping);
                },
                YamlEvent::SequenceEnd => match open.pop() {
                    Some(Nest::Sequence) => {},
                    _ => {
                        return false;
                    },
                },
                YamlEvent::MappingEnd => match open.pop() {
                    Some(Nest::Mapping) => {},
                    _ => {
                        return false;
                    },
                },
                _ => {},
            }
            i = i + 1;
        }
        assert(self.events@.skip(i as int) =~= Seq::empty());
        true
    }
}

} // verus!
