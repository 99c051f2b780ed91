use serde_yml::de::{Event, Progress};
use serde_yml::libyml::error::{Error as LibyamlError, ErrorKind, Mark};
use serde_yml::libyml::parser::{
    Anchor, Event as YamlEvent, MappingStart, Parser, Scalar, ScalarStyle, SequenceStart,
};
use serde_yml::loader::Loader;
use serde_yml::modules::error::ErrorImpl;
use std::str;
use std::sync::Arc;

fn at(index: u64, line: u64, column: u64) -> Mark {
    Mark::new(index, line, column)
}

fn styled(value: &str, style: ScalarStyle, anchor: Option<&str>) -> YamlEvent<'static> {
    YamlEvent::Scalar(Scalar {
        anchor: anchor.map(|name| Anchor::new(name.as_bytes().to_vec())),
        tag: None,
        value: value.as_bytes().to_vec(),
        style,
        repr: None,
    })
}

fn plain(value: &str) -> YamlEvent<'static> {
    styled(value, ScalarStyle::Plain, None)
}

fn mapping() -> YamlEvent<'static> {
    YamlEvent::MappingStart(MappingStart {
        anchor: None,
        tag: None,
    })
}

fn sequence() -> YamlEvent<'static> {
    YamlEvent::SequenceStart(SequenceStart {
        anchor: None,
        tag: None,
    })
}

/// The events of `key: value`.
fn key_value() -> Parser<'static> {
    Parser::new(
        vec![
            (YamlEvent::StreamStart, at(0, 0, 0)),
            (YamlEvent::DocumentStart, at(0, 0, 0)),
            (mapping(), at(0, 0, 0)),
            (plain("key"), at(0, 0, 0)),
            (plain("value"), at(5, 0, 5)),
            (YamlEvent::MappingEnd, at(10, 0, 10)),
            (YamlEvent::DocumentEnd, at(10, 0, 10)),
            (YamlEvent::StreamEnd, at(10, 0, 10)),
        ],
        None,
    )
}

#[test]
fn test_loader_new() {
    let progress = Progress::Str(key_value());
    let loader = Loader::new(progress).unwrap();
    assert!(loader.parser.is_some());
    assert_eq!(loader.parsed_document_count, 0);
}

#[test]
fn test_loader_multiple_documents() {
    // ---\nkey1: value1\n...\n---\nkey2: value2\n...
    let parser = Parser::new(
        vec![
            (YamlEvent::StreamStart, at(0, 0, 0)),
            (YamlEvent::DocumentStart, at(0, 0, 0)),
            (mapping(), at(4, 1, 0)),
            (plain("key1"), at(4, 1, 0)),
            (plain("value1"), at(10, 1, 6)),
            (YamlEvent::MappingEnd, at(17, 2, 0)),
            (YamlEvent::DocumentEnd, at(17, 2, 0)),
            (YamlEvent::DocumentStart, at(21, 3, 0)),
            (mapping(), at(25, 4, 0)),
            (plain("key2"), at(25, 4, 0)),
            (plain("value2"), at(31, 4, 6)),
            (YamlEvent::MappingEnd, at(38, 5, 0)),
            (YamlEvent::DocumentEnd, at(38, 5, 0)),
            (YamlEvent::StreamEnd, at(41, 5, 3)),
        ],
        None,
    );
    let mut loader = Loader::new(Progress::Str(parser)).unwrap();

    let document1 = loader.next_document().unwrap();
    assert_eq!(document1.events.len(), 4);
    assert!(document1.error.is_none());
    assert_eq!(document1.anchor_event_map.len(), 0);

    let document2 = loader.next_document().unwrap();
    assert_eq!(document2.events.len(), 4);
    assert!(document2.error.is_none());
    assert_eq!(document2.anchor_event_map.len(), 0);

    assert!(loader.next_document().is_none());
}

#[test]
fn test_loader_unknown_anchor() {
    // *unknown
    let parser = Parser::new(
        vec![
            (YamlEvent::StreamStart, at(0, 0, 0)),
            (YamlEvent::DocumentStart, at(0, 0, 0)),
            (
                YamlEvent::Alias(Anchor::new(b"unknown".to_vec())),
                at(0, 0, 0),
            ),
            (YamlEvent::DocumentEnd, at(8, 0, 8)),
            (YamlEvent::StreamEnd, at(8, 0, 8)),
        ],
        None,
    );
    let mut loader = Loader::new(Progress::Str(parser)).unwrap();

    let document = loader.next_document().unwrap();
    assert_eq!(document.events.len(), 0);
    assert!(document.error.is_some());
    assert_eq!(document.anchor_event_map.len(), 0);

    let error = document.error.unwrap();
    assert!(matches!(*error, ErrorImpl::UnknownAnchor(_)));
}

/// The events of `---\nkey: &anchor value\nalias: *anchor\n...`.
fn anchor_and_alias() -> Parser<'static> {
    Parser::new(
        vec![
            (YamlEvent::StreamStart, at(0, 0, 0)),
            (YamlEvent::DocumentStart, at(0, 0, 0)),
            (mapping(), at(4, 1, 0)),
            (plain("key"), at(4, 1, 0)),
            (
                styled("value", ScalarStyle::Plain, Some("anchor")),
                at(9, 1, 5),
            ),
            (plain("alias"), at(23, 2, 0)),
            (
                YamlEvent::Alias(Anchor::new(b"anchor".to_vec())),
                at(30, 2, 7),
            ),
            (YamlEvent::MappingEnd, at(38, 3, 0)),
            (YamlEvent::DocumentEnd, at(38, 3, 0)),
            (YamlEvent::StreamEnd, at(41, 3, 3)),
        ],
        None,
    )
}

#[test]
fn test_loader_anchor_and_alias() {
    let mut loader = Loader::new(Progress::Str(anchor_and_alias())).unwrap();

    let document = loader.next_document().unwrap();
    assert_eq!(document.events.len(), 6);
    assert!(document.error.is_none());
    assert_eq!(document.anchor_event_map.len(), 1);

    let (event, _) = &document.events[1];
    if let Event::Scalar(scalar) = event {
        assert_eq!(str::from_utf8(&scalar.value).unwrap(), "key");
        assert_eq!(scalar.anchor, None);
    } else {
        panic!("Expected Event::Scalar");
    }

    let (event, _) = &document.events[3];
    if let Event::Scalar(scalar) = event {
        assert_eq!(str::from_utf8(&scalar.value).unwrap(), "alias");
        assert_eq!(scalar.anchor, None);
    } else {
        panic!("Expected Event::Scalar");
    }

    let (event, _) = &document.events[4];
    assert!(matches!(event, Event::Alias(0)));
}

#[test]
fn test_loader_empty_document() {
    // ---\n...
    let parser = Parser::new(
        vec![
            (YamlEvent::StreamStart, at(0, 0, 0)),
            (YamlEvent::DocumentStart, at(0, 0, 0)),
            (plain(""), at(4, 1, 0)),
            (YamlEvent::DocumentEnd, at(4, 1, 0)),
            (YamlEvent::StreamEnd, at(7, 1, 3)),
        ],
        None,
    );
    let mut loader = Loader::new(Progress::Str(parser)).unwrap();

    let document = loader.next_document().unwrap();
    assert_eq!(document.events.len(), 1);
    assert!(document.error.is_none());
    assert_eq!(document.anchor_event_map.len(), 0);

    let (event, _) = &document.events[0];
    assert!(matches!(event, Event::Scalar(_)));
}

#[test]
fn test_loader_sequence() {
    // ---\n- item1\n- item2\n...
    let parser = Parser::new(
        vec![
            (YamlEvent::StreamStart, at(0, 0, 0)),
            (YamlEvent::DocumentStart, at(0, 0, 0)),
            (sequence(), at(4, 1, 0)),
            (plain("item1"), at(6, 1, 2)),
            (plain("item2"), at(14, 2, 2)),
            (YamlEvent::SequenceEnd, at(20, 3, 0)),
            (YamlEvent::DocumentEnd, at(20, 3, 0)),
            (YamlEvent::StreamEnd, at(23, 3, 3)),
        ],
        None,
    );
    let mut loader = Loader::new(Progress::Str(parser)).unwrap();

    let document = loader.next_document().unwrap();
    assert_eq!(document.events.len(), 4);
    assert!(document.error.is_none());
    assert_eq!(document.anchor_event_map.len(), 0);

    let (event, _) = &document.events[0];
    assert!(matches!(event, Event::SequenceStart(_)));

    let (event, _) = &document.events[1];
    if let Event::Scalar(scalar) = event {
        assert_eq!(str::from_utf8(&scalar.value).unwrap(), "item1");
    } else {
        panic!("Expected Event::Scalar");
    }

    let (event, _) = &document.events[2];
    if let Event::Scalar(scalar) = event {
        assert_eq!(str::from_utf8(&scalar.value).unwrap(), "item2");
    } else {
        panic!("Expected Event::Scalar");
    }

    let (event, _) = &document.events[3];
    assert!(matches!(event, Event::SequenceEnd));
}

#[test]
fn test_loader_mapping() {
    // ---\nkey1: value1\nkey2: value2\n...
    let parser = Parser::new(
        vec![
            (YamlEvent::StreamStart, at(0, 0, 0)),
            (YamlEvent::DocumentStart, at(0, 0, 0)),
            (mapping(), at(4, 1, 0)),
            (plain("key1"), at(4, 1, 0)),
            (plain("value1"), at(10, 1, 6)),
            (plain("key2"), at(17, 2, 0)),
            (plain("value2"), at(23, 2, 6)),
            (YamlEvent::MappingEnd, at(30, 3, 0)),
            (YamlEvent::DocumentEnd, at(30, 3, 0)),
            (YamlEvent::StreamEnd, at(33, 3, 3)),
        ],
        None,
    );
    let mut loader = Loader::new(Progress::Str(parser)).unwrap();

    let document = loader.next_document().unwrap();
    assert_eq!(document.events.len(), 6);
    assert!(document.error.is_none());
    assert_eq!(document.anchor_event_map.len(), 0);

    let (event, _) = &document.events[0];
    assert!(matches!(event, Event::MappingStart(_)));

    let (event, _) = &document.events[1];
    if let Event::Scalar(scalar) = event {
        assert_eq!(str::from_utf8(&scalar.value).unwrap(), "key1");
    } else {
        panic!("Expected Event::Scalar");
    }

    let (event, _) = &document.events[2];
    if let Event::Scalar(scalar) = event {
        assert_eq!(str::from_utf8(&scalar.value).unwrap(), "value1");
    } else {
        panic!("Expected Event::Scalar");
    }

    let (event, _) = &document.events[3];
    if let Event::Scalar(scalar) = event {
        assert_eq!(str::from_utf8(&scalar.value).unwrap(), "key2");
    } else {
        panic!("Expected Event::Scalar");
    }

    let (event, _) = &document.events[4];
    if let Event::Scalar(scalar) = event {
        assert_eq!(str::from_utf8(&scalar.value).unwrap(), "value2");
    } else {
        panic!("Expected Event::Scalar");
    }

    let (event, _) = &document.events[5];
    assert!(matches!(event, Event::MappingEnd));
}

#[test]
fn test_loader_escaped_characters() {
    // ---\nkey: "value with \"quotes\""\n...
    let parser = Parser::new(
        vec![
            (YamlEvent::StreamStart, at(0, 0, 0)),
            (YamlEvent::DocumentStart, at(0, 0, 0)),
            (mapping(), at(4, 1, 0)),
            (plain("key"), at(4, 1, 0)),
            (
                styled("value with \"quotes\"", ScalarStyle::DoubleQuoted, None),
                at(9, 1, 5),
            ),
            (YamlEvent::MappingEnd, at(33, 2, 0)),
            (YamlEvent::DocumentEnd, at(33, 2, 0)),
            (YamlEvent::StreamEnd, at(36, 2, 3)),
        ],
        None,
    );
    let mut loader = Loader::new(Progress::Str(parser)).unwrap();

    let document = loader.next_document().unwrap();
    assert_eq!(document.events.len(), 4);
    assert!(document.error.is_none());
    assert_eq!(document.anchor_event_map.len(), 0);

    let (event, _) = &document.events[1];
    if let Event::Scalar(scalar) = event {
        assert_eq!(str::from_utf8(&scalar.value).unwrap(), "key");
    } else {
        panic!("Expected Event::Scalar");
    }

    let (event, _) = &document.events[2];
    if let Event::Scalar(scalar) = event {
        assert_eq!(
            str::from_utf8(&scalar.value).unwrap(),
            "value with \"quotes\""
        );
    } else {
        panic!("Expected Event::Scalar");
    }
}

#[test]
fn test_loader_ignored_comments() {
    // ---\n# This is a comment\nkey: value # Inline comment\n...
    let parser = Parser::new(
        vec![
            (YamlEvent::StreamStart, at(0, 0, 0)),
            (YamlEvent::DocumentStart, at(0, 0, 0)),
            (mapping(), at(24, 2, 0)),
            (plain("key"), at(24, 2, 0)),
            (plain("value"), at(29, 2, 5)),
            (YamlEvent::MappingEnd, at(52, 3, 0)),
            (YamlEvent::DocumentEnd, at(52, 3, 0)),
            (YamlEvent::StreamEnd, at(55, 3, 3)),
        ],
        None,
    );
    let mut loader = Loader::new(Progress::Str(parser)).unwrap();

    let document = loader.next_document().unwrap();
    assert_eq!(document.events.len(), 4);
    assert!(document.error.is_none());
    assert_eq!(document.anchor_event_map.len(), 0);

    let (event, _) = &document.events[1];
    if let Event::Scalar(scalar) = event {
        assert_eq!(str::from_utf8(&scalar.value).unwrap(), "key");
    } else {
        panic!("Expected Event::Scalar");
    }

    let (event, _) = &document.events[2];
    if let Event::Scalar(scalar) = event {
        assert_eq!(str::from_utf8(&scalar.value).unwrap(), "value");
    } else {
        panic!("Expected Event::Scalar");
    }
}

#[test]
fn test_loader_new_from_slice() {
    let progress = Progress::Slice(key_value());
    let loader = Loader::new(progress).unwrap();
    assert!(loader.parser.is_some());
    assert_eq!(loader.parsed_document_count, 0);
}

#[test]
fn test_loader_new_from_reader() {
    let progress = Progress::Read(Ok(key_value()));
    let loader = Loader::new(progress).unwrap();
    assert!(loader.parser.is_some());
    assert_eq!(loader.parsed_document_count, 0);
}

#[test]
fn test_loader_new_from_fail() {
    let error = ErrorImpl::Io(std::io::Error::new(
        std::io::ErrorKind::Other,
        "test error",
    ));
    let progress = Progress::Fail(Arc::new(ErrorImpl::Shared(Arc::new(error))));
    let loader_result = Loader::new(progress);
    assert!(loader_result.is_err());
}

#[test]
fn test_loader_next_document_empty_input() {
    let parser = Parser::new(
        vec![
            (YamlEvent::StreamStart, at(0, 0, 0)),
            (YamlEvent::StreamEnd, at(0, 0, 0)),
        ],
        None,
    );
    let mut loader = Loader::new(Progress::Str(parser)).unwrap();
    let document = loader.next_document().unwrap();
    assert_eq!(document.events.len(), 1);
    assert!(document.error.is_none());
    assert_eq!(document.anchor_event_map.len(), 0);
    assert!(loader.next_document().is_none());
}

#[test]
fn test_loader_unreadable_stream() {
    let failure = std::io::Error::new(std::io::ErrorKind::Other, "broken pipe");
    let result = Loader::new(Progress::Read(Err(failure)));
    match result {
        Err(error) => assert!(matches!(*error.0, ErrorImpl::Io(_))),
        Ok(_) => panic!("expected an error"),
    }
}

#[test]
fn test_loader_tokenizer_error_ends_document() {
    // key: [unclosed
    let failure = LibyamlError {
        kind: ErrorKind::Parser,
        problem: "did not find expected ',' or ']'".to_owned(),
        problem_offset: 14,
        problem_mark: at(14, 1, 0),
        context: Some("while parsing a flow sequence".to_owned()),
        context_mark: at(5, 0, 5),
    };
    let parser = Parser::new(
        vec![
            (YamlEvent::StreamStart, at(0, 0, 0)),
            (YamlEvent::DocumentStart, at(0, 0, 0)),
            (mapping(), at(0, 0, 0)),
            (plain("key"), at(0, 0, 0)),
            (sequence(), at(5, 0, 5)),
            (plain("unclosed"), at(6, 0, 6)),
        ],
        Some(failure),
    );
    assert!(parser.is_terminated());
    let mut loader = Loader::new(Progress::Str(parser)).unwrap();
    let document = loader.next_document().unwrap();
    assert_eq!(document.events.len(), 4);
    let error = document.error.unwrap();
    assert_eq!(
        error.display(),
        "did not find expected ',' or ']' at line 2 column 1, while parsing a flow sequence at line 1 column 6"
    );
    // The error stands for every later request as well.
    let again = loader.next_document().unwrap();
    assert_eq!(again.events.len(), 0);
    assert!(matches!(*again.error.unwrap(), ErrorImpl::Libyaml(_)));
}

#[test]
fn test_loader_repeated_anchor_name() {
    // [&a x, &a y, &b z, *a, *b]
    let parser = Parser::new(
        vec![
            (YamlEvent::StreamStart, at(0, 0, 0)),
            (YamlEvent::DocumentStart, at(0, 0, 0)),
            (sequence(), at(0, 0, 0)),
            (styled("x", ScalarStyle::Plain, Some("a")), at(1, 0, 1)),
            (styled("y", ScalarStyle::Plain, Some("a")), at(7, 0, 7)),
            (styled("z", ScalarStyle::Plain, Some("b")), at(13, 0, 13)),
            (YamlEvent::Alias(Anchor::new(b"a".to_vec())), at(19, 0, 19)),
            (YamlEvent::Alias(Anchor::new(b"b".to_vec())), at(23, 0, 23)),
            (YamlEvent::SequenceEnd, at(25, 0, 25)),
            (YamlEvent::DocumentEnd, at(26, 0, 26)),
            (YamlEvent::StreamEnd, at(26, 0, 26)),
        ],
        None,
    );
    let mut loader = Loader::new(Progress::Str(parser)).unwrap();
    let document = loader.next_document().unwrap();
    assert_eq!(document.events.len(), 7);
    // Ids go up with every anchor: 0 for `a`, 1 for the second `a`, 2 for
    // `b`; an alias refers to the latest anchor of its name.
    assert!(matches!(document.events[4].0, Event::Alias(1)));
    assert!(matches!(document.events[5].0, Event::Alias(2)));
    assert_eq!(document.anchor_event_map.len(), 3);
    assert_eq!(document.anchor_event_map.get(&0), Some(&1));
    assert_eq!(document.anchor_event_map.get(&1), Some(&2));
    assert_eq!(document.anchor_event_map.get(&2), Some(&3));
}
