use serde_yml::de::{Event, Progress};
use serde_yml::libyml::error::Mark;
use serde_yml::libyml::parser::{
    Anchor, Event as YamlEvent, MappingStart, Parser, Scalar, ScalarStyle,
};
use serde_yml::loader::Loader;
use std::str;

fn word(value: &str, anchor: Option<&str>) -> YamlEvent<'static> {
    YamlEvent::Scalar(Scalar {
        anchor: anchor.map(|name| Anchor::new(name.as_bytes().to_vec())),
        tag: None,
        value: value.as_bytes().to_vec(),
        style: ScalarStyle::Plain,
        repr: None,
    })
}

/// The events of `---\nkey: &anchor value\nalias: *anchor\n...`.
fn input() -> Progress<'static> {
    Progress::Str(Parser::new(
        vec![
            (YamlEvent::StreamStart, Mark::new(0, 0, 0)),
            (YamlEvent::DocumentStart, Mark::new(0, 0, 0)),
            (
                YamlEvent::MappingStart(MappingStart {
                    anchor: None,
                    tag: None,
                }),
                Mark::new(4, 1, 0),
            ),
            (word("key", None), Mark::new(4, 1, 0)),
            (word("value", Some("anchor")), Mark::new(9, 1, 5)),
            (word("alias", None), Mark::new(23, 2, 0)),
            (
                YamlEvent::Alias(Anchor::new(b"anchor".to_vec())),
                Mark::new(30, 2, 7),
            ),
            (YamlEvent::MappingEnd, Mark::new(38, 3, 0)),
            (YamlEvent::DocumentEnd, Mark::new(38, 3, 0)),
            (YamlEvent::StreamEnd, Mark::new(41, 3, 3)),
        ],
        None,
    ))
}

#[test]
fn test_document_loaded_successfully() {
    let mut loader = Loader::new(input()).unwrap();
    let document = loader.next_document().unwrap();
    assert!(document.error.is_none());
}

#[test]
fn test_document_events_count() {
    let mut loader = Loader::new(input()).unwrap();
    let document = loader.next_document().unwrap();
    assert_eq!(document.events.len(), 6);
}

#[test]
fn test_document_anchor_event_map_count() {
    let mut loader = Loader::new(input()).unwrap();
    let document = loader.next_document().unwrap();
    assert_eq!(document.anchor_event_map.len(), 1);
}

#[test]
fn test_document_event_contents() {
    let mut loader = Loader::new(input()).unwrap();
    let document = loader.next_document().unwrap();

    let (event, _) = &document.events[1];
    if let Event::Scalar(scalar) = event {
        assert_eq!(str::from_utf8(&scalar.value).unwrap(), "key");
        assert_eq!(scalar.anchor, None);
    } else {
        panic!("Expected Event::Scalar");
    }

    let (event, _) = &document.events[3];
    if let Event::Scalar(scalar) = event {
        assert_eq!(str::from_utf8(&scalar.value).unwrap(), "alias");
        assert_eq!(scalar.anchor, None);
    } else {
        panic!("Expected Event::Scalar");
    }

    let (event, _) = &document.events[4];
    assert!(matches!(event, Event::Alias(0)));
}
