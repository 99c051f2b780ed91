use serde_yml::libyml::cstr::{debug_lossy, display_lossy};
use serde_yml::libyml::error::{Error as LibyamlError, ErrorKind, Mark};
use serde_yml::libyml::parser::{Anchor, Scalar, ScalarStyle};
use serde_yml::libyml::tag::Tag;
use serde_yml::modules::error::{
    self, fix_mark, invalid_length, invalid_type, invalid_value, Error, ErrorImpl, Location, Pos,
    Unexpected,
};
use serde_yml::modules::path::Path;
use std::sync::Arc;

fn message(text: &str) -> Error {
    error::custom(text.to_owned())
}

#[test]
fn test_mark_getters_and_text() {
    let mark = Mark::new(17, 2, 4);
    assert_eq!(mark.index(), 17);
    assert_eq!(mark.line(), 2);
    assert_eq!(mark.column(), 4);
    assert_eq!(mark.to_string(), "line 3 column 5");
    assert_eq!(Mark::new(17, 0, 0).to_string(), "position 17");
    assert_eq!(Mark::new(0, 0, 1).to_string(), "line 1 column 2");
    assert_eq!(Mark::new(0, 1, 0).to_string(), "line 2 column 1");
}

#[test]
fn test_location_counts_from_one() {
    let location = Location::from_mark(Mark::new(17, 2, 4));
    assert_eq!(location.index(), 17);
    assert_eq!(location.line(), 3);
    assert_eq!(location.column(), 5);
}

#[test]
fn test_error_location() {
    let error = error::new(ErrorImpl::RecursionLimitExceeded(Mark::new(9, 1, 2)));
    let location = error.location().unwrap();
    assert_eq!(location.index(), 9);
    assert_eq!(location.line(), 2);
    assert_eq!(location.column(), 3);
    assert!(error::new(ErrorImpl::EndOfStream).location().is_none());
    assert!(message("m").location().is_none());
    let shared = error::shared(Arc::new(ErrorImpl::UnknownAnchor(Mark::new(1, 0, 1))));
    assert_eq!(shared.location().unwrap().column(), 2);
}

#[test]
fn test_fix_mark_places_a_message_once() {
    let root = Path::Root;
    let path = Path::Mapping {
        parent: &root,
        key: "name",
    };
    let fixed = fix_mark(message("bad"), Mark::new(5, 1, 2), path);
    assert_eq!(fixed.to_string(), "bad: name at line 2 column 3");
    match &*fixed.0 {
        ErrorImpl::Message(text, Some(Pos { mark, path })) => {
            assert_eq!(text, "bad");
            assert_eq!(*mark, Mark::new(5, 1, 2));
            assert_eq!(path, "name");
        }
        _ => panic!("expected a placed message"),
    }
    // A message that has a place keeps it.
    let again = fix_mark(fixed, Mark::new(50, 10, 20), Path::Root);
    assert_eq!(again.to_string(), "bad: name at line 2 column 3");
}

#[test]
fn test_fix_mark_leaves_other_errors() {
    let error = fix_mark(
        error::new(ErrorImpl::EndOfStream),
        Mark::new(5, 1, 2),
        Path::Root,
    );
    assert!(matches!(*error.0, ErrorImpl::EndOfStream));
    assert_eq!(error.to_string(), "EOF while parsing a value");
}

#[test]
fn test_message_at_root_has_no_path() {
    let fixed = fix_mark(message("bad"), Mark::new(5, 1, 2), Path::Root);
    assert_eq!(fixed.to_string(), "bad at line 2 column 3");
    let at_start = fix_mark(message("bad"), Mark::new(0, 0, 0), Path::Root);
    assert_eq!(at_start.to_string(), "bad");
}

#[test]
fn test_display_of_each_kind() {
    let mark = Mark::new(3, 0, 3);
    let cases: Vec<(ErrorImpl, &str)> = vec![
        (ErrorImpl::EndOfStream, "EOF while parsing a value"),
        (
            ErrorImpl::MoreThanOneDocument,
            "deserializing from YAML containing more than one document is not supported",
        ),
        (
            ErrorImpl::RecursionLimitExceeded(mark),
            "recursion limit exceeded at line 1 column 4",
        ),
        (ErrorImpl::RepetitionLimitExceeded, "repetition limit exceeded"),
        (
            ErrorImpl::BytesUnsupported,
            "serialization and deserialization of bytes in YAML is not implemented",
        ),
        (ErrorImpl::UnknownAnchor(mark), "unknown anchor at line 1 column 4"),
        (
            ErrorImpl::SerializeNestedEnum,
            "serializing nested enums in YAML is not supported yet",
        ),
        (
            ErrorImpl::ScalarInMerge,
            "expected a mapping or list of mappings for merging, but found scalar",
        ),
        (ErrorImpl::TaggedInMerge, "unexpected tagged value in merge"),
        (
            ErrorImpl::ScalarInMergeElement,
            "expected a mapping for merging, but found scalar",
        ),
        (
            ErrorImpl::SequenceInMergeElement,
            "expected a mapping for merging, but found sequence",
        ),
        (ErrorImpl::EmptyTag, "empty YAML tag is not allowed"),
        (ErrorImpl::FailedToParseNumber, "failed to parse YAML number"),
    ];
    for (error, expected) in cases {
        assert_eq!(error.display(), expected);
    }
    let io = ErrorImpl::Io(std::io::Error::new(std::io::ErrorKind::Other, "disk on fire"));
    assert_eq!(io.display(), "disk on fire");
    let utf8 = ErrorImpl::FromUtf8(String::from_utf8(vec![0xff]).unwrap_err());
    assert_eq!(utf8.display(), "invalid utf-8 sequence of 1 bytes from index 0");
}

#[test]
fn test_display_of_shared_error() {
    let inner = Arc::new(ErrorImpl::UnknownAnchor(Mark::new(0, 4, 0)));
    let shared = ErrorImpl::Shared(Arc::new(ErrorImpl::Shared(inner)));
    assert_eq!(shared.display(), "unknown anchor at line 5 column 1");
    assert_eq!(shared.debug(), "Error(\"unknown anchor\", line: 5, column: 1)");
    assert_eq!(shared.mark(), Some(Mark::new(0, 4, 0)));
}

#[test]
fn test_debug_rendering() {
    assert_eq!(
        ErrorImpl::EndOfStream.debug(),
        "Error(\"EOF while parsing a value\")"
    );
    let placed = fix_mark(message("say \"hi\""), Mark::new(0, 0, 0), Path::Root);
    assert_eq!(
        placed.0.debug(),
        "Error(\"say \\\"hi\\\"\", line: 1, column: 1)"
    );
    assert_eq!(message("line\nbreak").0.debug(), "Error(\"line\\nbreak\")");
}

#[test]
fn test_tokenizer_error_renderings() {
    let error = LibyamlError {
        kind: ErrorKind::Scanner,
        problem: "found character that cannot start any token".to_owned(),
        problem_offset: 7,
        problem_mark: Mark::new(7, 1, 2),
        context: Some("while scanning for the next token".to_owned()),
        context_mark: Mark::new(7, 1, 2),
    };
    assert_eq!(error.mark(), Mark::new(7, 1, 2));
    assert_eq!(
        error.to_string(),
        "found character that cannot start any token at line 2 column 3, while scanning for the next token"
    );
    assert_eq!(
        error.debug(),
        "Error { kind: SCANNER, problem: \"found character that cannot start any token\", problem_mark: Mark { line: 2, column: 3 }, context: \"while scanning for the next token\", context_mark: Mark { line: 2, column: 3 } }"
    );
    let copy = error.duplicate();
    assert_eq!(copy.to_string(), error.to_string());

    let bare = LibyamlError {
        kind: ErrorKind::NoError,
        problem: "control characters are not allowed".to_owned(),
        problem_offset: 3,
        problem_mark: Mark::new(3, 0, 0),
        context: None,
        context_mark: Mark::new(0, 0, 0),
    };
    assert_eq!(
        bare.to_string(),
        "control characters are not allowed at position 3"
    );
    assert_eq!(
        bare.debug(),
        "Error { problem: \"control characters are not allowed\", problem_offset: 3 }"
    );
    let wrapped = ErrorImpl::Libyaml(bare);
    assert_eq!(
        wrapped.display(),
        "control characters are not allowed at position 3"
    );
    assert_eq!(wrapped.mark(), Some(Mark::new(3, 0, 0)));
}

#[test]
fn test_tokenizer_error_context_at_another_place() {
    let error = LibyamlError {
        kind: ErrorKind::Parser,
        problem: "did not find expected key".to_owned(),
        problem_offset: 0,
        problem_mark: Mark::new(20, 3, 0),
        context: Some("while parsing a block mapping".to_owned()),
        context_mark: Mark::new(0, 0, 2),
    };
    assert_eq!(
        error.to_string(),
        "did not find expected key at line 4 column 1, while parsing a block mapping at line 1 column 3"
    );
    let nowhere = LibyamlError {
        kind: ErrorKind::Memory,
        problem: "out of memory".to_owned(),
        problem_offset: 0,
        problem_mark: Mark::new(0, 0, 0),
        context: None,
        context_mark: Mark::new(0, 0, 0),
    };
    assert_eq!(nowhere.to_string(), "out of memory");
    assert_eq!(nowhere.debug(), "Error { kind: MEMORY, problem: \"out of memory\" }");
}

#[test]
fn test_serde_messages() {
    assert_eq!(
        invalid_type(&Unexpected::Mapping, "a YAML tag starting with '!'").to_string(),
        "invalid type: map, expected a YAML tag starting with '!'"
    );
    assert_eq!(
        invalid_type(&Unexpected::Sequence, "a string").to_string(),
        "invalid type: sequence, expected a string"
    );
    assert_eq!(
        invalid_type(&Unexpected::Bool(true), "a string").to_string(),
        "invalid type: boolean `true`, expected a string"
    );
    assert_eq!(
        invalid_type(&Unexpected::Unsigned(7), "a string").to_string(),
        "invalid type: integer `7`, expected a string"
    );
    assert_eq!(
        invalid_type(&Unexpected::Signed(-7), "a string").to_string(),
        "invalid type: integer `-7`, expected a string"
    );
    assert_eq!(
        invalid_type(&Unexpected::Unit, "a string").to_string(),
        "invalid type: unit value, expected a string"
    );
    assert_eq!(
        invalid_type(&Unexpected::Bytes(&[1, 2]), "a string").to_string(),
        "invalid type: byte array, expected a string"
    );
    assert_eq!(
        invalid_type(&Unexpected::UnitVariant, "newtype variant").to_string(),
        "invalid type: unit variant, expected newtype variant"
    );
    assert_eq!(
        invalid_type(&Unexpected::Other("integer `1` as u128"), "a string").to_string(),
        "invalid type: integer `1` as u128, expected a string"
    );
    assert_eq!(
        invalid_value(&Unexpected::Str("abc"), "a boolean").to_string(),
        "invalid value: string \"abc\", expected a boolean"
    );
    assert_eq!(
        invalid_length(3, "sequence of 2 elements").to_string(),
        "invalid length 3, expected sequence of 2 elements"
    );
}

#[test]
fn test_shared_gives_up_the_inner_error() {
    let inner = Arc::new(ErrorImpl::EndOfStream);
    let error = error::shared(Arc::clone(&inner));
    let shared = error.shared();
    assert!(Arc::ptr_eq(&shared, &inner));
    let fresh = error::new(ErrorImpl::MoreThanOneDocument).shared();
    assert!(matches!(*fresh, ErrorImpl::MoreThanOneDocument));
}

#[test]
fn test_display_lossy() {
    assert_eq!(display_lossy(b""), "");
    assert_eq!(display_lossy(b"plain text"), "plain text");
    assert_eq!(display_lossy("gr\u{fc}n".as_bytes()), "gr\u{fc}n");
    assert_eq!(display_lossy(b"ab\xffcd"), "ab\u{fffd}cd");
    assert_eq!(display_lossy(b"\xff\xfe"), "\u{fffd}\u{fffd}");
    // A character cut short at the end gives one replacement and no more.
    assert_eq!(display_lossy(b"ab\xe2\x82"), "ab\u{fffd}");
    // A broken sequence inside gives way to what follows.
    assert_eq!(display_lossy(b"a\xe2\x82b"), "a\u{fffd}b");
    assert_eq!(
        display_lossy(b"x\xf0\x9f\x98y"),
        String::from_utf8_lossy(b"x\xf0\x9f\x98y")
    );
}

#[test]
fn test_debug_lossy() {
    assert_eq!(debug_lossy(b""), "\"\"");
    assert_eq!(debug_lossy(b"key"), "\"key\"");
    assert_eq!(debug_lossy(b"it's"), "\"it's\"");
    assert_eq!(debug_lossy(b"say \"hi\""), "\"say \\\"hi\\\"\"");
    assert_eq!(debug_lossy(b"a\tb\nc\\d"), "\"a\\tb\\nc\\\\d\"");
    assert_eq!(debug_lossy(b"\x00\x7f"), "\"\\0\\u{7f}\"");
    assert_eq!(debug_lossy("gr\u{fc}n".as_bytes()), "\"gr\u{fc}n\"");
    assert_eq!(debug_lossy(b"ab\xffcd"), "\"ab\\xffcd\"");
    assert_eq!(debug_lossy(b"\x0a\xe2\x82"), "\"\\n\\xe2\\x82\"");
    assert_eq!(debug_lossy(b"a\xe2\x82b\xc0"), "\"a\\xe2\\x82b\\xc0\"");
    assert_eq!(debug_lossy(b"plain"), format!("{:?}", "plain"));
}

#[test]
fn test_debug_of_tokenizer_data() {
    assert_eq!(Tag::new(b"!Thing".to_vec()).debug(), "\"!Thing\"");
    assert_eq!(Anchor::new(b"a\xff".to_vec()).debug(), "\"a\\xff\"");
    let scalar = Scalar {
        anchor: Some(Anchor::new(b"a".to_vec())),
        tag: None,
        value: b"some \"text\"".to_vec(),
        style: ScalarStyle::DoubleQuoted,
        repr: None,
    };
    assert_eq!(
        scalar.debug(),
        "Scalar { anchor: Some(\"a\"), tag: None, value: \"some \\\"text\\\"\", style: DoubleQuoted }"
    );
    let bare = Scalar {
        anchor: None,
        tag: Some(Tag::new(b"tag:yaml.org,2002:int".to_vec())),
        value: b"1".to_vec(),
        style: ScalarStyle::Plain,
        repr: Some(b"1"),
    };
    assert_eq!(
        bare.debug(),
        "Scalar { anchor: None, tag: Some(\"tag:yaml.org,2002:int\"), value: \"1\", style: Plain }"
    );
}

#[test]
fn test_debug_frames() {
    assert_eq!(ErrorImpl::frame("\"m\"", None), "Error(\"m\")");
    assert_eq!(
        ErrorImpl::frame("\"m\"", Some(Mark::new(0, 0, 0))),
        "Error(\"m\", line: 1, column: 1)"
    );
    assert_eq!(
        ErrorImpl::frame("quoted", Some(Mark::new(9, 41, 6))),
        "Error(quoted, line: 42, column: 7)"
    );
}
