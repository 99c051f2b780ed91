use serde_yml::modules::path::Path;

#[test]
fn test_path_root() {
    let path = Path::Root;
    assert_eq!(path.to_string(), ".");
}

#[test]
fn test_path_seq() {
    let root = Path::Root;
    let path = Path::Sequence {
        parent: &root,
        index: 42,
    };
    assert_eq!(path.to_string(), "\\[42\\]");
}

#[test]
fn test_path_map() {
    let root = Path::Root;
    let path = Path::Mapping {
        parent: &root,
        key: "key",
    };
    assert_eq!(path.to_string(), "key");
}

#[test]
fn test_path_alias() {
    let root = Path::Root;
    let path = Path::Alias { parent: &root };
    assert_eq!(path.to_string(), "");
}

#[test]
fn test_path_unknown() {
    let root = Path::Root;
    let path = Path::Unknown { parent: &root };
    assert_eq!(path.to_string(), "?");
}

#[test]
fn test_path_nested() {
    let root = Path::Root;
    let seq = Path::Sequence {
        parent: &root,
        index: 0,
    };
    let map = Path::Mapping {
        parent: &seq,
        key: "key",
    };
    let alias = Path::Alias { parent: &map };
    let unknown = Path::Unknown { parent: &alias };
    assert_eq!(unknown.to_string(), "\\[0\\].key..?");
}

#[test]
fn test_path_large_index() {
    let root = Path::Root;
    let outer = Path::Sequence {
        parent: &root,
        index: 1234567890,
    };
    let inner = Path::Sequence {
        parent: &outer,
        index: 10,
    };
    assert_eq!(inner.to_string(), "\\[1234567890\\].\\[10\\]");
}
