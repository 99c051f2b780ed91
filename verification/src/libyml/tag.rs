//! Node tags.

use vstd::prelude::*;
use vstd::string::*;
use crate::libyml::cstr::{debug_lossy, debug_lossy_text};
use crate::text::{bytes_eq, has_prefix, starts_with};

verus! {

/// The tag of a node, as the bytes that the tokenizer read.
#[derive(Debug, PartialEq, Eq, PartialOrd, Ord)]
pub struct Tag(pub Vec<u8>);

impl Tag {
    /// The core schema's tag for null.
    pub const NULL: &'static str = "tag:yaml.org,2002:null";

    /// The core schema's tag for booleans.
    pub const BOOL: &'static str = "tag:yaml.org,2002:bool";

    /// The core schema's tag for integers.
    pub const INT: &'static str = "tag:yaml.org,2002:int";

    /// The core schema's tag for floats.
    pub const FLOAT: &'static str = "tag:yaml.org,2002:float";

    /// A tag with the given bytes.
    pub fn new(bytes: Vec<u8>) -> (tag: Tag)
        ensures
            tag.0 == bytes,
    {
        Tag(bytes)
    }

    /// The tag's bytes.
    pub open spec fn bytes(&self) -> Seq<u8> {
        self.0@
    }

    /// Whether the tag begins with `prefix`.
    pub fn starts_with(&self, prefix: &str) -> (r: bool)
        ensures
            r == has_prefix(self.bytes(), prefix.spec_bytes()),
    {
        starts_with(self.0.as_slice(), prefix.as_bytes())
    }

    /// The tag in a debug rendering: as text between quotes, where it is text.
    pub fn debug(&self) -> (r: String)
        ensures
            r@ == debug_lossy_text(self.bytes()),
    {
        debug_lossy(self.0.as_slice())
    }

    /// Whether the tag is exactly `other`.
    pub fn eq_str(&self, other: &str) -> (r: bool)
        ensures
            r == (self.bytes() == other.spec_bytes()),
    {
        bytes_eq(self.0.as_slice(), other.as_bytes())
    }
}

} // verus!
