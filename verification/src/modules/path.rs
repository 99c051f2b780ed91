//! The path from the document's root to the value being decoded.

use vstd::prelude::*;
use vstd::string::*;
use crate::text::{decimal, push_decimal};

verus! {

/// Where in the document a value lies, like `dependencies.serde.typo1`.
/// Each step borrows the path of the value that encloses it.
#[derive(Copy, Clone, Debug)]
pub enum Path<'a> {
    /// The document's top-level value.
    Root,
    /// The element at `index` of the sequence at `parent`.
    Sequence { parent: &'a Path<'a>, index: usize },
    /// The value under `key` in the mapping at `parent`.
    Mapping { parent: &'a Path<'a>, key: &'a str },
    /// The node that the alias at `parent` refers to.
    Alias { parent: &'a Path<'a> },
    /// A value in the mapping at `parent` whose key is not text.
    Unknown { parent: &'a Path<'a> },
}

impl<'a> Path<'a> {
    /// What stands before a step's own text: nothing below the root, else
    /// the enclosing path and a dot.
    pub open spec fn prefix(self) -> Seq<char>
        decreases self, 1int,
    {
        match self {
            Path::Root => Seq::empty(),
            _ => self.text() + "."@,
        }
    }

    /// The path as it reads in a message.
    pub open spec fn text(self) -> Seq<char>
        decreases self, 0int,
    {
        match self {
            Path::Root => "."@,
            Path::Sequence { parent, index } => parent.prefix() + "\\["@ + decimal(index as nat)
                + "\\]"@,
            Path::Mapping { parent, key } => parent.prefix() + key@,
            Path::Alias { parent } => parent.prefix(),
            Path::Unknown { parent } => parent.prefix() + "?"@,
        }
    }

    /// Appends [`Path::prefix`] to `out`.
    fn write_prefix(&self, out: &mut String)
        ensures
            final(out)@ == old(out)@ + self.prefix(),
        decreases self, 1int,
    {
        match self {
            Path::Root => {
                assert(out@ =~= old(out)@ + self.prefix());
            },
            _ => {
                self.write_to(out);
                out.append(".");
                assert(out@ =~= old(out)@ + self.prefix());
            },
        }
    }

    /// Appends [`Path::text`] to `out`.
    pub fn write_to(&self, out: &mut String)
        ensures
            final(out)@ == old(out)@ + self.text(),
        decreases self, 0int,
    {
        match self {
            Path::Root => {
                out.append(".");
            },
            Path::Sequence { parent, index } => {
                parent.write_prefix(out);
                out.append("\\[");
                push_decimal(out, *index as u128);
                out.append("\\]");
            },
            Path::Mapping { parent, key } => {
                parent.write_prefix(out);
                out.append(key);
            },
            Path::Alias { parent } => {
                parent.write_prefix(out);
            },
            Path::Unknown { parent } => {
                parent.write_prefix(out);
                out.append("?");
            },
        }
        assert(out@ =~= old(out)@ + self.text());
    }

    /// The path as it reads in a message.
    pub fn to_string(&self) -> (r: String)
        ensures
            r@ == self.text(),
    {
        let mut out = String::new();
        self.write_to(&mut out);
        assert(out@ =~= self.text());
        out
    }
}

} // verus!
