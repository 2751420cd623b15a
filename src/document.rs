//! A versioned text document.

use vstd::prelude::*;

use crate::text::{byte_len, decimal_of, push_digits, utf8_len};

verus! {

/// Text content with a version counter that grows by one on every update.
#[derive(Debug, PartialEq, Eq)]
pub struct Document {
    pub content: String,
    pub version: u64,
}

impl Clone for Document {
    fn clone(&self) -> (r: Self)
        ensures
            r == *self,
    {
        Document { content: self.content.clone(), version: self.version }
    }
}

impl From<String> for Document {
    /// A document holding `content`, at version 0.
    fn from(content: String) -> (r: Self) {
        Self::new(content)
    }
}

impl vstd::std_specs::convert::FromSpecImpl<String> for Document {
    open spec fn obeys_from_spec() -> bool {
        true
    }

    open spec fn from_spec(content: String) -> Document {
        Document { content, version: 0 }
    }
}

impl Document {
    pub fn new(content: String) -> (r: Self)
        ensures
            r.content == content,
            r.version == 0,
    {
        Document { content, version: 0 }
    }

    pub fn new_with_version(content: String, version: u64) -> (r: Self)
        ensures
            r.content == content,
            r.version == version,
    {
        Document { content, version }
    }

    /// Replaces the content and counts one more version.
    pub fn update(&mut self, new_content: String)
        requires
            old(self).version < u64::MAX,
        ensures
            final(self).content == new_content,
            final(self).version == old(self).version + 1,
    {
        self.content = new_content;
        self.version = self.version + 1;
    }

    /// The length of the content in bytes.
    pub fn len(&self) -> (r: usize)
        ensures
            r == utf8_len(self.content@),
    {
        byte_len(self.content.as_str())
    }

    pub fn is_empty(&self) -> (r: bool)
        ensures
            r == (self.content@.len() == 0),
    {
        self.content.as_str().is_empty()
    }

    /// The content followed by the version: `content (vN)`.
    pub fn describe(&self) -> (r: String)
        ensures
            r@ == self.content@ + " (v"@ + decimal_of(self.version as nat) + ")"@,
    {
        let mut r = self.content.clone();
        r.append(" (v");
        push_digits(&mut r, self.version, 10);
        r.append(")");
        r
    }
}

} // verus!
