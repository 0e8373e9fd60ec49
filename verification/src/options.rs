//! Configuration for one formatting run.

use vstd::prelude::*;

verus! {

/// Spaces added per nesting level when a value is printed in its default
/// position.
pub const DEFAULT_INDENT: u32 = 2;

/// The line-length budget below which a compound value may stay on one line.
pub const DEFAULT_MAX_LEN: u32 = 120;

/// Formatting options: the indentation width and the optional line budget.
///
/// When `max_len` is absent, compaction is disabled and every non-empty
/// array or object is rendered fully expanded.
#[derive(Debug, Clone, Copy)]
pub struct Options {
    indent: u32,
    max_len: Option<u32>,
}

impl Options {
    /// The configured indentation width, as seen by specifications.
    pub closed spec fn spec_indent(&self) -> u32 {
        self.indent
    }

    /// The configured line budget, as seen by specifications.
    pub closed spec fn spec_max_len(&self) -> Option<u32> {
        self.max_len
    }

    /// Options without a line budget: plain pretty printing.
    pub fn no_rules() -> (r: Options)
        ensures
            r.spec_indent() == DEFAULT_INDENT,
            r.spec_max_len() is None,
    {
        Options { indent: DEFAULT_INDENT, max_len: None }
    }

    /// The indentation width.
    pub fn indent(&self) -> (r: u32)
        ensures
            r == self.spec_indent(),
    {
        self.indent
    }

    /// Changes the indentation width.
    pub fn set_indent(&mut self, indent: u32)
        ensures
            final(self).spec_indent() == indent,
            final(self).spec_max_len() == old(self).spec_max_len(),
    {
        self.indent = indent
    }

    /// The line budget, if one is set.
    pub fn max_len(&self) -> (r: Option<u32>)
        ensures
            r == self.spec_max_len(),
    {
        self.max_len
    }

    /// Sets the line budget.
    pub fn set_max_len(&mut self, max_len: u32)
        ensures
            final(self).spec_max_len() == Some(max_len),
            final(self).spec_indent() == old(self).spec_indent(),
    {
        self.max_len = Some(max_len);
    }
}

impl Default for Options {
    /// The default configuration: indent by two spaces, budget of 120 bytes.
    fn default() -> (r: Self)
        ensures
            r.spec_indent() == DEFAULT_INDENT,
            r.spec_max_len() == Some(DEFAULT_MAX_LEN),
    {
        Options { indent: DEFAULT_INDENT, max_len: Some(DEFAULT_MAX_LEN) }
    }
}

} // verus!
