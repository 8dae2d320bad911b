//! Synchronization between the raw text buffer and the document tree:
//! parse the text into a tree (keeping the previous collapse state), write
//! the tree back as text, and map a tree path to a line of the text.
use vstd::prelude::*;
use crate::codec::{parse_spec, serialize_spec};
use crate::format::FileFormat;
use crate::tree::{JsonTree, PathSet, rebuild_spec};

verus! {

/// Result of attempting to parse the raw text buffer.
pub enum ParseResult {
    /// Parsing succeeded: the new tree.
    Parsed(JsonTree),
    /// Parsing failed: a message for the status bar.
    Failed(String),
}

/// What `raw_to_tree` gives, as a relation: the tree of a successful parse
/// holds the document, the previous collapse state and no query; a failed
/// parse gives its message.
pub open spec fn parsed_as(r: ParseResult, f: FileFormat, raw: Seq<char>, coll: Set<Seq<char>>) -> bool {
    match parse_spec(f, raw) {
        Ok(v) => r matches ParseResult::Parsed(t) && t.wf() && t.doc() == v && t.coll() == coll
            && t.query() == Seq::<char>::empty() && t.rows() == rebuild_spec(v, coll, Seq::empty()),
        Err(m) => r matches ParseResult::Failed(e) && e@ == m,
    }
}

/// Parse `raw` using `format`.  On success, a new tree with the previous
/// collapse state transplanted; on failure, a message for the status bar.
pub fn raw_to_tree(raw: &str, previous_collapsed: PathSet, format: FileFormat) -> (r: ParseResult)
    requires
        previous_collapsed.wf(),
    ensures
        parsed_as(r, format, raw@, previous_collapsed@),
{
    match format.parse(raw) {
        Ok(value) => ParseResult::Parsed(JsonTree::from_value(value, previous_collapsed)),
        Err(msg) => ParseResult::Failed(msg),
    }
}

/// Serialize the tree's document back to formatted text using `format`.
pub fn tree_to_raw(tree: &JsonTree, format: FileFormat) -> (r: String)
    ensures
        r@ == serialize_spec(format, tree.doc()),
{
    format.serialize(tree.root())
}

/// The 0-based line of `raw` that corresponds to `path`.
pub fn find_line_for_path(raw: &str, path: &str, format: FileFormat) -> (r: Option<usize>)
    ensures
        match r {
            Some(x) => format.line_spec(raw@, path@) == Some(x as int),
            None => format.line_spec(raw@, path@) is None,
        },
{
    format.line_for_path(raw, path)
}

} // verus!
