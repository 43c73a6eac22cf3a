//! Streaming navigation and search over large XML documents held as raw bytes.
//!
//! The library answers structural questions about a document — first and last
//! child of the root, the element matching a query, the ancestor of a byte
//! offset, the path naming an offset — from byte-level scans and a forward
//! event stream, without building a tree or an index.

#![allow(unused_imports)]

use vstd::prelude::*;

pub mod ascii;
pub mod cancel;
pub mod children;
pub mod extract;
pub mod matcher;
pub mod scan;
pub mod search;
pub mod tags;
pub mod text;
pub mod xpath;

verus! {

/// Outcome of a navigation or search operation: either a located element with
/// its exact byte boundaries and display context, or a `found == false` record
/// (scan exhausted or cancelled) with every field empty and `offset == 0`.
#[derive(Debug)]
pub struct SearchResult {
    pub found: bool,
    pub xpath: String,
    pub element_text: String,
    pub context_before: String,
    pub context_after: String,
    pub offset: u64,
    pub line_number: u64,
}

/// The `found == false` shape: a scan that was cancelled or exhausted
/// reports no location at all.
pub open spec fn spec_not_found(res: SearchResult) -> bool {
    &&& res.found == false
    &&& res.xpath@.len() == 0
    &&& res.element_text@.len() == 0
    &&& res.context_before@.len() == 0
    &&& res.context_after@.len() == 0
    &&& res.offset == 0
    &&& res.line_number == 0
}

/// The result of a scan that found nothing: every field empty.
pub fn not_found_result() -> (r: SearchResult)
    ensures
        spec_not_found(r),
{
    SearchResult {
        found: false,
        xpath: String::new(),
        element_text: String::new(),
        context_before: String::new(),
        context_after: String::new(),
        offset: 0,
        line_number: 0,
    }
}

/// Failure conditions of the navigation operations, each a distinct
/// descriptive condition. A completed scan that simply finds nothing is not
/// an error: it is a `found == false` result.
#[derive(Debug, Clone, Copy, PartialEq, Eq, Structural)]
pub enum NavError {
    /// The document is empty.
    EmptyFile,
    /// The root element is self-closing: it has no children.
    EmptyRoot,
    /// The forward scan ended without seeing any child element.
    NoChildren,
    /// The backward scan crossed the root's opening tag without finding a
    /// child.
    RootExited,
    /// The backward scan exhausted the document without an answer.
    NoLastChild,
    /// The requested ancestor depth is not within the ancestor stack.
    DepthOutOfRange,
    /// The scan ended before re-finding the ancestor's opening tag at its
    /// recorded offset.
    AncestorSeekFailed,
    /// The tokenizer rejected the input at the given byte position.
    ScanFailed { pos: u64 },
}

impl NavError {
    /// A short description of the failure, for display by the caller.
    pub fn message(&self) -> (r: &'static str)
        ensures
            r@ == match *self {
                NavError::EmptyFile => "File is empty"@,
                NavError::EmptyRoot => "Root element is empty (no children)"@,
                NavError::NoChildren => "No child elements found"@,
                NavError::RootExited => "No last child found (root exited)"@,
                NavError::NoLastChild => "Last child not found"@,
                NavError::DepthOutOfRange => "Ancestor depth is out of range"@,
                NavError::AncestorSeekFailed => "Unexpected end of input while seeking ancestor"@,
                NavError::ScanFailed { .. } => "Parse error while scanning"@,
            },
    {
        match *self {
            NavError::EmptyFile => "File is empty",
            NavError::EmptyRoot => "Root element is empty (no children)",
            NavError::NoChildren => "No child elements found",
            NavError::RootExited => "No last child found (root exited)",
            NavError::NoLastChild => "Last child not found",
            NavError::DepthOutOfRange => "Ancestor depth is out of range",
            NavError::AncestorSeekFailed => "Unexpected end of input while seeking ancestor",
            NavError::ScanFailed { .. } => "Parse error while scanning",
        }
    }
}

} // verus!
