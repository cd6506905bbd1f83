//! The HTML document tree and the CSS selector engine, supplied by kuchiki
//! and specified here by contract only.
//!
//! A node handle is opaque; what the library reads of a node — its selector
//! matches, its text, an attribute, its direct child text nodes — is named by
//! an uninterpreted function of the handle, so that every contract downstream
//! can speak of those values exactly.  The library never mutates the tree, so
//! each name is a function of its arguments.

use vstd::prelude::*;

use kuchiki::iter::NodeIterator;
use kuchiki::traits::TendrilSink;

verus! {

#[verifier::external_type_specification]
#[verifier::external_body]
pub struct ExNodeRef(kuchiki::NodeRef);

/// The document tree that parsing the HTML text yields.
pub uninterp spec fn doc_of(html: Seq<char>) -> kuchiki::NodeRef;

/// The elements of the node's subtree that match the selector, in document
/// order; none for a selector that does not compile.
pub uninterp spec fn all_matches(n: kuchiki::NodeRef, sel: Seq<char>) -> Seq<kuchiki::NodeRef>;

/// The first element of the node's subtree that matches the selector, if any.
pub uninterp spec fn first_match(n: kuchiki::NodeRef, sel: Seq<char>) -> Option<kuchiki::NodeRef>;

/// The concatenation of all text nodes in the node's subtree.
pub uninterp spec fn text_of(n: kuchiki::NodeRef) -> Seq<char>;

/// The value of the node's named attribute; `None` where the attribute is
/// absent or the node is no element.
pub uninterp spec fn attr_of(n: kuchiki::NodeRef, name: Seq<char>) -> Option<Seq<char>>;

/// The contents of the node's direct child text nodes, in document order.
pub uninterp spec fn child_texts_of(n: kuchiki::NodeRef) -> Seq<Seq<char>>;

/// Relies on `kuchiki::parse_html` (html5ever): standard HTML error recovery
/// never fails, so every text yields a document tree.
#[verifier::external_body]
pub fn parse_document(html: &str) -> (r: kuchiki::NodeRef)
    ensures
        r == doc_of(html@),
{
    kuchiki::parse_html().one(html)
}

/// Relies on `kuchiki::NodeRef::select`: the matching elements of the subtree
/// in document order, or an error for a selector that does not compile.
#[verifier::external_body]
pub fn select_all(n: &kuchiki::NodeRef, sel: &str) -> (r: Vec<kuchiki::NodeRef>)
    ensures
        r@ == all_matches(*n, sel@),
{
    match n.select(sel) {
        Ok(it) => it.map(|m| m.as_node().clone()).collect(),
        Err(()) => Vec::new(),
    }
}

/// Relies on `kuchiki::NodeRef::select_first`: the first matching element of
/// the subtree, or an error where none matches or the selector does not
/// compile.
#[verifier::external_body]
pub fn select_first(n: &kuchiki::NodeRef, sel: &str) -> (r: Option<kuchiki::NodeRef>)
    ensures
        r == first_match(*n, sel@),
{
    match n.select_first(sel) {
        Ok(m) => Some(m.as_node().clone()),
        Err(()) => None,
    }
}

/// Relies on `kuchiki::NodeRef::text_contents`: the concatenation of all text
/// nodes in the subtree.
#[verifier::external_body]
pub fn node_text(n: &kuchiki::NodeRef) -> (r: String)
    ensures
        r@ == text_of(*n),
{
    n.text_contents()
}

/// Relies on `kuchiki::NodeRef::as_element` and `kuchiki::Attributes::get`:
/// the value of the named attribute, absent on a non-element node.
#[verifier::external_body]
pub fn node_attr(n: &kuchiki::NodeRef, name: &str) -> (r: Option<String>)
    ensures
        r matches Some(v) ==> attr_of(*n, name@) == Some(v@),
        r is None ==> attr_of(*n, name@) is None,
{
    match n.as_element() {
        Some(e) => e.attributes.borrow().get(name).map(|v| v.to_string()),
        None => None,
    }
}

/// Relies on `kuchiki::NodeRef::children` and the `text_nodes` filter: the
/// contents of the node's direct child text nodes, in document order.
#[verifier::external_body]
pub fn child_text_nodes(n: &kuchiki::NodeRef) -> (r: Vec<String>)
    ensures
        r@.map_values(|s: String| s@) == child_texts_of(*n),
{
    n.children().text_nodes().map(|t| t.borrow().clone()).collect()
}

} // verus!
