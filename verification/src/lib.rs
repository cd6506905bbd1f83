//! Extraction of ranked content items from a listing page's HTML.
//!
//! The core of the crate is [`item::extract`]: given the raw HTML text of the
//! listing page it locates the repeating item containers, applies one
//! extractor per output field, normalizes the values (counts to integers,
//! timestamps to the local zone, author names from mixed text content), and
//! returns either an ordered collection of fully-typed records or a typed
//! failure.  The HTML tree and the CSS selector engine are supplied by an
//! outside library and are specified here by contract only; every rule of the
//! extraction itself is verified.

pub mod dom;
pub mod item;
pub mod json;
pub mod text;
pub mod time;
