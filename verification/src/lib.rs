//! Selector matching and style resolution for a small CSS subset.
//!
//! Given a parsed stylesheet (rules of selectors and declarations) and a
//! parsed document tree (elements with tag names and attributes), the crate
//! decides which declarations apply to each element and builds a styled tree
//! that pairs every document node with its resolved property map.

mod strutil;

pub mod css;
pub mod css_parser;
pub mod dom;
pub mod matching;
pub mod resolve;
pub mod style;
