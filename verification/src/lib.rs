//! A verified parser and frame deriver for line-oriented texture-atlas
//! documents.
//!
//! An atlas document describes one or more image pages, each with rendering
//! metadata and a list of named rectangular regions. From the parsed pages,
//! the animation module derives, for every distinct region name, a sequence
//! of rendering frames with exact rational texture coordinates.

pub mod animation;
pub mod error;
pub mod laws;
pub mod page;
pub mod page_filter;
pub mod page_format;
pub mod page_repeat;
pub mod parser;
pub mod region;
pub mod text;
