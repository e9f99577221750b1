//! Package-metadata cache of a Portage front end: parsers for the text that the
//! package tools print, and a cache of six tables with its staleness rule and
//! its queries.

pub mod cache;
pub mod ebuild;
pub mod laws;
pub mod order;
pub mod parse;
pub mod query;
pub mod records;
pub mod text;
