//! Resolution of GraphQL interface types: assembling one interface descriptor
//! from declaration fragments, and the dispatch operations that place an
//! interface value into one of its implementers.

pub mod characters;
pub mod config;
pub mod dispatch;
pub mod laws;
pub mod parse;
