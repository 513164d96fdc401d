//! A compiler for a small document markup language: cross-document analysis
//! (publish order, neighbour links, fingerprints), a recursive renderer from
//! command trees to output markup trees, and a title line-wrapping engine.
pub mod text;
pub mod link;
pub mod ast;
pub mod analysis;
pub mod highlight;
pub mod layout;
pub mod convert;
