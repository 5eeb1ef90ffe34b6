//! A codec for the Named Binary Tag (NBT) format: a big-endian,
//! self-describing, tree-structured binary serialization.
//!
//! The library reads an NBT byte stream into an in-memory tagged tree
//! ([`tag::Tag`]), offers typed accessors over that tree, and serializes
//! the tree back to the wire format. The abstract model of the format --
//! what each byte means -- lives in [`wire`]; the proofs that reader and
//! writer are exact inverses live in [`laws`]. Compression (gzip framing)
//! and file handling are host concerns layered outside of the codec;
//! [`files::is_gzip`] only recognizes the envelope.

pub mod files;
pub mod getters;
pub mod laws;
pub mod parser;
pub mod read;
pub mod scalars;
pub mod strutil;
pub mod tag;
pub mod wire;
pub mod write;
