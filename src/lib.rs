//! Decoding of Flattened Device Tree blobs: the header, the string table and
//! a walk over the tagged records of the structure block, with console text
//! for what the walk reports.
pub mod bytes;
pub mod tree;
pub mod walker;
pub mod render;
