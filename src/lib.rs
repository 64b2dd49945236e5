//! Patch containers: an xz-compressed tar archive holding one binary diff, or
//! one whole file, per changed file of a directory tree.
pub mod path;
pub mod entry;
pub mod outside;
pub mod codec;
pub mod apply;
pub mod laws;
pub mod tree;
pub mod tarscan;
