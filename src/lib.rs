//! Structural diff and patch of parameter documents: a typed tree model, a
//! diff engine that compares structs by key set and lists by index, an
//! all-or-nothing patch engine, the stored form of patches, and a hash label
//! registry.
pub mod model;
pub mod patch;
pub mod diff;
pub mod labels;
pub mod format;
pub mod encoding;
pub mod document;
