//! Turns heterogeneous project build manifests (package manifests with
//! optional workspaces, and multi-project solution files with per-project
//! descriptors) into one normalized dependency graph of [`model::Target`]
//! records, restricts that graph to the closure of chosen root targets, and
//! assigns every target a layering height for layout ordering.
//!
//! Reading files, tokenizing the raw formats and rendering the final graph
//! are left to the surrounding program: the adapters here consume documents
//! whose fields have already been extracted, and hand back plain target
//! records.

pub mod args;
pub mod errors;
pub mod langs;
pub mod layering;
pub mod model;
pub mod paths;
