//! A changelog assembled from a tree of small text fragments.
//!
//! A changelog directory holds one optional `unreleased` bucket and any
//! number of versioned release buckets; each bucket holds category
//! directories from a fixed canonical set, each category holds component
//! directories, and each component holds one file per entry.  This crate
//! models that tree, scans a materialized directory listing into the model,
//! renders the model to the final document text, and decides the release
//! and init transitions.  All file-system access stays outside the crate:
//! callers hand in plain listings and carry out the returned plans.

pub mod error;
pub mod init;
pub mod laws;
pub mod model;
pub mod order;
pub mod release;
pub mod render;
pub mod roundtrip;
pub mod scan;
pub mod sorting;
pub mod version;

use crate::error::Error;
use crate::model::RawTree;
use crate::render::{render, render_tree};
use crate::scan::{scan, scan_ok, scan_spec};
use vstd::prelude::*;

verus! {

/// Build the changelog text from a raw directory listing: scan, then
/// render.  Read-only: the listing is only consumed, never written
/// back.  Succeeds exactly on listings that follow the schema, and the
/// text is a function of the listing alone.
pub fn build(raw: RawTree) -> (r: Result<String, Error>)
    ensures
        match r {
            Ok(s) => scan_ok(raw) && s@ == render_tree(scan_spec(raw)),
            Err(e) => !scan_ok(raw) && e is Malformed,
        },
{
    match scan(raw) {
        Ok(tree) => Ok(render(&tree)),
        Err(e) => Err(e),
    }
}

} // verus!
