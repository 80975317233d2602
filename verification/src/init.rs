//! Creating a fresh, empty changelog skeleton.
//!
//! The crate decides; the caller touches the disk.  `plan_init` refuses
//! to touch a directory that already looks initialized (fail rather
//! than merge, so existing entries are never destroyed) and otherwise
//! yields the skeleton to create and the epilogue contents to write.

use crate::error::Error;
use crate::model::{canonical_category_dirs, canonical_kinds, kind_dir_name, unreleased_dir_name};
use vstd::prelude::*;

verus! {

/// What initializing a changelog directory must create: the unreleased
/// directory, one empty category directory per name in `category_dirs`
/// inside it, and, when present, the epilogue file with the given
/// contents.
#[derive(Clone, Debug)]
pub struct InitPlan {
    pub unreleased_dir: String,
    pub category_dirs: Vec<String>,
    pub epilogue: Option<String>,
}

/// Decide an init request.  `already_initialized` reports whether the
/// target already holds a changelog structure; in that case nothing may
/// be created or overwritten.
pub fn plan_init(already_initialized: bool, epilogue: Option<String>) -> (r: Result<
    InitPlan,
    Error,
>)
    ensures
        match r {
            Ok(p) => !already_initialized && p.unreleased_dir@ == unreleased_dir_name()
                && p.category_dirs@.len() == canonical_kinds().len() && (forall|i: int|
                0 <= i < p.category_dirs@.len() ==> (#[trigger] p.category_dirs@[i])@
                    == kind_dir_name(canonical_kinds()[i])) && p.epilogue == epilogue,
            Err(e) => already_initialized && e is Malformed,
        },
{
    if already_initialized {
        return Err(Error::Malformed("already initialized".to_owned()));
    }
    Ok(
        InitPlan {
            unreleased_dir: "unreleased".to_owned(),
            category_dirs: canonical_category_dirs(),
            epilogue,
        },
    )
}

} // verus!
