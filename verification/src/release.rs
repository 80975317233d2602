//! The release transition: turning the unreleased bucket into a new
//! versioned release bucket.
//!
//! The crate decides; the caller touches the disk.  `plan_release`
//! validates every precondition against the raw listing before anything
//! is mutated and yields the two steps to carry out: rename the
//! unreleased directory to the version's directory, then recreate the
//! empty unreleased skeleton.  The stage machine below tracks those two
//! steps so a failure between them surfaces as the distinct
//! partial-mutation error rather than as silence.

use crate::error::Error;
use crate::model::{
    RawBucketDir, RawCategoryDir, RawTree, bucket_categories_entry_count, bucket_dir_entry_count,
    canonical_category_dirs, canonical_kinds, category_components_entry_count,
    category_dir_entry_count, kind_dir_name, lemma_categories_count_nonneg,
    lemma_components_count_nonneg, unreleased_dir_name,
};
use crate::order::str_eq;
use crate::scan::find_unreleased;
use crate::version::{parse_version, version_of, version_ok};
use vstd::prelude::*;

verus! {

/// The on-disk steps of one release transition, in order: rename the
/// directory named `move_from` to `move_to`, then recreate `move_from`
/// holding one empty directory per name in `skeleton`.
#[derive(Clone, Debug)]
pub struct ReleasePlan {
    pub move_from: String,
    pub move_to: String,
    pub skeleton: Vec<String>,
}

/// How many entry files the unreleased bucket of a listing holds.
pub open spec fn unreleased_entry_count(raw: RawTree) -> int {
    match find_unreleased(raw.buckets@) {
        None => 0,
        Some(d) => bucket_dir_entry_count(d),
    }
}

/// Whether some release directory already carries the version `v`:
/// either the same name, or a name parsing to the same semantic
/// version.
pub open spec fn version_taken(raw: RawTree, v: Seq<char>) -> bool {
    exists|i: int|
        0 <= i < raw.buckets@.len() && (#[trigger] raw.buckets@[i]).name@ != unreleased_dir_name()
            && (raw.buckets@[i].name@ == v || (version_ok(raw.buckets@[i].name@) && version_ok(v)
            && version_of(raw.buckets@[i].name@) == version_of(v)))
}

/// Whether a category directory holds at least one entry file.
fn category_has_entries(c: &RawCategoryDir) -> (r: bool)
    ensures
        r == (category_dir_entry_count(*c) > 0),
{
    let n = c.components.len();
    let mut found = false;
    let mut k: usize = 0;
    while k < n
        invariant
            0 <= k <= n,
            n == c.components@.len(),
            found == (category_components_entry_count(c.components@.take(k as int)) > 0),
        decreases n - k,
    {
        proof {
            assert(c.components@.take(k + 1).drop_last() =~= c.components@.take(k as int));
            assert(c.components@.take(k + 1).last() == c.components@[k as int]);
            lemma_components_count_nonneg(c.components@.take(k as int));
        }
        if c.components[k].files.len() > 0 {
            found = true;
        }
        k += 1;
    }
    proof {
        assert(c.components@.take(n as int) =~= c.components@);
    }
    found
}

/// Whether a bucket directory holds at least one entry file.
fn bucket_has_entries(d: &RawBucketDir) -> (r: bool)
    ensures
        r == (bucket_dir_entry_count(*d) > 0),
{
    let n = d.categories.len();
    let mut found = false;
    let mut j: usize = 0;
    while j < n
        invariant
            0 <= j <= n,
            n == d.categories@.len(),
            found == (bucket_categories_entry_count(d.categories@.take(j as int)) > 0),
        decreases n - j,
    {
        proof {
            assert(d.categories@.take(j + 1).drop_last() =~= d.categories@.take(j as int));
            assert(d.categories@.take(j + 1).last() == d.categories@[j as int]);
            lemma_categories_count_nonneg(d.categories@.take(j as int));
            lemma_components_count_nonneg(d.categories@[j as int].components@);
        }
        if category_has_entries(&d.categories[j]) {
            found = true;
        }
        j += 1;
    }
    proof {
        assert(d.categories@.take(n as int) =~= d.categories@);
    }
    found
}

/// Validate a requested release against the listing and yield the steps
/// to carry out.  Nothing is mutated here: every precondition is checked
/// before the caller touches the disk.  An empty version label is
/// malformed; a tree with no pending entries has nothing to release; a
/// version already present (by name or by parsed value) must not be
/// released again.
pub fn plan_release(raw: &RawTree, version: &String) -> (r: Result<ReleasePlan, Error>)
    ensures
        match r {
            Ok(p) => version@.len() > 0 && unreleased_entry_count(*raw) > 0 && !version_taken(
                *raw,
                version@,
            ) && p.move_from@ == unreleased_dir_name() && p.move_to@ == version@
                && p.skeleton@.len() == canonical_kinds().len() && (forall|i: int|
                0 <= i < p.skeleton@.len() ==> (#[trigger] p.skeleton@[i])@ == kind_dir_name(
                    canonical_kinds()[i],
                )),
            Err(e) => match e {
                Error::Malformed(_) => version@.len() == 0,
                Error::EmptyRelease => version@.len() > 0 && unreleased_entry_count(*raw) == 0,
                Error::AlreadyReleased => version@.len() > 0 && unreleased_entry_count(*raw) > 0
                    && version_taken(*raw, version@),
                _ => false,
            },
        },
{
    if version.as_str().unicode_len() == 0 {
        return Err(Error::Malformed(version.clone()));
    }

    // The unreleased bucket must exist and hold at least one entry.
    let n = raw.buckets.len();
    let mut idx: Option<usize> = None;
    let mut i: usize = 0;
    while i < n
        invariant
            0 <= i <= n,
            n == raw.buckets@.len(),
            match find_unreleased(raw.buckets@.take(i as int)) {
                None => idx is None,
                Some(d) => idx matches Some(p) && p < i && raw.buckets@[p as int] == d,
            },
        decreases n - i,
    {
        proof {
            assert(raw.buckets@.take(i + 1).drop_last() =~= raw.buckets@.take(i as int));
            assert(raw.buckets@.take(i + 1).last() == raw.buckets@[i as int]);
        }
        if idx.is_none() && str_eq(raw.buckets[i].name.as_str(), "unreleased") {
            idx = Some(i);
        }
        i += 1;
    }
    proof {
        assert(raw.buckets@.take(n as int) =~= raw.buckets@);
    }
    let pending: bool = match idx {
        Some(p) => bucket_has_entries(&raw.buckets[p]),
        None => false,
    };
    if !pending {
        proof {
            if let Some(d) = find_unreleased(raw.buckets@) {
                lemma_categories_count_nonneg(d.categories@);
            }
        }
        return Err(Error::EmptyRelease);
    }

    // The version must not already exist as a release.
    let vtarget = parse_version(version.as_str());
    let mut j: usize = 0;
    while j < n
        invariant
            0 <= j <= n,
            n == raw.buckets@.len(),
            version@.len() > 0,
            unreleased_entry_count(*raw) > 0,
            vtarget == crate::version::parse_spec(version@),
            forall|p: int|
                0 <= p < j ==> !((#[trigger] raw.buckets@[p]).name@ != unreleased_dir_name() && (
                raw.buckets@[p].name@ == version@ || (version_ok(raw.buckets@[p].name@)
                    && version_ok(version@) && version_of(raw.buckets@[p].name@) == version_of(
                    version@,
                )))),
        decreases n - j,
    {
        if !str_eq(raw.buckets[j].name.as_str(), "unreleased") {
            if str_eq(raw.buckets[j].name.as_str(), version.as_str()) {
                proof {
                    assert(raw.buckets@[j as int].name@ == version@);
                    assert(version_taken(*raw, version@));
                }
                return Err(Error::AlreadyReleased);
            }
            let vj = parse_version(raw.buckets[j].name.as_str());
            if let (Some(x), Some(y)) = (&vj, &vtarget) {
                if x.major == y.major && x.minor == y.minor && x.patch == y.patch {
                    proof {
                        assert(version_of(raw.buckets@[j as int].name@) == version_of(version@));
                        assert(version_taken(*raw, version@));
                    }
                    return Err(Error::AlreadyReleased);
                }
            }
        }
        j += 1;
    }

    Ok(
        ReleasePlan {
            move_from: "unreleased".to_owned(),
            move_to: version.clone(),
            skeleton: canonical_category_dirs(),
        },
    )
}

/// Where a release transition stands.
#[derive(Clone, Debug, PartialEq, Eq)]
pub enum ReleaseStage {
    /// Nothing has been touched yet.
    NotStarted,
    /// The unreleased directory has been renamed to the version's.
    Moved,
    /// The empty unreleased skeleton has been recreated; the transition
    /// is complete.
    SkeletonRestored,
    /// The transition stopped with the given error.
    Failed(Error),
}

/// The on-disk steps of a release transition.
#[derive(Clone, Copy, Debug, PartialEq, Eq, Structural)]
pub enum ReleaseAction {
    /// Rename the unreleased directory to the version's directory.
    MoveBucket,
    /// Recreate the empty unreleased skeleton.
    RestoreSkeleton,
}

/// The next on-disk step a transition calls for, if any.
pub fn next_action(s: &ReleaseStage) -> (r: Option<ReleaseAction>)
    ensures
        match s {
            ReleaseStage::NotStarted => r == Some(ReleaseAction::MoveBucket),
            ReleaseStage::Moved => r == Some(ReleaseAction::RestoreSkeleton),
            _ => r is None,
        },
{
    match s {
        ReleaseStage::NotStarted => Some(ReleaseAction::MoveBucket),
        ReleaseStage::Moved => Some(ReleaseAction::RestoreSkeleton),
        _ => None,
    }
}

/// Advance a transition by the outcome of its current step.  A failed
/// rename stops the transition before any mutation is visible; a failed
/// skeleton restoration after a successful rename is the distinct
/// partial-mutation state, never silent success.  Terminal stages
/// absorb further events.
pub fn advance(s: ReleaseStage, step_ok: bool) -> (r: ReleaseStage)
    ensures
        match s {
            ReleaseStage::NotStarted => r == if step_ok {
                ReleaseStage::Moved
            } else {
                ReleaseStage::Failed(Error::Io)
            },
            ReleaseStage::Moved => r == if step_ok {
                ReleaseStage::SkeletonRestored
            } else {
                ReleaseStage::Failed(Error::PartialMutation)
            },
            _ => r == s,
        },
{
    match s {
        ReleaseStage::NotStarted => if step_ok {
            ReleaseStage::Moved
        } else {
            ReleaseStage::Failed(Error::Io)
        },
        ReleaseStage::Moved => if step_ok {
            ReleaseStage::SkeletonRestored
        } else {
            ReleaseStage::Failed(Error::PartialMutation)
        },
        other => other,
    }
}

} // verus!
