//! The changelog document model and the raw directory listing it is
//! scanned from.
//!
//! A raw listing is what a caller reads off the disk: bucket directories
//! at the root, category directories inside each bucket, component
//! directories inside each category, and one file per entry inside each
//! component, plus the optional epilogue file's contents.  The model is
//! the ordered, validated document built from such a listing.

use vstd::prelude::*;

verus! {

/// One entry file: its name and its full contents.
#[derive(Clone, Debug)]
pub struct RawFile {
    pub name: String,
    pub text: String,
}

/// One component directory with its entry files, in no particular order.
#[derive(Clone, Debug)]
pub struct RawComponentDir {
    pub name: String,
    pub files: Vec<RawFile>,
}

/// One category directory with its component directories.
#[derive(Clone, Debug)]
pub struct RawCategoryDir {
    pub name: String,
    pub components: Vec<RawComponentDir>,
}

/// One bucket directory: `unreleased` or a release label.
#[derive(Clone, Debug)]
pub struct RawBucketDir {
    pub name: String,
    pub categories: Vec<RawCategoryDir>,
}

/// A whole changelog directory as read from disk, in no particular order.
#[derive(Clone, Debug)]
pub struct RawTree {
    pub buckets: Vec<RawBucketDir>,
    pub epilogue: Option<String>,
}

/// One change description, ordered by the name of the file it came from.
#[derive(Clone, Debug)]
pub struct Entry {
    pub id: String,
    pub text: String,
}

/// A named group of entries belonging to one subsystem.
#[derive(Clone, Debug)]
pub struct ComponentGroup {
    pub name: String,
    pub entries: Vec<Entry>,
}

/// The fixed, closed set of change categories, in canonical display
/// order.
#[derive(Clone, Copy, Debug, PartialEq, Eq, Structural)]
pub enum CategoryKind {
    BreakingChanges,
    Features,
    Improvements,
    BugFixes,
}

/// One category of changes with its component groups.
#[derive(Clone, Debug)]
pub struct Category {
    pub kind: CategoryKind,
    pub groups: Vec<ComponentGroup>,
}

/// The categories of one bucket.
#[derive(Clone, Debug)]
pub struct Bucket {
    pub categories: Vec<Category>,
}

/// One released version: its display label and its contents.
#[derive(Clone, Debug)]
pub struct Release {
    pub label: String,
    pub bucket: Bucket,
}

/// The whole changelog document: the pending bucket, the releases newest
/// first, and the optional trailing epilogue.
#[derive(Clone, Debug)]
pub struct ChangelogTree {
    pub unreleased: Option<Bucket>,
    pub releases: Vec<Release>,
    pub epilogue: Option<String>,
}

/// The name of the pending bucket's directory.
pub open spec fn unreleased_dir_name() -> Seq<char> {
    "unreleased"@
}

/// The canonical display position of a category.
pub open spec fn kind_ordinal(k: CategoryKind) -> int {
    match k {
        CategoryKind::BreakingChanges => 0,
        CategoryKind::Features => 1,
        CategoryKind::Improvements => 2,
        CategoryKind::BugFixes => 3,
    }
}

/// The directory name that holds a category's entries.
pub open spec fn kind_dir_name(k: CategoryKind) -> Seq<char> {
    match k {
        CategoryKind::BreakingChanges => "breaking-changes"@,
        CategoryKind::Features => "features"@,
        CategoryKind::Improvements => "improvements"@,
        CategoryKind::BugFixes => "bug-fixes"@,
    }
}

/// The heading under which a category renders.
pub open spec fn kind_title(k: CategoryKind) -> Seq<char> {
    match k {
        CategoryKind::BreakingChanges => "BREAKING CHANGES"@,
        CategoryKind::Features => "FEATURES"@,
        CategoryKind::Improvements => "IMPROVEMENTS"@,
        CategoryKind::BugFixes => "BUG FIXES"@,
    }
}

/// All categories, in canonical display order.
pub open spec fn canonical_kinds() -> Seq<CategoryKind> {
    seq![
        CategoryKind::BreakingChanges,
        CategoryKind::Features,
        CategoryKind::Improvements,
        CategoryKind::BugFixes,
    ]
}

/// Whether a directory name is one of the canonical category names.
pub open spec fn recognized_category(name: Seq<char>) -> bool {
    exists|k: CategoryKind| kind_dir_name(k) == name
}

/// The four canonical category directory names are pairwise distinct;
/// their lengths already differ.
pub proof fn lemma_kind_names_distinct()
    ensures
        "breaking-changes"@ != "features"@,
        "breaking-changes"@ != "improvements"@,
        "breaking-changes"@ != "bug-fixes"@,
        "features"@ != "improvements"@,
        "features"@ != "bug-fixes"@,
        "improvements"@ != "bug-fixes"@,
{
    reveal_strlit("breaking-changes");
    reveal_strlit("features");
    reveal_strlit("improvements");
    reveal_strlit("bug-fixes");
    assert("breaking-changes"@.len() == 16);
    assert("features"@.len() == 8);
    assert("improvements"@.len() == 12);
    assert("bug-fixes"@.len() == 9);
}

/// The heading of a category, as a string slice.
pub fn kind_title_str(k: &CategoryKind) -> (r: &'static str)
    ensures
        r@ == kind_title(*k),
{
    match k {
        CategoryKind::BreakingChanges => "BREAKING CHANGES",
        CategoryKind::Features => "FEATURES",
        CategoryKind::Improvements => "IMPROVEMENTS",
        CategoryKind::BugFixes => "BUG FIXES",
    }
}

/// The canonical category directory names, in canonical order; this is
/// the skeleton an empty unreleased bucket is made of.
pub fn canonical_category_dirs() -> (r: Vec<String>)
    ensures
        r@.len() == canonical_kinds().len(),
        forall|i: int|
            0 <= i < r@.len() ==> #[trigger] r@[i]@ == kind_dir_name(canonical_kinds()[i]),
{
    let mut v: Vec<String> = Vec::new();
    v.push("breaking-changes".to_owned());
    v.push("features".to_owned());
    v.push("improvements".to_owned());
    v.push("bug-fixes".to_owned());
    v
}

/// The number of entries in one category directory's listing.
pub open spec fn category_dir_entry_count(d: RawCategoryDir) -> int
    decreases d.components@.len(),
{
    category_components_entry_count(d.components@)
}

/// The number of entry files across a run of component directories.
pub open spec fn category_components_entry_count(s: Seq<RawComponentDir>) -> int
    decreases s.len(),
{
    if s.len() == 0 {
        0
    } else {
        category_components_entry_count(s.drop_last()) + s.last().files@.len()
    }
}

/// The number of entry files in a bucket directory's listing.
pub open spec fn bucket_dir_entry_count(d: RawBucketDir) -> int {
    bucket_categories_entry_count(d.categories@)
}

/// The number of entry files across a run of category directories.
pub open spec fn bucket_categories_entry_count(s: Seq<RawCategoryDir>) -> int
    decreases s.len(),
{
    if s.len() == 0 {
        0
    } else {
        bucket_categories_entry_count(s.drop_last()) + category_dir_entry_count(s.last())
    }
}

/// The mathematical model of an entry.
#[verifier::ext_equal]
pub struct EntryV {
    pub id: Seq<char>,
    pub text: Seq<char>,
}

/// The mathematical model of a component group.
#[verifier::ext_equal]
pub struct GroupV {
    pub name: Seq<char>,
    pub entries: Seq<EntryV>,
}

/// The mathematical model of a category.
#[verifier::ext_equal]
pub struct CategoryV {
    pub kind: CategoryKind,
    pub groups: Seq<GroupV>,
}

/// The mathematical model of a bucket.
#[verifier::ext_equal]
pub struct BucketV {
    pub categories: Seq<CategoryV>,
}

/// The mathematical model of a release.
#[verifier::ext_equal]
pub struct ReleaseV {
    pub label: Seq<char>,
    pub bucket: BucketV,
}

/// The mathematical model of a whole changelog document.
#[verifier::ext_equal]
pub struct TreeV {
    pub unreleased: Option<BucketV>,
    pub releases: Seq<ReleaseV>,
    pub epilogue: Option<Seq<char>>,
}

impl View for Entry {
    type V = EntryV;

    open spec fn view(&self) -> EntryV {
        EntryV { id: self.id@, text: self.text@ }
    }
}

impl View for ComponentGroup {
    type V = GroupV;

    open spec fn view(&self) -> GroupV {
        GroupV { name: self.name@, entries: self.entries@.map_values(|e: Entry| e@) }
    }
}

impl View for Category {
    type V = CategoryV;

    open spec fn view(&self) -> CategoryV {
        CategoryV { kind: self.kind, groups: self.groups@.map_values(|g: ComponentGroup| g@) }
    }
}

impl View for Bucket {
    type V = BucketV;

    open spec fn view(&self) -> BucketV {
        BucketV { categories: self.categories@.map_values(|c: Category| c@) }
    }
}

impl View for Release {
    type V = ReleaseV;

    open spec fn view(&self) -> ReleaseV {
        ReleaseV { label: self.label@, bucket: self.bucket@ }
    }
}

impl View for ChangelogTree {
    type V = TreeV;

    open spec fn view(&self) -> TreeV {
        TreeV {
            unreleased: match self.unreleased {
                Some(b) => Some(b@),
                None => None,
            },
            releases: self.releases@.map_values(|r: Release| r@),
            epilogue: match self.epilogue {
                Some(e) => Some(e@),
                None => None,
            },
        }
    }
}

/// A run of component entry counts is never negative.
pub proof fn lemma_components_count_nonneg(s: Seq<RawComponentDir>)
    ensures
        category_components_entry_count(s) >= 0,
    decreases s.len(),
{
    if s.len() > 0 {
        lemma_components_count_nonneg(s.drop_last());
    }
}

/// A run of category entry counts is never negative.
pub proof fn lemma_categories_count_nonneg(s: Seq<RawCategoryDir>)
    ensures
        bucket_categories_entry_count(s) >= 0,
    decreases s.len(),
{
    if s.len() > 0 {
        lemma_categories_count_nonneg(s.drop_last());
        lemma_components_count_nonneg(s.last().components@);
    }
}

} // verus!
