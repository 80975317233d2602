//! Scanning a raw directory listing into the changelog model.
//!
//! The scan validates the listing (recognized category names, no
//! duplicate directory names, no duplicate release versions) and builds
//! the ordered document: entries by filename, component groups by name,
//! categories in canonical order, releases newest first.  Empty
//! component groups and empty categories are pruned.  What the scan
//! yields is pinned, element for element, by `scan_spec`.

use crate::error::Error;
use crate::model::{
    Bucket, BucketV, Category, CategoryKind, CategoryV, ChangelogTree, ComponentGroup, Entry,
    EntryV, GroupV, RawBucketDir, RawCategoryDir, RawComponentDir, RawFile, RawTree, Release,
    ReleaseV, TreeV, kind_dir_name, recognized_category, unreleased_dir_name,
};
use crate::order::str_eq;
use crate::sorting::{
    sort_components, sort_files, sort_releases, sorted_components, sorted_files, sorted_releases,
};
use crate::version::{parse_version, version_of, version_ok};
use vstd::prelude::*;

verus! {

/// The entry an entry file denotes.
pub open spec fn entry_view(f: RawFile) -> EntryV {
    EntryV { id: f.name@, text: f.text@ }
}

/// The component group a component directory denotes: its entries,
/// ordered by filename.
pub open spec fn group_view(c: RawComponentDir) -> GroupV {
    GroupV { name: c.name@, entries: sort_files(c.files@).map_values(|f: RawFile| entry_view(f)) }
}

/// The component directories that hold at least one entry file, in
/// listing order.
pub open spec fn nonempty_components(s: Seq<RawComponentDir>) -> Seq<RawComponentDir>
    decreases s.len(),
{
    if s.len() == 0 {
        Seq::empty()
    } else {
        let r = nonempty_components(s.drop_last());
        if s.last().files@.len() > 0 {
            r.push(s.last())
        } else {
            r
        }
    }
}

/// The groups a category directory denotes: its non-empty components,
/// ordered by name.
pub open spec fn category_groups(c: RawCategoryDir) -> Seq<GroupV> {
    sort_components(nonempty_components(c.components@)).map_values(
        |d: RawComponentDir| group_view(d),
    )
}

/// The first category directory named for the kind `k`, if any.
pub open spec fn find_category(s: Seq<RawCategoryDir>, k: CategoryKind) -> Option<RawCategoryDir>
    decreases s.len(),
{
    if s.len() == 0 {
        None
    } else {
        let r = find_category(s.drop_last(), k);
        if r is Some {
            r
        } else if s.last().name@ == kind_dir_name(k) {
            Some(s.last())
        } else {
            None
        }
    }
}

/// The rendered categories of kind `k`: none when the kind's directory
/// is absent or prunes to nothing, else exactly one.
pub open spec fn categories_for_kind(s: Seq<RawCategoryDir>, k: CategoryKind) -> Seq<CategoryV> {
    match find_category(s, k) {
        None => Seq::empty(),
        Some(c) => {
            let gs = category_groups(c);
            if gs.len() == 0 {
                Seq::empty()
            } else {
                seq![CategoryV { kind: k, groups: gs }]
            }
        },
    }
}

/// The bucket a bucket directory's categories denote, in canonical
/// category order.
pub open spec fn bucket_spec(s: Seq<RawCategoryDir>) -> BucketV {
    BucketV {
        categories: categories_for_kind(s, CategoryKind::BreakingChanges) + categories_for_kind(
            s,
            CategoryKind::Features,
        ) + categories_for_kind(s, CategoryKind::Improvements) + categories_for_kind(
            s,
            CategoryKind::BugFixes,
        ),
    }
}

/// A bucket directory's immediate children are valid: every name is a
/// canonical category name, and no name repeats.
pub open spec fn bucket_dirs_ok(s: Seq<RawCategoryDir>) -> bool {
    &&& forall|i: int| 0 <= i < s.len() ==> recognized_category(#[trigger] s[i].name@)
    &&& forall|i: int, j: int|
        0 <= i < j < s.len() ==> (#[trigger] s[i].name@) != (#[trigger] s[j].name@)
}

/// The first bucket directory named `unreleased`, if any.
pub open spec fn find_unreleased(s: Seq<RawBucketDir>) -> Option<RawBucketDir>
    decreases s.len(),
{
    if s.len() == 0 {
        None
    } else {
        let r = find_unreleased(s.drop_last());
        if r is Some {
            r
        } else if s.last().name@ == unreleased_dir_name() {
            Some(s.last())
        } else {
            None
        }
    }
}

/// The bucket directories that are releases, in listing order.
pub open spec fn release_dirs(s: Seq<RawBucketDir>) -> Seq<RawBucketDir>
    decreases s.len(),
{
    if s.len() == 0 {
        Seq::empty()
    } else {
        let r = release_dirs(s.drop_last());
        if s.last().name@ != unreleased_dir_name() {
            r.push(s.last())
        } else {
            r
        }
    }
}

/// The release a release directory denotes.
pub open spec fn release_view(d: RawBucketDir) -> ReleaseV {
    ReleaseV { label: d.name@, bucket: bucket_spec(d.categories@) }
}

/// No two bucket directories share a name.
pub open spec fn distinct_bucket_names(s: Seq<RawBucketDir>) -> bool {
    forall|i: int, j: int|
        0 <= i < j < s.len() ==> (#[trigger] s[i].name@) != (#[trigger] s[j].name@)
}

/// No two release directories parse to the same semantic version.
pub open spec fn no_duplicate_versions(s: Seq<RawBucketDir>) -> bool {
    forall|i: int, j: int|
        0 <= i < j < s.len() ==> !(version_ok((#[trigger] s[i]).name@) && version_ok(
            (#[trigger] s[j]).name@,
        ) && version_of(s[i].name@) == version_of(s[j].name@))
}

/// Whether a raw listing is a structurally valid changelog tree.
pub open spec fn scan_ok(raw: RawTree) -> bool {
    &&& distinct_bucket_names(raw.buckets@)
    &&& forall|i: int|
        0 <= i < raw.buckets@.len() ==> bucket_dirs_ok(#[trigger] raw.buckets@[i].categories@)
    &&& no_duplicate_versions(release_dirs(raw.buckets@))
}

/// The document a valid raw listing denotes.
pub open spec fn scan_spec(raw: RawTree) -> TreeV {
    TreeV {
        unreleased: match find_unreleased(raw.buckets@) {
            None => None,
            Some(d) => Some(bucket_spec(d.categories@)),
        },
        releases: sort_releases(release_dirs(raw.buckets@)).map_values(
            |d: RawBucketDir| release_view(d),
        ),
        epilogue: match raw.epilogue {
            None => None,
            Some(e) => Some(e@),
        },
    }
}

/// The category kind a directory name denotes, if any.
pub fn recognized_kind(name: &str) -> (r: Option<CategoryKind>)
    ensures
        match r {
            Some(k) => kind_dir_name(k) == name@ && recognized_category(name@),
            None => !recognized_category(name@),
        },
{
    if str_eq(name, "breaking-changes") {
        proof {
            assert(kind_dir_name(CategoryKind::BreakingChanges) == name@);
        }
        Some(CategoryKind::BreakingChanges)
    } else if str_eq(name, "features") {
        proof {
            assert(kind_dir_name(CategoryKind::Features) == name@);
        }
        Some(CategoryKind::Features)
    } else if str_eq(name, "improvements") {
        proof {
            assert(kind_dir_name(CategoryKind::Improvements) == name@);
        }
        Some(CategoryKind::Improvements)
    } else if str_eq(name, "bug-fixes") {
        proof {
            assert(kind_dir_name(CategoryKind::BugFixes) == name@);
        }
        Some(CategoryKind::BugFixes)
    } else {
        proof {
            assert forall|k: CategoryKind| kind_dir_name(k) != name@ by {
                match k {
                    CategoryKind::BreakingChanges => {},
                    CategoryKind::Features => {},
                    CategoryKind::Improvements => {},
                    CategoryKind::BugFixes => {},
                }
            };
        }
        None
    }
}

/// Build one component group from its directory.
fn build_group(c: RawComponentDir) -> (r: ComponentGroup)
    ensures
        r@ == group_view(c),
{
    let ghost c0 = c;
    let ghost sf = sort_files(c.files@);
    let RawComponentDir { name, files } = c;
    let sorted = sorted_files(files);
    let mut rem = sorted;
    let mut entries: Vec<Entry> = Vec::new();
    while rem.len() > 0
        invariant
            entries@.len() + rem@.len() == sf.len(),
            rem@ == sf.skip(entries@.len() as int),
            forall|l: int|
                0 <= l < entries@.len() ==> (#[trigger] entries@[l])@ == entry_view(sf[l]),
        decreases rem@.len(),
    {
        let ghost k = entries@.len() as int;
        let f = rem.remove(0);
        proof {
            assert(f == sf[k]);
            assert(rem@ =~= sf.skip(k + 1));
        }
        entries.push(Entry { id: f.name, text: f.text });
    }
    let r = ComponentGroup { name, entries };
    proof {
        assert(r@.entries =~= group_view(c0).entries);
    }
    r
}

/// Build the groups of one category directory: non-empty components,
/// ordered by name.
fn build_category_groups(c: RawCategoryDir) -> (r: Vec<ComponentGroup>)
    ensures
        r@.map_values(|g: ComponentGroup| g@) == category_groups(c),
{
    let ghost c0 = c;
    let ghost orig = c.components@;
    let RawCategoryDir { name: _, components } = c;
    let mut rem = components;
    let mut kept: Vec<RawComponentDir> = Vec::new();
    let ghost mut i: int = 0;
    while rem.len() > 0
        invariant
            0 <= i <= orig.len(),
            rem@ == orig.skip(i),
            kept@ == nonempty_components(orig.take(i)),
        decreases rem@.len(),
    {
        let d = rem.remove(0);
        proof {
            assert(d == orig[i]);
            assert(rem@ =~= orig.skip(i + 1));
            assert(orig.take(i + 1).drop_last() =~= orig.take(i));
            assert(orig.take(i + 1).last() == orig[i]);
        }
        if d.files.len() > 0 {
            kept.push(d);
        }
        proof {
            i = i + 1;
        }
    }
    proof {
        assert(orig.take(orig.len() as int) =~= orig);
    }
    let sorted = sorted_components(kept);
    let ghost sc = sort_components(nonempty_components(orig));
    let mut rem2 = sorted;
    let mut groups: Vec<ComponentGroup> = Vec::new();
    while rem2.len() > 0
        invariant
            groups@.len() + rem2@.len() == sc.len(),
            rem2@ == sc.skip(groups@.len() as int),
            forall|l: int| 0 <= l < groups@.len() ==> (#[trigger] groups@[l])@ == group_view(sc[l]),
        decreases rem2@.len(),
    {
        let ghost k = groups@.len() as int;
        let d = rem2.remove(0);
        proof {
            assert(d == sc[k]);
            assert(rem2@ =~= sc.skip(k + 1));
        }
        let g = build_group(d);
        groups.push(g);
    }
    proof {
        assert(groups@.map_values(|g: ComponentGroup| g@) =~= category_groups(c0));
    }
    groups
}

/// Build one bucket from its category directories, pruning empty
/// categories and ordering the rest canonically.
fn build_bucket(cats: Vec<RawCategoryDir>) -> (r: Bucket)
    ensures
        r@ == bucket_spec(cats@),
{
    let ghost orig = cats@;
    let mut rem = cats;
    let mut slot_breaking: Option<Vec<ComponentGroup>> = None;
    let mut slot_features: Option<Vec<ComponentGroup>> = None;
    let mut slot_improvements: Option<Vec<ComponentGroup>> = None;
    let mut slot_bugfixes: Option<Vec<ComponentGroup>> = None;
    let ghost mut i: int = 0;
    while rem.len() > 0
        invariant
            0 <= i <= orig.len(),
            rem@ == orig.skip(i),
            match find_category(orig.take(i), CategoryKind::BreakingChanges) {
                None => slot_breaking is None,
                Some(c) => slot_breaking matches Some(v) && v@.map_values(|g: ComponentGroup| g@)
                    == category_groups(c),
            },
            match find_category(orig.take(i), CategoryKind::Features) {
                None => slot_features is None,
                Some(c) => slot_features matches Some(v) && v@.map_values(|g: ComponentGroup| g@)
                    == category_groups(c),
            },
            match find_category(orig.take(i), CategoryKind::Improvements) {
                None => slot_improvements is None,
                Some(c) => slot_improvements matches Some(v) && v@.map_values(
                    |g: ComponentGroup| g@,
                ) == category_groups(c),
            },
            match find_category(orig.take(i), CategoryKind::BugFixes) {
                None => slot_bugfixes is None,
                Some(c) => slot_bugfixes matches Some(v) && v@.map_values(|g: ComponentGroup| g@)
                    == category_groups(c),
            },
        decreases rem@.len(),
    {
        let d = rem.remove(0);
        proof {
            crate::model::lemma_kind_names_distinct();
            assert(d == orig[i]);
            assert(rem@ =~= orig.skip(i + 1));
            assert(orig.take(i + 1).drop_last() =~= orig.take(i));
            assert(orig.take(i + 1).last() == orig[i]);
        }
        let kind = recognized_kind(d.name.as_str());
        match kind {
            Some(CategoryKind::BreakingChanges) => {
                if slot_breaking.is_none() {
                    slot_breaking = Some(build_category_groups(d));
                }
            },
            Some(CategoryKind::Features) => {
                if slot_features.is_none() {
                    slot_features = Some(build_category_groups(d));
                }
            },
            Some(CategoryKind::Improvements) => {
                if slot_improvements.is_none() {
                    slot_improvements = Some(build_category_groups(d));
                }
            },
            Some(CategoryKind::BugFixes) => {
                if slot_bugfixes.is_none() {
                    slot_bugfixes = Some(build_category_groups(d));
                }
            },
            None => {},
        }
        proof {
            i = i + 1;
        }
    }
    proof {
        assert(orig.take(orig.len() as int) =~= orig);
    }
    let mut categories: Vec<Category> = Vec::new();
    if let Some(gs) = slot_breaking {
        if gs.len() > 0 {
            categories.push(Category { kind: CategoryKind::BreakingChanges, groups: gs });
        }
    }
    if let Some(gs) = slot_features {
        if gs.len() > 0 {
            categories.push(Category { kind: CategoryKind::Features, groups: gs });
        }
    }
    if let Some(gs) = slot_improvements {
        if gs.len() > 0 {
            categories.push(Category { kind: CategoryKind::Improvements, groups: gs });
        }
    }
    if let Some(gs) = slot_bugfixes {
        if gs.len() > 0 {
            categories.push(Category { kind: CategoryKind::BugFixes, groups: gs });
        }
    }
    let r = Bucket { categories };
    proof {
        assert(r@.categories =~= bucket_spec(orig).categories);
    }
    r
}

/// The name of a release directory whose version repeats an earlier
/// one, if any two parse to the same semantic version.
fn find_duplicate_version(rel: &Vec<RawBucketDir>) -> (r: Option<String>)
    ensures
        match r {
            None => no_duplicate_versions(rel@),
            Some(_) => !no_duplicate_versions(rel@),
        },
{
    let rn = rel.len();
    let mut ra: usize = 0;
    while ra < rn
        invariant
            rn == rel@.len(),
            forall|p: int, q: int|
                0 <= p < ra && p < q < rn ==> !(version_ok((#[trigger] rel@[p]).name@)
                    && version_ok((#[trigger] rel@[q]).name@) && version_of(rel@[p].name@)
                    == version_of(rel@[q].name@)),
        decreases rn - ra,
    {
        let va = parse_version(rel[ra].name.as_str());
        if va.is_some() {
            let mut rb: usize = ra + 1;
            while rb < rn
                invariant
                    ra < rb <= rn,
                    rn == rel@.len(),
                    version_ok(rel@[ra as int].name@),
                    va == Some(version_of(rel@[ra as int].name@)),
                    forall|q: int|
                        ra < q < rb ==> !(version_ok((#[trigger] rel@[q]).name@) && version_of(
                            rel@[q].name@,
                        ) == version_of(rel@[ra as int].name@)),
                decreases rn - rb,
            {
                let vb = parse_version(rel[rb].name.as_str());
                if let (Some(x), Some(y)) = (&va, &vb) {
                    if x.major == y.major && x.minor == y.minor && x.patch == y.patch {
                        proof {
                            assert(version_of(rel@[ra as int].name@) == version_of(
                                rel@[rb as int].name@,
                            ));
                            assert(!no_duplicate_versions(rel@));
                        }
                        return Some(rel[rb].name.clone());
                    }
                }
                rb += 1;
            }
        }
        ra += 1;
    }
    None
}

/// Scan a raw listing into the changelog document, or fail with the
/// offending name when the listing does not follow the schema.
pub fn scan(raw: RawTree) -> (r: Result<ChangelogTree, Error>)
    ensures
        match r {
            Ok(t) => scan_ok(raw) && t@ == scan_spec(raw),
            Err(e) => !scan_ok(raw) && e is Malformed,
        },
{
    let ghost raw0 = raw;
    let n = raw.buckets.len();

    // Bucket directory names must not repeat.
    let mut a: usize = 0;
    while a < n
        invariant
            n == raw.buckets@.len(),
            forall|p: int, q: int|
                0 <= p < a && p < q < n ==> (#[trigger] raw.buckets@[p].name@) != (
                #[trigger] raw.buckets@[q].name@),
        decreases n - a,
    {
        let mut b: usize = a + 1;
        while b < n
            invariant
                a < b <= n,
                n == raw.buckets@.len(),
                forall|q: int|
                    a < q < b ==> (#[trigger] raw.buckets@[q].name@) != raw.buckets@[a as int].name@,
            decreases n - b,
        {
            if str_eq(raw.buckets[a].name.as_str(), raw.buckets[b].name.as_str()) {
                proof {
                    assert(!distinct_bucket_names(raw.buckets@));
                }
                return Err(Error::Malformed(raw.buckets[b].name.clone()));
            }
            b += 1;
        }
        a += 1;
    }

    // Category directory names must be canonical and must not repeat.
    let mut bi: usize = 0;
    while bi < n
        invariant
            n == raw.buckets@.len(),
            forall|p: int|
                0 <= p < bi ==> bucket_dirs_ok(#[trigger] raw.buckets@[p].categories@),
        decreases n - bi,
    {
        let cn = raw.buckets[bi].categories.len();
        let mut ci: usize = 0;
        while ci < cn
            invariant
                bi < n,
                n == raw.buckets@.len(),
                cn == raw.buckets@[bi as int].categories@.len(),
                forall|p: int|
                    0 <= p < ci ==> recognized_category(
                        #[trigger] raw.buckets@[bi as int].categories@[p].name@,
                    ),
            decreases cn - ci,
        {
            let k = recognized_kind(raw.buckets[bi].categories[ci].name.as_str());
            if k.is_none() {
                proof {
                    assert(!bucket_dirs_ok(raw.buckets@[bi as int].categories@));
                }
                return Err(Error::Malformed(raw.buckets[bi].categories[ci].name.clone()));
            }
            ci += 1;
        }
        let mut ca: usize = 0;
        while ca < cn
            invariant
                bi < n,
                n == raw.buckets@.len(),
                cn == raw.buckets@[bi as int].categories@.len(),
                forall|p: int|
                    0 <= p < cn ==> recognized_category(
                        #[trigger] raw.buckets@[bi as int].categories@[p].name@,
                    ),
                forall|p: int, q: int|
                    0 <= p < ca && p < q < cn ==> (#[trigger] raw.buckets@[bi as int].categories@[p].name@)
                        != (#[trigger] raw.buckets@[bi as int].categories@[q].name@),
            decreases cn - ca,
        {
            let mut cb: usize = ca + 1;
            while cb < cn
                invariant
                    ca < cb <= cn,
                    bi < n,
                    n == raw.buckets@.len(),
                    cn == raw.buckets@[bi as int].categories@.len(),
                    forall|q: int|
                        ca < q < cb ==> (#[trigger] raw.buckets@[bi as int].categories@[q].name@)
                            != raw.buckets@[bi as int].categories@[ca as int].name@,
                decreases cn - cb,
            {
                if str_eq(
                    raw.buckets[bi].categories[ca].name.as_str(),
                    raw.buckets[bi].categories[cb].name.as_str(),
                ) {
                    proof {
                        assert(!bucket_dirs_ok(raw.buckets@[bi as int].categories@));
                    }
                    return Err(Error::Malformed(raw.buckets[bi].categories[cb].name.clone()));
                }
                cb += 1;
            }
            ca += 1;
        }
        bi += 1;
    }

    // Split the listing into the unreleased bucket and the releases.
    let ghost buckets0 = raw.buckets@;
    let RawTree { buckets, epilogue } = raw;
    let mut rem = buckets;
    let mut unreleased_dir: Option<RawBucketDir> = None;
    let mut rel: Vec<RawBucketDir> = Vec::new();
    let ghost mut i: int = 0;
    while rem.len() > 0
        invariant
            0 <= i <= buckets0.len(),
            rem@ == buckets0.skip(i),
            rel@ == release_dirs(buckets0.take(i)),
            unreleased_dir == find_unreleased(buckets0.take(i)),
        decreases rem@.len(),
    {
        let d = rem.remove(0);
        proof {
            assert(d == buckets0[i]);
            assert(rem@ =~= buckets0.skip(i + 1));
            assert(buckets0.take(i + 1).drop_last() =~= buckets0.take(i));
            assert(buckets0.take(i + 1).last() == buckets0[i]);
        }
        if str_eq(d.name.as_str(), "unreleased") {
            if unreleased_dir.is_none() {
                unreleased_dir = Some(d);
            }
        } else {
            rel.push(d);
        }
        proof {
            i = i + 1;
        }
    }
    proof {
        assert(buckets0.take(buckets0.len() as int) =~= buckets0);
    }

    // Release versions must not repeat.
    if let Some(dup) = find_duplicate_version(&rel) {
        proof {
            assert(!no_duplicate_versions(release_dirs(raw0.buckets@)));
        }
        return Err(Error::Malformed(dup));
    }

    // Build the document.
    let unreleased: Option<Bucket> = match unreleased_dir {
        Some(d) => Some(build_bucket(d.categories)),
        None => None,
    };
    let sorted = sorted_releases(rel);
    let ghost sr = sort_releases(release_dirs(buckets0));
    let mut rem2 = sorted;
    let mut releases: Vec<Release> = Vec::new();
    while rem2.len() > 0
        invariant
            releases@.len() + rem2@.len() == sr.len(),
            rem2@ == sr.skip(releases@.len() as int),
            forall|l: int|
                0 <= l < releases@.len() ==> (#[trigger] releases@[l])@ == release_view(sr[l]),
        decreases rem2@.len(),
    {
        let ghost k = releases@.len() as int;
        let d = rem2.remove(0);
        proof {
            assert(d == sr[k]);
            assert(rem2@ =~= sr.skip(k + 1));
        }
        let ghost d0 = d;
        let RawBucketDir { name, categories } = d;
        let bucket = build_bucket(categories);
        releases.push(Release { label: name, bucket });
        proof {
            assert(releases@[k]@ == release_view(d0));
        }
    }
    proof {
        assert(releases@.map_values(|r: Release| r@) =~= sr.map_values(
            |d: RawBucketDir| release_view(d),
        ));
    }
    let tree = ChangelogTree { unreleased, releases, epilogue };
    proof {
        assert(tree@.releases == scan_spec(raw0).releases);
        assert(tree@ =~= scan_spec(raw0)) by {
            assert(tree@.unreleased == scan_spec(raw0).unreleased);
            assert(tree@.epilogue == scan_spec(raw0).epilogue);
        }
    }
    Ok(tree)
}

} // verus!
