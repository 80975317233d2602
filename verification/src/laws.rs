//! The laws every scanned changelog obeys, stated over the model and
//! proved once for every listing.

use crate::model::{BucketV, CategoryKind, GroupV, RawCategoryDir, RawComponentDir, RawTree, kind_ordinal};
use crate::order::lex_le;
use crate::render::render_tree;
use crate::scan::{
    bucket_spec, categories_for_kind, category_groups, find_unreleased, group_view, release_dirs,
    scan_spec,
};
use crate::sorting::{lemma_sort_files_ordered, sort_components, sort_files, sort_releases};
use vstd::prelude::*;

verus! {

/// A group lists its entries in lexical filename order.
pub open spec fn group_entries_ordered(g: GroupV) -> bool {
    forall|i: int, j: int|
        0 <= i < j < g.entries.len() ==> lex_le(
            (#[trigger] g.entries[i]).id,
            (#[trigger] g.entries[j]).id,
        )
}

/// Every group of every category of a bucket lists its entries in
/// lexical filename order.
pub open spec fn bucket_entries_ordered(b: BucketV) -> bool {
    forall|c: int, g: int|
        0 <= c < b.categories.len() && 0 <= g < b.categories[c].groups.len()
            ==> group_entries_ordered(#[trigger] b.categories[c].groups[g])
}

/// A bucket's categories appear in strictly ascending canonical order.
pub open spec fn bucket_categories_canonical(b: BucketV) -> bool {
    forall|i: int, j: int|
        0 <= i < j < b.categories.len() ==> kind_ordinal((#[trigger] b.categories[i]).kind)
            < kind_ordinal((#[trigger] b.categories[j]).kind)
}

/// The group a component directory denotes is ordered by filename.
proof fn lemma_group_view_ordered(d: RawComponentDir)
    ensures
        group_entries_ordered(group_view(d)),
{
    lemma_sort_files_ordered(d.files@);
    let sf = sort_files(d.files@);
    let g = group_view(d);
    assert forall|i: int, j: int|
        0 <= i < j < g.entries.len() implies lex_le(
        (#[trigger] g.entries[i]).id,
        (#[trigger] g.entries[j]).id,
    ) by {
        assert(g.entries[i] == crate::scan::entry_view(sf[i]));
        assert(g.entries[j] == crate::scan::entry_view(sf[j]));
    };
}

/// Every bucket a listing denotes obeys both ordering laws: entries in
/// lexical filename order, categories in canonical order.
proof fn lemma_bucket_spec_laws(s: Seq<RawCategoryDir>)
    ensures
        bucket_entries_ordered(bucket_spec(s)),
        bucket_categories_canonical(bucket_spec(s)),
{
    let b = bucket_spec(s);
    let p0 = categories_for_kind(s, CategoryKind::BreakingChanges);
    let p1 = categories_for_kind(s, CategoryKind::Features);
    let p2 = categories_for_kind(s, CategoryKind::Improvements);
    let p3 = categories_for_kind(s, CategoryKind::BugFixes);
    assert forall|c: int, g: int|
        0 <= c < b.categories.len() && 0 <= g < b.categories[c].groups.len()
            implies group_entries_ordered(#[trigger] b.categories[c].groups[g]) by {
        let cat = b.categories[c];
        assert(b.categories == p0 + p1 + p2 + p3);
        assert(p0.len() <= 1 && p1.len() <= 1 && p2.len() <= 1 && p3.len() <= 1);
        assert(exists|k: CategoryKind| #[trigger] categories_for_kind(s, k) =~= seq![cat]) by {
            if c < p0.len() {
                assert(categories_for_kind(s, CategoryKind::BreakingChanges) =~= seq![cat]);
            } else if c < p0.len() + p1.len() {
                assert(categories_for_kind(s, CategoryKind::Features) =~= seq![cat]);
            } else if c < p0.len() + p1.len() + p2.len() {
                assert(categories_for_kind(s, CategoryKind::Improvements) =~= seq![cat]);
            } else {
                assert(categories_for_kind(s, CategoryKind::BugFixes) =~= seq![cat]);
            }
        };
        let k = choose|k: CategoryKind| #[trigger] categories_for_kind(s, k) =~= seq![cat];
        let cdir = crate::scan::find_category(s, k)->Some_0;
        assert(cat.groups == category_groups(cdir));
        let sc = sort_components(crate::scan::nonempty_components(cdir.components@));
        assert(cat.groups[g] == group_view(sc[g]));
        lemma_group_view_ordered(sc[g]);
    };
    assert forall|i: int, j: int|
        0 <= i < j < b.categories.len() implies kind_ordinal((#[trigger] b.categories[i]).kind)
            < kind_ordinal((#[trigger] b.categories[j]).kind) by {
        assert(p0.len() <= 1 && p1.len() <= 1 && p2.len() <= 1 && p3.len() <= 1);
        assert(forall|m: int| 0 <= m < p0.len() ==> kind_ordinal((#[trigger] p0[m]).kind) == 0);
        assert(forall|m: int| 0 <= m < p1.len() ==> kind_ordinal((#[trigger] p1[m]).kind) == 1);
        assert(forall|m: int| 0 <= m < p2.len() ==> kind_ordinal((#[trigger] p2[m]).kind) == 2);
        assert(forall|m: int| 0 <= m < p3.len() ==> kind_ordinal((#[trigger] p3[m]).kind) == 3);
    };
}

/// Ordering law of entries: in every scanned tree, the entries of every
/// component group stand in lexical filename order, however the listing
/// was ordered.
pub proof fn lemma_scan_entries_ordered(raw: RawTree)
    ensures
        scan_spec(raw).unreleased matches Some(b) ==> bucket_entries_ordered(b),
        forall|r: int|
            0 <= r < scan_spec(raw).releases.len() ==> bucket_entries_ordered(
                (#[trigger] scan_spec(raw).releases[r]).bucket,
            ),
{
    let t = scan_spec(raw);
    if let Some(d) = find_unreleased(raw.buckets@) {
        lemma_bucket_spec_laws(d.categories@);
    }
    let sr = sort_releases(release_dirs(raw.buckets@));
    assert forall|r: int|
        0 <= r < t.releases.len() implies bucket_entries_ordered(
        (#[trigger] t.releases[r]).bucket,
    ) by {
        assert(t.releases[r] == crate::scan::release_view(sr[r]));
        lemma_bucket_spec_laws(sr[r].categories@);
    };
}

/// Ordering law of categories: in every scanned tree, the categories of
/// every bucket appear in the fixed canonical order, never in listing
/// order.
pub proof fn lemma_scan_categories_canonical(raw: RawTree)
    ensures
        scan_spec(raw).unreleased matches Some(b) ==> bucket_categories_canonical(b),
        forall|r: int|
            0 <= r < scan_spec(raw).releases.len() ==> bucket_categories_canonical(
                (#[trigger] scan_spec(raw).releases[r]).bucket,
            ),
{
    let t = scan_spec(raw);
    if let Some(d) = find_unreleased(raw.buckets@) {
        lemma_bucket_spec_laws(d.categories@);
    }
    let sr = sort_releases(release_dirs(raw.buckets@));
    assert forall|r: int|
        0 <= r < t.releases.len() implies bucket_categories_canonical(
        (#[trigger] t.releases[r]).bucket,
    ) by {
        assert(t.releases[r] == crate::scan::release_view(sr[r]));
        lemma_bucket_spec_laws(sr[r].categories@);
    };
}

/// Determinism of building: the rendered text is a function of the
/// listing alone, so two builds of the same unchanged listing are
/// byte-identical.
pub proof fn lemma_build_deterministic(raw: RawTree, s1: Seq<char>, s2: Seq<char>)
    requires
        s1 == render_tree(scan_spec(raw)),
        s2 == render_tree(scan_spec(raw)),
    ensures
        s1 == s2,
{
}

} // verus!
