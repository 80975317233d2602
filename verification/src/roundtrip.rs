//! The round-trip law: writing a well-formed changelog document out in
//! the directory schema and scanning it back loses nothing.
//!
//! `tree_written` is the shape a document takes on disk: one directory
//! per bucket, category, and component, one file per entry, each
//! holding exactly the model's names and texts.  For every well-formed
//! document, scanning such a listing succeeds and yields the document
//! itself, so the rendered text survives the trip unchanged.

use crate::model::{
    BucketV, CategoryKind, CategoryV, GroupV, RawBucketDir, RawCategoryDir, RawComponentDir,
    RawFile, RawTree, TreeV, kind_dir_name, kind_ordinal, lemma_kind_names_distinct,
    recognized_category, unreleased_dir_name,
};
use crate::order::{lex_le, lex_lt, lemma_lex_irreflexive};
use crate::render::render_tree;
use crate::scan::{
    bucket_dirs_ok, bucket_spec, categories_for_kind, category_groups, distinct_bucket_names,
    entry_view, find_category, find_unreleased, group_view, no_duplicate_versions,
    nonempty_components, release_dirs, release_view, scan_ok, scan_spec,
};
use crate::sorting::{
    components_ordered, files_ordered, lemma_sort_components_id, lemma_sort_files_id,
    lemma_sort_releases_id, release_before, releases_ordered, sort_releases,
};
use crate::version::{ver_lt, version_of, version_ok};
use vstd::prelude::*;

verus! {

// ----- what a well-formed document looks like -----

/// A well-formed group: at least one entry, entries ordered by id.
pub open spec fn group_wf(g: GroupV) -> bool {
    g.entries.len() > 0 && (forall|i: int, j: int|
        0 <= i < j < g.entries.len() ==> lex_le(
            (#[trigger] g.entries[i]).id,
            (#[trigger] g.entries[j]).id,
        ))
}

/// A well-formed category: at least one group, groups ordered by name,
/// every group well-formed.
pub open spec fn category_wf(c: CategoryV) -> bool {
    &&& c.groups.len() > 0
    &&& forall|i: int, j: int|
        0 <= i < j < c.groups.len() ==> lex_le(
            (#[trigger] c.groups[i]).name,
            (#[trigger] c.groups[j]).name,
        )
    &&& forall|gi: int| 0 <= gi < c.groups.len() ==> group_wf(#[trigger] c.groups[gi])
}

/// A well-formed bucket: every category well-formed, categories in
/// strictly ascending canonical order.
pub open spec fn bucket_wf(b: BucketV) -> bool {
    &&& forall|ci: int| 0 <= ci < b.categories.len() ==> category_wf(#[trigger] b.categories[ci])
    &&& forall|i: int, j: int|
        0 <= i < j < b.categories.len() ==> kind_ordinal((#[trigger] b.categories[i]).kind)
            < kind_ordinal((#[trigger] b.categories[j]).kind)
}

/// Whether the release labelled `a` stands before the one labelled `b`:
/// parseable versions first, newest first; unparsable labels after, in
/// lexically descending order.
pub open spec fn label_newer(a: Seq<char>, b: Seq<char>) -> bool {
    if version_ok(a) && version_ok(b) {
        ver_lt(version_of(b), version_of(a))
    } else if version_ok(a) {
        true
    } else if version_ok(b) {
        false
    } else {
        lex_lt(b, a)
    }
}

/// A well-formed document: buckets well-formed, release labels neither
/// empty nor `unreleased`, and releases in strictly newest-first order.
pub open spec fn tree_wf(t: TreeV) -> bool {
    &&& match t.unreleased {
        Some(b) => bucket_wf(b),
        None => true,
    }
    &&& forall|r: int| 0 <= r < t.releases.len() ==> bucket_wf((#[trigger] t.releases[r]).bucket)
    &&& forall|r: int| 0 <= r < t.releases.len() ==> (#[trigger] t.releases[r]).label
        != unreleased_dir_name()
    &&& forall|i: int, j: int|
        0 <= i < j < t.releases.len() ==> label_newer(
            (#[trigger] t.releases[i]).label,
            (#[trigger] t.releases[j]).label,
        )
}

// ----- the written directory form -----

/// An entry written as one file: the id is the filename, the text the
/// contents.
pub open spec fn entry_written(e: crate::model::EntryV, f: RawFile) -> bool {
    f.name@ == e.id && f.text@ == e.text
}

/// A group written as one component directory holding its entries in
/// order.
pub open spec fn group_written(g: GroupV, d: RawComponentDir) -> bool {
    &&& d.name@ == g.name
    &&& d.files@.len() == g.entries.len()
    &&& forall|k: int|
        0 <= k < g.entries.len() ==> entry_written(g.entries[k], #[trigger] d.files@[k])
}

/// A category written as one directory, named for its kind, holding its
/// groups in order.
pub open spec fn category_written(c: CategoryV, d: RawCategoryDir) -> bool {
    &&& d.name@ == kind_dir_name(c.kind)
    &&& d.components@.len() == c.groups.len()
    &&& forall|k: int|
        0 <= k < c.groups.len() ==> group_written(c.groups[k], #[trigger] d.components@[k])
}

/// A bucket written as a run of category directories in order.
pub open spec fn bucket_written(b: BucketV, cats: Seq<RawCategoryDir>) -> bool {
    &&& cats.len() == b.categories.len()
    &&& forall|k: int|
        0 <= k < b.categories.len() ==> category_written(b.categories[k], #[trigger] cats[k])
}

/// How many directories the unreleased bucket occupies at the front of
/// the written listing.
pub open spec fn unreleased_offset(t: TreeV) -> int {
    if t.unreleased is Some {
        1
    } else {
        0
    }
}

/// A document written as a whole listing: the unreleased directory
/// first when present, then one directory per release in order, and the
/// epilogue contents alongside.
pub open spec fn tree_written(t: TreeV, raw: RawTree) -> bool {
    let ub = unreleased_offset(t);
    &&& raw.buckets@.len() == ub + t.releases.len()
    &&& match t.unreleased {
        Some(b) => raw.buckets@[0].name@ == unreleased_dir_name() && bucket_written(
            b,
            raw.buckets@[0].categories@,
        ),
        None => true,
    }
    &&& forall|r: int|
        0 <= r < t.releases.len() ==> (#[trigger] raw.buckets@[ub + r]).name@
            == t.releases[r].label && bucket_written(
            t.releases[r].bucket,
            raw.buckets@[ub + r].categories@,
        )
    &&& (t.epilogue is Some <==> raw.epilogue is Some)
    &&& match (t.epilogue, raw.epilogue) {
        (Some(e), Some(f)) => f@ == e,
        _ => true,
    }
}

// ----- locating directories in a written listing -----

proof fn lemma_find_unreleased_none(s: Seq<RawBucketDir>)
    requires
        forall|i: int| 0 <= i < s.len() ==> (#[trigger] s[i]).name@ != unreleased_dir_name(),
    ensures
        find_unreleased(s) is None,
    decreases s.len(),
{
    if s.len() > 0 {
        lemma_find_unreleased_none(s.drop_last());
    }
}

proof fn lemma_find_unreleased_first(s: Seq<RawBucketDir>)
    requires
        s.len() > 0,
        s[0].name@ == unreleased_dir_name(),
    ensures
        find_unreleased(s) == Some(s[0]),
    decreases s.len(),
{
    if s.len() > 1 {
        assert(s.drop_last()[0] == s[0]);
        lemma_find_unreleased_first(s.drop_last());
    } else {
        assert(s.last() == s[0]);
        lemma_find_unreleased_none(s.drop_last());
    }
}

proof fn lemma_release_dirs_all(s: Seq<RawBucketDir>)
    requires
        forall|i: int| 0 <= i < s.len() ==> (#[trigger] s[i]).name@ != unreleased_dir_name(),
    ensures
        release_dirs(s) == s,
    decreases s.len(),
{
    if s.len() == 0 {
        assert(release_dirs(s) =~= s);
    } else {
        lemma_release_dirs_all(s.drop_last());
        assert(release_dirs(s) =~= s);
    }
}

proof fn lemma_release_dirs_skip1(s: Seq<RawBucketDir>)
    requires
        s.len() >= 1,
        s[0].name@ == unreleased_dir_name(),
        forall|i: int| 1 <= i < s.len() ==> (#[trigger] s[i]).name@ != unreleased_dir_name(),
    ensures
        release_dirs(s) == s.skip(1),
    decreases s.len(),
{
    if s.len() == 1 {
        assert(s.last() == s[0]);
        reveal_with_fuel(release_dirs, 2);
        assert(release_dirs(s) =~= s.skip(1));
    } else {
        assert(s.drop_last()[0] == s[0]);
        assert forall|i: int|
            1 <= i < s.drop_last().len() implies (#[trigger] s.drop_last()[i]).name@
            != unreleased_dir_name() by {
            assert(s.drop_last()[i] == s[i]);
        };
        lemma_release_dirs_skip1(s.drop_last());
        assert(s.last() == s[s.len() - 1]);
        assert(s.last().name@ != unreleased_dir_name());
        assert(release_dirs(s) == release_dirs(s.drop_last()).push(s.last()));
        assert(release_dirs(s) =~= s.skip(1));
    }
}

proof fn lemma_find_category_none(s: Seq<RawCategoryDir>, k: CategoryKind)
    requires
        forall|i: int| 0 <= i < s.len() ==> (#[trigger] s[i]).name@ != kind_dir_name(k),
    ensures
        find_category(s, k) is None,
    decreases s.len(),
{
    if s.len() > 0 {
        lemma_find_category_none(s.drop_last(), k);
    }
}

proof fn lemma_find_category_at(s: Seq<RawCategoryDir>, k: CategoryKind, p: int)
    requires
        0 <= p < s.len(),
        s[p].name@ == kind_dir_name(k),
        forall|i: int|
            0 <= i < s.len() && i != p ==> (#[trigger] s[i]).name@ != kind_dir_name(k),
    ensures
        find_category(s, k) == Some(s[p]),
    decreases s.len(),
{
    if p == s.len() - 1 {
        lemma_find_category_none(s.drop_last(), k);
    } else {
        lemma_find_category_at(s.drop_last(), k, p);
    }
}

// ----- recovering each level from its written form -----

proof fn lemma_group_roundtrip(g: GroupV, d: RawComponentDir)
    requires
        group_wf(g),
        group_written(g, d),
    ensures
        group_view(d) == g,
{
    assert(files_ordered(d.files@));
    lemma_sort_files_id(d.files@);
    assert(group_view(d).entries =~= g.entries);
    assert(group_view(d) =~= g);
}

proof fn lemma_category_groups_roundtrip(c: CategoryV, d: RawCategoryDir)
    requires
        category_wf(c),
        category_written(c, d),
    ensures
        category_groups(d) == c.groups,
{
    assert forall|i: int| 0 <= i < d.components@.len() implies (#[trigger] d.components@[i]).files@.len()
        > 0 by {
        assert(group_written(c.groups[i], d.components@[i]));
        assert(group_wf(c.groups[i]));
    };
    lemma_nonempty_components_id(d.components@);
    assert(components_ordered(d.components@));
    lemma_sort_components_id(d.components@);
    assert forall|k: int| 0 <= k < c.groups.len() implies group_view(
        #[trigger] d.components@[k],
    ) == c.groups[k] by {
        lemma_group_roundtrip(c.groups[k], d.components@[k]);
    };
    assert(category_groups(d) =~= c.groups);
}

proof fn lemma_nonempty_components_id(s: Seq<RawComponentDir>)
    requires
        forall|i: int| 0 <= i < s.len() ==> (#[trigger] s[i]).files@.len() > 0,
    ensures
        nonempty_components(s) == s,
    decreases s.len(),
{
    if s.len() == 0 {
        assert(nonempty_components(s) =~= s);
    } else {
        lemma_nonempty_components_id(s.drop_last());
        assert(nonempty_components(s) =~= s);
    }
}

// ----- the categories of one kind within a run -----

/// The categories of kind `k` in `s`, in order.
pub open spec fn cats_of_kind(s: Seq<CategoryV>, k: CategoryKind) -> Seq<CategoryV>
    decreases s.len(),
{
    if s.len() == 0 {
        Seq::empty()
    } else {
        let r = cats_of_kind(s.drop_last(), k);
        if s.last().kind == k {
            r.push(s.last())
        } else {
            r
        }
    }
}

proof fn lemma_cats_of_kind_empty(s: Seq<CategoryV>, k: CategoryKind)
    requires
        forall|i: int| 0 <= i < s.len() ==> (#[trigger] s[i]).kind != k,
    ensures
        cats_of_kind(s, k) == Seq::<CategoryV>::empty(),
    decreases s.len(),
{
    if s.len() > 0 {
        lemma_cats_of_kind_empty(s.drop_last(), k);
    }
}

proof fn lemma_cats_of_kind_single(s: Seq<CategoryV>, k: CategoryKind, p: int)
    requires
        0 <= p < s.len(),
        s[p].kind == k,
        forall|i: int| 0 <= i < s.len() && i != p ==> (#[trigger] s[i]).kind != k,
    ensures
        cats_of_kind(s, k) == seq![s[p]],
    decreases s.len(),
{
    if p == s.len() - 1 {
        lemma_cats_of_kind_empty(s.drop_last(), k);
        assert(cats_of_kind(s, k) =~= seq![s[p]]);
    } else {
        lemma_cats_of_kind_single(s.drop_last(), k, p);
    }
}

/// A run of categories in strictly ascending canonical order is the
/// concatenation of its per-kind parts, in canonical order.
proof fn lemma_kind_partition(s: Seq<CategoryV>)
    requires
        forall|i: int, j: int|
            0 <= i < j < s.len() ==> kind_ordinal((#[trigger] s[i]).kind) < kind_ordinal(
                (#[trigger] s[j]).kind,
            ),
    ensures
        s == cats_of_kind(s, CategoryKind::BreakingChanges) + cats_of_kind(
            s,
            CategoryKind::Features,
        ) + cats_of_kind(s, CategoryKind::Improvements) + cats_of_kind(s, CategoryKind::BugFixes),
    decreases s.len(),
{
    let f0 = cats_of_kind(s, CategoryKind::BreakingChanges);
    let f1 = cats_of_kind(s, CategoryKind::Features);
    let f2 = cats_of_kind(s, CategoryKind::Improvements);
    let f3 = cats_of_kind(s, CategoryKind::BugFixes);
    if s.len() == 0 {
        assert(s =~= f0 + f1 + f2 + f3);
    } else {
        let s0 = s.drop_last();
        assert(forall|i: int, j: int|
            0 <= i < j < s0.len() ==> kind_ordinal((#[trigger] s0[i]).kind) < kind_ordinal(
                (#[trigger] s0[j]).kind,
            ));
        lemma_kind_partition(s0);
        assert(forall|i: int|
            0 <= i < s0.len() ==> kind_ordinal((#[trigger] s0[i]).kind) < kind_ordinal(
                s.last().kind,
            ));
        match s.last().kind {
            CategoryKind::BreakingChanges => {
                assert(forall|i: int|
                    0 <= i < s0.len() ==> (#[trigger] s0[i]).kind != CategoryKind::Features);
                assert(forall|i: int|
                    0 <= i < s0.len() ==> (#[trigger] s0[i]).kind != CategoryKind::Improvements);
                assert(forall|i: int|
                    0 <= i < s0.len() ==> (#[trigger] s0[i]).kind != CategoryKind::BugFixes);
                lemma_cats_of_kind_empty(s0, CategoryKind::Features);
                lemma_cats_of_kind_empty(s0, CategoryKind::Improvements);
                lemma_cats_of_kind_empty(s0, CategoryKind::BugFixes);
                assert(s =~= f0 + f1 + f2 + f3);
            },
            CategoryKind::Features => {
                assert(forall|i: int|
                    0 <= i < s0.len() ==> (#[trigger] s0[i]).kind != CategoryKind::Improvements);
                assert(forall|i: int|
                    0 <= i < s0.len() ==> (#[trigger] s0[i]).kind != CategoryKind::BugFixes);
                lemma_cats_of_kind_empty(s0, CategoryKind::Improvements);
                lemma_cats_of_kind_empty(s0, CategoryKind::BugFixes);
                assert(s =~= f0 + f1 + f2 + f3);
            },
            CategoryKind::Improvements => {
                assert(forall|i: int|
                    0 <= i < s0.len() ==> (#[trigger] s0[i]).kind != CategoryKind::BugFixes);
                lemma_cats_of_kind_empty(s0, CategoryKind::BugFixes);
                let g0 = cats_of_kind(s0, CategoryKind::BreakingChanges);
                let g1 = cats_of_kind(s0, CategoryKind::Features);
                let g2 = cats_of_kind(s0, CategoryKind::Improvements);
                assert(f0 == g0 && f1 == g1 && f2 == g2.push(s.last()));
                assert(f3 =~= Seq::<CategoryV>::empty());
                assert(f0 + f1 + f2 + f3 =~= ((g0 + g1) + g2).push(s.last()));
                assert(s =~= s0.push(s.last()));
                assert(s0.push(s.last()) =~= ((g0 + g1) + g2).push(s.last()));
                assert(s =~= f0 + f1 + f2 + f3);
            },
            CategoryKind::BugFixes => {
                let g0 = cats_of_kind(s0, CategoryKind::BreakingChanges);
                let g1 = cats_of_kind(s0, CategoryKind::Features);
                let g2 = cats_of_kind(s0, CategoryKind::Improvements);
                let g3 = cats_of_kind(s0, CategoryKind::BugFixes);
                assert(f0 == g0 && f1 == g1 && f2 == g2 && f3 == g3.push(s.last()));
                assert(f0 + f1 + f2 + f3 =~= (((g0 + g1) + g2) + g3).push(s.last()));
                assert(s =~= s0.push(s.last()));
                assert(s =~= f0 + f1 + f2 + f3);
            },
        }
    }
}

/// The written piece the scan builds for one kind equals the document's
/// own categories of that kind.
proof fn lemma_piece_roundtrip(b: BucketV, cats: Seq<RawCategoryDir>, k: CategoryKind)
    requires
        bucket_wf(b),
        bucket_written(b, cats),
    ensures
        categories_for_kind(cats, k) == cats_of_kind(b.categories, k),
{
    lemma_kind_names_distinct();
    if exists|p: int| 0 <= p < b.categories.len() && (#[trigger] b.categories[p]).kind == k {
        let p = choose|p: int| 0 <= p < b.categories.len() && (#[trigger] b.categories[p]).kind
            == k;
        assert forall|i: int|
            0 <= i < b.categories.len() && i != p implies (#[trigger] b.categories[i]).kind
            != k by {
            if i < p {
                assert(kind_ordinal(b.categories[i].kind) < kind_ordinal(b.categories[p].kind));
            } else {
                assert(kind_ordinal(b.categories[p].kind) < kind_ordinal(b.categories[i].kind));
            }
        };
        lemma_cats_of_kind_single(b.categories, k, p);
        assert(cats[p].name@ == kind_dir_name(k));
        assert forall|i: int|
            0 <= i < cats.len() && i != p implies (#[trigger] cats[i]).name@ != kind_dir_name(
            k,
        ) by {
            assert(category_written(b.categories[i], cats[i]));
            assert(cats[i].name@ == kind_dir_name(b.categories[i].kind));
            assert(b.categories[i].kind != k);
        };
        lemma_find_category_at(cats, k, p);
        lemma_category_groups_roundtrip(b.categories[p], cats[p]);
        assert(category_wf(b.categories[p]));
        assert(categories_for_kind(cats, k) =~= cats_of_kind(b.categories, k));
    } else {
        assert forall|i: int| 0 <= i < cats.len() implies (#[trigger] cats[i]).name@
            != kind_dir_name(k) by {
            assert(category_written(b.categories[i], cats[i]));
            assert(cats[i].name@ == kind_dir_name(b.categories[i].kind));
            assert(b.categories[i].kind != k);
        };
        lemma_find_category_none(cats, k);
        lemma_cats_of_kind_empty(b.categories, k);
    }
}

/// A written bucket scans back to itself, and its directory listing is
/// structurally valid.
proof fn lemma_bucket_roundtrip(b: BucketV, cats: Seq<RawCategoryDir>)
    requires
        bucket_wf(b),
        bucket_written(b, cats),
    ensures
        bucket_dirs_ok(cats),
        bucket_spec(cats) == b,
{
    lemma_kind_names_distinct();
    assert forall|i: int| 0 <= i < cats.len() implies recognized_category(
        #[trigger] cats[i].name@,
    ) by {
        assert(category_written(b.categories[i], cats[i]));
        assert(kind_dir_name(b.categories[i].kind) == cats[i].name@);
    };
    assert forall|i: int, j: int|
        0 <= i < j < cats.len() implies (#[trigger] cats[i].name@) != (
    #[trigger] cats[j].name@) by {
        assert(category_written(b.categories[i], cats[i]));
        assert(category_written(b.categories[j], cats[j]));
        assert(kind_ordinal(b.categories[i].kind) < kind_ordinal(b.categories[j].kind));
    };
    lemma_piece_roundtrip(b, cats, CategoryKind::BreakingChanges);
    lemma_piece_roundtrip(b, cats, CategoryKind::Features);
    lemma_piece_roundtrip(b, cats, CategoryKind::Improvements);
    lemma_piece_roundtrip(b, cats, CategoryKind::BugFixes);
    lemma_kind_partition(b.categories);
    assert(bucket_spec(cats).categories == b.categories);
    assert(bucket_spec(cats) =~= b);
}

/// No release label stands before itself.
proof fn lemma_label_newer_irrefl(l: Seq<char>)
    ensures
        !label_newer(l, l),
{
    if !version_ok(l) {
        lemma_lex_irreflexive(l);
    }
}

/// The bucket directory names of a written listing are pairwise
/// distinct.
proof fn lemma_written_distinct(t: TreeV, raw: RawTree)
    requires
        tree_wf(t),
        tree_written(t, raw),
    ensures
        distinct_bucket_names(raw.buckets@),
{
    let ub = unreleased_offset(t);
    let bs = raw.buckets@;
    assert forall|i: int, j: int|
        0 <= i < j < bs.len() implies (#[trigger] bs[i].name@) != (#[trigger] bs[j].name@) by {
        if i >= ub {
            let ri = i - ub;
            let rj = j - ub;
            assert(raw.buckets@[ub + ri].name@ == t.releases[ri].label);
            assert(raw.buckets@[ub + rj].name@ == t.releases[rj].label);
            assert(label_newer(t.releases[ri].label, t.releases[rj].label));
            if t.releases[ri].label == t.releases[rj].label {
                lemma_label_newer_irrefl(t.releases[ri].label);
            }
        } else {
            let rj = j - ub;
            assert(raw.buckets@[ub + rj].name@ == t.releases[rj].label);
            assert(bs[i].name@ == unreleased_dir_name());
        }
    };
}

/// Every bucket directory of a written listing has valid category
/// directories.
proof fn lemma_written_buckets_ok(t: TreeV, raw: RawTree)
    requires
        tree_wf(t),
        tree_written(t, raw),
    ensures
        forall|i: int|
            0 <= i < raw.buckets@.len() ==> bucket_dirs_ok(#[trigger] raw.buckets@[i].categories@),
{
    let ub = unreleased_offset(t);
    let bs = raw.buckets@;
    assert forall|i: int| 0 <= i < bs.len() implies bucket_dirs_ok(
        #[trigger] bs[i].categories@,
    ) by {
        if i < ub {
            lemma_bucket_roundtrip(t.unreleased->Some_0, bs[0].categories@);
        } else {
            let r = i - ub;
            assert(bucket_written(t.releases[r].bucket, raw.buckets@[ub + r].categories@));
            lemma_bucket_roundtrip(t.releases[r].bucket, bs[i].categories@);
        }
    };
}

/// In a written listing, the unreleased directory stands first when the
/// document has one, and the release directories are all the rest.
proof fn lemma_written_split(t: TreeV, raw: RawTree)
    requires
        tree_wf(t),
        tree_written(t, raw),
    ensures
        release_dirs(raw.buckets@) == raw.buckets@.skip(unreleased_offset(t)),
        find_unreleased(raw.buckets@) == (match t.unreleased {
            Some(_) => Some(raw.buckets@[0]),
            None => None::<RawBucketDir>,
        }),
{
    let ub = unreleased_offset(t);
    let bs = raw.buckets@;
    let rels = bs.skip(ub);
    if ub == 1 {
        assert forall|i: int| 1 <= i < bs.len() implies (#[trigger] bs[i]).name@
            != unreleased_dir_name() by {
            let r = i - 1;
            assert(raw.buckets@[1 + r].name@ == t.releases[r].label);
        };
        lemma_release_dirs_skip1(bs);
        lemma_find_unreleased_first(bs);
    } else {
        assert forall|i: int| 0 <= i < bs.len() implies (#[trigger] bs[i]).name@
            != unreleased_dir_name() by {
            assert(raw.buckets@[0 + i].name@ == t.releases[i].label);
        };
        lemma_release_dirs_all(bs);
        assert(release_dirs(bs) =~= rels);
        lemma_find_unreleased_none(bs);
    }
}

/// The release directories of a written listing carry distinct versions
/// and stand newest first already.
proof fn lemma_written_release_order(t: TreeV, raw: RawTree)
    requires
        tree_wf(t),
        tree_written(t, raw),
    ensures
        no_duplicate_versions(raw.buckets@.skip(unreleased_offset(t))),
        releases_ordered(raw.buckets@.skip(unreleased_offset(t))),
{
    let ub = unreleased_offset(t);
    let bs = raw.buckets@;
    let rels = bs.skip(ub);
    assert forall|i: int, j: int|
        0 <= i < j < rels.len() implies !(version_ok((#[trigger] rels[i]).name@) && version_ok(
        (#[trigger] rels[j]).name@,
    ) && version_of(rels[i].name@) == version_of(rels[j].name@)) by {
        assert(rels[i] == bs[ub + i] && rels[j] == bs[ub + j]);
        assert(raw.buckets@[ub + i].name@ == t.releases[i].label);
        assert(raw.buckets@[ub + j].name@ == t.releases[j].label);
        assert(label_newer(t.releases[i].label, t.releases[j].label));
    };
    assert forall|i: int, j: int|
        0 <= i < j < rels.len() implies release_before(#[trigger] rels[i], #[trigger] rels[j]) by {
        assert(rels[i] == bs[ub + i] && rels[j] == bs[ub + j]);
        assert(raw.buckets@[ub + i].name@ == t.releases[i].label);
        assert(raw.buckets@[ub + j].name@ == t.releases[j].label);
        assert(label_newer(t.releases[i].label, t.releases[j].label));
    };
}

/// A written well-formed document makes a structurally valid listing,
/// with the unreleased directory and the releases exactly where the
/// scan looks for them.
proof fn lemma_written_listing_valid(t: TreeV, raw: RawTree)
    requires
        tree_wf(t),
        tree_written(t, raw),
    ensures
        scan_ok(raw),
        release_dirs(raw.buckets@) == raw.buckets@.skip(unreleased_offset(t)),
        find_unreleased(raw.buckets@) == (match t.unreleased {
            Some(_) => Some(raw.buckets@[0]),
            None => None::<RawBucketDir>,
        }),
        releases_ordered(raw.buckets@.skip(unreleased_offset(t))),
{
    lemma_written_distinct(t, raw);
    lemma_written_buckets_ok(t, raw);
    lemma_written_split(t, raw);
    lemma_written_release_order(t, raw);
}

/// Round trip: a well-formed document written out in the directory
/// schema scans back to itself, so building from the written listing
/// renders exactly the document's own text, independent of the order in
/// which the files were created.
#[verifier::rlimit(100)]
pub proof fn lemma_write_scan_roundtrip(t: TreeV, raw: RawTree)
    requires
        tree_wf(t),
        tree_written(t, raw),
    ensures
        scan_ok(raw),
        scan_spec(raw) == t,
        render_tree(scan_spec(raw)) == render_tree(t),
{
    let ub = unreleased_offset(t);
    let bs = raw.buckets@;
    let rels = bs.skip(ub);
    lemma_written_listing_valid(t, raw);
    lemma_sort_releases_id(rels);

    // The scanned document is the original, field for field.
    assert forall|r: int| 0 <= r < rels.len() implies release_view(#[trigger] rels[r])
        == t.releases[r] by {
        assert(rels[r] == bs[ub + r]);
        assert(raw.buckets@[ub + r].name@ == t.releases[r].label);
        assert(bucket_written(t.releases[r].bucket, raw.buckets@[ub + r].categories@));
        lemma_bucket_roundtrip(t.releases[r].bucket, bs[ub + r].categories@);
        assert(release_view(rels[r]) =~= t.releases[r]);
    };
    assert(sort_releases(release_dirs(bs)).map_values(|d: RawBucketDir| release_view(d))
        =~= t.releases);
    if ub == 1 {
        lemma_bucket_roundtrip(t.unreleased->Some_0, bs[0].categories@);
    }
    assert(scan_spec(raw) =~= t);
}

} // verus!
