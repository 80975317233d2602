//! Stable insertion sorts for the three orderings the scanner needs:
//! entry files by filename, component directories by name, and release
//! bucket directories newest first.
//!
//! Each order has its own spec-level insertion sort and an executable
//! sort proved equal to it, so every scan result is pinned to one
//! sequence, independent of the order the listing arrived in.

use crate::model::{RawBucketDir, RawComponentDir, RawFile};
use crate::order::{lex_le, lex_lt, str_lt};
use crate::version::{parse_version, ver_lt, version_lt, version_of, version_ok};
use vstd::prelude::*;

verus! {

// ----- entry files, by filename, lexical ascending -----

/// `x` placed into the filename-ordered run `s`, after every element
/// whose name does not come after `x`'s.
pub open spec fn insert_file(x: RawFile, s: Seq<RawFile>) -> Seq<RawFile>
    decreases s.len(),
{
    if s.len() == 0 {
        seq![x]
    } else if lex_lt(x.name@, s[0].name@) {
        seq![x] + s
    } else {
        seq![s[0]] + insert_file(x, s.drop_first())
    }
}

/// The run `s` ordered by filename; a stable sort, so files with equal
/// names keep their relative order.
pub open spec fn sort_files(s: Seq<RawFile>) -> Seq<RawFile>
    decreases s.len(),
{
    if s.len() == 0 {
        Seq::empty()
    } else {
        insert_file(s.last(), sort_files(s.drop_last()))
    }
}

proof fn lemma_insert_file_at(x: RawFile, s: Seq<RawFile>, p: int)
    requires
        0 <= p <= s.len(),
        forall|q: int| 0 <= q < p ==> !lex_lt(x.name@, #[trigger] s[q].name@),
        p < s.len() ==> lex_lt(x.name@, s[p].name@),
    ensures
        insert_file(x, s) == s.insert(p, x),
    decreases s.len(),
{
    if p == 0 {
        assert(insert_file(x, s) =~= s.insert(0, x));
    } else {
        assert(!lex_lt(x.name@, s[0].name@));
        assert(forall|q: int|
            0 <= q < p - 1 ==> !lex_lt(x.name@, #[trigger] s.drop_first()[q].name@));
        lemma_insert_file_at(x, s.drop_first(), p - 1);
        assert(seq![s[0]] + s.drop_first().insert(p - 1, x) =~= s.insert(p, x));
    }
}

/// The files of `v`, ordered by filename.
pub fn sorted_files(v: Vec<RawFile>) -> (r: Vec<RawFile>)
    ensures
        r@ == sort_files(v@),
{
    let ghost orig = v@;
    let mut rem = v;
    let mut out: Vec<RawFile> = Vec::new();
    while rem.len() > 0
        invariant
            out@.len() + rem@.len() == orig.len(),
            rem@ == orig.skip(out@.len() as int),
            out@ == sort_files(orig.take(out@.len() as int)),
        decreases rem@.len(),
    {
        let ghost k = out@.len() as int;
        let x = rem.remove(0);
        proof {
            assert(x == orig[k]);
            assert(rem@ =~= orig.skip(k + 1));
        }
        let mut p: usize = 0;
        while p < out.len()
            invariant
                0 <= p <= out@.len(),
                forall|q: int| 0 <= q < p ==> !lex_lt(x.name@, #[trigger] out@[q].name@),
            ensures
                0 <= p <= out@.len(),
                forall|q: int| 0 <= q < p ==> !lex_lt(x.name@, #[trigger] out@[q].name@),
                p < out@.len() ==> lex_lt(x.name@, out@[p as int].name@),
            decreases out@.len() - p,
        {
            if str_lt(x.name.as_str(), out[p].name.as_str()) {
                break;
            }
            p += 1;
        }
        proof {
            lemma_insert_file_at(x, out@, p as int);
            assert(orig.take(k + 1).drop_last() =~= orig.take(k));
            assert(orig.take(k + 1).last() == orig[k]);
        }
        out.insert(p, x);
    }
    proof {
        assert(orig.take(orig.len() as int) =~= orig);
    }
    out
}

/// A run of files is ordered when no later name comes before an
/// earlier one.
pub open spec fn files_ordered(s: Seq<RawFile>) -> bool {
    forall|i: int, j: int|
        0 <= i < j < s.len() ==> lex_le((#[trigger] s[i]).name@, (#[trigger] s[j]).name@)
}

/// Inserting keeps every lower bound on the names.
proof fn lemma_insert_file_lb(x: RawFile, s: Seq<RawFile>, b: Seq<char>)
    requires
        lex_le(b, x.name@),
        forall|q: int| 0 <= q < s.len() ==> lex_le(b, (#[trigger] s[q]).name@),
    ensures
        forall|m: int|
            0 <= m < insert_file(x, s).len() ==> lex_le(b, (#[trigger] insert_file(x, s)[m]).name@),
    decreases s.len(),
{
    if s.len() == 0 {
    } else if lex_lt(x.name@, s[0].name@) {
    } else {
        assert(forall|q: int|
            0 <= q < s.drop_first().len() ==> lex_le(b, (#[trigger] s.drop_first()[q]).name@));
        lemma_insert_file_lb(x, s.drop_first(), b);
        assert forall|m: int|
            0 <= m < insert_file(x, s).len() implies lex_le(
            b,
            (#[trigger] insert_file(x, s)[m]).name@,
        ) by {
            if m > 0 {
                assert(insert_file(x, s)[m] == insert_file(x, s.drop_first())[m - 1]);
            }
        };
    }
}

/// Inserting into an ordered run keeps it ordered.
proof fn lemma_insert_file_ordered(x: RawFile, s: Seq<RawFile>)
    requires
        files_ordered(s),
    ensures
        files_ordered(insert_file(x, s)),
    decreases s.len(),
{
    if s.len() == 0 {
    } else if lex_lt(x.name@, s[0].name@) {
        let t = insert_file(x, s);
        assert forall|i: int, j: int|
            0 <= i < j < t.len() implies lex_le((#[trigger] t[i]).name@, (#[trigger] t[j]).name@) by {
            if i == 0 {
                assert(t[j] == s[j - 1]);
                if j > 1 {
                    assert(lex_le(s[0].name@, s[j - 1].name@));
                }
                crate::order::lemma_lex_le_trans(x.name@, s[0].name@, s[j - 1].name@);
            } else {
                assert(t[i] == s[i - 1]);
                assert(t[j] == s[j - 1]);
            }
        };
    } else {
        crate::order::lemma_lex_total(x.name@, s[0].name@);
        assert(lex_le(s[0].name@, x.name@));
        assert(forall|i: int, j: int|
            0 <= i < j < s.drop_first().len() ==> lex_le(
                (#[trigger] s.drop_first()[i]).name@,
                (#[trigger] s.drop_first()[j]).name@,
            ));
        lemma_insert_file_ordered(x, s.drop_first());
        let u = insert_file(x, s.drop_first());
        assert(forall|q: int|
            0 <= q < s.drop_first().len() ==> lex_le(
                s[0].name@,
                (#[trigger] s.drop_first()[q]).name@,
            ));
        lemma_insert_file_lb(x, s.drop_first(), s[0].name@);
        let t = insert_file(x, s);
        assert forall|i: int, j: int|
            0 <= i < j < t.len() implies lex_le((#[trigger] t[i]).name@, (#[trigger] t[j]).name@) by {
            if i == 0 {
                assert(t[j] == u[j - 1]);
            } else {
                assert(t[i] == u[i - 1]);
                assert(t[j] == u[j - 1]);
            }
        };
    }
}

/// Sorting yields an ordered run: entries listed by a sorted run of
/// files stand in lexical filename order.
pub proof fn lemma_sort_files_ordered(s: Seq<RawFile>)
    ensures
        files_ordered(sort_files(s)),
    decreases s.len(),
{
    if s.len() > 0 {
        lemma_sort_files_ordered(s.drop_last());
        lemma_insert_file_ordered(s.last(), sort_files(s.drop_last()));
    }
}

/// Inserting an element that no element of the run comes after appends
/// it at the end.
proof fn lemma_insert_file_append(x: RawFile, s: Seq<RawFile>)
    requires
        forall|q: int| 0 <= q < s.len() ==> !lex_lt(x.name@, (#[trigger] s[q]).name@),
    ensures
        insert_file(x, s) == s.push(x),
    decreases s.len(),
{
    if s.len() == 0 {
        assert(insert_file(x, s) =~= s.push(x));
    } else {
        assert(forall|q: int|
            0 <= q < s.drop_first().len() ==> !lex_lt(
                x.name@,
                (#[trigger] s.drop_first()[q]).name@,
            ));
        lemma_insert_file_append(x, s.drop_first());
        assert(seq![s[0]] + s.drop_first().push(x) =~= s.push(x));
    }
}

/// Sorting an already ordered run of files changes nothing: the sort is
/// the identity on its own output.
pub proof fn lemma_sort_files_id(s: Seq<RawFile>)
    requires
        files_ordered(s),
    ensures
        sort_files(s) == s,
    decreases s.len(),
{
    if s.len() > 0 {
        assert(forall|i: int, j: int|
            0 <= i < j < s.drop_last().len() ==> lex_le(
                (#[trigger] s.drop_last()[i]).name@,
                (#[trigger] s.drop_last()[j]).name@,
            ));
        lemma_sort_files_id(s.drop_last());
        assert forall|q: int|
            0 <= q < s.drop_last().len() implies !lex_lt(
            s.last().name@,
            (#[trigger] s.drop_last()[q]).name@,
        ) by {
            assert(lex_le(s[q].name@, s.last().name@));
            crate::order::lemma_lex_asymmetric(s.last().name@, s[q].name@);
            crate::order::lemma_lex_irreflexive(s.last().name@);
        };
        lemma_insert_file_append(s.last(), s.drop_last());
        assert(s.drop_last().push(s.last()) =~= s);
    }
}

// ----- component directories, by name, lexical ascending -----

/// `x` placed into the name-ordered run `s`, after every element whose
/// name does not come after `x`'s.
pub open spec fn insert_component(x: RawComponentDir, s: Seq<RawComponentDir>) -> Seq<
    RawComponentDir,
>
    decreases s.len(),
{
    if s.len() == 0 {
        seq![x]
    } else if lex_lt(x.name@, s[0].name@) {
        seq![x] + s
    } else {
        seq![s[0]] + insert_component(x, s.drop_first())
    }
}

/// The run `s` ordered by component name; a stable sort.
pub open spec fn sort_components(s: Seq<RawComponentDir>) -> Seq<RawComponentDir>
    decreases s.len(),
{
    if s.len() == 0 {
        Seq::empty()
    } else {
        insert_component(s.last(), sort_components(s.drop_last()))
    }
}

proof fn lemma_insert_component_at(x: RawComponentDir, s: Seq<RawComponentDir>, p: int)
    requires
        0 <= p <= s.len(),
        forall|q: int| 0 <= q < p ==> !lex_lt(x.name@, #[trigger] s[q].name@),
        p < s.len() ==> lex_lt(x.name@, s[p].name@),
    ensures
        insert_component(x, s) == s.insert(p, x),
    decreases s.len(),
{
    if p == 0 {
        assert(insert_component(x, s) =~= s.insert(0, x));
    } else {
        assert(!lex_lt(x.name@, s[0].name@));
        assert(forall|q: int|
            0 <= q < p - 1 ==> !lex_lt(x.name@, #[trigger] s.drop_first()[q].name@));
        lemma_insert_component_at(x, s.drop_first(), p - 1);
        assert(seq![s[0]] + s.drop_first().insert(p - 1, x) =~= s.insert(p, x));
    }
}

/// The component directories of `v`, ordered by name.
pub fn sorted_components(v: Vec<RawComponentDir>) -> (r: Vec<RawComponentDir>)
    ensures
        r@ == sort_components(v@),
{
    let ghost orig = v@;
    let mut rem = v;
    let mut out: Vec<RawComponentDir> = Vec::new();
    while rem.len() > 0
        invariant
            out@.len() + rem@.len() == orig.len(),
            rem@ == orig.skip(out@.len() as int),
            out@ == sort_components(orig.take(out@.len() as int)),
        decreases rem@.len(),
    {
        let ghost k = out@.len() as int;
        let x = rem.remove(0);
        proof {
            assert(x == orig[k]);
            assert(rem@ =~= orig.skip(k + 1));
        }
        let mut p: usize = 0;
        while p < out.len()
            invariant
                0 <= p <= out@.len(),
                forall|q: int| 0 <= q < p ==> !lex_lt(x.name@, #[trigger] out@[q].name@),
            ensures
                0 <= p <= out@.len(),
                forall|q: int| 0 <= q < p ==> !lex_lt(x.name@, #[trigger] out@[q].name@),
                p < out@.len() ==> lex_lt(x.name@, out@[p as int].name@),
            decreases out@.len() - p,
        {
            if str_lt(x.name.as_str(), out[p].name.as_str()) {
                break;
            }
            p += 1;
        }
        proof {
            lemma_insert_component_at(x, out@, p as int);
            assert(orig.take(k + 1).drop_last() =~= orig.take(k));
            assert(orig.take(k + 1).last() == orig[k]);
        }
        out.insert(p, x);
    }
    proof {
        assert(orig.take(orig.len() as int) =~= orig);
    }
    out
}

/// A run of component directories is ordered when no later name comes
/// before an earlier one.
pub open spec fn components_ordered(s: Seq<RawComponentDir>) -> bool {
    forall|i: int, j: int|
        0 <= i < j < s.len() ==> lex_le((#[trigger] s[i]).name@, (#[trigger] s[j]).name@)
}

/// Inserting an element that no element of the run comes after appends
/// it at the end.
proof fn lemma_insert_component_append(x: RawComponentDir, s: Seq<RawComponentDir>)
    requires
        forall|q: int| 0 <= q < s.len() ==> !lex_lt(x.name@, (#[trigger] s[q]).name@),
    ensures
        insert_component(x, s) == s.push(x),
    decreases s.len(),
{
    if s.len() == 0 {
        assert(insert_component(x, s) =~= s.push(x));
    } else {
        assert(forall|q: int|
            0 <= q < s.drop_first().len() ==> !lex_lt(
                x.name@,
                (#[trigger] s.drop_first()[q]).name@,
            ));
        lemma_insert_component_append(x, s.drop_first());
        assert(seq![s[0]] + s.drop_first().push(x) =~= s.push(x));
    }
}

/// Sorting an already ordered run of component directories changes
/// nothing.
pub proof fn lemma_sort_components_id(s: Seq<RawComponentDir>)
    requires
        components_ordered(s),
    ensures
        sort_components(s) == s,
    decreases s.len(),
{
    if s.len() > 0 {
        assert(forall|i: int, j: int|
            0 <= i < j < s.drop_last().len() ==> lex_le(
                (#[trigger] s.drop_last()[i]).name@,
                (#[trigger] s.drop_last()[j]).name@,
            ));
        lemma_sort_components_id(s.drop_last());
        assert forall|q: int|
            0 <= q < s.drop_last().len() implies !lex_lt(
            s.last().name@,
            (#[trigger] s.drop_last()[q]).name@,
        ) by {
            assert(lex_le(s[q].name@, s.last().name@));
            crate::order::lemma_lex_asymmetric(s.last().name@, s[q].name@);
            crate::order::lemma_lex_irreflexive(s.last().name@);
        };
        lemma_insert_component_append(s.last(), s.drop_last());
        assert(s.drop_last().push(s.last()) =~= s);
    }
}

// ----- release bucket directories, newest first -----

/// Whether the release directory `a` renders before `b`: parseable
/// versions come first, newest first; unparsable labels follow, in
/// lexically descending order.
pub open spec fn release_before(a: RawBucketDir, b: RawBucketDir) -> bool {
    if version_ok(a.name@) && version_ok(b.name@) {
        ver_lt(version_of(b.name@), version_of(a.name@))
    } else if version_ok(a.name@) {
        true
    } else if version_ok(b.name@) {
        false
    } else {
        lex_lt(b.name@, a.name@)
    }
}

/// `x` placed into the ordered run `s`, after every element it does not
/// come before.
pub open spec fn insert_release(x: RawBucketDir, s: Seq<RawBucketDir>) -> Seq<RawBucketDir>
    decreases s.len(),
{
    if s.len() == 0 {
        seq![x]
    } else if release_before(x, s[0]) {
        seq![x] + s
    } else {
        seq![s[0]] + insert_release(x, s.drop_first())
    }
}

/// The run `s` ordered newest first; a stable sort.
pub open spec fn sort_releases(s: Seq<RawBucketDir>) -> Seq<RawBucketDir>
    decreases s.len(),
{
    if s.len() == 0 {
        Seq::empty()
    } else {
        insert_release(s.last(), sort_releases(s.drop_last()))
    }
}

#[verifier::rlimit(50)]
proof fn lemma_insert_release_at(x: RawBucketDir, s: Seq<RawBucketDir>, p: int)
    requires
        0 <= p <= s.len(),
        forall|q: int| 0 <= q < p ==> !release_before(x, #[trigger] s[q]),
        p < s.len() ==> release_before(x, s[p]),
    ensures
        insert_release(x, s) == s.insert(p, x),
    decreases s.len(),
{
    if p == 0 {
        assert(insert_release(x, s) =~= s.insert(0, x));
    } else {
        assert(!release_before(x, s[0]));
        assert(forall|q: int| 0 <= q < p - 1 ==> !release_before(x, #[trigger] s.drop_first()[q]));
        lemma_insert_release_at(x, s.drop_first(), p - 1);
        assert(seq![s[0]] + s.drop_first().insert(p - 1, x) =~= s.insert(p, x));
    }
}

/// Whether the release directory `a` renders before `b`.
pub fn release_before_exec(a: &RawBucketDir, b: &RawBucketDir) -> (r: bool)
    ensures
        r == release_before(*a, *b),
{
    let va = parse_version(a.name.as_str());
    let vb = parse_version(b.name.as_str());
    match (va, vb) {
        (Some(x), Some(y)) => version_lt(&y, &x),
        (Some(_), None) => true,
        (None, Some(_)) => false,
        (None, None) => str_lt(b.name.as_str(), a.name.as_str()),
    }
}

/// A run of release directories stands newest first when every earlier
/// one comes before every later one.
pub open spec fn releases_ordered(s: Seq<RawBucketDir>) -> bool {
    forall|i: int, j: int| 0 <= i < j < s.len() ==> release_before(#[trigger] s[i], #[trigger] s[j])
}

/// No two release directories each come before the other.
pub proof fn lemma_release_before_asym(a: RawBucketDir, b: RawBucketDir)
    ensures
        !(release_before(a, b) && release_before(b, a)),
{
    if !version_ok(a.name@) && !version_ok(b.name@) {
        crate::order::lemma_lex_asymmetric(a.name@, b.name@);
    }
}

/// Inserting an element that no element of the run comes after appends
/// it at the end.
proof fn lemma_insert_release_append(x: RawBucketDir, s: Seq<RawBucketDir>)
    requires
        forall|q: int| 0 <= q < s.len() ==> !release_before(x, #[trigger] s[q]),
    ensures
        insert_release(x, s) == s.push(x),
    decreases s.len(),
{
    if s.len() == 0 {
        assert(insert_release(x, s) =~= s.push(x));
    } else {
        assert(forall|q: int|
            0 <= q < s.drop_first().len() ==> !release_before(x, #[trigger] s.drop_first()[q]));
        lemma_insert_release_append(x, s.drop_first());
        assert(seq![s[0]] + s.drop_first().push(x) =~= s.push(x));
    }
}

/// Sorting a run of release directories that already stands newest
/// first changes nothing.
pub proof fn lemma_sort_releases_id(s: Seq<RawBucketDir>)
    requires
        releases_ordered(s),
    ensures
        sort_releases(s) == s,
    decreases s.len(),
{
    if s.len() > 0 {
        assert(forall|i: int, j: int|
            0 <= i < j < s.drop_last().len() ==> release_before(
                #[trigger] s.drop_last()[i],
                #[trigger] s.drop_last()[j],
            ));
        lemma_sort_releases_id(s.drop_last());
        assert forall|q: int|
            0 <= q < s.drop_last().len() implies !release_before(
            s.last(),
            #[trigger] s.drop_last()[q],
        ) by {
            assert(release_before(s[q], s.last()));
            lemma_release_before_asym(s.last(), s[q]);
        };
        lemma_insert_release_append(s.last(), s.drop_last());
        assert(s.drop_last().push(s.last()) =~= s);
    }
}

/// The release directories of `v`, ordered newest first.
pub fn sorted_releases(v: Vec<RawBucketDir>) -> (r: Vec<RawBucketDir>)
    ensures
        r@ == sort_releases(v@),
{
    let ghost orig = v@;
    let mut rem = v;
    let mut out: Vec<RawBucketDir> = Vec::new();
    while rem.len() > 0
        invariant
            out@.len() + rem@.len() == orig.len(),
            rem@ == orig.skip(out@.len() as int),
            out@ == sort_releases(orig.take(out@.len() as int)),
        decreases rem@.len(),
    {
        let ghost k = out@.len() as int;
        let x = rem.remove(0);
        proof {
            assert(x == orig[k]);
            assert(rem@ =~= orig.skip(k + 1));
        }
        let mut p: usize = 0;
        while p < out.len()
            invariant
                0 <= p <= out@.len(),
                forall|q: int| 0 <= q < p ==> !release_before(x, #[trigger] out@[q]),
            ensures
                0 <= p <= out@.len(),
                forall|q: int| 0 <= q < p ==> !release_before(x, #[trigger] out@[q]),
                p < out@.len() ==> release_before(x, out@[p as int]),
            decreases out@.len() - p,
        {
            if release_before_exec(&x, &out[p]) {
                break;
            }
            p += 1;
        }
        proof {
            lemma_insert_release_at(x, out@, p as int);
            assert(orig.take(k + 1).drop_last() =~= orig.take(k));
            assert(orig.take(k + 1).last() == orig[k]);
        }
        out.insert(p, x);
    }
    proof {
        assert(orig.take(orig.len() as int) =~= orig);
    }
    out
}

} // verus!
