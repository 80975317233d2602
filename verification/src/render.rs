//! Rendering the changelog model to the final document text.
//!
//! Rendering is a pure function of the model: the same tree always
//! yields the same text, pinned character for character by
//! `render_tree`.  The document is one top-level heading, the
//! unreleased section when it has content, one section per release
//! newest first, and the verbatim epilogue at the very end.

use crate::model::{
    Bucket, BucketV, Category, CategoryV, ChangelogTree, ComponentGroup, Entry, EntryV, GroupV,
    Release, ReleaseV, TreeV, kind_title, kind_title_str,
};
use vstd::prelude::*;

verus! {

/// The line an entry renders to.
pub open spec fn render_entry(e: EntryV) -> Seq<char> {
    "  - "@ + e.text + "\n"@
}

/// The lines a run of entries renders to, in order.
pub open spec fn render_entries(s: Seq<EntryV>) -> Seq<char>
    decreases s.len(),
{
    if s.len() == 0 {
        Seq::empty()
    } else {
        render_entries(s.drop_last()) + render_entry(s.last())
    }
}

/// The block a component group renders to: its name, then its entries.
pub open spec fn render_group(g: GroupV) -> Seq<char> {
    "\n- "@ + g.name + "\n"@ + render_entries(g.entries)
}

/// The blocks a run of groups renders to, in order.
pub open spec fn render_groups(s: Seq<GroupV>) -> Seq<char>
    decreases s.len(),
{
    if s.len() == 0 {
        Seq::empty()
    } else {
        render_groups(s.drop_last()) + render_group(s.last())
    }
}

/// The section a category renders to: its heading, then its groups.
pub open spec fn render_category(c: CategoryV) -> Seq<char> {
    "\n### "@ + kind_title(c.kind) + "\n"@ + render_groups(c.groups)
}

/// The sections a run of categories renders to, in order.
pub open spec fn render_categories(s: Seq<CategoryV>) -> Seq<char>
    decreases s.len(),
{
    if s.len() == 0 {
        Seq::empty()
    } else {
        render_categories(s.drop_last()) + render_category(s.last())
    }
}

/// The section a bucket renders to under the given heading.
pub open spec fn render_bucket(title: Seq<char>, b: BucketV) -> Seq<char> {
    "\n## "@ + title + "\n"@ + render_categories(b.categories)
}

/// The sections a run of releases renders to, newest first.
pub open spec fn render_releases(s: Seq<ReleaseV>) -> Seq<char>
    decreases s.len(),
{
    if s.len() == 0 {
        Seq::empty()
    } else {
        render_releases(s.drop_last()) + render_bucket(s.last().label, s.last().bucket)
    }
}

/// The whole document a tree renders to.  An unreleased bucket with no
/// categories is omitted; the epilogue, when present, ends the document
/// verbatim.
pub open spec fn render_tree(t: TreeV) -> Seq<char> {
    "# CHANGELOG\n"@ + (match t.unreleased {
        Some(b) => if b.categories.len() > 0 {
            render_bucket("Unreleased"@, b)
        } else {
            Seq::empty()
        },
        None => Seq::empty(),
    }) + render_releases(t.releases) + (match t.epilogue {
        Some(e) => "\n"@ + e,
        None => Seq::empty(),
    })
}

fn push_entry(out: &mut String, e: &Entry)
    ensures
        final(out)@ == old(out)@ + render_entry(e@),
{
    out.append("  - ");
    out.append(e.text.as_str());
    out.append("\n");
    proof {
        assert(out@ =~= old(out)@ + render_entry(e@));
    }
}

fn push_entries(out: &mut String, entries: &Vec<Entry>)
    ensures
        final(out)@ == old(out)@ + render_entries(entries@.map_values(|e: Entry| e@)),
{
    let ghost es = entries@.map_values(|e: Entry| e@);
    let n = entries.len();
    let mut i: usize = 0;
    while i < n
        invariant
            0 <= i <= n,
            n == entries@.len(),
            es == entries@.map_values(|e: Entry| e@),
            out@ == old(out)@ + render_entries(es.take(i as int)),
        decreases n - i,
    {
        push_entry(out, &entries[i]);
        proof {
            assert(es.take(i + 1).drop_last() =~= es.take(i as int));
            assert(es.take(i + 1).last() == entries@[i as int]@);
            assert(out@ =~= old(out)@ + render_entries(es.take(i + 1)));
        }
        i += 1;
    }
    proof {
        assert(es.take(n as int) =~= es);
    }
}

fn push_group(out: &mut String, g: &ComponentGroup)
    ensures
        final(out)@ == old(out)@ + render_group(g@),
{
    out.append("\n- ");
    out.append(g.name.as_str());
    out.append("\n");
    push_entries(out, &g.entries);
    proof {
        assert(out@ =~= old(out)@ + render_group(g@));
    }
}

fn push_groups(out: &mut String, groups: &Vec<ComponentGroup>)
    ensures
        final(out)@ == old(out)@ + render_groups(groups@.map_values(|g: ComponentGroup| g@)),
{
    let ghost gs = groups@.map_values(|g: ComponentGroup| g@);
    let n = groups.len();
    let mut i: usize = 0;
    while i < n
        invariant
            0 <= i <= n,
            n == groups@.len(),
            gs == groups@.map_values(|g: ComponentGroup| g@),
            out@ == old(out)@ + render_groups(gs.take(i as int)),
        decreases n - i,
    {
        push_group(out, &groups[i]);
        proof {
            assert(gs.take(i + 1).drop_last() =~= gs.take(i as int));
            assert(gs.take(i + 1).last() == groups@[i as int]@);
            assert(out@ =~= old(out)@ + render_groups(gs.take(i + 1)));
        }
        i += 1;
    }
    proof {
        assert(gs.take(n as int) =~= gs);
    }
}

fn push_category(out: &mut String, c: &Category)
    ensures
        final(out)@ == old(out)@ + render_category(c@),
{
    out.append("\n### ");
    out.append(kind_title_str(&c.kind));
    out.append("\n");
    push_groups(out, &c.groups);
    proof {
        assert(out@ =~= old(out)@ + render_category(c@));
    }
}

fn push_categories(out: &mut String, cats: &Vec<Category>)
    ensures
        final(out)@ == old(out)@ + render_categories(cats@.map_values(|c: Category| c@)),
{
    let ghost cs = cats@.map_values(|c: Category| c@);
    let n = cats.len();
    let mut i: usize = 0;
    while i < n
        invariant
            0 <= i <= n,
            n == cats@.len(),
            cs == cats@.map_values(|c: Category| c@),
            out@ == old(out)@ + render_categories(cs.take(i as int)),
        decreases n - i,
    {
        push_category(out, &cats[i]);
        proof {
            assert(cs.take(i + 1).drop_last() =~= cs.take(i as int));
            assert(cs.take(i + 1).last() == cats@[i as int]@);
            assert(out@ =~= old(out)@ + render_categories(cs.take(i + 1)));
        }
        i += 1;
    }
    proof {
        assert(cs.take(n as int) =~= cs);
    }
}

fn push_bucket(out: &mut String, title: &str, b: &Bucket)
    ensures
        final(out)@ == old(out)@ + render_bucket(title@, b@),
{
    out.append("\n## ");
    out.append(title);
    out.append("\n");
    push_categories(out, &b.categories);
    proof {
        assert(out@ =~= old(out)@ + render_bucket(title@, b@));
    }
}

fn push_releases(out: &mut String, rs: &Vec<Release>)
    ensures
        final(out)@ == old(out)@ + render_releases(rs@.map_values(|r: Release| r@)),
{
    let ghost vs = rs@.map_values(|r: Release| r@);
    let n = rs.len();
    let mut i: usize = 0;
    while i < n
        invariant
            0 <= i <= n,
            n == rs@.len(),
            vs == rs@.map_values(|r: Release| r@),
            out@ == old(out)@ + render_releases(vs.take(i as int)),
        decreases n - i,
    {
        push_bucket(out, rs[i].label.as_str(), &rs[i].bucket);
        proof {
            assert(vs.take(i + 1).drop_last() =~= vs.take(i as int));
            assert(vs.take(i + 1).last() == rs@[i as int]@);
            assert(out@ =~= old(out)@ + render_releases(vs.take(i + 1)));
        }
        i += 1;
    }
    proof {
        assert(vs.take(n as int) =~= vs);
    }
}

/// Render a changelog document to its final text.  Pure: the text is a
/// function of the tree alone.
pub fn render(tree: &ChangelogTree) -> (r: String)
    ensures
        r@ == render_tree(tree@),
{
    let mut out = String::new();
    out.append("# CHANGELOG\n");
    match &tree.unreleased {
        Some(b) => {
            if b.categories.len() > 0 {
                push_bucket(&mut out, "Unreleased", b);
            }
        },
        None => {},
    }
    push_releases(&mut out, &tree.releases);
    match &tree.epilogue {
        Some(e) => {
            out.append("\n");
            out.append(e.as_str());
        },
        None => {},
    }
    proof {
        assert(out@ =~= render_tree(tree@));
    }
    out
}

} // verus!
