//! What holds of the store across operations.

use vstd::prelude::*;
use crate::archive::{
    after_restored, archived, lemma_archived, lemma_listing_after_snapshot, lemma_revision_at,
    lemma_revision_listing, revision_listing, revision_restored, snapshot,
};
use crate::order::{is_rising, lemma_rising_same};
use crate::error::WikiError;
use crate::labels::root_id;
use crate::page::PageView;
use crate::pages::{
    after_page_created, after_page_deleted, after_page_updated, lemma_page_at, lemma_page_created,
    lemma_resident_count, lemma_update_keeps_pages, page_created, page_read, page_updated,
    resident_count, Draft,
};
use crate::query::search_listing;
use crate::registry::{
    after_section_created, after_section_removed, lemma_healed, lemma_parent_known,
    lemma_push_keeps_registry, lemma_section_at, section_created, section_removal, stand_in,
};
use crate::revision::{meta_of, RevisionMetaView, RevisionView};
use crate::section::SectionView;
use crate::store::{
    archive_wf, has_child, has_page, has_revision, has_section, is_revision, page_at, page_key,
    page_keyed, pages_wf, registry_wf, revision_at, revision_keyed, rooted, section_at,
    store_wf, StoreView,
};
use crate::trusted::lowercase;

verus! {

/// The section at place `i` is the root, or its parent stands before it and
/// descends from the root in turn.
pub open spec fn descends_from_root(sections: Seq<SectionView>, i: int) -> bool
    decreases i,
{
    if 0 <= i < sections.len() {
        sections[i].id == root_id() || (sections[i].parent_id is Some && exists|j: int|
            0 <= j < i && (#[trigger] sections[j]).id == sections[i].parent_id->0
                && descends_from_root(sections, j))
    } else {
        false
    }
}

/// No section is orphaned: in a well-formed registry every section is the
/// root or descends from it, parent by parent.
pub proof fn law_sections_descend_from_root(sections: Seq<SectionView>, i: int)
    requires
        registry_wf(sections),
        0 <= i < sections.len(),
    ensures
        descends_from_root(sections, i),
    decreases i,
{
    assert(rooted(sections, i));
    if sections[i].id != root_id() {
        let j = choose|j: int|
            0 <= j < i && (#[trigger] sections[j]).id == sections[i].parent_id->0;
        law_sections_descend_from_root(sections, j);
    }
}

/// Reading a page that was just created gives that page: with the title, body
/// and tags of the draft, and created and changed at the time of asking.
pub proof fn law_created_page_reads_back(s: StoreView, draft: Draft, now: i64)
    requires
        store_wf(s),
        page_created(s, draft, now) is Ok,
    ensures
        ({
            let page = page_created(s, draft, now)->Ok_0;
            &&& page_read(after_page_created(s, draft, now).pages, page.id) == Ok::<
                PageView,
                WikiError,
            >(page)
            &&& page.title == draft.title
            &&& page.content == draft.content
            &&& page.tags == draft.tags
            &&& page.created_at == now
            &&& page.updated_at == now
        }),
{
    let page = page_created(s, draft, now)->Ok_0;
    let after = after_page_created(s, draft, now);
    lemma_page_created(s, draft, now);
    assert(after.pages[s.pages.len() as int] == page);
    lemma_page_at(after.pages, page.id, s.pages.len() as int);
}

/// The root section cannot be deleted, whatever else the store holds: the
/// attempt fails with `InvalidOperation` and changes nothing.
pub proof fn law_root_stays(s: StoreView)
    ensures
        section_removal(s, root_id()) == Err::<(), WikiError>(WikiError::InvalidOperation),
        after_section_removed(s, root_id()) == s,
{
}

/// A section that has just been given a child cannot be deleted: the attempt
/// fails with `Conflict`.
pub proof fn law_child_guards_parent(
    s: StoreView,
    id: Seq<char>,
    name: Seq<char>,
    parent: Seq<char>,
    now: i64,
)
    requires
        store_wf(s),
        parent != root_id(),
        section_created(s.sections, id, name, Some(parent), now) is Ok,
    ensures
        section_removal(after_section_created(s, id, name, Some(parent), now), parent) == Err::<
            (),
            WikiError,
        >(WikiError::Conflict),
{
    let after = after_section_created(s, id, name, Some(parent), now);
    assert(after.sections[s.sections.len() as int].parent_id == Some(parent));
}

/// Deleting the child first frees the parent: where the parent had no other
/// child and no resident page, and no page is filed under the child's
/// identifier, the child can be deleted, which leaves the store as it was
/// before the child was made, and then the parent can be deleted.
pub proof fn law_child_then_parent(
    s: StoreView,
    id: Seq<char>,
    name: Seq<char>,
    parent: Seq<char>,
    now: i64,
)
    requires
        store_wf(s),
        parent != root_id(),
        section_created(s.sections, id, name, Some(parent), now) is Ok,
        !has_child(s.sections, parent),
        resident_count(s.pages, parent) == 0,
        resident_count(s.pages, id) == 0,
    ensures
        ({
            let made = after_section_created(s, id, name, Some(parent), now);
            &&& section_removal(made, id) == Ok::<(), WikiError>(())
            &&& after_section_removed(made, id) == s
            &&& section_removal(s, parent) == Ok::<(), WikiError>(())
        }),
{
    let made = after_section_created(s, id, name, Some(parent), now);
    let child = section_created(s.sections, id, name, Some(parent), now)->Ok_0;
    let n = s.sections.len() as int;
    lemma_push_keeps_registry(s.sections, child);
    assert(made.sections[n] == child);
    lemma_section_at(made.sections, id, n);
    let r = section_at(s.sections, root_id());
    assert(s.sections[r].id == root_id());
    if has_child(made.sections, id) {
        let k = choose|k: int|
            0 <= k < made.sections.len() && (#[trigger] made.sections[k]).parent_id == Some(id);
        if k < n {
            lemma_parent_known(s.sections, k);
        } else {
            let p = section_at(s.sections, parent);
            assert(s.sections[p].id == parent);
        }
    }
    assert(made.sections.remove(n) =~= s.sections);
}

/// A section in which a page has just been created cannot be deleted: the
/// attempt fails with `Conflict`.
pub proof fn law_page_guards_section(s: StoreView, draft: Draft, section: Seq<char>, now: i64)
    requires
        store_wf(s),
        draft.section_id == Some(section),
        section != root_id(),
        page_created(s, draft, now) is Ok,
    ensures
        section_removal(after_page_created(s, draft, now), section) == Err::<(), WikiError>(
            WikiError::Conflict,
        ),
        after_section_removed(after_page_created(s, draft, now), section) == after_page_created(
            s,
            draft,
            now,
        ),
{
    let after = after_page_created(s, draft, now);
    assert(after.pages[s.pages.len() as int].section_id == Some(section));
    lemma_resident_count(after.pages, section);
}

/// A section that was just made, and in which a page was then created, cannot
/// be deleted: the attempt fails with `Conflict` and changes nothing. No
/// section that `create_section` gives is the root, so the guard holds for
/// every section made and every page created in it.
pub proof fn law_page_guards_new_section(
    s: StoreView,
    id: Seq<char>,
    name: Seq<char>,
    parent_id: Option<Seq<char>>,
    made_at: i64,
    draft: Draft,
    now: i64,
)
    requires
        store_wf(s),
        section_created(s.sections, id, name, parent_id, made_at) is Ok,
        draft.section_id == Some(id),
        page_created(after_section_created(s, id, name, parent_id, made_at), draft, now) is Ok,
    ensures
        ({
            let made = after_section_created(s, id, name, parent_id, made_at);
            let filled = after_page_created(made, draft, now);
            &&& id != root_id()
            &&& store_wf(filled)
            &&& section_removal(filled, id) == Err::<(), WikiError>(WikiError::Conflict)
            &&& after_section_removed(filled, id) == filled
        }),
{
    let made = after_section_created(s, id, name, parent_id, made_at);
    let section = section_created(s.sections, id, name, parent_id, made_at)->Ok_0;
    lemma_push_keeps_registry(s.sections, section);
    lemma_page_created(made, draft, now);
    law_page_guards_section(made, draft, id, now);
}

/// Deleting the page first frees the section: where the section had no child
/// and no other resident page, deleting the page leaves the pages as they were
/// before it was made, and then the section can be deleted.
pub proof fn law_page_then_section(s: StoreView, draft: Draft, section: Seq<char>, now: i64)
    requires
        store_wf(s),
        draft.section_id == Some(section),
        section != root_id(),
        page_created(s, draft, now) is Ok,
        !has_child(s.sections, section),
        resident_count(s.pages, section) == 0,
    ensures
        ({
            let made = after_page_created(s, draft, now);
            let page = page_created(s, draft, now)->Ok_0;
            let cleared = after_page_deleted(made, page.id);
            &&& has_page(made.pages, page.id)
            &&& cleared.pages == s.pages
            &&& section_removal(cleared, section) == Ok::<(), WikiError>(())
        }),
{
    let made = after_page_created(s, draft, now);
    let page = page_created(s, draft, now)->Ok_0;
    let cleared = after_page_deleted(made, page.id);
    let n = s.pages.len() as int;
    lemma_page_created(s, draft, now);
    assert(made.pages[n] == page);
    lemma_page_at(made.pages, page.id, n);
    assert(made.pages.remove(n) =~= s.pages);
    lemma_healed(s.sections, Some(section), now);
    if has_child(cleared.sections, section) {
        let k = choose|k: int|
            0 <= k < cleared.sections.len() && (#[trigger] cleared.sections[k]).parent_id == Some(
                section,
            );
        if k < s.sections.len() {
            assert(s.sections[k].parent_id == Some(section));
        }
    }
}

/// Changing a page puts the page as it stood at the head of the page's
/// listing of snapshots, with the earlier entries behind it as they were, and
/// leaves the listings of other pages alone. (No snapshot is taken only where
/// the page's log has used up the last stamp.)
pub proof fn law_update_adds_revision(s: StoreView, id: Seq<char>, draft: Draft, now: i64)
    requires
        store_wf(s),
        has_page(s.pages, id),
        snapshot(s.revisions, s.pages[page_at(s.pages, id)], now) is Some,
    ensures
        ({
            let before = s.pages[page_at(s.pages, id)];
            let taken = snapshot(s.revisions, before, now)->0;
            let after = after_page_updated(s, id, draft, now);
            &&& taken.page == before
            &&& after.revisions == s.revisions.push(taken)
            &&& revision_listing(after.revisions, id) == seq![meta_of(taken)] + revision_listing(
                s.revisions,
                id,
            )
            &&& forall|other: Seq<char>|
                other != id ==> revision_listing(after.revisions, other) == revision_listing(
                    s.revisions,
                    other,
                )
        }),
{
    let before = s.pages[page_at(s.pages, id)];
    lemma_listing_after_snapshot(s.revisions, before, now);
}

/// The page that `id` names after a change is the changed page, at the place
/// of the old one.
pub proof fn law_updated_page_reads_back(s: StoreView, id: Seq<char>, draft: Draft, now: i64)
    requires
        store_wf(s),
        has_page(s.pages, id),
    ensures
        ({
            let after = after_page_updated(s, id, draft, now);
            &&& store_wf(after)
            &&& has_page(after.pages, id)
            &&& page_at(after.pages, id) == page_at(s.pages, id)
            &&& page_read(after.pages, id) == page_updated(s, id, draft, now)
        }),
{
    let at = page_at(s.pages, id);
    let page = page_updated(s, id, draft, now)->Ok_0;
    let after = after_page_updated(s, id, draft, now);
    assert(page_keyed(s.pages[at]));
    lemma_update_keeps_pages(s.pages, at, page);
    lemma_page_at(after.pages, id, at);
    lemma_healed(s.sections, page.section_id, now);
    lemma_archived(s.revisions, s.pages[at], now);
}

/// A page changed three times has three more snapshots than before, latest
/// first: the page as it stood before the third change, before the second and
/// before the first.
pub proof fn law_three_updates(
    s: StoreView,
    id: Seq<char>,
    first: Draft,
    second: Draft,
    third: Draft,
    t1: i64,
    t2: i64,
    t3: i64,
)
    requires
        store_wf(s),
        has_page(s.pages, id),
        ({
            let s1 = after_page_updated(s, id, first, t1);
            let s2 = after_page_updated(s1, id, second, t2);
            &&& snapshot(s.revisions, s.pages[page_at(s.pages, id)], t1) is Some
            &&& snapshot(s1.revisions, s1.pages[page_at(s1.pages, id)], t2) is Some
            &&& snapshot(s2.revisions, s2.pages[page_at(s2.pages, id)], t3) is Some
        }),
    ensures
        ({
            let s1 = after_page_updated(s, id, first, t1);
            let s2 = after_page_updated(s1, id, second, t2);
            let s3 = after_page_updated(s2, id, third, t3);
            let p0 = page_read(s.pages, id)->Ok_0;
            let p1 = page_read(s1.pages, id)->Ok_0;
            let p2 = page_read(s2.pages, id)->Ok_0;
            &&& revision_listing(s3.revisions, id) == seq![
                meta_of(snapshot(s2.revisions, p2, t3)->0),
                meta_of(snapshot(s1.revisions, p1, t2)->0),
                meta_of(snapshot(s.revisions, p0, t1)->0),
            ] + revision_listing(s.revisions, id)
            &&& snapshot(s.revisions, p0, t1)->0.page == p0
            &&& snapshot(s1.revisions, p1, t2)->0.page == p1
            &&& snapshot(s2.revisions, p2, t3)->0.page == p2
        }),
{
    let s1 = after_page_updated(s, id, first, t1);
    let s2 = after_page_updated(s1, id, second, t2);
    law_updated_page_reads_back(s, id, first, t1);
    law_updated_page_reads_back(s1, id, second, t2);
    law_update_adds_revision(s, id, first, t1);
    law_update_adds_revision(s1, id, second, t2);
    law_update_adds_revision(s2, id, third, t3);
    let l0 = revision_listing(s.revisions, id);
    let m1 = meta_of(snapshot(s.revisions, s.pages[page_at(s.pages, id)], t1)->0);
    let m2 = meta_of(snapshot(s1.revisions, s1.pages[page_at(s1.pages, id)], t2)->0);
    let m3 = meta_of(snapshot(s2.revisions, s2.pages[page_at(s2.pages, id)], t3)->0);
    assert(seq![m3] + (seq![m2] + (seq![m1] + l0)) =~= seq![m3, m2, m1] + l0);
}

/// The archive never shrinks and never changes an entry: whatever is asked of
/// it, every snapshot it held stays where it was.
pub proof fn law_archive_keeps_entries(revisions: Seq<RevisionView>, page: PageView, now: i64)
    ensures
        archived(revisions, page, now).len() >= revisions.len(),
        forall|i: int|
            0 <= i < revisions.len() ==> #[trigger] archived(revisions, page, now)[i]
                == revisions[i],
{
}

/// Restoring a snapshot loses nothing: the page as it stood goes to the head
/// of the page's listing of snapshots, the snapshot restored stays in the log,
/// and the page then reads as the snapshot holds it, changed at `now`. (No
/// snapshot is taken only where the page's log has used up the last stamp.)
pub proof fn law_restore_adds_revision(
    s: StoreView,
    page_id: Seq<char>,
    revision_id: Seq<char>,
    now: i64,
)
    requires
        store_wf(s),
        revision_restored(s, page_id, revision_id, now) is Ok,
        snapshot(s.revisions, s.pages[page_at(s.pages, page_id)], now) is Some,
    ensures
        ({
            let current = s.pages[page_at(s.pages, page_id)];
            let taken = snapshot(s.revisions, current, now)->0;
            let kept = s.revisions[revision_at(s.revisions, page_id, revision_id)];
            let after = after_restored(s, page_id, revision_id, now);
            &&& store_wf(after)
            &&& taken.page == current
            &&& after.revisions == s.revisions.push(taken)
            &&& revision_listing(after.revisions, page_id) == seq![meta_of(taken)]
                + revision_listing(s.revisions, page_id)
            &&& has_revision(after.revisions, page_id, revision_id)
            &&& page_read(after.pages, page_id) == Ok::<PageView, WikiError>(
                PageView { updated_at: now, ..kept.page },
            )
        }),
{
    let at = page_at(s.pages, page_id);
    let current = s.pages[at];
    let found = revision_at(s.revisions, page_id, revision_id);
    let kept = s.revisions[found];
    let after = after_restored(s, page_id, revision_id, now);
    let page = PageView { updated_at: now, ..kept.page };
    assert(is_revision(s.revisions, page_id, revision_id, found));
    assert(revision_keyed(s.revisions[found]));
    lemma_listing_after_snapshot(s.revisions, current, now);
    lemma_archived(s.revisions, current, now);
    lemma_update_keeps_pages(s.pages, at, page);
    lemma_page_at(after.pages, page_id, at);
    assert(is_revision(after.revisions, page_id, revision_id, found));
}

/// After a change to "v2" and a change to "v3", restoring the snapshot that
/// the second change took brings "v2" back: the title, body, tags, labels and
/// section of the page are those of the first change.
pub proof fn law_restore_brings_back(
    s: StoreView,
    id: Seq<char>,
    v2: Draft,
    v3: Draft,
    t1: i64,
    t2: i64,
    t3: i64,
)
    requires
        store_wf(s),
        has_page(s.pages, id),
        snapshot(
            after_page_updated(s, id, v2, t1).revisions,
            page_updated(s, id, v2, t1)->Ok_0,
            t2,
        ) is Some,
    ensures
        ({
            let s1 = after_page_updated(s, id, v2, t1);
            let p1 = page_updated(s, id, v2, t1)->Ok_0;
            let s2 = after_page_updated(s1, id, v3, t2);
            let kept = snapshot(s1.revisions, p1, t2)->0;
            &&& kept.page == p1
            &&& revision_restored(s2, id, kept.id, t3) == Ok::<PageView, WikiError>(
                PageView { updated_at: t3, ..p1 },
            )
            &&& page_read(after_restored(s2, id, kept.id, t3).pages, id) == Ok::<
                PageView,
                WikiError,
            >(PageView { updated_at: t3, ..p1 })
            &&& p1.title == v2.title && p1.content == v2.content && p1.tags == v2.tags
        }),
{
    let s1 = after_page_updated(s, id, v2, t1);
    let p1 = page_updated(s, id, v2, t1)->Ok_0;
    let s2 = after_page_updated(s1, id, v3, t2);
    let kept = snapshot(s1.revisions, p1, t2)->0;
    law_updated_page_reads_back(s, id, v2, t1);
    law_updated_page_reads_back(s1, id, v3, t2);
    law_update_adds_revision(s1, id, v3, t2);
    let n = s1.revisions.len() as int;
    assert(s2.revisions[n] == kept);
    assert(is_revision(s2.revisions, id, kept.id, n));
    lemma_revision_at(s2.revisions, id, kept.id, n);
    let at = page_at(s2.pages, id);
    let page = PageView { updated_at: t3, ..p1 };
    let s3 = after_restored(s2, id, kept.id, t3);
    assert(revision_keyed(s2.revisions[n]));
    lemma_update_keeps_pages(s2.pages, at, page);
    lemma_page_at(s3.pages, id, at);
}

/// Which pages a store holds settles the order in which it holds them: two
/// well-formed sequences of the same pages are the same sequence. So the
/// listings of a store do not depend on the order in which its records were
/// read.
pub proof fn law_pages_settle_their_order(one: Seq<PageView>, other: Seq<PageView>)
    requires
        pages_wf(one),
        pages_wf(other),
        forall|page: PageView| one.contains(page) <==> other.contains(page),
    ensures
        one == other,
{
    lemma_rising_same(one, other, |page: PageView| page_key(page));
}

/// The listing of a page's snapshots depends on which snapshots the archive
/// holds, and not on their order in it.
pub proof fn law_snapshots_settle_their_listing(
    one: Seq<RevisionView>,
    other: Seq<RevisionView>,
    page_id: Seq<char>,
)
    requires
        archive_wf(one),
        archive_wf(other),
        forall|revision: RevisionView| one.contains(revision) <==> other.contains(revision),
    ensures
        revision_listing(one, page_id) == revision_listing(other, page_id),
{
    let first = revision_listing(one, page_id);
    let second = revision_listing(other, page_id);
    let rank = |meta: RevisionMetaView| -(meta.created_at as int);
    lemma_revision_listing(one, page_id);
    lemma_revision_listing(other, page_id);
    assert forall|meta: RevisionMetaView| first.contains(meta) implies second.contains(meta) by {
        let k = choose|k: int| 0 <= k < first.len() && first[k] == meta;
        let i = choose|i: int|
            0 <= i < one.len() && (#[trigger] one[i]).page.id == page_id && first[k] == meta_of(
                one[i],
            );
        assert(one.contains(one[i]));
        let j = choose|j: int| 0 <= j < other.len() && other[j] == one[i];
        assert(other[j].page.id == page_id);
    }
    assert forall|meta: RevisionMetaView| second.contains(meta) implies first.contains(meta) by {
        let k = choose|k: int| 0 <= k < second.len() && second[k] == meta;
        let i = choose|i: int|
            0 <= i < other.len() && (#[trigger] other[i]).page.id == page_id && second[k]
                == meta_of(other[i]);
        assert(other.contains(other[i]));
        let j = choose|j: int| 0 <= j < one.len() && one[j] == other[i];
        assert(one[j].page.id == page_id);
    }
    assert(is_rising(first, rank)) by {
        assert forall|i: int, j: int| 0 <= i < j < first.len() implies rank(#[trigger] first[i])
            < rank(#[trigger] first[j]) by {
            assert(first[i].created_at > first[j].created_at);
        }
    }
    assert(is_rising(second, rank)) by {
        assert forall|i: int, j: int| 0 <= i < j < second.len() implies rank(#[trigger] second[i])
            < rank(#[trigger] second[j]) by {
            assert(second[i].created_at > second[j].created_at);
        }
    }
    lemma_rising_same(first, second, rank);
}

/// Search ignores the case of the query: two queries with the same lower-case
/// form find the same pages, in the same order.
pub proof fn law_search_ignores_case(pages: Seq<PageView>, one: Seq<char>, other: Seq<char>)
    requires
        lowercase(one) == lowercase(other),
    ensures
        search_listing(pages, one) == search_listing(pages, other),
{
}

/// Filing a page under a section that was never made succeeds and makes the
/// section: a child of the root, with the identifier as its name, at the end
/// of the registry.
pub proof fn law_update_heals_section(
    s: StoreView,
    id: Seq<char>,
    draft: Draft,
    ghost_id: Seq<char>,
    now: i64,
)
    requires
        store_wf(s),
        has_page(s.pages, id),
        draft.section_id == Some(ghost_id),
        !has_section(s.sections, ghost_id),
    ensures
        ({
            let after = after_page_updated(s, id, draft, now);
            &&& page_updated(s, id, draft, now) is Ok
            &&& page_updated(s, id, draft, now)->Ok_0.section_id == Some(ghost_id)
            &&& after.sections == s.sections.push(stand_in(ghost_id, now))
            &&& has_section(after.sections, ghost_id)
            &&& after.sections[section_at(after.sections, ghost_id)].parent_id
                == Some(root_id())
            &&& store_wf(after)
        }),
{
    let after = after_page_updated(s, id, draft, now);
    law_updated_page_reads_back(s, id, draft, now);
    lemma_healed(s.sections, Some(ghost_id), now);
    assert(after.sections[s.sections.len() as int] == stand_in(ghost_id, now));
    lemma_section_at(after.sections, ghost_id, s.sections.len() as int);
}

} // verus!
