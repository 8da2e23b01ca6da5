//! The query layer: listings of the stored pages, newest first, and the
//! search over their texts. Nothing here changes the store.

use vstd::prelude::*;
use crate::order::{arrange, falling, is_arrangement, lemma_falling, ranks_of};
use crate::page::{summary_of, PageListView, PageView, WikiPage, WikiPageList};
use crate::store::WikiStore;
use crate::text::{is_infix, mentions};
use crate::trusted::{lowercase, to_lowercase};

verus! {

/// The listing entries of the pages, in the order of the pages.
pub open spec fn summaries(pages: Seq<PageView>) -> Seq<PageListView> {
    Seq::new(pages.len(), |i: int| summary_of(pages[i]))
}

/// The change times of the entries.
pub open spec fn change_dates(entries: Seq<PageListView>) -> Seq<int> {
    Seq::new(entries.len(), |i: int| entries[i].updated_at as int)
}

/// The entries arranged by change time, most recently changed first; entries
/// changed at the same time keep their order.
pub open spec fn by_recency(entries: Seq<PageListView>) -> Seq<PageListView> {
    Seq::new(entries.len(), |k: int| entries[falling(change_dates(entries))[k]])
}

/// The listing of all pages.
pub open spec fn page_listing(pages: Seq<PageView>) -> Seq<PageListView> {
    by_recency(summaries(pages))
}

/// Whether `needle` occurs in the lower-case form of the title, the body, a
/// tag, the notebook label or the section label of the page.
pub open spec fn page_matches(page: PageView, needle: Seq<char>) -> bool {
    ||| is_infix(needle, lowercase(page.title))
    ||| is_infix(needle, lowercase(page.content))
    ||| exists|i: int|
        0 <= i < page.tags.len() && is_infix(needle, lowercase(#[trigger] page.tags[i]))
    ||| is_infix(needle, lowercase(page.notebook))
    ||| is_infix(needle, lowercase(page.section))
}

/// The pages that match `needle`, in the order of the pages.
pub open spec fn matching(pages: Seq<PageView>, needle: Seq<char>) -> Seq<PageView> {
    pages.filter(|page: PageView| page_matches(page, needle))
}

/// The listing of the pages that a query finds: those that match the
/// lower-case form of the query.
pub open spec fn search_listing(pages: Seq<PageView>, query: Seq<char>) -> Seq<PageListView> {
    by_recency(summaries(matching(pages, lowercase(query))))
}

/// A listing by recency holds every entry once, and runs from the most
/// recently changed to the least.
pub proof fn lemma_by_recency(entries: Seq<PageListView>)
    ensures
        by_recency(entries).len() == entries.len(),
        is_arrangement(change_dates(entries), falling(change_dates(entries))),
        forall|a: int, b: int|
            0 <= a < b < entries.len() ==> (#[trigger] by_recency(entries)[a]).updated_at >= (
            #[trigger] by_recency(entries)[b]).updated_at,
        forall|i: int| 0 <= i < entries.len() ==> by_recency(entries).contains(#[trigger] entries[i]),
        forall|k: int| 0 <= k < entries.len() ==> entries.contains(#[trigger] by_recency(entries)[k]),
{
    let dates = change_dates(entries);
    let order = falling(dates);
    let listed = by_recency(entries);
    lemma_falling(dates);
    assert forall|a: int, b: int| 0 <= a < b < entries.len() implies (#[trigger] listed[a]).updated_at
        >= (#[trigger] listed[b]).updated_at by {
        assert(dates[order[a]] >= dates[order[b]]);
    }
    assert forall|i: int| 0 <= i < entries.len() implies listed.contains(#[trigger] entries[i]) by {
        assert(order.contains(i));
        let k = choose|k: int| 0 <= k < order.len() && order[k] == i;
        assert(listed[k] == entries[i]);
    }
    assert forall|k: int| 0 <= k < entries.len() implies entries.contains(#[trigger] listed[k]) by {
        assert(0 <= order[k] < entries.len());
        assert(entries[order[k]] == listed[k]);
    }
}

/// Arranges listing entries by recency.
fn arrange_by_recency(entries: &Vec<WikiPageList>) -> (r: Vec<WikiPageList>)
    ensures
        r.deep_view() == by_recency(entries.deep_view()),
{
    let mut dates: Vec<i64> = Vec::new();
    let mut i: usize = 0;
    while i < entries.len()
        invariant
            i <= entries.len(),
            dates.len() == i,
            forall|k: int| 0 <= k < i ==> dates[k] == entries[k].updated_at,
        decreases entries.len() - i,
    {
        dates.push(entries[i].updated_at);
        i += 1;
    }
    assert(ranks_of(dates@) =~= change_dates(entries.deep_view()));
    let order = arrange(&dates);
    let mut r: Vec<WikiPageList> = Vec::new();
    let mut k: usize = 0;
    while k < order.len()
        invariant
            k <= order.len(),
            order.len() == entries.len(),
            r.len() == k,
            forall|j: int| 0 <= j < order.len() ==> order[j] < entries.len(),
            forall|j: int| 0 <= j < k ==> r[j]@ == entries[order[j] as int]@,
        decreases order.len() - k,
    {
        r.push(entries[order[k]].clone());
        k += 1;
    }
    assert(r.deep_view() =~= by_recency(entries.deep_view()));
    r
}

/// All pages as listing entries, most recently changed first; pages changed at
/// the same time stand in their stored order.
pub fn list_wiki_pages(store: &WikiStore) -> (r: Vec<WikiPageList>)
    ensures
        r.deep_view() == page_listing(store@.pages),
        r.len() == store@.pages.len(),
        forall|a: int, b: int|
            0 <= a < b < r.len() ==> (#[trigger] r[a]).updated_at >= (#[trigger] r[b]).updated_at,
        forall|i: int|
            0 <= i < store@.pages.len() ==> r.deep_view().contains(
                summary_of(#[trigger] store@.pages[i]),
            ),
{
    let mut entries: Vec<WikiPageList> = Vec::new();
    let mut i: usize = 0;
    while i < store.pages.len()
        invariant
            i <= store.pages.len(),
            entries.len() == i,
            forall|k: int| 0 <= k < i ==> entries[k]@ == summary_of(store.pages[k]@),
        decreases store.pages.len() - i,
    {
        entries.push(store.pages[i].summary());
        i += 1;
    }
    assert(entries.deep_view() =~= summaries(store.pages.deep_view()));
    let r = arrange_by_recency(&entries);
    proof {
        let listed = r.deep_view();
        let all = summaries(store@.pages);
        lemma_by_recency(all);
        assert forall|a: int, b: int| 0 <= a < b < r.len() implies (#[trigger] r[a]).updated_at >= (
        #[trigger] r[b]).updated_at by {
            assert(listed[a].updated_at >= listed[b].updated_at);
        }
        assert forall|i: int| 0 <= i < store@.pages.len() implies listed.contains(
            summary_of(#[trigger] store@.pages[i]),
        ) by {
            assert(all[i] == summary_of(store@.pages[i]));
        }
    }
    r
}

/// Whether the page matches the needle, which is taken as it is.
fn page_mentions(page: &WikiPage, needle: &str) -> (r: bool)
    ensures
        r == page_matches(page@, needle@),
{
    if mentions(page.title.as_str(), needle) {
        return true;
    }
    if mentions(page.content.as_str(), needle) {
        return true;
    }
    let mut i: usize = 0;
    while i < page.tags.len()
        invariant
            i <= page.tags.len(),
            forall|k: int| 0 <= k < i ==> !is_infix(needle@, lowercase(page.tags[k]@)),
        decreases page.tags.len() - i,
    {
        if mentions(page.tags[i].as_str(), needle) {
            assert(page@.tags[i as int] == page.tags[i as int]@);
            return true;
        }
        i += 1;
    }
    assert forall|k: int| 0 <= k < page@.tags.len() implies !is_infix(
        needle@,
        lowercase(#[trigger] page@.tags[k]),
    ) by {
        assert(page@.tags[k] == page.tags[k]@);
    }
    if mentions(page.notebook.as_str(), needle) {
        return true;
    }
    mentions(page.section.as_str(), needle)
}

/// The pages in which the query occurs, as listing entries in the order of
/// `list_wiki_pages`. Case is ignored: the lower-case form of the query is
/// looked for in the lower-case forms of the title, the body, each tag, the
/// notebook label and the section label.
pub fn search_wiki_pages(store: &WikiStore, query: String) -> (r: Vec<WikiPageList>)
    ensures
        r.deep_view() == search_listing(store@.pages, query@),
        forall|a: int, b: int|
            0 <= a < b < r.len() ==> (#[trigger] r[a]).updated_at >= (#[trigger] r[b]).updated_at,
        forall|k: int|
            0 <= k < r.len() ==> exists|i: int|
                0 <= i < store@.pages.len() && page_matches(
                    store@.pages[i],
                    lowercase(query@),
                ) && (#[trigger] r.deep_view()[k]) == summary_of(store@.pages[i]),
        forall|i: int|
            0 <= i < store@.pages.len() && page_matches(
                #[trigger] store@.pages[i],
                lowercase(query@),
            ) ==> r.deep_view().contains(summary_of(store@.pages[i])),
{
    let needle = to_lowercase(query.as_str());
    let ghost pred = |page: PageView| page_matches(page, needle@);
    let ghost all = store.pages.deep_view();
    let mut entries: Vec<WikiPageList> = Vec::new();
    let mut i: usize = 0;
    while i < store.pages.len()
        invariant
            i <= store.pages.len(),
            all == store.pages.deep_view(),
            pred == |page: PageView| page_matches(page, needle@),
            entries.deep_view() == summaries(all.take(i as int).filter(pred)),
        decreases store.pages.len() - i,
    {
        proof {
            let seen = all.take(i as int);
            seen.lemma_filter_push(all[i as int], pred);
            all.lemma_take_succ_push(i as int);
            assert(all[i as int] == store.pages[i as int]@);
        }
        if page_mentions(&store.pages[i], needle.as_str()) {
            let ghost before = entries.deep_view();
            entries.push(store.pages[i].summary());
            assert(entries.deep_view() =~= before.push(summary_of(all[i as int])));
            assert(summaries(all.take(i as int).filter(pred).push(all[i as int])) =~= before.push(
                summary_of(all[i as int]),
            ));
        }
        i += 1;
    }
    assert(all.take(i as int) =~= all);
    let r = arrange_by_recency(&entries);
    proof {
        let found = matching(store@.pages, lowercase(query@));
        let listed = r.deep_view();
        lemma_by_recency(summaries(found));
        assert forall|a: int, b: int| 0 <= a < b < r.len() implies (#[trigger] r[a]).updated_at >= (
        #[trigger] r[b]).updated_at by {
            assert(listed[a].updated_at >= listed[b].updated_at);
        }
        assert forall|k: int| 0 <= k < r.len() implies exists|i: int|
            0 <= i < store@.pages.len() && page_matches(store@.pages[i], lowercase(query@)) && (
            #[trigger] listed[k]) == summary_of(store@.pages[i]) by {
            assert(summaries(found).contains(listed[k]));
            let j = choose|j: int| 0 <= j < summaries(found).len() && summaries(found)[j] == listed[k];
            all.lemma_filter_pred(pred, j);
            assert(found.contains(found[j]));
            all.lemma_filter_contains_rev(pred, found[j]);
            assert(all.contains(found[j]));
            let i = choose|i: int| 0 <= i < all.len() && all[i] == found[j];
            assert(page_matches(store@.pages[i], lowercase(query@)));
        }
        assert forall|i: int|
            0 <= i < store@.pages.len() && page_matches(
                #[trigger] store@.pages[i],
                lowercase(query@),
            ) implies listed.contains(summary_of(store@.pages[i])) by {
            all.lemma_filter_contains(pred, i);
            assert(found.contains(all[i]));
            let j = choose|j: int| 0 <= j < found.len() && found[j] == all[i];
            assert(summaries(found)[j] == summary_of(all[i]));
        }
    }
    r
}

} // verus!
