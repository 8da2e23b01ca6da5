//! The store: the section registry, the pages and the revision archive, with
//! the conditions that hold of them between operations.

use vstd::prelude::*;
use crate::error::WikiError;
use crate::labels::root_id;
use crate::page::{PageView, WikiPage};
use crate::registry::{load_sections, seeded};
use crate::revision::{RevisionView, WikiRevision};
use crate::section::{Section, SectionView};
use crate::order::{arrange, falling, lemma_falling, ranks_of};
use crate::text::{decimal, decimal_text, decimal_value, is_key, parse_decimal};

verus! {

/// What a store holds. The order of `sections` is the order of the registry;
/// the order of `pages` and of `revisions` carries no meaning beyond breaking
/// ties in listings.
pub struct StoreView {
    pub sections: Seq<SectionView>,
    pub pages: Seq<PageView>,
    pub revisions: Seq<RevisionView>,
}

/// Whether the registry knows a section by this identifier.
pub open spec fn has_section(sections: Seq<SectionView>, id: Seq<char>) -> bool {
    exists|i: int| 0 <= i < sections.len() && (#[trigger] sections[i]).id == id
}

/// The place of the section with this identifier in the registry.
pub open spec fn section_at(sections: Seq<SectionView>, id: Seq<char>) -> int {
    choose|i: int| 0 <= i < sections.len() && (#[trigger] sections[i]).id == id
}

/// Whether some section names `id` as its parent.
pub open spec fn has_child(sections: Seq<SectionView>, id: Seq<char>) -> bool {
    exists|i: int| 0 <= i < sections.len() && (#[trigger] sections[i]).parent_id == Some(id)
}

/// Whether a page with this identifier is stored.
pub open spec fn has_page(pages: Seq<PageView>, id: Seq<char>) -> bool {
    exists|i: int| 0 <= i < pages.len() && (#[trigger] pages[i]).id == id
}

/// The place of the page with this identifier.
pub open spec fn page_at(pages: Seq<PageView>, id: Seq<char>) -> int {
    choose|i: int| 0 <= i < pages.len() && (#[trigger] pages[i]).id == id
}

/// Whether some page is filed in the section `id`.
pub open spec fn has_resident(pages: Seq<PageView>, id: Seq<char>) -> bool {
    exists|i: int| 0 <= i < pages.len() && (#[trigger] pages[i]).section_id == Some(id)
}

/// Whether the snapshot at place `i` is the one that the log of `page_id`
/// keeps under `revision_id`.
pub open spec fn is_revision(
    revisions: Seq<RevisionView>,
    page_id: Seq<char>,
    revision_id: Seq<char>,
    i: int,
) -> bool {
    &&& 0 <= i < revisions.len()
    &&& revisions[i].page.id == page_id
    &&& revisions[i].id == revision_id
}

/// Whether the log of `page_id` keeps a snapshot under `revision_id`.
pub open spec fn has_revision(
    revisions: Seq<RevisionView>,
    page_id: Seq<char>,
    revision_id: Seq<char>,
) -> bool {
    exists|i: int| #[trigger] is_revision(revisions, page_id, revision_id, i)
}

/// The place of that snapshot in the archive.
pub open spec fn revision_at(
    revisions: Seq<RevisionView>,
    page_id: Seq<char>,
    revision_id: Seq<char>,
) -> int {
    choose|i: int| #[trigger] is_revision(revisions, page_id, revision_id, i)
}

/// The section at place `i` is the root and has no parent, or it names as its
/// parent a section that stands before it in the registry.
pub open spec fn rooted(sections: Seq<SectionView>, i: int) -> bool {
    if sections[i].id == root_id() {
        sections[i].parent_id is None
    } else {
        &&& sections[i].parent_id is Some
        &&& exists|j: int|
            0 <= j < i && (#[trigger] sections[j]).id == sections[i].parent_id->0
    }
}

/// The registry holds the root, no identifier twice, and every section after
/// its parent: the sections form a tree under the root.
pub open spec fn registry_wf(sections: Seq<SectionView>) -> bool {
    &&& has_section(sections, root_id())
    &&& forall|i: int, j: int|
        0 <= i < j < sections.len() ==> (#[trigger] sections[i]).id != (#[trigger] sections[j]).id
    &&& forall|i: int| 0 <= i < sections.len() ==> #[trigger] rooted(sections, i)
}

/// A page's identifier is a key: the decimal text of a 64-bit integer.
pub open spec fn page_keyed(page: PageView) -> bool {
    is_key(page.id)
}

/// The key of a page: the integer that its identifier writes.
pub open spec fn page_key(page: PageView) -> int {
    decimal_value(page.id)
}

/// Every page's identifier is a key, and the pages stand in the order of
/// their keys, the lowest first; so no key occurs twice, and which pages are
/// stored settles in what order they stand.
pub open spec fn pages_wf(pages: Seq<PageView>) -> bool {
    &&& forall|i: int| 0 <= i < pages.len() ==> page_keyed(#[trigger] pages[i])
    &&& forall|i: int, j: int|
        0 <= i < j < pages.len() ==> page_key(#[trigger] pages[i]) < page_key(
            #[trigger] pages[j],
        )
}

/// The keys of the pages, as ranks.
pub open spec fn key_ranks(pages: Seq<PageView>) -> Seq<int> {
    Seq::new(pages.len(), |i: int| page_key(pages[i]))
}

/// The pages in the order of their keys, the lowest first.
pub open spec fn by_key(pages: Seq<PageView>) -> Seq<PageView> {
    Seq::new(pages.len(), |k: int| pages[falling(key_ranks(pages))[pages.len() - 1 - k]])
}

/// Well-formed pages bear different identifiers.
pub proof fn lemma_keys_distinct(pages: Seq<PageView>)
    requires
        pages_wf(pages),
    ensures
        forall|i: int, j: int|
            0 <= i < j < pages.len() ==> (#[trigger] pages[i]).id != (#[trigger] pages[j]).id,
{
    assert forall|i: int, j: int| 0 <= i < j < pages.len() implies (#[trigger] pages[i]).id != (
    #[trigger] pages[j]).id by {
        assert(page_key(pages[i]) < page_key(pages[j]));
    }
}

/// Arranging pages by key loses and adds none.
pub proof fn lemma_by_key(pages: Seq<PageView>)
    ensures
        by_key(pages).len() == pages.len(),
        forall|i: int| 0 <= i < pages.len() ==> by_key(pages).contains(#[trigger] pages[i]),
        forall|k: int| 0 <= k < pages.len() ==> pages.contains(#[trigger] by_key(pages)[k]),
{
    let order = falling(key_ranks(pages));
    let n = pages.len() as int;
    let arranged = by_key(pages);
    lemma_falling(key_ranks(pages));
    assert forall|i: int| 0 <= i < n implies arranged.contains(#[trigger] pages[i]) by {
        assert(order.contains(i));
        let k = choose|k: int| 0 <= k < order.len() && order[k] == i;
        assert(arranged[n - 1 - k] == pages[i]);
    }
    assert forall|k: int| 0 <= k < n implies pages.contains(#[trigger] arranged[k]) by {
        assert(0 <= order[n - 1 - k] < n);
        assert(pages[order[n - 1 - k]] == arranged[k]);
    }
}

/// A snapshot's identifier is the decimal text of its stamp, the time at
/// which it was taken, and the identifier of the page in it is a key.
pub open spec fn revision_keyed(revision: RevisionView) -> bool {
    &&& revision.id == decimal(revision.created_at as int)
    &&& page_keyed(revision.page)
}

/// Every snapshot is keyed by its stamp, and no page's log holds a key twice.
pub open spec fn archive_wf(revisions: Seq<RevisionView>) -> bool {
    &&& forall|i: int| 0 <= i < revisions.len() ==> revision_keyed(#[trigger] revisions[i])
    &&& forall|i: int, j: int|
        0 <= i < j < revisions.len() ==> !({
            &&& (#[trigger] revisions[i]).page.id == (#[trigger] revisions[j]).page.id
            &&& revisions[i].id == revisions[j].id
        })
}

/// The conditions that hold of a store between operations.
pub open spec fn store_wf(s: StoreView) -> bool {
    &&& registry_wf(s.sections)
    &&& pages_wf(s.pages)
    &&& archive_wf(s.revisions)
}

/// A document store, as loaded from its backing records.
#[derive(Debug)]
pub struct WikiStore {
    pub(crate) sections: Vec<Section>,
    pub(crate) pages: Vec<WikiPage>,
    pub(crate) revisions: Vec<WikiRevision>,
}

impl View for WikiStore {
    type V = StoreView;

    open(crate) spec fn view(&self) -> StoreView {
        StoreView {
            sections: self.sections.deep_view(),
            pages: self.pages.deep_view(),
            revisions: self.revisions.deep_view(),
        }
    }
}

/// Whether the sections form a well-formed registry.
fn check_registry(sections: &Vec<Section>) -> (r: bool)
    ensures
        r == registry_wf(sections.deep_view()),
{
    let ghost all = sections.deep_view();
    let root: String = "root".to_owned();
    let mut has_root = false;
    let mut i: usize = 0;
    while i < sections.len()
        invariant
            i <= sections.len(),
            all == sections.deep_view(),
            root@ == root_id(),
            has_root <==> exists|k: int| 0 <= k < i && (#[trigger] all[k]).id == root_id(),
            forall|a: int, b: int|
                0 <= a < b < i ==> (#[trigger] all[a]).id != (#[trigger] all[b]).id,
            forall|k: int| 0 <= k < i ==> #[trigger] rooted(all, k),
        decreases sections.len() - i,
    {
        assert(all[i as int] == sections[i as int]@);
        let is_root = sections[i].id == root;
        let mut parent_seen = false;
        let mut j: usize = 0;
        while j < i
            invariant
                j <= i < sections.len(),
                all == sections.deep_view(),
                all[i as int] == sections[i as int]@,
                forall|a: int| 0 <= a < j ==> (#[trigger] all[a]).id != all[i as int].id,
                parent_seen <==> exists|a: int|
                    0 <= a < j && Some((#[trigger] all[a]).id) == all[i as int].parent_id,
            decreases i - j,
        {
            assert(all[j as int] == sections[j as int]@);
            if sections[j].id == sections[i].id {
                assert(all[j as int].id == all[i as int].id);
                return false;
            }
            let names_parent = match &sections[i].parent_id {
                Some(p) => sections[j].id == *p,
                None => false,
            };
            if names_parent {
                parent_seen = true;
            }
            j += 1;
        }
        let placed = if is_root {
            sections[i].parent_id.is_none()
        } else {
            parent_seen
        };
        if !placed {
            assert(!rooted(all, i as int)) by {
                if !is_root && all[i as int].parent_id is Some {
                    if exists|a: int|
                        0 <= a < i && (#[trigger] all[a]).id == all[i as int].parent_id->0 {
                        let a = choose|a: int|
                            0 <= a < i && (#[trigger] all[a]).id == all[i as int].parent_id->0;
                        assert(Some(all[a].id) == all[i as int].parent_id);
                    }
                }
            }
            return false;
        }
        assert(rooted(all, i as int)) by {
            if !is_root {
                let a = choose|a: int|
                    0 <= a < i && Some((#[trigger] all[a]).id) == all[i as int].parent_id;
                assert(all[a].id == all[i as int].parent_id->0);
            }
        }
        if is_root {
            has_root = true;
        }
        i += 1;
    }
    has_root
}

/// The keys of the pages, if every identifier is a key.
fn page_keys(pages: &Vec<WikiPage>) -> (r: Option<Vec<i64>>)
    ensures
        match r {
            Some(keys) => {
                &&& keys.len() == pages.len()
                &&& ranks_of(keys@) == key_ranks(pages.deep_view())
                &&& forall|k: int|
                    0 <= k < pages.len() ==> page_keyed(#[trigger] pages.deep_view()[k])
            },
            None => exists|k: int|
                0 <= k < pages.len() && !page_keyed(#[trigger] pages.deep_view()[k]),
        },
{
    let ghost all = pages.deep_view();
    let mut keys: Vec<i64> = Vec::new();
    let mut i: usize = 0;
    while i < pages.len()
        invariant
            i <= pages.len(),
            all == pages.deep_view(),
            keys.len() == i,
            forall|k: int| 0 <= k < i ==> page_keyed(#[trigger] all[k]),
            forall|k: int| 0 <= k < i ==> keys[k] == page_key(#[trigger] all[k]),
        decreases pages.len() - i,
    {
        assert(all[i as int] == pages[i as int]@);
        match parse_decimal(pages[i].id.as_str()) {
            Some(key) => {
                keys.push(key);
            },
            None => {
                assert(!page_keyed(all[i as int]));
                return None;
            },
        }
        i += 1;
    }
    assert(ranks_of(keys@) =~= key_ranks(all));
    Some(keys)
}

/// The pages in the order of their keys, the lowest first.
fn arrange_by_key(pages: &Vec<WikiPage>, keys: &Vec<i64>) -> (r: Vec<WikiPage>)
    requires
        keys.len() == pages.len(),
        ranks_of(keys@) == key_ranks(pages.deep_view()),
    ensures
        r.deep_view() == by_key(pages.deep_view()),
{
    let order = arrange(keys);
    let n = pages.len();
    let mut r: Vec<WikiPage> = Vec::new();
    let mut k: usize = 0;
    while k < n
        invariant
            k <= n,
            n == pages.len(),
            order.len() == n,
            r.len() == k,
            forall|j: int| 0 <= j < n ==> order[j] < n,
            forall|j: int| 0 <= j < k ==> r[j]@ == pages[order[n - 1 - j] as int]@,
        decreases n - k,
    {
        r.push(pages[order[n - 1 - k]].clone());
        k += 1;
    }
    assert(r.deep_view() =~= by_key(pages.deep_view()));
    r
}

/// Whether the pages bear keys and stand in the order of their keys.
fn check_pages(pages: &Vec<WikiPage>) -> (r: bool)
    ensures
        r == pages_wf(pages.deep_view()),
{
    let ghost all = pages.deep_view();
    let mut last: i64 = 0;
    let mut i: usize = 0;
    while i < pages.len()
        invariant
            i <= pages.len(),
            all == pages.deep_view(),
            forall|k: int| 0 <= k < i ==> page_keyed(#[trigger] all[k]),
            forall|a: int, b: int|
                0 <= a < b < i ==> page_key(#[trigger] all[a]) < page_key(#[trigger] all[b]),
            i > 0 ==> last == page_key(all[i - 1]),
        decreases pages.len() - i,
    {
        assert(all[i as int] == pages[i as int]@);
        let key = match parse_decimal(pages[i].id.as_str()) {
            Some(key) => key,
            None => {
                assert(!page_keyed(all[i as int]));
                return false;
            },
        };
        if i > 0 {
            if last >= key {
                assert(!(page_key(all[i - 1]) < page_key(all[i as int])));
                return false;
            }
            assert forall|a: int| 0 <= a < i implies page_key(#[trigger] all[a]) < page_key(
                all[i as int],
            ) by {
                if a < i - 1 {
                    assert(page_key(all[a]) < page_key(all[i - 1]));
                }
            }
        }
        last = key;
        i += 1;
    }
    true
}

impl WikiPage {
    /// Whether the identifier of this page is a key, as the store asks.
    pub fn is_keyed(&self) -> (r: bool)
        ensures
            r == page_keyed(self@),
    {
        parse_decimal(self.id.as_str()).is_some()
    }
}

/// Whether the snapshots are keyed by their stamps, no key twice in a log.
fn check_archive(revisions: &Vec<WikiRevision>) -> (r: bool)
    ensures
        r == archive_wf(revisions.deep_view()),
{
    let ghost all = revisions.deep_view();
    let mut i: usize = 0;
    while i < revisions.len()
        invariant
            i <= revisions.len(),
            all == revisions.deep_view(),
            forall|k: int| 0 <= k < i ==> revision_keyed(#[trigger] all[k]),
            forall|a: int, b: int|
                0 <= a < b < i ==> !({
                    &&& (#[trigger] all[a]).page.id == (#[trigger] all[b]).page.id
                    &&& all[a].id == all[b].id
                }),
        decreases revisions.len() - i,
    {
        assert(all[i as int] == revisions[i as int]@);
        let key = decimal_text(revisions[i].created_at);
        if !(key == revisions[i].id) || !revisions[i].page.is_keyed() {
            assert(!revision_keyed(all[i as int]));
            return false;
        }
        let mut j: usize = 0;
        while j < i
            invariant
                j <= i < revisions.len(),
                all == revisions.deep_view(),
                all[i as int] == revisions[i as int]@,
                forall|a: int|
                    0 <= a < j ==> !({
                        &&& (#[trigger] all[a]).page.id == all[i as int].page.id
                        &&& all[a].id == all[i as int].id
                    }),
            decreases i - j,
        {
            assert(all[j as int] == revisions[j as int]@);
            if revisions[j].page.id == revisions[i].page.id && revisions[j].id == revisions[i].id {
                assert(all[j as int].page.id == all[i as int].page.id && all[j as int].id
                    == all[i as int].id);
                return false;
            }
            j += 1;
        }
        i += 1;
    }
    true
}

impl WikiStore {
    /// Whether the store meets the conditions that its operations keep.
    pub open spec fn wf(&self) -> bool {
        store_wf(self@)
    }

    /// Sets up a store from the records that back it: the section registry,
    /// where one was written yet, the pages, and the snapshots of all pages.
    /// Without a registry the store starts with a new root section, stamped
    /// `now`. The pages may come in any order: the store arranges them by
    /// key. Fails with `PersistenceFailure` where the records are not
    /// well-formed.
    pub fn open(
        sections: Option<Vec<Section>>,
        pages: Vec<WikiPage>,
        revisions: Vec<WikiRevision>,
        now: i64,
    ) -> (r: Result<WikiStore, WikiError>)
        ensures
            ({
                let s = StoreView {
                    sections: seeded(sections.deep_view(), now),
                    pages: by_key(pages.deep_view()),
                    revisions: revisions.deep_view(),
                };
                match r {
                    Ok(store) => store@ == s && store.wf(),
                    Err(e) => e == WikiError::PersistenceFailure && !store_wf(s),
                }
            }),
            r is Ok ==> r->Ok_0@.pages.len() == pages.len(),
            r is Ok ==> forall|i: int|
                0 <= i < pages.len() ==> r->Ok_0@.pages.contains(#[trigger] pages.deep_view()[i]),
    {
        proof {
            lemma_by_key(pages.deep_view());
        }
        let sections = load_sections(sections, now);
        let pages = match page_keys(&pages) {
            Some(keys) => arrange_by_key(&pages, &keys),
            None => {
                return Err(WikiError::PersistenceFailure);
            },
        };
        if check_registry(&sections) && check_pages(&pages) && check_archive(&revisions) {
            Ok(WikiStore { sections, pages, revisions })
        } else {
            Err(WikiError::PersistenceFailure)
        }
    }

    /// The section registry, in its own order.
    pub fn sections(&self) -> (r: &Vec<Section>)
        ensures
            r.deep_view() == self@.sections,
    {
        &self.sections
    }

    /// The stored pages.
    pub fn pages(&self) -> (r: &Vec<WikiPage>)
        ensures
            r.deep_view() == self@.pages,
    {
        &self.pages
    }

    /// The archived snapshots of all pages.
    pub fn revisions(&self) -> (r: &Vec<WikiRevision>)
        ensures
            r.deep_view() == self@.revisions,
    {
        &self.revisions
    }
}

} // verus!
