//! The page store: creating, reading, changing and deleting pages.

use vstd::prelude::*;
use crate::trusted::unix_now;
use crate::archive::{archived, lemma_archived, save_revision};
use crate::error::{outcome_view, WikiError};
use crate::labels::{default_notebook, notebook_label};
use crate::page::{PageView, WikiPage};
use crate::registry::{
    ensure_section, ensured_id, healed, lemma_healed, name_of, section_name,
};
use crate::stamp::{
    lemma_page_stamp_exists, lemma_stamp_is_now, next_page_stamp, page_stamps, stamp_after,
};
use crate::store::{
    has_page, has_resident, has_section, lemma_keys_distinct, page_at, page_key, page_keyed,
    pages_wf, revision_keyed, store_wf, StoreView, WikiStore,
};
use crate::text::{decimal, decimal_text, lemma_decimal_value};

verus! {

/// How many pages are filed in the section `id`.
pub open spec fn resident_count(pages: Seq<PageView>, id: Seq<char>) -> nat
    decreases pages.len(),
{
    if pages.len() == 0 {
        0
    } else {
        let rest = resident_count(pages.drop_last(), id);
        if pages.last().section_id == Some(id) {
            rest + 1
        } else {
            rest
        }
    }
}

/// A section has residents exactly when some page is filed in it.
pub proof fn lemma_resident_count(pages: Seq<PageView>, id: Seq<char>)
    ensures
        resident_count(pages, id) > 0 <==> has_resident(pages, id),
        resident_count(pages, id) <= pages.len(),
    decreases pages.len(),
{
    if pages.len() > 0 {
        let rest = pages.drop_last();
        lemma_resident_count(rest, id);
        if has_resident(rest, id) {
            let i = choose|i: int| 0 <= i < rest.len() && (#[trigger] rest[i]).section_id == Some(id);
            assert(pages[i].section_id == Some(id));
        }
        if has_resident(pages, id) && pages.last().section_id != Some(id) {
            let i = choose|i: int|
                0 <= i < pages.len() && (#[trigger] pages[i]).section_id == Some(id);
            assert(rest[i].section_id == Some(id));
        }
        if pages.last().section_id == Some(id) {
            assert(pages[pages.len() - 1].section_id == Some(id));
        }
    }
}

/// Whether the page is filed in the section `id`.
fn resides_in(page: &WikiPage, id: &String) -> (r: bool)
    ensures
        r == (page@.section_id == Some(id@)),
{
    match &page.section_id {
        Some(s) => *s == *id,
        None => false,
    }
}

/// The number of pages filed in a section.
pub fn count_pages_in_section(store: &WikiStore, section_id: &str) -> (r: usize)
    ensures
        r == resident_count(store@.pages, section_id@),
{
    let wanted: String = section_id.to_owned();
    let mut count: usize = 0;
    let mut i: usize = 0;
    while i < store.pages.len()
        invariant
            i <= store.pages.len(),
            count <= i,
            wanted@ == section_id@,
            count == resident_count(store.pages.deep_view().take(i as int), section_id@),
        decreases store.pages.len() - i,
    {
        proof {
            let all = store.pages.deep_view();
            assert(all.take(i + 1).drop_last() =~= all.take(i as int));
            assert(all.take(i + 1).last() == store.pages[i as int]@);
        }
        if resides_in(&store.pages[i], &wanted) {
            count += 1;
        }
        i += 1;
    }
    assert(store.pages.deep_view().take(i as int) =~= store.pages.deep_view());
    count
}

/// What a caller hands over to create or change a page. A field left out
/// keeps its default or its present value.
pub struct Draft {
    pub title: Seq<char>,
    pub content: Seq<char>,
    pub tags: Seq<Seq<char>>,
    pub notebook: Option<Seq<char>>,
    pub section: Option<Seq<char>>,
    pub section_id: Option<Seq<char>>,
}

/// The draft that the arguments of a call make up.
pub open spec fn draft_of(
    title: String,
    content: String,
    tags: Vec<String>,
    notebook: Option<String>,
    section: Option<String>,
    section_id: Option<String>,
) -> Draft {
    Draft {
        title: title@,
        content: content@,
        tags: tags.deep_view(),
        notebook: notebook.deep_view(),
        section: section.deep_view(),
        section_id: section_id.deep_view(),
    }
}

/// The text given, or `fallback` where none is given.
pub open spec fn text_or(given: Option<Seq<char>>, fallback: Seq<char>) -> Seq<char> {
    match given {
        Some(text) => text,
        None => fallback,
    }
}

/// Among well-formed pages, a page found at `i` is the page that `page_at`
/// speaks of.
pub proof fn lemma_page_at(pages: Seq<PageView>, id: Seq<char>, i: int)
    requires
        pages_wf(pages),
        0 <= i < pages.len(),
        pages[i].id == id,
    ensures
        has_page(pages, id),
        page_at(pages, id) == i,
{
    let k = page_at(pages, id);
    lemma_keys_distinct(pages);
    if k < i {
        assert(pages[k].id != pages[i].id);
    } else if i < k {
        assert(pages[i].id != pages[k].id);
    }
}

/// What creating a page gives: the new page, created and changed at `now`,
/// with the next page stamp as its key and filed in the section that the
/// draft resolves to; or `PersistenceFailure` where that stamp cannot be
/// written.
pub open spec fn page_created(s: StoreView, draft: Draft, now: i64) -> Result<PageView, WikiError> {
    let stamp = stamp_after(page_stamps(s.pages, s.revisions), now as int);
    if stamp > i64::MAX {
        Err(WikiError::PersistenceFailure)
    } else {
        let filed = ensured_id(draft.section_id);
        Ok(
            PageView {
                id: decimal(stamp),
                title: draft.title,
                content: draft.content,
                tags: draft.tags,
                notebook: text_or(draft.notebook, notebook_label()),
                section: text_or(
                    draft.section,
                    name_of(healed(s.sections, draft.section_id, now), filed),
                ),
                section_id: Some(filed),
                created_at: now,
                updated_at: now,
            },
        )
    }
}

/// The store after a page was created: the registry healed for the draft's
/// section, the page added, the archive untouched.
pub open spec fn after_page_created(s: StoreView, draft: Draft, now: i64) -> StoreView {
    match page_created(s, draft, now) {
        Ok(page) => StoreView {
            sections: healed(s.sections, draft.section_id, now),
            pages: s.pages.push(page),
            revisions: s.revisions,
        },
        Err(_) => s,
    }
}

/// The section that a changed page is filed in: the one the draft names, else
/// the one it was in, else the root.
pub open spec fn target_section(old: PageView, draft: Draft) -> Seq<char> {
    match draft.section_id {
        Some(id) => id,
        None => ensured_id(old.section_id),
    }
}

/// What changing a page gives: the page with the draft's fields, stamped
/// `now`, or `NotFound`.
pub open spec fn page_updated(s: StoreView, id: Seq<char>, draft: Draft, now: i64) -> Result<
    PageView,
    WikiError,
> {
    if has_page(s.pages, id) {
        let old = s.pages[page_at(s.pages, id)];
        let filed = target_section(old, draft);
        Ok(
            PageView {
                title: draft.title,
                content: draft.content,
                tags: draft.tags,
                notebook: text_or(draft.notebook, old.notebook),
                section: text_or(draft.section, name_of(healed(s.sections, Some(filed), now), filed)),
                section_id: Some(filed),
                updated_at: now,
                ..old
            },
        )
    } else {
        Err(WikiError::NotFound)
    }
}

/// The store after a page was changed: the page as it stood went into the
/// archive, the registry was healed for the target section, and the changed
/// page took the place of the old one.
pub open spec fn after_page_updated(s: StoreView, id: Seq<char>, draft: Draft, now: i64)
    -> StoreView {
    match page_updated(s, id, draft, now) {
        Ok(page) => {
            let at = page_at(s.pages, id);
            StoreView {
                sections: healed(s.sections, page.section_id, now),
                pages: s.pages.update(at, page),
                revisions: archived(s.revisions, s.pages[at], now),
            }
        },
        Err(_) => s,
    }
}

/// What reading a page gives.
pub open spec fn page_read(pages: Seq<PageView>, id: Seq<char>) -> Result<PageView, WikiError> {
    if has_page(pages, id) {
        Ok(pages[page_at(pages, id)])
    } else {
        Err(WikiError::NotFound)
    }
}

/// The pages after the deletion of the page `id` was asked for.
pub open spec fn without_page(pages: Seq<PageView>, id: Seq<char>) -> Seq<PageView> {
    if has_page(pages, id) {
        pages.remove(page_at(pages, id))
    } else {
        pages
    }
}

/// The store after the deletion of a page was asked for: the page is gone,
/// its log in the archive is as it was.
pub open spec fn after_page_deleted(s: StoreView, id: Seq<char>) -> StoreView {
    StoreView { pages: without_page(s.pages, id), ..s }
}

/// A created page is new: its identifier is that of no stored page and of no
/// page in the archive, and its key lies after all of theirs; it is created
/// and changed at `now`; and the store stays well-formed. Where every key in
/// use lies before `now`, the identifier is the decimal text of `now`.
pub proof fn lemma_page_created(s: StoreView, draft: Draft, now: i64)
    requires
        store_wf(s),
    ensures
        store_wf(after_page_created(s, draft, now)),
        page_created(s, draft, now) is Err <==> page_stamps(s.pages, s.revisions).contains(
            i64::MAX as int,
        ),
        match page_created(s, draft, now) {
            Ok(page) => {
                &&& page.created_at == now
                &&& page.updated_at == now
                &&& page_keyed(page)
                &&& page_key(page) == stamp_after(page_stamps(s.pages, s.revisions), now as int)
                &&& page_key(page) >= now
                &&& !has_page(s.pages, page.id)
                &&& forall|i: int|
                    0 <= i < s.revisions.len() ==> (#[trigger] s.revisions[i]).page.id != page.id
            },
            Err(_) => true,
        },
        (forall|key: int| page_stamps(s.pages, s.revisions).contains(key) ==> key < now)
            ==> page_created(s, draft, now) is Ok && page_created(s, draft, now)->Ok_0.id
            == decimal(now as int),
{
    if forall|key: int| page_stamps(s.pages, s.revisions).contains(key) ==> key < now {
        lemma_stamp_is_now(page_stamps(s.pages, s.revisions), now as int);
    }
    let used = page_stamps(s.pages, s.revisions);
    lemma_page_stamp_exists(s.pages, s.revisions, now);
    lemma_healed(s.sections, draft.section_id, now);
    let stamp = stamp_after(used, now as int);
    if used.contains(i64::MAX as int) {
        assert(stamp > i64::MAX);
    }
    if stamp > i64::MAX {
        assert(used.contains(stamp - 1));
        if exists|i: int| 0 <= i < s.pages.len() && page_key(#[trigger] s.pages[i]) == stamp - 1 {
            let i = choose|i: int|
                0 <= i < s.pages.len() && page_key(#[trigger] s.pages[i]) == stamp - 1;
            assert(page_keyed(s.pages[i]));
        } else {
            let i = choose|i: int|
                0 <= i < s.revisions.len() && page_key((#[trigger] s.revisions[i]).page) == stamp
                    - 1;
            assert(revision_keyed(s.revisions[i]));
        }
        assert(stamp - 1 == i64::MAX);
    }
    match page_created(s, draft, now) {
        Ok(page) => {
            lemma_decimal_value(stamp);
            assert forall|i: int| 0 <= i < s.pages.len() implies page_key(#[trigger] s.pages[i])
                < stamp by {
                assert(used.contains(page_key(s.pages[i])));
            }
            assert forall|i: int| 0 <= i < s.revisions.len() implies (
            #[trigger] s.revisions[i]).page.id != page.id by {
                assert(used.contains(page_key(s.revisions[i].page)));
            }
            let after = s.pages.push(page);
            assert forall|i: int| 0 <= i < after.len() implies page_keyed(#[trigger] after[i]) by {
                if i < s.pages.len() {
                    assert(page_keyed(s.pages[i]));
                }
            }
            assert forall|i: int, j: int| 0 <= i < j < after.len() implies page_key(
                #[trigger] after[i],
            ) < page_key(#[trigger] after[j]) by {
                if j < s.pages.len() {
                    assert(page_key(s.pages[i]) < page_key(s.pages[j]));
                } else {
                    assert(page_key(s.pages[i]) < stamp);
                }
            }
        },
        Err(_) => {},
    }
}

/// Putting a page of the same identifier in the place of a stored one keeps
/// the pages well-formed.
pub proof fn lemma_update_keeps_pages(pages: Seq<PageView>, i: int, changed: PageView)
    requires
        pages_wf(pages),
        0 <= i < pages.len(),
        changed.id == pages[i].id,
    ensures
        pages_wf(pages.update(i, changed)),
{
    let after = pages.update(i, changed);
    assert(page_keyed(pages[i]));
    assert forall|k: int| 0 <= k < after.len() implies page_keyed(#[trigger] after[k]) by {
        if k != i {
            assert(page_keyed(pages[k]));
        }
    }
    assert forall|a: int, b: int| 0 <= a < b < after.len() implies page_key(#[trigger] after[a])
        < page_key(#[trigger] after[b]) by {
        assert(page_key(pages[a]) < page_key(pages[b]));
    }
}

/// Taking a page out keeps the pages well-formed and takes out no other page.
pub proof fn lemma_remove_keeps_pages(pages: Seq<PageView>, i: int)
    requires
        pages_wf(pages),
        0 <= i < pages.len(),
    ensures
        pages_wf(pages.remove(i)),
        !has_page(pages.remove(i), pages[i].id),
        forall|id: Seq<char>|
            id != pages[i].id ==> (has_page(pages.remove(i), id) <==> has_page(pages, id)),
{
    let after = pages.remove(i);
    let at = |k: int| if k < i { k } else { k + 1 };
    let back = |k: int| if k < i { k } else { k - 1 };
    assert forall|k: int| 0 <= k < after.len() implies page_keyed(#[trigger] after[k]) by {
        assert(page_keyed(pages[at(k)]));
    }
    assert forall|a: int, b: int| 0 <= a < b < after.len() implies page_key(#[trigger] after[a])
        < page_key(#[trigger] after[b]) by {
        assert(page_key(pages[at(a)]) < page_key(pages[at(b)]));
    }
    lemma_keys_distinct(pages);
    if has_page(after, pages[i].id) {
        let k = page_at(after, pages[i].id);
        if at(k) < i {
            assert(pages[at(k)].id != pages[i].id);
        } else {
            assert(pages[i].id != pages[at(k)].id);
        }
    }
    assert forall|id: Seq<char>| id != pages[i].id implies (has_page(after, id) <==> has_page(
        pages,
        id,
    )) by {
        if has_page(after, id) {
            let k = page_at(after, id);
            assert(pages[at(k)].id == id);
        }
        if has_page(pages, id) {
            let k = page_at(pages, id);
            assert(after[back(k)].id == id);
        }
    }
}

/// Where the page with this identifier stands, if it is stored.
pub fn find_page(pages: &Vec<WikiPage>, id: &String) -> (r: Option<usize>)
    ensures
        match r {
            Some(i) => i < pages.len() && pages[i as int]@.id == id@,
            None => !has_page(pages.deep_view(), id@),
        },
{
    let mut i: usize = 0;
    while i < pages.len()
        invariant
            i <= pages.len(),
            forall|k: int| 0 <= k < i ==> pages[k]@.id != id@,
        decreases pages.len() - i,
    {
        if pages[i].id == *id {
            return Some(i);
        }
        i += 1;
    }
    assert forall|k: int| 0 <= k < pages.deep_view().len() implies (
    #[trigger] pages.deep_view()[k]).id != id@ by {
        assert(pages.deep_view()[k] == pages[k]@);
    }
    None
}

/// Creates a page at the time `now`, which becomes its creation and change
/// time. Its identifier is the decimal text of the next page stamp: of `now`
/// itself, unless a page stored or archived has a key that is not before
/// `now`, and then of the first key after all of theirs. The page is filed in
/// the section that `section_id` resolves to, which is made if it is unknown.
/// Fails with `PersistenceFailure`, leaving the store as it was, where no
/// stamp is left.
pub fn create_wiki_page_at(
    store: &mut WikiStore,
    title: String,
    content: String,
    tags: Vec<String>,
    notebook: Option<String>,
    section: Option<String>,
    section_id: Option<String>,
    now: i64,
) -> (r: Result<WikiPage, WikiError>)
    requires
        old(store).wf(),
    ensures
        outcome_view(r) == page_created(
            old(store)@,
            draft_of(title, content, tags, notebook, section, section_id),
            now,
        ),
        final(store)@ == after_page_created(
            old(store)@,
            draft_of(title, content, tags, notebook, section, section_id),
            now,
        ),
        r is Err <==> page_stamps(old(store)@.pages, old(store)@.revisions).contains(
            i64::MAX as int,
        ),
        r is Ok ==> {
            &&& !has_page(old(store)@.pages, r->Ok_0@.id)
            &&& page_read(final(store)@.pages, r->Ok_0@.id) == Ok::<PageView, WikiError>(r->Ok_0@)
            &&& r->Ok_0@.created_at == now
            &&& r->Ok_0@.updated_at == now
            &&& r->Ok_0@.id == decimal(
                stamp_after(page_stamps(old(store)@.pages, old(store)@.revisions), now as int),
            )
        },
        final(store).wf(),
{
    let ghost draft = draft_of(title, content, tags, notebook, section, section_id);
    proof {
        lemma_page_created(store@, draft, now);
    }
    let stamp = match next_page_stamp(&store.pages, &store.revisions, now) {
        Some(t) => t,
        None => {
            return Err(WikiError::PersistenceFailure);
        },
    };
    let filed = ensure_section(store, section_id, now);
    let label = match section {
        Some(l) => l,
        None => section_name(store, filed.as_str()),
    };
    let page = WikiPage {
        id: decimal_text(stamp),
        title,
        content,
        tags,
        notebook: match notebook {
            Some(n) => n,
            None => default_notebook(),
        },
        section: label,
        section_id: Some(filed),
        created_at: now,
        updated_at: now,
    };
    store.pages.push(page.clone());
    assert(store.pages.deep_view() =~= old(store).pages.deep_view().push(page@));
    proof {
        assert(store@.pages[old(store).pages.len() as int] == page@);
        lemma_page_at(store@.pages, page@.id, old(store).pages.len() as int);
    }
    Ok(page)
}

/// Creates a page at the current time. Whatever time was read, the result is
/// that of `create_wiki_page_at` with it.
pub fn create_wiki_page(
    store: &mut WikiStore,
    title: String,
    content: String,
    tags: Vec<String>,
    notebook: Option<String>,
    section: Option<String>,
    section_id: Option<String>,
) -> (r: Result<WikiPage, WikiError>)
    requires
        old(store).wf(),
    ensures
        exists|now: i64|
            {
                &&& 0 <= now < 0x1_0000_0000_0000
                &&& outcome_view(r) == #[trigger] page_created(
                    old(store)@,
                    draft_of(title, content, tags, notebook, section, section_id),
                    now,
                )
                &&& final(store)@ == after_page_created(
                    old(store)@,
                    draft_of(title, content, tags, notebook, section, section_id),
                    now,
                )
            },
        r is Err <==> page_stamps(old(store)@.pages, old(store)@.revisions).contains(
            i64::MAX as int,
        ),
        r is Ok ==> {
            &&& !has_page(old(store)@.pages, r->Ok_0@.id)
            &&& page_read(final(store)@.pages, r->Ok_0@.id) == Ok::<PageView, WikiError>(r->Ok_0@)
            &&& r->Ok_0@.created_at == r->Ok_0@.updated_at
        },
        final(store).wf(),
{
    let now = unix_now();
    create_wiki_page_at(store, title, content, tags, notebook, section, section_id, now)
}

/// Changes a page at the time `now`. The page as it stood is first put into
/// the archive (where no snapshot can be taken, the change goes ahead without
/// one). Then the title, body and tags are replaced, the notebook label is
/// replaced if one is given, the page is filed in the target section, which
/// is made if it is unknown, and the change time is set to `now`. Fails with
/// `NotFound`, leaving the store as it was, where no such page is stored.
pub fn update_wiki_page_at(
    store: &mut WikiStore,
    id: String,
    title: String,
    content: String,
    tags: Vec<String>,
    notebook: Option<String>,
    section: Option<String>,
    section_id: Option<String>,
    now: i64,
) -> (r: Result<WikiPage, WikiError>)
    requires
        old(store).wf(),
    ensures
        outcome_view(r) == page_updated(
            old(store)@,
            id@,
            draft_of(title, content, tags, notebook, section, section_id),
            now,
        ),
        final(store)@ == after_page_updated(
            old(store)@,
            id@,
            draft_of(title, content, tags, notebook, section, section_id),
            now,
        ),
        r is Ok <==> has_page(old(store)@.pages, id@),
        r is Err ==> r == Err::<WikiPage, WikiError>(WikiError::NotFound),
        r is Ok ==> {
            &&& page_read(final(store)@.pages, id@) == Ok::<PageView, WikiError>(r->Ok_0@)
            &&& r->Ok_0@.section_id is Some
            &&& has_section(final(store)@.sections, r->Ok_0@.section_id->0)
        },
        final(store).wf(),
{
    let at = match find_page(&store.pages, &id) {
        Some(i) => i,
        None => {
            return Err(WikiError::NotFound);
        },
    };
    let old_page = store.pages[at].clone();
    proof {
        assert(store.pages.deep_view()[at as int] == store.pages[at as int]@);
        lemma_page_at(store@.pages, id@, at as int);
        lemma_archived(store@.revisions, old_page@, now);
    }
    let _ = save_revision(store, &old_page, now);
    let target = match section_id {
        Some(t) => t,
        None => match old_page.section_id {
            Some(t) => t,
            None => "root".to_owned(),
        },
    };
    proof {
        lemma_healed(store@.sections, Some(target@), now);
    }
    let filed = ensure_section(store, Some(target), now);
    let label = match section {
        Some(l) => l,
        None => section_name(store, filed.as_str()),
    };
    let page = WikiPage {
        id: old_page.id,
        title,
        content,
        tags,
        notebook: match notebook {
            Some(n) => n,
            None => old_page.notebook,
        },
        section: label,
        section_id: Some(filed),
        created_at: old_page.created_at,
        updated_at: now,
    };
    proof {
        lemma_update_keeps_pages(old(store)@.pages, at as int, page@);
    }
    store.pages.set(at, page.clone());
    assert(store.pages.deep_view() =~= old(store).pages.deep_view().update(at as int, page@));
    proof {
        assert(store@.pages[at as int] == page@);
        lemma_page_at(store@.pages, id@, at as int);
    }
    Ok(page)
}

/// Changes a page at the current time. Whatever time was read, the result is
/// that of `update_wiki_page_at` with it.
pub fn update_wiki_page(
    store: &mut WikiStore,
    id: String,
    title: String,
    content: String,
    tags: Vec<String>,
    notebook: Option<String>,
    section: Option<String>,
    section_id: Option<String>,
) -> (r: Result<WikiPage, WikiError>)
    requires
        old(store).wf(),
    ensures
        exists|now: i64|
            {
                &&& 0 <= now < 0x1_0000_0000_0000
                &&& outcome_view(r) == #[trigger] page_updated(
                    old(store)@,
                    id@,
                    draft_of(title, content, tags, notebook, section, section_id),
                    now,
                )
                &&& final(store)@ == after_page_updated(
                    old(store)@,
                    id@,
                    draft_of(title, content, tags, notebook, section, section_id),
                    now,
                )
            },
        r is Ok <==> has_page(old(store)@.pages, id@),
        r is Err ==> r == Err::<WikiPage, WikiError>(WikiError::NotFound),
        r is Ok ==> page_read(final(store)@.pages, id@) == Ok::<PageView, WikiError>(r->Ok_0@),
        final(store).wf(),
{
    let now = unix_now();
    update_wiki_page_at(store, id, title, content, tags, notebook, section, section_id, now)
}

/// Reads a page. Fails with `NotFound` where no such page is stored.
pub fn get_wiki_page(store: &WikiStore, id: String) -> (r: Result<WikiPage, WikiError>)
    requires
        store.wf(),
    ensures
        outcome_view(r) == page_read(store@.pages, id@),
{
    match find_page(&store.pages, &id) {
        Some(i) => {
            proof {
                assert(store.pages.deep_view()[i as int] == store.pages[i as int]@);
                lemma_page_at(store@.pages, id@, i as int);
            }
            Ok(store.pages[i].clone())
        },
        None => Err(WikiError::NotFound),
    }
}

/// Deletes a page. Its log in the archive stays. Fails with `NotFound`,
/// leaving the store as it was, where no such page is stored.
pub fn delete_wiki_page(store: &mut WikiStore, id: String) -> (r: Result<(), WikiError>)
    requires
        old(store).wf(),
    ensures
        r is Ok <==> has_page(old(store)@.pages, id@),
        r is Err ==> r == Err::<(), WikiError>(WikiError::NotFound),
        final(store)@ == after_page_deleted(old(store)@, id@),
        final(store).wf(),
{
    match find_page(&store.pages, &id) {
        Some(i) => {
            proof {
                assert(store.pages.deep_view()[i as int] == store.pages[i as int]@);
                lemma_page_at(store@.pages, id@, i as int);
                lemma_remove_keeps_pages(store@.pages, i as int);
            }
            store.pages.remove(i);
            assert(store.pages.deep_view() =~= old(store).pages.deep_view().remove(i as int));
            Ok(())
        },
        None => Err(WikiError::NotFound),
    }
}

} // verus!
