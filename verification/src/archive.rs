//! The revision archive: an append-only log of snapshots for each page.

use vstd::prelude::*;
use crate::trusted::unix_now;
use crate::error::{outcome_view, WikiError};
use crate::order::{
    arrange, falling, is_arrangement, lemma_falling, lemma_highest_heads, ranks_of,
};
use crate::page::{PageView, WikiPage};
use crate::pages::{find_page, lemma_page_at, lemma_update_keeps_pages};
use crate::revision::{meta_of, RevisionMetaView, RevisionView, WikiRevision, WikiRevisionMeta};
use crate::stamp::{
    lemma_log_stamp_exists, lemma_stamp_is_now, log_stamps, next_log_stamp, stamp_after,
};
use crate::store::{
    archive_wf, has_page, has_revision, is_revision, page_at, page_keyed, revision_at,
    revision_keyed, StoreView, WikiStore,
};
use crate::text::{decimal, decimal_text, lemma_decimal_injective};

verus! {

/// The snapshot that is taken of `page` at `now`: keyed by the stamp that the
/// page's log gives out, which counts as the time at which it was taken. None
/// is taken where that stamp cannot be written, or where the identifier of
/// the page is not a key.
pub open spec fn snapshot(revisions: Seq<RevisionView>, page: PageView, now: i64) -> Option<
    RevisionView,
> {
    let stamp = stamp_after(log_stamps(revisions, page.id), now as int);
    if stamp > i64::MAX || !page_keyed(page) {
        None
    } else {
        Some(RevisionView { id: decimal(stamp), created_at: stamp as i64, page })
    }
}

/// The archive after a snapshot of `page` was asked for at `now`: the
/// snapshot stands last, and every earlier entry is as it was.
pub open spec fn archived(revisions: Seq<RevisionView>, page: PageView, now: i64) -> Seq<
    RevisionView,
> {
    match snapshot(revisions, page, now) {
        Some(revision) => revisions.push(revision),
        None => revisions,
    }
}

/// A snapshot that is taken is new to its page's log, is stamped no earlier
/// than `now` and later than every snapshot in that log, and the archive stays
/// well-formed. Where every snapshot in the log was taken before `now`, the
/// snapshot is stamped `now`.
pub proof fn lemma_archived(revisions: Seq<RevisionView>, page: PageView, now: i64)
    requires
        archive_wf(revisions),
    ensures
        archive_wf(archived(revisions, page, now)),
        snapshot(revisions, page, now) is None <==> (!page_keyed(page) || log_stamps(
            revisions,
            page.id,
        ).contains(i64::MAX as int)),
        match snapshot(revisions, page, now) {
            Some(taken) => {
                &&& taken.created_at >= now
                &&& forall|i: int|
                    0 <= i < revisions.len() && (#[trigger] revisions[i]).page.id == page.id
                        ==> revisions[i].created_at < taken.created_at && revisions[i].id
                        != taken.id
            },
            None => true,
        },
        (forall|i: int|
            0 <= i < revisions.len() && (#[trigger] revisions[i]).page.id == page.id
                ==> revisions[i].created_at < now) && page_keyed(page) ==> snapshot(
            revisions,
            page,
            now,
        ) == Some(RevisionView { id: decimal(now as int), created_at: now, page }),
{
    if forall|i: int|
        0 <= i < revisions.len() && (#[trigger] revisions[i]).page.id == page.id
            ==> revisions[i].created_at < now {
        lemma_stamp_is_now(log_stamps(revisions, page.id), now as int);
    }
    let used = log_stamps(revisions, page.id);
    lemma_log_stamp_exists(revisions, page.id, now);
    let stamp = stamp_after(used, now as int);
    if used.contains(i64::MAX as int) {
        assert(stamp > i64::MAX);
    }
    if stamp > i64::MAX {
        assert(used.contains(stamp - 1));
        let k = choose|k: int|
            0 <= k < revisions.len() && (#[trigger] revisions[k]).page.id == page.id
                && revisions[k].created_at == stamp - 1;
        assert(stamp - 1 == i64::MAX);
    }
    match snapshot(revisions, page, now) {
        Some(taken) => {
            let after = revisions.push(taken);
            assert forall|i: int|
                0 <= i < revisions.len() && (#[trigger] revisions[i]).page.id
                    == page.id implies revisions[i].created_at < taken.created_at
                && revisions[i].id != taken.id by {
                assert(used.contains(revisions[i].created_at as int));
                assert(revision_keyed(revisions[i]));
                if revisions[i].id == taken.id {
                    lemma_decimal_injective(revisions[i].created_at as int, stamp);
                }
            }
            assert forall|i: int| 0 <= i < after.len() implies revision_keyed(
                #[trigger] after[i],
            ) by {
                if i < revisions.len() {
                    assert(revision_keyed(revisions[i]));
                }
            }
            assert forall|i: int, j: int| 0 <= i < j < after.len() implies !({
                &&& (#[trigger] after[i]).page.id == (#[trigger] after[j]).page.id
                &&& after[i].id == after[j].id
            }) by {
                if j < revisions.len() {
                    assert(!(revisions[i].page.id == revisions[j].page.id && revisions[i].id
                        == revisions[j].id));
                } else {
                    assert(revisions[i].page.id == page.id ==> revisions[i].id != taken.id);
                }
            }
        },
        None => {},
    }
}

/// What asking for a snapshot gives: its summary, or `PersistenceFailure`
/// where none can be taken.
pub open spec fn revision_saved(revisions: Seq<RevisionView>, page: PageView, now: i64) -> Result<
    RevisionMetaView,
    WikiError,
> {
    match snapshot(revisions, page, now) {
        Some(revision) => Ok(meta_of(revision)),
        None => Err(WikiError::PersistenceFailure),
    }
}

/// Takes a snapshot of `page` into the log of that page and returns its
/// summary. Entries already in the archive are neither changed nor removed.
/// Fails with `PersistenceFailure`, leaving the archive as it was, where no
/// snapshot can be taken.
pub fn save_revision(store: &mut WikiStore, page: &WikiPage, now: i64) -> (r: Result<
    WikiRevisionMeta,
    WikiError,
>)
    requires
        old(store).wf(),
    ensures
        outcome_view(r) == revision_saved(old(store)@.revisions, page@, now),
        final(store)@ == (StoreView {
            revisions: archived(old(store)@.revisions, page@, now),
            ..old(store)@
        }),
        final(store).wf(),
{
    proof {
        lemma_archived(store@.revisions, page@, now);
    }
    if !page.is_keyed() {
        return Err(WikiError::PersistenceFailure);
    }
    match next_log_stamp(&store.revisions, &page.id, now) {
        None => Err(WikiError::PersistenceFailure),
        Some(stamp) => {
            let revision = WikiRevision {
                id: decimal_text(stamp),
                created_at: stamp,
                page: page.clone(),
            };
            let meta = revision.meta();
            store.revisions.push(revision);
            assert(store.revisions.deep_view() =~= old(store).revisions.deep_view().push(
                snapshot(old(store)@.revisions, page@, now)->0,
            ));
            Ok(meta)
        },
    }
}

/// The log of a page: its snapshots, in the order of the archive.
pub open spec fn log_of(revisions: Seq<RevisionView>, page_id: Seq<char>) -> Seq<RevisionView> {
    revisions.filter(|revision: RevisionView| revision.page.id == page_id)
}

/// The summaries of the snapshots, in the order of the snapshots.
pub open spec fn metas(log: Seq<RevisionView>) -> Seq<RevisionMetaView> {
    Seq::new(log.len(), |i: int| meta_of(log[i]))
}

/// The times at which the snapshots were taken.
pub open spec fn snapshot_dates(entries: Seq<RevisionMetaView>) -> Seq<int> {
    Seq::new(entries.len(), |i: int| entries[i].created_at as int)
}

/// The summaries arranged by the time of the snapshot, latest first.
pub open spec fn latest_first(entries: Seq<RevisionMetaView>) -> Seq<RevisionMetaView> {
    Seq::new(entries.len(), |k: int| entries[falling(snapshot_dates(entries))[k]])
}

/// The listing of a page's snapshots.
pub open spec fn revision_listing(revisions: Seq<RevisionView>, page_id: Seq<char>) -> Seq<
    RevisionMetaView,
> {
    latest_first(metas(log_of(revisions, page_id)))
}

/// In a well-formed archive, a snapshot found at `i` is the snapshot that
/// `revision_at` speaks of.
pub proof fn lemma_revision_at(
    revisions: Seq<RevisionView>,
    page_id: Seq<char>,
    revision_id: Seq<char>,
    i: int,
)
    requires
        archive_wf(revisions),
        is_revision(revisions, page_id, revision_id, i),
    ensures
        has_revision(revisions, page_id, revision_id),
        revision_at(revisions, page_id, revision_id) == i,
{
    let k = revision_at(revisions, page_id, revision_id);
    assert(is_revision(revisions, page_id, revision_id, k));
    if k < i {
        assert(!(revisions[k].page.id == revisions[i].page.id && revisions[k].id
            == revisions[i].id));
    } else if i < k {
        assert(!(revisions[i].page.id == revisions[k].page.id && revisions[i].id
            == revisions[k].id));
    }
}

/// The entries of a page's log are snapshots of that page, each entry of the
/// archive for that page is in the log, and no two entries of the log were
/// taken at the same time.
pub proof fn lemma_log_of(revisions: Seq<RevisionView>, page_id: Seq<char>)
    requires
        archive_wf(revisions),
    ensures
        forall|k: int|
            0 <= k < log_of(revisions, page_id).len() ==> (#[trigger] log_of(
                revisions,
                page_id,
            )[k]).page.id == page_id && revisions.contains(log_of(revisions, page_id)[k]),
        forall|i: int|
            0 <= i < revisions.len() && (#[trigger] revisions[i]).page.id == page_id ==> log_of(
                revisions,
                page_id,
            ).contains(revisions[i]),
        forall|a: int, b: int|
            0 <= a < b < log_of(revisions, page_id).len() ==> (#[trigger] log_of(
                revisions,
                page_id,
            )[a]).created_at != (#[trigger] log_of(revisions, page_id)[b]).created_at,
    decreases revisions.len(),
{
    let pred = |revision: RevisionView| revision.page.id == page_id;
    let log = log_of(revisions, page_id);
    assert forall|k: int| 0 <= k < log.len() implies (#[trigger] log[k]).page.id == page_id
        && revisions.contains(log[k]) by {
        revisions.lemma_filter_pred(pred, k);
        assert(log.contains(log[k]));
        revisions.lemma_filter_contains_rev(pred, log[k]);
    }
    assert forall|i: int|
        0 <= i < revisions.len() && (#[trigger] revisions[i]).page.id == page_id implies log.contains(
        revisions[i],
    ) by {
        revisions.lemma_filter_contains(pred, i);
    }
    if revisions.len() > 0 {
        let rest = revisions.drop_last();
        let last = revisions.last();
        assert(archive_wf(rest)) by {
            assert forall|i: int| 0 <= i < rest.len() implies revision_keyed(
                #[trigger] rest[i],
            ) by {
                assert(revision_keyed(revisions[i]));
            }
            assert forall|i: int, j: int| 0 <= i < j < rest.len() implies !({
                &&& (#[trigger] rest[i]).page.id == (#[trigger] rest[j]).page.id
                &&& rest[i].id == rest[j].id
            }) by {
                assert(!(revisions[i].page.id == revisions[j].page.id && revisions[i].id
                    == revisions[j].id));
            }
        }
        lemma_log_of(rest, page_id);
        rest.lemma_filter_push(last, pred);
        assert(rest.push(last) =~= revisions);
        let less = log_of(rest, page_id);
        if last.page.id == page_id {
            assert(log == less.push(last));
            assert forall|a: int, b: int| 0 <= a < b < log.len() implies (#[trigger] log[a]).created_at
                != (#[trigger] log[b]).created_at by {
                if b == less.len() {
                    assert(rest.contains(less[a]));
                    let i = choose|i: int| 0 <= i < rest.len() && rest[i] == less[a];
                    assert(revision_keyed(revisions[i]));
                    assert(revision_keyed(revisions[revisions.len() - 1]));
                    assert(!(revisions[i].page.id == revisions[revisions.len() - 1].page.id
                        && revisions[i].id == revisions[revisions.len() - 1].id));
                } else {
                    assert(less[a].created_at != less[b].created_at);
                }
            }
        } else {
            assert(log == less);
        }
    }
}

/// A listing of snapshots holds every entry once, and runs from the latest
/// snapshot to the earliest.
pub proof fn lemma_latest_first(entries: Seq<RevisionMetaView>)
    ensures
        latest_first(entries).len() == entries.len(),
        is_arrangement(snapshot_dates(entries), falling(snapshot_dates(entries))),
        forall|a: int, b: int|
            0 <= a < b < entries.len() ==> (#[trigger] latest_first(entries)[a]).created_at >= (
            #[trigger] latest_first(entries)[b]).created_at,
        forall|i: int|
            0 <= i < entries.len() ==> latest_first(entries).contains(#[trigger] entries[i]),
        forall|k: int|
            0 <= k < entries.len() ==> entries.contains(#[trigger] latest_first(entries)[k]),
{
    let dates = snapshot_dates(entries);
    let order = falling(dates);
    let listed = latest_first(entries);
    lemma_falling(dates);
    assert forall|a: int, b: int| 0 <= a < b < entries.len() implies (#[trigger] listed[a]).created_at
        >= (#[trigger] listed[b]).created_at by {
        assert(dates[order[a]] >= dates[order[b]]);
    }
    assert forall|i: int| 0 <= i < entries.len() implies listed.contains(#[trigger] entries[i]) by {
        assert(order.contains(i));
        let k = choose|k: int| 0 <= k < order.len() && order[k] == i;
        assert(listed[k] == entries[i]);
    }
    assert forall|k: int| 0 <= k < entries.len() implies entries.contains(#[trigger] listed[k]) by {
        assert(0 <= order[k] < entries.len());
        assert(entries[order[k]] == listed[k]);
    }
}

/// A snapshot that is taken heads the listing of its page, with the earlier
/// entries behind it as they were; the listings of other pages do not change.
pub proof fn lemma_listing_after_snapshot(revisions: Seq<RevisionView>, page: PageView, now: i64)
    requires
        archive_wf(revisions),
        snapshot(revisions, page, now) is Some,
    ensures
        archived(revisions, page, now) == revisions.push(snapshot(revisions, page, now)->0),
        revision_listing(archived(revisions, page, now), page.id) == seq![
            meta_of(snapshot(revisions, page, now)->0),
        ] + revision_listing(revisions, page.id),
        forall|other: Seq<char>|
            other != page.id ==> revision_listing(archived(revisions, page, now), other)
                == revision_listing(revisions, other),
{
    let taken = snapshot(revisions, page, now)->0;
    let after = archived(revisions, page, now);
    let log = log_of(revisions, page.id);
    let entries = metas(log);
    let dates = snapshot_dates(entries);
    lemma_archived(revisions, page, now);
    lemma_log_of(revisions, page.id);
    revisions.lemma_filter_push(taken, |revision: RevisionView| revision.page.id == page.id);
    assert(log_of(after, page.id) == log.push(taken));
    assert(metas(log.push(taken)) =~= entries.push(meta_of(taken)));
    assert(snapshot_dates(entries.push(meta_of(taken))) =~= dates.push(taken.created_at as int));
    assert forall|i: int| 0 <= i < dates.len() implies #[trigger] dates[i] < taken.created_at by {
        assert(revisions.contains(log[i]));
        let k = choose|k: int| 0 <= k < revisions.len() && revisions[k] == log[i];
        assert(revisions[k].page.id == page.id);
    }
    lemma_highest_heads(dates, taken.created_at as int);
    lemma_falling(dates);
    let order = falling(dates);
    assert(latest_first(entries.push(meta_of(taken))) =~= seq![meta_of(taken)] + latest_first(
        entries,
    )) by {
        let grown = entries.push(meta_of(taken));
        let listed = latest_first(grown);
        assert(falling(snapshot_dates(grown)) == seq![dates.len() as int] + order);
        assert forall|k: int| 0 <= k < listed.len() implies listed[k] == (seq![meta_of(taken)]
            + latest_first(entries))[k] by {
            if k > 0 {
                assert((seq![dates.len() as int] + order)[k] == order[k - 1]);
                assert(0 <= order[k - 1] < entries.len());
            }
        }
    }
    assert forall|other: Seq<char>| other != page.id implies revision_listing(after, other)
        == revision_listing(revisions, other) by {
        revisions.lemma_filter_push(taken, |revision: RevisionView| revision.page.id == other);
    }
}

/// The listing of a page's snapshots holds the summary of each snapshot of
/// that page and nothing else, no two entries of the same time, from the
/// latest to the earliest.
pub proof fn lemma_revision_listing(revisions: Seq<RevisionView>, page_id: Seq<char>)
    requires
        archive_wf(revisions),
    ensures
        revision_listing(revisions, page_id).len() == log_of(revisions, page_id).len(),
        forall|a: int, b: int|
            0 <= a < b < revision_listing(revisions, page_id).len() ==> (
            #[trigger] revision_listing(revisions, page_id)[a]).created_at > (
            #[trigger] revision_listing(revisions, page_id)[b]).created_at,
        forall|i: int|
            0 <= i < revisions.len() && (#[trigger] revisions[i]).page.id == page_id
                ==> revision_listing(revisions, page_id).contains(meta_of(revisions[i])),
        forall|k: int|
            0 <= k < revision_listing(revisions, page_id).len() ==> (
            #[trigger] revision_listing(revisions, page_id)[k]).page_id == page_id && exists|
                i: int,
            |
                0 <= i < revisions.len() && (#[trigger] revisions[i]).page.id == page_id
                    && revision_listing(revisions, page_id)[k] == meta_of(revisions[i]),
{
    let log = log_of(revisions, page_id);
    let listed = revision_listing(revisions, page_id);
    lemma_log_of(revisions, page_id);
    lemma_latest_first(metas(log));
    lemma_falling(snapshot_dates(metas(log)));
    let order = falling(snapshot_dates(metas(log)));
    assert forall|a: int, b: int| 0 <= a < b < listed.len() implies (#[trigger] listed[a]).created_at
        > (#[trigger] listed[b]).created_at by {
        assert(listed[a] == metas(log)[order[a]]);
        assert(listed[b] == metas(log)[order[b]]);
        assert(order[a] != order[b]);
        assert(listed[a].created_at >= listed[b].created_at);
        if order[a] < order[b] {
            assert(log[order[a]].created_at != log[order[b]].created_at);
        } else {
            assert(log[order[b]].created_at != log[order[a]].created_at);
        }
    }
    assert forall|i: int|
        0 <= i < revisions.len() && (#[trigger] revisions[i]).page.id
            == page_id implies listed.contains(meta_of(revisions[i])) by {
        assert(log.contains(revisions[i]));
        let j = choose|j: int| 0 <= j < log.len() && log[j] == revisions[i];
        assert(metas(log)[j] == meta_of(revisions[i]));
    }
    assert forall|k: int| 0 <= k < listed.len() implies (#[trigger] listed[k]).page_id == page_id
        && exists|i: int|
        0 <= i < revisions.len() && (#[trigger] revisions[i]).page.id == page_id && listed[k]
            == meta_of(revisions[i]) by {
        assert(listed[k] == metas(log)[order[k]]);
        assert(log[order[k]].page.id == page_id);
        assert(revisions.contains(log[order[k]]));
        let i = choose|i: int| 0 <= i < revisions.len() && revisions[i] == log[order[k]];
        assert(revisions[i].page.id == page_id && listed[k] == meta_of(revisions[i]));
    }
}

/// The summaries of a page's snapshots, latest first. A page without
/// snapshots, or one that was never stored, has an empty listing.
pub fn list_wiki_revisions(store: &WikiStore, page_id: String) -> (r: Vec<WikiRevisionMeta>)
    requires
        store.wf(),
    ensures
        r.deep_view() == revision_listing(store@.revisions, page_id@),
        r.len() == log_of(store@.revisions, page_id@).len(),
        forall|k: int| 0 <= k < r.len() ==> (#[trigger] r[k]).page_id@ == page_id@,
        forall|a: int, b: int|
            0 <= a < b < r.len() ==> (#[trigger] r[a]).created_at > (#[trigger] r[b]).created_at,
        forall|i: int|
            0 <= i < store@.revisions.len() && (#[trigger] store@.revisions[i]).page.id == page_id@
                ==> r.deep_view().contains(meta_of(store@.revisions[i])),
{
    let ghost pred = |revision: RevisionView| revision.page.id == page_id@;
    let ghost all = store.revisions.deep_view();
    let mut entries: Vec<WikiRevisionMeta> = Vec::new();
    let mut dates: Vec<i64> = Vec::new();
    let mut i: usize = 0;
    while i < store.revisions.len()
        invariant
            i <= store.revisions.len(),
            all == store.revisions.deep_view(),
            pred == |revision: RevisionView| revision.page.id == page_id@,
            entries.deep_view() == metas(all.take(i as int).filter(pred)),
            dates.len() == entries.len(),
            ranks_of(dates@) == snapshot_dates(entries.deep_view()),
        decreases store.revisions.len() - i,
    {
        proof {
            let seen = all.take(i as int);
            seen.lemma_filter_push(all[i as int], pred);
            all.lemma_take_succ_push(i as int);
            assert(all[i as int] == store.revisions[i as int]@);
        }
        if store.revisions[i].page.id == page_id {
            let ghost before = entries.deep_view();
            let ghost earlier = dates@;
            entries.push(store.revisions[i].meta());
            dates.push(store.revisions[i].created_at);
            assert(entries.deep_view() =~= before.push(meta_of(all[i as int])));
            assert(metas(all.take(i as int).filter(pred).push(all[i as int])) =~= before.push(
                meta_of(all[i as int]),
            ));
            assert forall|k: int| 0 <= k < dates@.len() implies ranks_of(dates@)[k]
                == snapshot_dates(entries.deep_view())[k] by {
                if k < earlier.len() {
                    assert(ranks_of(earlier)[k] == snapshot_dates(before)[k]);
                }
            }
            assert(ranks_of(dates@) =~= snapshot_dates(entries.deep_view()));
        }
        i += 1;
    }
    assert(all.take(i as int) =~= all);
    let order = arrange(&dates);
    let mut r: Vec<WikiRevisionMeta> = Vec::new();
    let mut k: usize = 0;
    while k < order.len()
        invariant
            k <= order.len(),
            order.len() == entries.len(),
            r.len() == k,
            forall|j: int| 0 <= j < order.len() ==> order[j] < entries.len(),
            forall|j: int| 0 <= j < k ==> r[j]@ == entries[order[j] as int]@,
        decreases order.len() - k,
    {
        r.push(entries[order[k]].clone());
        k += 1;
    }
    assert(r.deep_view() =~= latest_first(entries.deep_view()));
    proof {
        let listed = r.deep_view();
        lemma_revision_listing(store@.revisions, page_id@);
        assert forall|k: int| 0 <= k < r.len() implies (#[trigger] r[k]).page_id@ == page_id@ by {
            assert(listed[k].page_id == page_id@);
        }
        assert forall|a: int, b: int| 0 <= a < b < r.len() implies (#[trigger] r[a]).created_at > (
        #[trigger] r[b]).created_at by {
            assert(listed[a].created_at > listed[b].created_at);
        }
    }
    r
}

/// Where the snapshot that the log of `page_id` keeps under `revision_id`
/// stands in the archive, if there is one.
pub fn find_revision(revisions: &Vec<WikiRevision>, page_id: &String, revision_id: &String) -> (r:
    Option<usize>)
    ensures
        match r {
            Some(i) => is_revision(revisions.deep_view(), page_id@, revision_id@, i as int),
            None => !has_revision(revisions.deep_view(), page_id@, revision_id@),
        },
{
    let mut i: usize = 0;
    while i < revisions.len()
        invariant
            i <= revisions.len(),
            forall|k: int|
                0 <= k < i ==> !(revisions[k]@.page.id == page_id@ && revisions[k]@.id
                    == revision_id@),
        decreases revisions.len() - i,
    {
        if revisions[i].page.id == *page_id && revisions[i].id == *revision_id {
            assert(revisions.deep_view()[i as int] == revisions[i as int]@);
            return Some(i);
        }
        i += 1;
    }
    assert forall|k: int| !#[trigger] is_revision(
        revisions.deep_view(),
        page_id@,
        revision_id@,
        k,
    ) by {
        if 0 <= k < revisions.len() {
            assert(revisions.deep_view()[k] == revisions[k]@);
        }
    }
    None
}

/// What restoring a snapshot gives: the page as the snapshot holds it, with
/// `now` as its change time; `NotFound` where the page's log has no such
/// snapshot or the page is not stored.
pub open spec fn revision_restored(
    s: StoreView,
    page_id: Seq<char>,
    revision_id: Seq<char>,
    now: i64,
) -> Result<PageView, WikiError> {
    if has_revision(s.revisions, page_id, revision_id) && has_page(s.pages, page_id) {
        Ok(
            PageView {
                updated_at: now,
                ..s.revisions[revision_at(s.revisions, page_id, revision_id)].page
            },
        )
    } else {
        Err(WikiError::NotFound)
    }
}

/// The store after a snapshot was restored: the page as it stood went into
/// the archive, and the restored page took its place.
pub open spec fn after_restored(
    s: StoreView,
    page_id: Seq<char>,
    revision_id: Seq<char>,
    now: i64,
) -> StoreView {
    match revision_restored(s, page_id, revision_id, now) {
        Ok(page) => {
            let at = page_at(s.pages, page_id);
            StoreView {
                sections: s.sections,
                pages: s.pages.update(at, page),
                revisions: archived(s.revisions, s.pages[at], now),
            }
        },
        Err(_) => s,
    }
}

/// Restores a snapshot at the time `now`. The page as it stands is first put
/// into the archive (where no snapshot can be taken, the restoring goes ahead
/// without one), so that nothing is lost. Then the page takes the state that
/// the snapshot holds, with `now` as its change time. The snapshot itself
/// stays in the log. Fails with `NotFound`, leaving the store as it was,
/// where the page's log has no such snapshot or the page is not stored.
pub fn restore_wiki_revision_at(
    store: &mut WikiStore,
    page_id: String,
    revision_id: String,
    now: i64,
) -> (r: Result<WikiPage, WikiError>)
    requires
        old(store).wf(),
    ensures
        outcome_view(r) == revision_restored(old(store)@, page_id@, revision_id@, now),
        final(store)@ == after_restored(old(store)@, page_id@, revision_id@, now),
        r is Ok <==> has_revision(old(store)@.revisions, page_id@, revision_id@) && has_page(
            old(store)@.pages,
            page_id@,
        ),
        r is Err ==> r == Err::<WikiPage, WikiError>(WikiError::NotFound),
        r is Ok ==> has_revision(final(store)@.revisions, page_id@, revision_id@),
        final(store).wf(),
{
    let found = match find_revision(&store.revisions, &page_id, &revision_id) {
        Some(i) => i,
        None => {
            return Err(WikiError::NotFound);
        },
    };
    let at = match find_page(&store.pages, &page_id) {
        Some(i) => i,
        None => {
            return Err(WikiError::NotFound);
        },
    };
    let current = store.pages[at].clone();
    let mut page = store.revisions[found].page.clone();
    page.updated_at = now;
    proof {
        assert(store.pages.deep_view()[at as int] == store.pages[at as int]@);
        assert(store.revisions.deep_view()[found as int] == store.revisions[found as int]@);
        lemma_page_at(store@.pages, page_id@, at as int);
        lemma_revision_at(store@.revisions, page_id@, revision_id@, found as int);
        lemma_archived(store@.revisions, current@, now);
        assert(revision_keyed(store@.revisions[found as int]));
        lemma_update_keeps_pages(store@.pages, at as int, page@);
    }
    let _ = save_revision(store, &current, now);
    store.pages.set(at, page.clone());
    assert(store.pages.deep_view() =~= old(store).pages.deep_view().update(at as int, page@));
    assert(is_revision(store@.revisions, page_id@, revision_id@, found as int));
    Ok(page)
}

/// Restores a snapshot at the current time. Whatever time was read, the
/// result is that of `restore_wiki_revision_at` with it.
pub fn restore_wiki_revision(store: &mut WikiStore, page_id: String, revision_id: String) -> (r:
    Result<WikiPage, WikiError>)
    requires
        old(store).wf(),
    ensures
        exists|now: i64|
            {
                &&& 0 <= now < 0x1_0000_0000_0000
                &&& outcome_view(r) == #[trigger] revision_restored(
                    old(store)@,
                    page_id@,
                    revision_id@,
                    now,
                )
                &&& final(store)@ == after_restored(old(store)@, page_id@, revision_id@, now)
            },
        r is Ok <==> has_revision(old(store)@.revisions, page_id@, revision_id@) && has_page(
            old(store)@.pages,
            page_id@,
        ),
        r is Err ==> r == Err::<WikiPage, WikiError>(WikiError::NotFound),
        r is Ok ==> has_revision(final(store)@.revisions, page_id@, revision_id@),
        final(store).wf(),
{
    let now = unix_now();
    restore_wiki_revision_at(store, page_id, revision_id, now)
}

} // verus!
