//! Stamps: the keys of new pages and snapshots. A stamp is the time of
//! asking, unless some key in use is not before that time: then it is the
//! first key after every key in use. So no key is ever given out twice, and
//! keys rise in the order in which they are given out.

use vstd::prelude::*;
use crate::page::{PageView, WikiPage};
use crate::revision::{RevisionView, WikiRevision};
use crate::store::{page_key, page_keyed};
use crate::text::parse_decimal;

verus! {

/// `t` is the least time not before `now` that lies after every stamp in use.
pub open spec fn is_stamp_after(used: Set<int>, now: int, t: int) -> bool {
    &&& t >= now
    &&& forall|u: int| used.contains(u) ==> u < t
    &&& (t == now || used.contains(t - 1))
}

/// The stamp given out at `now` when the stamps in `used` are taken.
pub open spec fn stamp_after(used: Set<int>, now: int) -> int {
    choose|t: int| is_stamp_after(used, now, t)
}

/// Where every stamp in use lies before `now`, the stamp given out is `now`.
pub proof fn lemma_stamp_is_now(used: Set<int>, now: int)
    requires
        forall|u: int| used.contains(u) ==> u < now,
    ensures
        stamp_after(used, now) == now,
{
    assert(is_stamp_after(used, now, now));
    lemma_stamp_after(used, now, now);
}

/// There is only one such stamp.
pub proof fn lemma_stamp_after(used: Set<int>, now: int, t: int)
    requires
        is_stamp_after(used, now, t),
    ensures
        stamp_after(used, now) == t,
{
    let c = stamp_after(used, now);
    assert(is_stamp_after(used, now, c));
    if c < t {
        assert(used.contains(t - 1));
    } else if t < c {
        assert(used.contains(c - 1));
    }
}

/// The keys that are spoken for: those of the stored pages and those of the
/// pages in archived snapshots.
pub open spec fn page_stamps(pages: Seq<PageView>, revisions: Seq<RevisionView>) -> Set<int> {
    Set::new(
        |t: int|
            {
                ||| exists|i: int| 0 <= i < pages.len() && page_key(#[trigger] pages[i]) == t
                ||| exists|i: int|
                    0 <= i < revisions.len() && page_key((#[trigger] revisions[i]).page) == t
            },
    )
}

/// The stamps of the snapshots in the log of the page `page_id`.
pub open spec fn log_stamps(revisions: Seq<RevisionView>, page_id: Seq<char>) -> Set<int> {
    Set::new(
        |t: int|
            exists|i: int|
                0 <= i < revisions.len() && (#[trigger] revisions[i]).page.id == page_id
                    && revisions[i].created_at == t,
    )
}

/// A store always has a next page stamp: the keys in it are finitely many.
pub proof fn lemma_page_stamp_exists(pages: Seq<PageView>, revisions: Seq<RevisionView>, now: i64)
    ensures
        is_stamp_after(
            page_stamps(pages, revisions),
            now as int,
            stamp_after(page_stamps(pages, revisions), now as int),
        ),
    decreases pages.len() + revisions.len(),
{
    let used = page_stamps(pages, revisions);
    if pages.len() == 0 && revisions.len() == 0 {
        assert(is_stamp_after(used, now as int, now as int));
    } else if revisions.len() > 0 {
        let rest = revisions.drop_last();
        let top = page_key(revisions.last().page);
        lemma_page_stamp_exists(pages, rest, now);
        let less = page_stamps(pages, rest);
        let before = stamp_after(less, now as int);
        let t = if top >= before {
            top + 1
        } else {
            before
        };
        assert forall|u: int| used.contains(u) implies u < t by {
            if exists|k: int| 0 <= k < pages.len() && page_key(#[trigger] pages[k]) == u {
                assert(less.contains(u));
            } else {
                let k = choose|k: int|
                    0 <= k < revisions.len() && page_key((#[trigger] revisions[k]).page) == u;
                if k < rest.len() {
                    assert(page_key(rest[k].page) == u);
                    assert(less.contains(u));
                }
            }
        }
        if t != now {
            if top >= before {
                assert(page_key(revisions[revisions.len() - 1].page) == t - 1);
            } else {
                assert(less.contains(t - 1));
                if !(exists|k: int| 0 <= k < pages.len() && page_key(#[trigger] pages[k]) == t - 1) {
                    let k = choose|k: int|
                        0 <= k < rest.len() && page_key((#[trigger] rest[k]).page) == t - 1;
                    assert(page_key(revisions[k].page) == t - 1);
                }
            }
            assert(used.contains(t - 1));
        }
        assert(is_stamp_after(used, now as int, t));
    } else {
        let rest = pages.drop_last();
        let top = page_key(pages.last());
        lemma_page_stamp_exists(rest, revisions, now);
        let less = page_stamps(rest, revisions);
        let before = stamp_after(less, now as int);
        let t = if top >= before {
            top + 1
        } else {
            before
        };
        assert forall|u: int| used.contains(u) implies u < t by {
            let k = choose|k: int| 0 <= k < pages.len() && page_key(#[trigger] pages[k]) == u;
            if k < rest.len() {
                assert(page_key(rest[k]) == u);
                assert(less.contains(u));
            }
        }
        if t != now {
            if top >= before {
                assert(page_key(pages[pages.len() - 1]) == t - 1);
            } else {
                assert(less.contains(t - 1));
                let k = choose|k: int|
                    0 <= k < rest.len() && page_key(#[trigger] rest[k]) == t - 1;
                assert(page_key(pages[k]) == t - 1);
            }
            assert(used.contains(t - 1));
        }
        assert(is_stamp_after(used, now as int, t));
    }
}

/// A log always has a next stamp: the stamps in it are finitely many.
pub proof fn lemma_log_stamp_exists(revisions: Seq<RevisionView>, page_id: Seq<char>, now: i64)
    ensures
        is_stamp_after(
            log_stamps(revisions, page_id),
            now as int,
            stamp_after(log_stamps(revisions, page_id), now as int),
        ),
    decreases revisions.len(),
{
    let used = log_stamps(revisions, page_id);
    if revisions.len() == 0 {
        assert(is_stamp_after(used, now as int, now as int));
    } else {
        let rest = revisions.drop_last();
        let last = revisions.last();
        lemma_log_stamp_exists(rest, page_id, now);
        let before = stamp_after(log_stamps(rest, page_id), now as int);
        let t = if last.page.id == page_id && last.created_at >= before {
            last.created_at + 1
        } else {
            before
        };
        assert forall|u: int| used.contains(u) implies u < t by {
            let k = choose|k: int|
                0 <= k < revisions.len() && (#[trigger] revisions[k]).page.id == page_id
                    && revisions[k].created_at == u;
            if k < rest.len() {
                assert(rest[k].page.id == page_id && rest[k].created_at == u);
                assert(log_stamps(rest, page_id).contains(u));
            }
        }
        if t != now {
            if last.page.id == page_id && last.created_at >= before {
                assert(revisions[revisions.len() - 1].created_at == t - 1);
            } else {
                assert(log_stamps(rest, page_id).contains(t - 1));
                let k = choose|k: int|
                    0 <= k < rest.len() && (#[trigger] rest[k]).page.id == page_id
                        && rest[k].created_at == t - 1;
                assert(revisions[k].page.id == page_id && revisions[k].created_at == t - 1);
            }
            assert(used.contains(t - 1));
        }
        assert(is_stamp_after(used, now as int, t));
    }
}

/// The key of a page whose identifier is a key.
fn key_of(page: &WikiPage) -> (key: i64)
    requires
        page_keyed(page@),
    ensures
        key == page_key(page@),
{
    match parse_decimal(page.id.as_str()) {
        Some(key) => key,
        None => {
            assert(false);
            0
        },
    }
}

/// The key for a page created at `now`: the time itself, or the first key
/// after all that are spoken for where one of them is not before the time.
/// `None` where that key would lie beyond the last that can be written.
pub(crate) fn next_page_stamp(
    pages: &Vec<WikiPage>,
    revisions: &Vec<WikiRevision>,
    now: i64,
) -> (r: Option<i64>)
    requires
        forall|k: int| 0 <= k < pages.len() ==> page_keyed(#[trigger] pages.deep_view()[k]),
        forall|k: int|
            0 <= k < revisions.len() ==> page_keyed((#[trigger] revisions.deep_view()[k]).page),
    ensures
        ({
            let used = page_stamps(pages.deep_view(), revisions.deep_view());
            match r {
                Some(t) => t == stamp_after(used, now as int),
                None => stamp_after(used, now as int) > i64::MAX,
            }
        }),
{
    let ghost ps = pages.deep_view();
    let ghost rs = revisions.deep_view();
    let mut t: i128 = now as i128;
    let mut i: usize = 0;
    while i < pages.len()
        invariant
            i <= pages.len(),
            ps == pages.deep_view(),
            forall|k: int| 0 <= k < pages.len() ==> page_keyed(#[trigger] ps[k]),
            now <= t <= i64::MAX + 1,
            forall|k: int| 0 <= k < i ==> page_key(#[trigger] ps[k]) < t,
            t == now || exists|k: int| 0 <= k < i && page_key(#[trigger] ps[k]) == t - 1,
        decreases pages.len() - i,
    {
        assert(ps[i as int] == pages[i as int]@);
        let key = key_of(&pages[i]);
        if key as i128 >= t {
            t = key as i128 + 1;
        }
        i += 1;
    }
    let mut j: usize = 0;
    while j < revisions.len()
        invariant
            j <= revisions.len(),
            ps == pages.deep_view(),
            rs == revisions.deep_view(),
            forall|k: int| 0 <= k < revisions.len() ==> page_keyed((#[trigger] rs[k]).page),
            now <= t <= i64::MAX + 1,
            forall|k: int| 0 <= k < ps.len() ==> page_key(#[trigger] ps[k]) < t,
            forall|k: int| 0 <= k < j ==> page_key((#[trigger] rs[k]).page) < t,
            t == now || (exists|k: int| 0 <= k < ps.len() && page_key(#[trigger] ps[k]) == t - 1)
                || (exists|k: int| 0 <= k < j && page_key((#[trigger] rs[k]).page) == t - 1),
        decreases revisions.len() - j,
    {
        assert(rs[j as int] == revisions[j as int]@);
        let key = key_of(&revisions[j].page);
        if key as i128 >= t {
            t = key as i128 + 1;
        }
        j += 1;
    }
    proof {
        let used = page_stamps(ps, rs);
        if t != now {
            assert(used.contains(t - 1));
        }
        lemma_stamp_after(used, now as int, t as int);
    }
    if t > i64::MAX as i128 {
        None
    } else {
        Some(t as i64)
    }
}

/// The stamp for a snapshot of the page `page_id` taken at `now`, or `None`
/// where it would lie beyond the last time that can be written.
pub(crate) fn next_log_stamp(revisions: &Vec<WikiRevision>, page_id: &String, now: i64) -> (r:
    Option<i64>)
    ensures
        match r {
            Some(t) => t == stamp_after(log_stamps(revisions.deep_view(), page_id@), now as int),
            None => stamp_after(log_stamps(revisions.deep_view(), page_id@), now as int)
                > i64::MAX,
        },
{
    let mut t: i128 = now as i128;
    let mut j: usize = 0;
    while j < revisions.len()
        invariant
            j <= revisions.len(),
            now <= t <= i64::MAX + 1,
            forall|k: int|
                0 <= k < j && revisions[k].page.id@ == page_id@ ==> revisions[k].created_at < t,
            t == now || exists|k: int|
                0 <= k < j && revisions[k].page.id@ == page_id@ && revisions[k].created_at == t
                    - 1,
        decreases revisions.len() - j,
    {
        if revisions[j].page.id == *page_id && revisions[j].created_at as i128 >= t {
            t = revisions[j].created_at as i128 + 1;
        }
        j += 1;
    }
    proof {
        let all = revisions.deep_view();
        let used = log_stamps(all, page_id@);
        assert forall|u: int| used.contains(u) implies u < t by {
            let k = choose|k: int|
                0 <= k < all.len() && (#[trigger] all[k]).page.id == page_id@ && all[k].created_at
                    == u;
            assert(all[k] == revisions[k]@);
        }
        if t != now {
            let k = choose|k: int|
                0 <= k < j && revisions[k].page.id@ == page_id@ && revisions[k].created_at == t - 1;
            assert(all[k] == revisions[k]@);
            assert(used.contains(t - 1));
        }
        lemma_stamp_after(used, now as int, t as int);
    }
    if t > i64::MAX as i128 {
        None
    } else {
        Some(t as i64)
    }
}

} // verus!
