//! Disk usage: the items that a scan of a directory reports, and how the
//! entries of one directory are summed up and arranged.

use vstd::prelude::*;
use vstd::string::StringExecFns;
use crate::order::{falling, is_arrangement, lemma_falling, slot_from};

verus! {

/// A file or directory, with the space that it takes.
#[derive(Debug, PartialEq, Eq)]
pub struct DiskItem {
    pub name: String,
    pub path: String,
    /// The size in bytes; for a directory, of all that was scanned below it.
    pub size: u64,
    pub is_dir: bool,
    /// The entries of a directory, largest first; `None` for a file, for an
    /// empty directory and for one that was not scanned.
    pub children: Option<Vec<DiskItem>>,
    /// Why the item could not be read, if it could not.
    pub error: Option<String>,
}

/// How far a scan has come.
#[derive(Debug)]
pub struct ScanProgress {
    pub current_path: String,
    pub items_scanned: usize,
}

/// The sizes of the items, as ranks.
pub open spec fn sizes(items: Seq<DiskItem>) -> Seq<int> {
    Seq::new(items.len(), |i: int| items[i].size as int)
}

/// The items arranged by size, largest first; items of equal size keep their
/// order.
pub open spec fn largest_first(items: Seq<DiskItem>) -> Seq<DiskItem> {
    Seq::new(items.len(), |k: int| items[falling(sizes(items))[k]])
}

/// The sum of the sizes of the items.
pub open spec fn total_size(items: Seq<DiskItem>) -> int
    decreases items.len(),
{
    if items.len() == 0 {
        0
    } else {
        total_size(items.drop_last()) + items.last().size
    }
}

/// A sum of sizes as it is reported: the largest number that can be written
/// in place of any sum beyond it.
pub open spec fn capped(sum: int) -> int {
    if sum > u64::MAX {
        u64::MAX as int
    } else {
        sum
    }
}

/// What attaching the reason to an unreadable item's error gives.
pub open spec fn denied(reason: Seq<char>) -> Seq<char> {
    "Permission denied: "@ + reason
}

/// A sum of sizes is not negative.
pub proof fn lemma_total_size(items: Seq<DiskItem>)
    ensures
        total_size(items) >= 0,
    decreases items.len(),
{
    if items.len() > 0 {
        lemma_total_size(items.drop_last());
    }
}

/// The arrangement by size holds every item once, and runs from the largest
/// to the smallest.
pub proof fn lemma_largest_first(items: Seq<DiskItem>)
    ensures
        largest_first(items).len() == items.len(),
        is_arrangement(sizes(items), falling(sizes(items))),
        forall|a: int, b: int|
            0 <= a < b < items.len() ==> (#[trigger] largest_first(items)[a]).size >= (
            #[trigger] largest_first(items)[b]).size,
        forall|i: int| 0 <= i < items.len() ==> largest_first(items).contains(#[trigger] items[i]),
        forall|k: int| 0 <= k < items.len() ==> items.contains(#[trigger] largest_first(items)[k]),
{
    let ranks = sizes(items);
    let order = falling(ranks);
    let listed = largest_first(items);
    lemma_falling(ranks);
    assert forall|a: int, b: int| 0 <= a < b < items.len() implies (#[trigger] listed[a]).size >= (
    #[trigger] listed[b]).size by {
        assert(ranks[order[a]] >= ranks[order[b]]);
    }
    assert forall|i: int| 0 <= i < items.len() implies listed.contains(#[trigger] items[i]) by {
        assert(order.contains(i));
        let k = choose|k: int| 0 <= k < order.len() && order[k] == i;
        assert(listed[k] == items[i]);
    }
    assert forall|k: int| 0 <= k < items.len() implies items.contains(#[trigger] listed[k]) by {
        assert(0 <= order[k] < items.len());
        assert(items[order[k]] == listed[k]);
    }
}

/// Whether a scan that may go `max_depth` levels deep, if that is limited,
/// stops at the level `current_depth`.
pub fn depth_reached(max_depth: Option<usize>, current_depth: usize) -> (r: bool)
    ensures
        r == (max_depth is Some && current_depth >= max_depth->0),
{
    match max_depth {
        Some(max) => current_depth >= max,
        None => false,
    }
}

/// Sums up the entries of a directory and arranges them largest first. A sum
/// beyond the largest number that can be written is reported as that number.
pub fn tally(children: Vec<DiskItem>) -> (r: (u64, Vec<DiskItem>))
    ensures
        r.0 == capped(total_size(children@)),
        r.1@ == largest_first(children@),
        r.1.len() == children.len(),
        forall|a: int, b: int|
            0 <= a < b < r.1.len() ==> (#[trigger] r.1[a]).size >= (#[trigger] r.1[b]).size,
        forall|i: int| 0 <= i < children.len() ==> r.1@.contains(#[trigger] children[i]),
{
    let ghost all = children@;
    let ghost ranks = sizes(all);
    let mut total: u64 = 0;
    let mut n: usize = 0;
    while n < children.len()
        invariant
            n <= children.len(),
            children@ == all,
            total == capped(total_size(all.take(n as int))),
        decreases children.len() - n,
    {
        proof {
            assert(all.take(n + 1).drop_last() =~= all.take(n as int));
            lemma_total_size(all.take(n as int));
        }
        let size = children[n].size;
        if total > u64::MAX - size {
            total = u64::MAX;
        } else {
            total = total + size;
        }
        n += 1;
    }
    assert(all.take(n as int) =~= all);
    let mut rest = children;
    let mut out: Vec<DiskItem> = Vec::new();
    let mut i: usize = 0;
    while rest.len() > 0
        invariant
            i <= all.len() <= usize::MAX,
            rest@ == all.skip(i as int),
            ranks == sizes(all),
            out.len() == i,
            forall|k: int| 0 <= k < i ==> out[k] == all[falling(ranks.take(i as int))[k]],
        decreases rest.len(),
    {
        let ghost seen = ranks.take(i as int);
        let ghost next = ranks.take(i + 1);
        let ghost order = falling(seen);
        proof {
            assert(rest@.len() == all.len() - i);
            lemma_falling(seen);
            assert(next.drop_last() =~= seen);
            assert(next.last() == all[i as int].size);
        }
        let item = rest.remove(0);
        assert(item == all[i as int]);
        assert(rest@ =~= all.skip(i + 1));
        let mut p: usize = 0;
        while p < out.len() && out[p].size >= item.size
            invariant
                p <= out.len(),
                out.len() == i,
                i < all.len(),
                order.len() == i,
                ranks == sizes(all),
                next == ranks.take(i + 1),
                item == all[i as int],
                is_arrangement(seen, order),
                seen == ranks.take(i as int),
                forall|k: int| 0 <= k < i ==> out[k] == all[order[k]],
                slot_from(next, order, item.size as int, p as int) == slot_from(
                    next,
                    order,
                    item.size as int,
                    0,
                ),
            decreases out.len() - p,
        {
            proof {
                assert(0 <= order[p as int] < i);
                assert(next[order[p as int]] == out[p as int].size);
            }
            p += 1;
        }
        proof {
            if p < out.len() {
                assert(0 <= order[p as int] < i);
                assert(next[order[p as int]] == out[p as int].size);
            }
            assert(slot_from(next, order, item.size as int, 0) == p);
            assert(falling(next) == order.insert(p as int, i as int));
        }
        let ghost before = out@;
        out.insert(p, item);
        i += 1;
        proof {
            let grown = falling(ranks.take(i as int));
            assert forall|k: int| 0 <= k < i implies out[k] == all[grown[k]] by {
                if k < p {
                    assert(out[k] == before[k]);
                } else if k > p {
                    assert(out[k] == before[k - 1]);
                }
            }
        }
    }
    proof {
        assert(i == all.len()) by {
            assert(all.skip(i as int).len() == 0);
        }
        assert(ranks.take(i as int) =~= ranks);
        assert(out@ =~= largest_first(all));
        lemma_largest_first(all);
    }
    (total, out)
}

/// The letters that name drives, in their order.
pub open spec fn drive_letters() -> Seq<char> {
    "ABCDEFGHIJKLMNOPQRSTUVWXYZ"@
}

/// Whether the drive of the given number, counted from zero, is marked in the
/// mask of drives.
pub open spec fn has_drive(drives: u32, number: int) -> bool {
    0 <= number < 26 && drives & (1u32 << (number as u32)) != 0
}

/// The root directory of the drive of the given number: its letter, a colon
/// and a backslash.
pub open spec fn drive_root(number: int) -> Seq<char> {
    drive_letters().subrange(number, number + 1) + ":\\"@
}

/// The root directories of the drives that the mask marks among the first
/// `upto`, in the order of their letters.
pub open spec fn drive_roots_upto(drives: u32, upto: int) -> Seq<Seq<char>>
    decreases upto,
{
    if upto <= 0 {
        Seq::empty()
    } else if has_drive(drives, upto - 1) {
        drive_roots_upto(drives, upto - 1).push(drive_root(upto - 1))
    } else {
        drive_roots_upto(drives, upto - 1)
    }
}

/// The root directories of the drives that a mask of drives marks: bit 0
/// stands for `A:\\`, bit 25 for `Z:\\`, and higher bits for nothing.
pub fn drive_roots(drives: u32) -> (r: Vec<String>)
    ensures
        r.deep_view() == drive_roots_upto(drives, 26),
{
    let letters = "ABCDEFGHIJKLMNOPQRSTUVWXYZ";
    proof {
        reveal_strlit("ABCDEFGHIJKLMNOPQRSTUVWXYZ");
        assert(letters.is_ascii()) by {
            assert forall|k: int| 0 <= k < letters@.len() implies (letters@[k] as nat) < 128 by {}
        }
    }
    let mut r: Vec<String> = Vec::new();
    let mut i: u32 = 0;
    while i < 26
        invariant
            i <= 26,
            letters@ == drive_letters(),
            letters@.len() == 26,
            letters.is_ascii(),
            r.deep_view() == drive_roots_upto(drives, i as int),
        decreases 26 - i,
    {
        if drives & (1u32 << i) != 0 {
            let mut root = String::from_str(letters.substring_ascii(i as usize, i as usize + 1));
            root.append(":\\");
            let ghost before = r.deep_view();
            r.push(root);
            assert(r.deep_view() =~= before.push(drive_root(i as int)));
        }
        i += 1;
    }
    r
}

impl DiskItem {
    /// The item that stands for a file of the given size.
    pub fn file(name: String, path: String, size: u64) -> (r: DiskItem)
        ensures
            r.name == name,
            r.path == path,
            r.size == size,
            !r.is_dir,
            r.children is None,
            r.error is None,
    {
        DiskItem { name, path, size, is_dir: false, children: None, error: None }
    }

    /// The item that stands for an entry whose kind and size could not be
    /// read: it counts for nothing and carries the reason.
    pub fn unreadable(name: String, path: String, reason: String) -> (r: DiskItem)
        ensures
            r.name == name,
            r.path == path,
            r.size == 0,
            !r.is_dir,
            r.children is None,
            r.error is Some,
            r.error->0@ == denied(reason@),
    {
        let mut text: String = "Permission denied: ".to_owned();
        text.append(reason.as_str());
        DiskItem { name, path, size: 0, is_dir: false, children: None, error: Some(text) }
    }

    /// The item that stands for a directory, from what the scan of it gave:
    /// its size and entries, or the reason why it could not be scanned. A
    /// directory without entries has no list of children.
    pub fn directory(name: String, path: String, scanned: Result<(u64, Vec<DiskItem>), String>) -> (r:
        DiskItem)
        ensures
            r.name == name,
            r.path == path,
            r.is_dir,
            match scanned {
                Ok((size, children)) => {
                    &&& r.size == size
                    &&& r.error is None
                    &&& r.children == if children@.len() == 0 {
                        None::<Vec<DiskItem>>
                    } else {
                        Some(children)
                    }
                },
                Err(reason) => {
                    &&& r.size == 0
                    &&& r.children is None
                    &&& r.error == Some(reason)
                },
            },
    {
        match scanned {
            Ok((size, children)) => {
                let kept = if children.len() == 0 {
                    None
                } else {
                    Some(children)
                };
                DiskItem { name, path, size, is_dir: true, children: kept, error: None }
            },
            Err(reason) => DiskItem {
                name,
                path,
                size: 0,
                is_dir: true,
                children: None,
                error: Some(reason),
            },
        }
    }
}

} // verus!
