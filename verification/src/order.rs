//! Listing order: newest first, entries of equal rank in their stored order.

use vstd::prelude::*;

verus! {

/// Where an entry of rank `rank` goes into `order`, an arrangement of places
/// in `ranks` by falling rank: behind the entries from `from` on that do not
/// rank below it.
pub open spec fn slot_from(ranks: Seq<int>, order: Seq<int>, rank: int, from: int) -> int
    decreases order.len() - from,
{
    if from < 0 || from >= order.len() || ranks[order[from]] < rank {
        from
    } else {
        slot_from(ranks, order, rank, from + 1)
    }
}

/// The places `0 .. ranks.len()` arranged by falling rank, and among equal
/// ranks by rising place.
pub open spec fn falling(ranks: Seq<int>) -> Seq<int>
    decreases ranks.len(),
{
    if ranks.len() == 0 {
        Seq::empty()
    } else {
        let rest = falling(ranks.drop_last());
        rest.insert(slot_from(ranks, rest, ranks.last(), 0), ranks.len() - 1)
    }
}

/// `order` lists every place of `ranks` exactly once.
pub open spec fn is_arrangement(ranks: Seq<int>, order: Seq<int>) -> bool {
    &&& order.len() == ranks.len()
    &&& forall|k: int| 0 <= k < order.len() ==> 0 <= #[trigger] order[k] < ranks.len()
    &&& forall|a: int, b: int| 0 <= a < b < order.len() ==> #[trigger] order[a] != #[trigger] order[b]
    &&& forall|i: int| 0 <= i < ranks.len() ==> #[trigger] order.contains(i)
}

/// `order` runs from the highest rank to the lowest, and keeps entries of
/// equal rank in the order of their places.
pub open spec fn is_falling(ranks: Seq<int>, order: Seq<int>) -> bool {
    forall|a: int, b: int|
        0 <= a < b < order.len() ==> {
            ||| ranks[#[trigger] order[a]] > ranks[#[trigger] order[b]]
            ||| (ranks[order[a]] == ranks[order[b]] && order[a] < order[b])
        }
}

/// The slot lies within `order`; every entry before it, from `from` on, does
/// not rank below `rank`; and the entry at it, if there is one, does.
pub proof fn lemma_slot_from(ranks: Seq<int>, order: Seq<int>, rank: int, from: int)
    requires
        0 <= from <= order.len(),
    ensures
        from <= slot_from(ranks, order, rank, from) <= order.len(),
        forall|k: int|
            from <= k < slot_from(ranks, order, rank, from) ==> ranks[#[trigger] order[k]] >= rank,
        slot_from(ranks, order, rank, from) < order.len() ==> ranks[order[slot_from(
            ranks,
            order,
            rank,
            from,
        )]] < rank,
    decreases order.len() - from,
{
    if from < order.len() && ranks[order[from]] >= rank {
        lemma_slot_from(ranks, order, rank, from + 1);
    }
}

/// The arrangement lists every place once, by falling rank.
pub proof fn lemma_falling(ranks: Seq<int>)
    ensures
        is_arrangement(ranks, falling(ranks)),
        is_falling(ranks, falling(ranks)),
    decreases ranks.len(),
{
    if ranks.len() > 0 {
        let n = ranks.len() - 1;
        let less = ranks.drop_last();
        let rest = falling(less);
        let rank = ranks.last();
        let p = slot_from(ranks, rest, rank, 0);
        let order = falling(ranks);
        lemma_falling(less);
        lemma_slot_from(ranks, rest, rank, 0);
        assert(order == rest.insert(p, n));
        assert forall|k: int| 0 <= k < rest.len() implies ranks[#[trigger] rest[k]] == less[rest[k]] by {}
        assert forall|a: int, b: int| 0 <= a < b < order.len() implies {
            ||| ranks[#[trigger] order[a]] > ranks[#[trigger] order[b]]
            ||| (ranks[order[a]] == ranks[order[b]] && order[a] < order[b])
        } by {
            if a == p {
                // everything behind the slot ranks below the new entry
                assert(order[b] == rest[b - 1]);
                if p < b - 1 {
                    assert(ranks[rest[p]] > ranks[rest[b - 1]] || ranks[rest[p]] == ranks[rest[b
                        - 1]]);
                }
                assert(ranks[rest[p]] < rank);
            } else if b == p {
                assert(order[a] == rest[a]);
                assert(ranks[rest[a]] >= rank);
            } else {
                let ra = if a < p { a } else { a - 1 };
                let rb = if b < p { b } else { b - 1 };
                assert(order[a] == rest[ra] && order[b] == rest[rb]);
                assert(ra < rb);
            }
        }
        assert forall|k: int| 0 <= k < order.len() implies 0 <= #[trigger] order[k]
            < ranks.len() by {
            if k < p {
                assert(order[k] == rest[k]);
            } else if k > p {
                assert(order[k] == rest[k - 1]);
            }
        }
        assert forall|a: int, b: int| 0 <= a < b < order.len() implies #[trigger] order[a]
            != #[trigger] order[b] by {
            let ra = if a < p { a } else { a - 1 };
            let rb = if b < p { b } else { b - 1 };
            if a != p && b != p {
                assert(order[a] == rest[ra] && order[b] == rest[rb]);
                assert(rest[ra] != rest[rb]);
            } else if a == p {
                assert(order[b] == rest[rb]);
            } else {
                assert(order[a] == rest[ra]);
            }
        }
        assert forall|i: int| 0 <= i < ranks.len() implies #[trigger] order.contains(i) by {
            if i == n {
                assert(order[p] == n);
            } else {
                assert(rest.contains(i));
                let k = choose|k: int| 0 <= k < rest.len() && rest[k] == i;
                if k < p {
                    assert(order[k] == i);
                } else {
                    assert(order[k + 1] == i);
                }
            }
        }
    }
}

/// Two arrangements by falling rank agree at every place.
proof fn lemma_same_place(ranks: Seq<int>, one: Seq<int>, other: Seq<int>, k: int)
    requires
        is_arrangement(ranks, one),
        is_falling(ranks, one),
        is_arrangement(ranks, other),
        is_falling(ranks, other),
        0 <= k < ranks.len(),
    ensures
        one[k] == other[k],
    decreases k,
{
    assert forall|j: int| 0 <= j < k implies one[j] == other[j] by {
        lemma_same_place(ranks, one, other, j);
    }
    let x = one[k];
    let y = other[k];
    if x != y {
        assert(other.contains(x));
        let p = choose|p: int| 0 <= p < other.len() && other[p] == x;
        if p < k {
            assert(one[p] != one[k]);
        }
        assert(one.contains(y));
        let q = choose|q: int| 0 <= q < one.len() && one[q] == y;
        if q < k {
            assert(other[q] != other[k]);
        }
        assert(ranks[other[k]] > ranks[other[p]] || (ranks[other[k]] == ranks[other[p]]
            && other[k] < other[p]));
        assert(ranks[one[k]] > ranks[one[q]] || (ranks[one[k]] == ranks[one[q]] && one[k]
            < one[q]));
    }
}

/// There is only one arrangement by falling rank: whatever lists every place
/// once, from the highest rank to the lowest and equal ranks in the order of
/// their places, is `falling(ranks)`.
pub proof fn law_arrangement_is_unique(ranks: Seq<int>, order: Seq<int>)
    requires
        is_arrangement(ranks, order),
        is_falling(ranks, order),
    ensures
        order == falling(ranks),
{
    lemma_falling(ranks);
    assert forall|k: int| 0 <= k < order.len() implies order[k] == falling(ranks)[k] by {
        lemma_same_place(ranks, order, falling(ranks), k);
    }
    assert(order =~= falling(ranks));
}

/// `items` stand by strictly rising rank.
pub open spec fn is_rising<T>(items: Seq<T>, rank: spec_fn(T) -> int) -> bool {
    forall|i: int, j: int|
        0 <= i < j < items.len() ==> rank(#[trigger] items[i]) < rank(#[trigger] items[j])
}

/// Where `one` has a place `k`, `other` has it too, with the same item.
proof fn lemma_rising_place<T>(one: Seq<T>, other: Seq<T>, rank: spec_fn(T) -> int, k: int)
    requires
        is_rising(one, rank),
        is_rising(other, rank),
        forall|x: T| one.contains(x) <==> other.contains(x),
        0 <= k < one.len(),
    ensures
        k < other.len(),
        one[k] == other[k],
    decreases k,
{
    assert forall|j: int| 0 <= j < k implies j < other.len() && one[j] == other[j] by {
        lemma_rising_place(one, other, rank, j);
    }
    let x = one[k];
    assert(one.contains(x));
    assert(other.contains(x));
    let p = choose|p: int| 0 <= p < other.len() && other[p] == x;
    if p < k {
        assert(rank(one[p]) < rank(one[k]));
    } else if p > k {
        let y = other[k];
        assert(rank(other[k]) < rank(other[p]));
        assert(other.contains(y));
        assert(one.contains(y));
        let q = choose|q: int| 0 <= q < one.len() && one[q] == y;
        if q < k {
            assert(rank(other[q]) < rank(other[k]));
        } else if q > k {
            assert(rank(one[k]) < rank(one[q]));
        }
    }
}

/// Items that stand by strictly rising rank stand in the only order there is
/// for them: two such sequences of the same items are the same sequence.
pub proof fn lemma_rising_same<T>(one: Seq<T>, other: Seq<T>, rank: spec_fn(T) -> int)
    requires
        is_rising(one, rank),
        is_rising(other, rank),
        forall|x: T| one.contains(x) <==> other.contains(x),
    ensures
        one == other,
{
    assert forall|k: int| 0 <= k < one.len() implies k < other.len() && one[k] == other[k] by {
        lemma_rising_place(one, other, rank, k);
    }
    if one.len() < other.len() {
        lemma_rising_place(other, one, rank, one.len() as int);
    }
    if other.len() < one.len() {
        lemma_rising_place(one, other, rank, other.len() as int);
    }
    assert(one =~= other);
}

/// An entry that outranks all others heads the arrangement, and the others
/// keep their order behind it.
pub proof fn lemma_highest_heads(ranks: Seq<int>, rank: int)
    requires
        forall|i: int| 0 <= i < ranks.len() ==> #[trigger] ranks[i] < rank,
    ensures
        falling(ranks.push(rank)) == seq![ranks.len() as int] + falling(ranks),
{
    let all = ranks.push(rank);
    let rest = falling(ranks);
    lemma_falling(ranks);
    assert(all.drop_last() =~= ranks);
    if rest.len() > 0 {
        assert(all[rest[0]] == ranks[rest[0]]);
    }
    assert(slot_from(all, rest, rank, 0) == 0);
    assert(rest.insert(0, ranks.len() as int) =~= seq![ranks.len() as int] + rest);
}

/// The ranks that times stand for.
pub open spec fn ranks_of(dates: Seq<i64>) -> Seq<int> {
    Seq::new(dates.len(), |i: int| dates[i] as int)
}

/// The places of `dates`, arranged newest first.
pub fn arrange(dates: &Vec<i64>) -> (order: Vec<usize>)
    ensures
        order.len() == dates.len(),
        forall|k: int| 0 <= k < order.len() ==> order[k] as int == falling(ranks_of(dates@))[k],
        forall|k: int| 0 <= k < order.len() ==> order[k] < dates.len(),
{
    let ghost ranks = ranks_of(dates@);
    let mut order: Vec<usize> = Vec::new();
    let mut i: usize = 0;
    while i < dates.len()
        invariant
            i <= dates.len(),
            order.len() == i,
            ranks == ranks_of(dates@),
            forall|k: int| 0 <= k < order.len() ==> order[k] as int == falling(ranks.take(i as int))[k],
            forall|k: int| 0 <= k < order.len() ==> order[k] < i,
        decreases dates.len() - i,
    {
        let ghost seen = ranks.take(i as int);
        let ghost next = ranks.take(i + 1);
        let ghost rest = falling(seen);
        proof {
            lemma_falling(seen);
            assert(next.drop_last() =~= seen);
            assert(next.last() == dates[i as int]);
        }
        let date = dates[i];
        let mut p: usize = 0;
        while p < order.len() && dates[order[p]] >= date
            invariant
                p <= order.len(),
                order.len() == i,
                i < dates.len(),
                rest.len() == i,
                ranks == ranks_of(dates@),
                next == ranks.take(i + 1),
                date == dates[i as int],
                forall|k: int| 0 <= k < order.len() ==> order[k] as int == rest[k],
                forall|k: int| 0 <= k < order.len() ==> order[k] < i,
                slot_from(next, rest, date as int, p as int) == slot_from(next, rest, date as int, 0),
            decreases order.len() - p,
        {
            proof {
                assert(next[rest[p as int]] == dates[order[p as int] as int]);
            }
            p += 1;
        }
        proof {
            if p < order.len() {
                assert(next[rest[p as int]] == dates[order[p as int] as int]);
            }
            assert(slot_from(next, rest, date as int, 0) == p);
            assert(falling(next) == rest.insert(p as int, i as int));
        }
        order.insert(p, i);
        i += 1;
    }
    assert(ranks.take(i as int) =~= ranks);
    order
}

} // verus!
