//! Tasks that wait for others.

use vstd::prelude::*;

verus! {

/// All that a task needs is done.
pub open spec fn all_done<T>(needs: Seq<T>, done: Seq<T>) -> bool {
    forall|i: int| 0 <= i < needs.len() ==> done.contains(#[trigger] needs[i])
}

/// The last task that was done is one that was waited for, and nothing else is missing.
pub open spec fn unlocked_by_last<T>(needs: Seq<T>, done: Seq<T>) -> bool {
    &&& done.len() > 0
    &&& needs.contains(done.last())
    &&& all_done(needs, done)
}

/// A task is unlocked once: whatever the order in which tasks get done, there is one moment
/// at which all that it needs is done for the first time.
pub proof fn lemma_unlocked_once<T>(needs: Seq<T>, order: Seq<T>)
    requires
        order.no_duplicates(),
        needs.len() > 0,
        all_done(needs, order),
    ensures
        exists|k: int|
            1 <= k <= order.len() && unlocked_by_last(needs, #[trigger] order.take(k)),
        forall|j: int, k: int|
            1 <= j <= order.len() && 1 <= k <= order.len() && unlocked_by_last(
                needs,
                #[trigger] order.take(j),
            ) && unlocked_by_last(needs, #[trigger] order.take(k)) ==> j == k,
{
    let last = last_needed(needs, order);
    lemma_last_needed(needs, order);
    let k = last + 1;
    assert(order.take(k).last() == order[last]);
    assert forall|i: int| 0 <= i < needs.len() implies order.take(k).contains(
        #[trigger] needs[i],
    ) by {
        let at = order.index_of(needs[i]);
        assert(order.contains(needs[i]));
        assert(order[at] == needs[i]);
        assert(at <= last);
        assert(order.take(k)[at] == needs[i]);
    }
    assert(unlocked_by_last(needs, order.take(k)));
    assert forall|j: int|
        1 <= j <= order.len() && unlocked_by_last(needs, #[trigger] order.take(j)) implies j
        == k by {
        let done = order.take(j);
        assert(done.last() == order[j - 1]);
        assert(needs.contains(order[j - 1]));
        assert(j - 1 <= last);
        let n = needs.index_of(order[last]);
        assert(needs[n] == order[last]);
        assert(done.contains(needs[n]));
        let at = done.index_of(needs[n]);
        assert(order[at] == order[last]);
    }
}

/// The place of the last task in an order that is needed.
spec fn last_needed<T>(needs: Seq<T>, order: Seq<T>) -> int
    decreases order.len(),
{
    if order.len() == 0 {
        -1
    } else if needs.contains(order.last()) {
        order.len() - 1
    } else {
        last_needed(needs, order.drop_last())
    }
}

proof fn lemma_last_needed<T>(needs: Seq<T>, order: Seq<T>)
    requires
        needs.len() > 0,
        all_done(needs, order),
    ensures
        0 <= last_needed(needs, order) < order.len(),
        needs.contains(order[last_needed(needs, order)]),
        forall|i: int|
            0 <= i < order.len() && needs.contains(#[trigger] order[i]) ==> i <= last_needed(
                needs,
                order,
            ),
    decreases order.len(),
{
    assert(order.contains(needs[0]));
    if !needs.contains(order.last()) {
        let rest = order.drop_last();
        assert forall|i: int| 0 <= i < needs.len() implies rest.contains(#[trigger] needs[i]) by {
            let at = order.index_of(needs[i]);
            assert(order.contains(needs[i]));
            assert(order[at] == needs[i]);
            assert(needs.contains(needs[i]));
            assert(rest[at] == needs[i]);
        }
        lemma_last_needed(needs, rest);
        assert forall|i: int| 0 <= i < order.len() && needs.contains(#[trigger] order[i]) implies i
            <= last_needed(needs, order) by {
            assert(rest[i] == order[i]);
        }
    }
}

/// A task is in two lists that follow each other exactly if it is in one of them.
pub proof fn lemma_in_either<T>(a: Seq<T>, b: Seq<T>, task: T)
    ensures
        (a + b).contains(task) == (a.contains(task) || b.contains(task)),
{
    let all = a + b;
    if a.contains(task) {
        let i = a.index_of(task);
        assert(all[i] == task);
    }
    if b.contains(task) {
        let i = b.index_of(task);
        assert(all[a.len() + i] == task);
    }
    if all.contains(task) {
        let i = all.index_of(task);
        if i < a.len() {
            assert(a[i] == task);
        } else {
            assert(b[i - a.len()] == task);
        }
    }
}

/// The ranks of the tasks grow along a list, and all lie from `lo` up to `hi`.
pub open spec fn ranks_grow<T>(list: Seq<T>, rank: spec_fn(T) -> int, lo: int, hi: int) -> bool {
    &&& forall|i: int| 0 <= i < list.len() ==> lo <= rank(#[trigger] list[i]) < hi
    &&& forall|i: int, j: int|
        0 <= i < j < list.len() ==> rank(#[trigger] list[i]) < rank(#[trigger] list[j])
}

/// Ranks grow along two lists that follow each other if those of the second are higher.
pub proof fn lemma_ranks_grow<T>(
    a: Seq<T>,
    b: Seq<T>,
    rank: spec_fn(T) -> int,
    lo: int,
    mid: int,
    hi: int,
)
    requires
        lo <= mid <= hi,
        ranks_grow(a, rank, lo, mid),
        ranks_grow(b, rank, mid, hi),
    ensures
        ranks_grow(a + b, rank, lo, hi),
{
    let all = a + b;
    assert forall|i: int| 0 <= i < all.len() implies lo <= rank(#[trigger] all[i]) < hi by {
        if i < a.len() {
            assert(all[i] == a[i]);
        } else {
            assert(all[i] == b[i - a.len()]);
        }
    }
    assert forall|i: int, j: int| 0 <= i < j < all.len() implies rank(#[trigger] all[i]) < rank(
        #[trigger] all[j],
    ) by {
        if j < a.len() {
            assert(all[i] == a[i] && all[j] == a[j]);
        } else if i < a.len() {
            assert(all[i] == a[i] && all[j] == b[j - a.len()]);
        } else {
            assert(all[i] == b[i - a.len()] && all[j] == b[j - a.len()]);
        }
    }
}

/// A list along which ranks grow holds no task twice.
pub proof fn lemma_ranked_once<T>(list: Seq<T>, rank: spec_fn(T) -> int, lo: int, hi: int)
    requires
        ranks_grow(list, rank, lo, hi),
    ensures
        list.no_duplicates(),
{
    assert forall|i: int, j: int|
        0 <= i < list.len() && 0 <= j < list.len() && i != j implies list[i] != list[j] by {
        if i < j {
            assert(rank(list[i]) < rank(list[j]));
        } else {
            assert(rank(list[j]) < rank(list[i]));
        }
    }
}

} // verus!
