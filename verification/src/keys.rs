//! Strictly ascending vectors of numeric ids, the backbone of every index.

use vstd::prelude::*;
use vstd::seq_lib::*;

verus! {

/// The ids are strictly ascending, so none occurs twice.
pub open spec fn ascending(ids: Seq<usize>) -> bool {
    forall|i: int, j: int| 0 <= i < j < ids.len() ==> ids[i] < ids[j]
}

/// `pos` splits `ids` into the ids below `id` and the ids that are at least `id`.
pub open spec fn splits_at(ids: Seq<usize>, id: usize, pos: int) -> bool {
    &&& 0 <= pos <= ids.len()
    &&& forall|i: int| 0 <= i < pos ==> ids[i] < id
    &&& forall|i: int| pos <= i < ids.len() ==> ids[i] >= id
}

/// The position of the first id that is not below `id`, by binary search.
pub(crate) fn lower_bound(ids: &Vec<usize>, id: usize) -> (pos: usize)
    requires
        ascending(ids@),
    ensures
        splits_at(ids@, id, pos as int),
{
    let mut lo: usize = 0;
    let mut hi: usize = ids.len();
    while lo < hi
        invariant
            lo <= hi <= ids.len(),
            ascending(ids@),
            forall|i: int| 0 <= i < lo ==> ids@[i] < id,
            forall|i: int| hi <= i < ids.len() ==> ids@[i] >= id,
        decreases hi - lo,
    {
        let mid: usize = lo + (hi - lo) / 2;
        if ids[mid] < id {
            lo = mid + 1;
        } else {
            hi = mid;
        }
    }
    lo
}

/// The position at which `id` stands in `ids`, if it stands there at all.
pub(crate) fn position(ids: &Vec<usize>, id: usize) -> (found: Option<usize>)
    requires
        ascending(ids@),
    ensures
        match found {
            Some(pos) => pos < ids.len() && ids@[pos as int] == id,
            None => !ids@.contains(id),
        },
{
    let pos = lower_bound(ids, id);
    if pos < ids.len() && ids[pos] == id {
        Some(pos)
    } else {
        None
    }
}

/// Putting an absent id in at the position where `ids` splits keeps them ascending.
pub proof fn lemma_insert_ascending(ids: Seq<usize>, id: usize, pos: int)
    requires
        ascending(ids),
        splits_at(ids, id, pos),
        !ids.contains(id),
    ensures
        ascending(ids.insert(pos, id)),
{
    let out = ids.insert(pos, id);
    assert forall|i: int, j: int| 0 <= i < j < out.len() implies out[i] < out[j] by {
        if j == pos {
        } else if i == pos {
            assert(ids[j - 1] >= id);
            assert(ids.contains(ids[j - 1]));
        } else if i < pos && j < pos {
        } else if i < pos {
            assert(out[j] == ids[j - 1]);
        } else {
            assert(out[i] == ids[i - 1]);
            assert(out[j] == ids[j - 1]);
        }
    }
}

/// After an insertion a sequence holds what it held before, and the new item.
pub proof fn lemma_insert_contains<A>(items: Seq<A>, pos: int, item: A)
    requires
        0 <= pos <= items.len(),
    ensures
        forall|x: A|
            #![trigger items.insert(pos, item).contains(x)]
            #![trigger items.contains(x)]
            items.insert(pos, item).contains(x) <==> items.contains(x) || x == item,
{
    let grown = items.insert(pos, item);
    assert forall|x: A| grown.contains(x) <==> items.contains(x) || x == item by {
        if grown.contains(x) {
            let k = choose|k: int| 0 <= k < grown.len() && grown[k] == x;
            if k < pos {
                assert(items[k] == x);
            } else if k > pos {
                assert(items[k - 1] == x);
            }
        }
        if items.contains(x) {
            let k = choose|k: int| 0 <= k < items.len() && items[k] == x;
            if k < pos {
                assert(grown[k] == x);
            } else {
                assert(grown[k + 1] == x);
            }
        }
        if x == item {
            assert(grown[pos] == x);
        }
    }
}

/// After a push a sequence holds what it held before, and the new item.
pub proof fn lemma_push_contains<A>(items: Seq<A>, item: A)
    ensures
        forall|x: A|
            #![trigger items.push(item).contains(x)]
            #![trigger items.contains(x)]
            items.push(item).contains(x) <==> items.contains(x) || x == item,
{
    assert(items.push(item) =~= items.insert(items.len() as int, item));
    lemma_insert_contains(items, items.len() as int, item);
}

/// Pushing an absent item onto a sequence without repeats leaves it without repeats.
pub proof fn lemma_push_no_duplicates<A>(items: Seq<A>, item: A)
    requires
        items.no_duplicates(),
        !items.contains(item),
    ensures
        items.push(item).no_duplicates(),
{
    let grown = items.push(item);
    assert forall|a: int, b: int|
        0 <= a < grown.len() && 0 <= b < grown.len() && a != b implies grown[a] != grown[b] by {
        if a < items.len() && b < items.len() {
            assert(items[a] != items[b]);
        } else if a < items.len() {
            assert(items.contains(items[a]));
        } else {
            assert(items.contains(items[b]));
        }
    }
}

/// Where `seen` followed by `id` is ascending, `id` is above every id of `seen`:
/// ascending `ids` with the members of `seen` split at their end.
pub proof fn lemma_greatest_goes_last(ids: Seq<usize>, seen: Seq<usize>, id: usize, pos: int)
    requires
        ascending(seen.push(id)),
        forall|x: usize| ids.contains(x) <==> seen.contains(x),
        splits_at(ids, id, pos),
    ensures
        pos == ids.len(),
        ascending(seen),
{
    let next = seen.push(id);
    assert forall|a: int, b: int| 0 <= a < b < seen.len() implies seen[a] < seen[b] by {
        assert(next[a] < next[b]);
    }
    if pos < ids.len() {
        assert(ids.contains(ids[pos]));
        let m = choose|m: int| 0 <= m < seen.len() && seen[m] == ids[pos];
        assert(next[m] < next[seen.len() as int]);
    }
}

/// Items whose ids ascend still ascend by id after some of them are left out.
pub proof fn lemma_filter_ascending<A>(
    items: Seq<A>,
    id_of: spec_fn(A) -> usize,
    keep: spec_fn(A) -> bool,
)
    requires
        ascending(items.map_values(id_of)),
    ensures
        ascending(items.filter(keep).map_values(id_of)),
    decreases items.len(),
{
    reveal(Seq::filter);
    if items.len() > 0 {
        let front = items.drop_last();
        let last = items.last();
        let ids = items.map_values(id_of);
        assert(ascending(front.map_values(id_of))) by {
            assert forall|i: int, j: int| 0 <= i < j < front.len() implies front.map_values(
                id_of,
            )[i] < front.map_values(id_of)[j] by {
                assert(ids[i] < ids[j]);
            }
        }
        lemma_filter_ascending(front, id_of, keep);
        if keep(last) {
            let kept = front.filter(keep);
            let out = kept.push(last).map_values(id_of);
            assert forall|i: int, j: int| 0 <= i < j < out.len() implies out[i] < out[j] by {
                if j < kept.len() {
                    assert(kept.map_values(id_of)[i] < kept.map_values(id_of)[j]);
                } else {
                    assert(kept.contains(kept[i]));
                    front.lemma_filter_contains_rev(keep, kept[i]);
                    let k = choose|k: int| 0 <= k < front.len() && front[k] == kept[i];
                    assert(ids[k] < ids[items.len() - 1]);
                }
            }
        }
    }
}

/// In ascending ids, an id stands at one position at most.
pub proof fn lemma_ascending_unique(ids: Seq<usize>, i: int, j: int)
    requires
        ascending(ids),
        0 <= i < ids.len(),
        0 <= j < ids.len(),
        ids[i] == ids[j],
    ensures
        i == j,
{
    if i < j {
        assert(ids[i] < ids[j]);
    } else if j < i {
        assert(ids[j] < ids[i]);
    }
}

} // verus!
