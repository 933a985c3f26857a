use vstd::prelude::*;

use crate::post::PostModel;
use crate::repo::lemma_filter_unique;
use crate::repo::with_id;
use crate::repo::without_id;

verus! {

/// After a row whose identifier no earlier row carries is appended, a
/// query by that identifier returns exactly that row: inserting and then
/// querying by the returned identifier is a round trip.
pub proof fn inserted_row_round_trip(before: Seq<PostModel>, p: PostModel)
    requires
        forall|j: int| 0 <= j < before.len() ==> (#[trigger] before[j]).id != p.id,
    ensures
        before.push(p).filter(with_id(p.id)) == seq![p],
{
    let after = before.push(p);
    assert(after[after.len() - 1] == p);
    assert(forall|j: int| 0 <= j < after.len() - 1 ==> (#[trigger] after[j]) == before[j]);
    lemma_filter_unique(after, with_id(p.id), after.len() - 1);
}

/// One page of published posts: the rows from `5 * k` up to but not
/// including `5 * k + 5`, clipped to the row count.
pub open spec fn page_window(full: Seq<PostModel>, k: int) -> Seq<PostModel> {
    let lo = if 5 * k < full.len() {
        5 * k
    } else {
        full.len() as int
    };
    let hi = if 5 * k + 5 < full.len() {
        5 * k + 5
    } else {
        full.len() as int
    };
    full.subrange(lo, hi)
}

/// The first `k` pages, concatenated in order.
pub open spec fn first_windows(full: Seq<PostModel>, k: int) -> Seq<PostModel>
    decreases k,
{
    if k <= 0 {
        Seq::empty()
    } else {
        first_windows(full, k - 1) + page_window(full, k - 1)
    }
}

/// Pages are contiguous and disjoint: the first `k` pages, concatenated in
/// order, are exactly the first `5 * k` rows (clipped to the row count),
/// and once `5 * k` reaches the row count they are the whole sequence.
pub proof fn pagination_windows_cover(full: Seq<PostModel>, k: int)
    requires
        0 <= k,
    ensures
        first_windows(full, k) == full.take(
            if 5 * k < full.len() {
                5 * k
            } else {
                full.len() as int
            },
        ),
        5 * k >= full.len() ==> first_windows(full, k) == full,
    decreases k,
{
    if k == 0 {
        assert(first_windows(full, 0) =~= full.take(0));
    } else {
        pagination_windows_cover(full, k - 1);
        let prev = if 5 * (k - 1) < full.len() {
            5 * (k - 1)
        } else {
            full.len() as int
        };
        let cur = if 5 * k < full.len() {
            5 * k
        } else {
            full.len() as int
        };
        assert(full.take(prev) + page_window(full, k - 1) =~= full.take(cur));
        if 5 * k >= full.len() {
            assert(full.take(full.len() as int) =~= full);
        }
    }
}

/// After the hit counter of the row carrying `id` is set to `v`, a query
/// by `id` returns the one row with the new counter and every other field
/// as it was.
pub proof fn hit_update_round_trip(
    before: Seq<PostModel>,
    after: Seq<PostModel>,
    id: int,
    v: int,
    i: int,
)
    requires
        forall|a: int, b: int|
            0 <= a < b < before.len() ==> (#[trigger] before[a]).id != (#[trigger] before[b]).id,
        after.len() == before.len(),
        forall|j: int|
            0 <= j < before.len() ==> (#[trigger] after[j]) == (
            if before[j].id == id {
                PostModel { hit_time: v, ..before[j] }
            } else {
                before[j]
            }),
        0 <= i < before.len(),
        before[i].id == id,
    ensures
        after.filter(with_id(id)) == seq![PostModel { hit_time: v, ..before[i] }],
{
    assert(after[i] == PostModel { hit_time: v, ..before[i] });
    assert forall|j: int| 0 <= j < after.len() && j != i implies !with_id(id)(after[j]) by {
        if before[j].id == id {
            if j < i {
                assert(before[j].id != before[i].id);
            } else {
                assert(before[i].id != before[j].id);
            }
        }
    }
    lemma_filter_unique(after, with_id(id), i);
}

/// After the row carrying `id` is deleted, a query by `id` returns
/// nothing.
pub proof fn deleted_row_is_gone(before: Seq<PostModel>, id: int)
    ensures
        before.filter(without_id(id)).filter(with_id(id)) == Seq::<PostModel>::empty(),
{
    let kept = before.filter(without_id(id));
    assert forall|j: int| 0 <= j < kept.len() implies !with_id(id)(kept[j]) by {
        before.lemma_filter_pred(without_id(id), j);
    }
    kept.lemma_all_neg_filter_empty(with_id(id));
    assert(kept.filter(with_id(id)) =~= Seq::<PostModel>::empty());
}

} // verus!
