use vstd::multiset::Multiset;
use vstd::prelude::*;

use crate::post::models;
use crate::post::Post;
use crate::post::PostModel;

verus! {

/// The field by which a query orders its rows, always descending.
#[derive(Clone, Copy, Debug, PartialEq, Eq, Structural)]
pub enum OrderBy {
    Id,
    CreateTime,
    HitTime,
}

/// The value of the ordering field of a row.
pub open spec fn order_field(by: OrderBy, p: PostModel) -> int {
    match by {
        OrderBy::Id => p.id,
        OrderBy::CreateTime => p.create_time,
        OrderBy::HitTime => p.hit_time,
    }
}

/// Whether `a` may stand before `b` when rows are ordered by `by`
/// descending; rows whose ordering fields tie stand by identifier,
/// larger first.
pub open spec fn precedes(by: OrderBy, a: PostModel, b: PostModel) -> bool {
    ||| order_field(by, a) > order_field(by, b)
    ||| (order_field(by, a) == order_field(by, b) && a.id >= b.id)
}

/// Insert a row in front of the first row that it precedes.
pub open spec fn insert_ordered(by: OrderBy, p: PostModel, s: Seq<PostModel>) -> Seq<PostModel>
    decreases s.len(),
{
    if s.len() == 0 {
        seq![p]
    } else if precedes(by, p, s[0]) {
        seq![p] + s
    } else {
        seq![s[0]] + insert_ordered(by, p, s.drop_first())
    }
}

/// The rows of `s`, ordered by `by` descending.
pub open spec fn ordered_by(by: OrderBy, s: Seq<PostModel>) -> Seq<PostModel>
    decreases s.len(),
{
    if s.len() == 0 {
        s
    } else {
        insert_ordered(by, s[0], ordered_by(by, s.drop_first()))
    }
}

/// Whether `s` is ordered by `by` descending.
pub open spec fn is_ordered(by: OrderBy, s: Seq<PostModel>) -> bool {
    forall|i: int, j: int| 0 <= i < j < s.len() ==> precedes(by, s[i], s[j])
}

/// Inserting a row grows a sequence by one.
pub proof fn lemma_insert_ordered_len(by: OrderBy, p: PostModel, s: Seq<PostModel>)
    ensures
        insert_ordered(by, p, s).len() == s.len() + 1,
    decreases s.len(),
{
    if s.len() != 0 && !precedes(by, p, s[0]) {
        lemma_insert_ordered_len(by, p, s.drop_first());
    }
}

/// Ordering keeps the number of rows.
pub proof fn lemma_ordered_by_len(by: OrderBy, s: Seq<PostModel>)
    ensures
        ordered_by(by, s).len() == s.len(),
    decreases s.len(),
{
    if s.len() != 0 {
        lemma_ordered_by_len(by, s.drop_first());
        lemma_insert_ordered_len(by, s[0], ordered_by(by, s.drop_first()));
    }
}

/// A property held by the inserted row and by every row of the sequence is
/// held by every row after the insertion.
pub proof fn lemma_insert_ordered_all(
    by: OrderBy,
    p: PostModel,
    s: Seq<PostModel>,
    pred: spec_fn(PostModel) -> bool,
)
    requires
        pred(p),
        forall|i: int| 0 <= i < s.len() ==> pred(#[trigger] s[i]),
    ensures
        forall|i: int|
            0 <= i < insert_ordered(by, p, s).len() ==> pred(#[trigger] insert_ordered(by, p, s)[i]),
    decreases s.len(),
{
    let r = insert_ordered(by, p, s);
    if s.len() == 0 {
        assert(r[0] == p);
    } else if precedes(by, p, s[0]) {
        assert forall|i: int| 0 <= i < r.len() implies pred(r[i]) by {
            if i == 0 {
                assert(r[0] == p);
            } else {
                assert(r[i] == s[i - 1]);
            }
        }
    } else {
        let d = s.drop_first();
        assert(forall|i: int| 0 <= i < d.len() ==> pred(#[trigger] d[i])) by {
            assert(forall|i: int| 0 <= i < d.len() ==> d[i] == s[i + 1]);
        }
        lemma_insert_ordered_all(by, p, d, pred);
        let rd = insert_ordered(by, p, d);
        assert forall|i: int| 0 <= i < r.len() implies pred(r[i]) by {
            if i == 0 {
                assert(r[0] == s[0]);
            } else {
                assert(r[i] == rd[i - 1]);
            }
        }
    }
}

/// A property held by every row is held by every row of the ordered rows.
pub proof fn lemma_ordered_by_all(by: OrderBy, s: Seq<PostModel>, pred: spec_fn(PostModel) -> bool)
    requires
        forall|i: int| 0 <= i < s.len() ==> pred(#[trigger] s[i]),
    ensures
        forall|i: int| 0 <= i < ordered_by(by, s).len() ==> pred(#[trigger] ordered_by(by, s)[i]),
    decreases s.len(),
{
    if s.len() != 0 {
        assert(forall|i: int|
            0 <= i < s.drop_first().len() ==> pred(#[trigger] s.drop_first()[i]));
        lemma_ordered_by_all(by, s.drop_first(), pred);
        lemma_insert_ordered_all(by, s[0], ordered_by(by, s.drop_first()), pred);
    }
}

/// Inserting a row adds exactly that row to the rows.
pub proof fn lemma_insert_ordered_multiset(by: OrderBy, p: PostModel, s: Seq<PostModel>)
    ensures
        insert_ordered(by, p, s).to_multiset() == s.to_multiset().insert(p),
    decreases s.len(),
{
    broadcast use vstd::seq_lib::group_to_multiset_ensures;

    if s.len() == 0 {
        assert(seq![p] =~= Seq::<PostModel>::empty().push(p));
        assert(s.to_multiset() =~= Multiset::<PostModel>::empty());
        assert(insert_ordered(by, p, s).to_multiset() =~= s.to_multiset().insert(p));
    } else if precedes(by, p, s[0]) {
        vstd::seq_lib::lemma_multiset_commutative(seq![p], s);
        assert(seq![p] =~= Seq::<PostModel>::empty().push(p));
        assert(seq![p].to_multiset() =~= Multiset::<PostModel>::empty().insert(p));
        assert(insert_ordered(by, p, s).to_multiset() =~= s.to_multiset().insert(p));
    } else {
        let d = s.drop_first();
        lemma_insert_ordered_multiset(by, p, d);
        vstd::seq_lib::lemma_multiset_commutative(seq![s[0]], insert_ordered(by, p, d));
        assert(s =~= seq![s[0]] + d);
        vstd::seq_lib::lemma_multiset_commutative(seq![s[0]], d);
        assert(insert_ordered(by, p, s).to_multiset() =~= s.to_multiset().insert(p));
    }
}

/// Ordering the rows keeps exactly the rows.
pub proof fn lemma_ordered_by_multiset(by: OrderBy, s: Seq<PostModel>)
    ensures
        ordered_by(by, s).to_multiset() == s.to_multiset(),
    decreases s.len(),
{
    broadcast use vstd::seq_lib::group_to_multiset_ensures;

    if s.len() != 0 {
        let d = s.drop_first();
        lemma_ordered_by_multiset(by, d);
        lemma_insert_ordered_multiset(by, s[0], ordered_by(by, d));
        assert(s =~= seq![s[0]] + d);
        vstd::seq_lib::lemma_multiset_commutative(seq![s[0]], d);
        assert(seq![s[0]] =~= Seq::<PostModel>::empty().push(s[0]));
        assert(ordered_by(by, s).to_multiset() =~= s.to_multiset());
    }
}

/// Inserting into an ordered sequence keeps it ordered.
pub proof fn lemma_insert_ordered_sorted(by: OrderBy, p: PostModel, s: Seq<PostModel>)
    requires
        is_ordered(by, s),
    ensures
        is_ordered(by, insert_ordered(by, p, s)),
    decreases s.len(),
{
    let r = insert_ordered(by, p, s);
    if s.len() == 0 {
    } else if precedes(by, p, s[0]) {
        assert forall|i: int, j: int| 0 <= i < j < r.len() implies precedes(by, r[i], r[j]) by {
            assert(r[0] == p);
            if i == 0 {
                assert(r[j] == s[j - 1]);
                if j > 1 {
                    assert(precedes(by, s[0], s[j - 1]));
                }
            } else {
                assert(r[i] == s[i - 1] && r[j] == s[j - 1]);
            }
        }
    } else {
        let d = s.drop_first();
        assert(forall|i: int, j: int| 0 <= i < j < d.len() ==> precedes(by, d[i], d[j])) by {
            assert(forall|i: int| 0 <= i < d.len() ==> d[i] == s[i + 1]);
        }
        lemma_insert_ordered_sorted(by, p, d);
        let head_first = |x: PostModel| precedes(by, s[0], x);
        assert(forall|i: int| 0 <= i < d.len() ==> head_first(#[trigger] d[i])) by {
            assert(forall|i: int| 0 <= i < d.len() ==> d[i] == s[i + 1]);
        }
        assert(head_first(p));
        lemma_insert_ordered_all(by, p, d, head_first);
        lemma_insert_ordered_len(by, p, d);
        let rd = insert_ordered(by, p, d);
        assert forall|i: int, j: int| 0 <= i < j < r.len() implies precedes(by, r[i], r[j]) by {
            assert(r[0] == s[0]);
            if i == 0 {
                assert(r[j] == rd[j - 1]);
                assert(head_first(rd[j - 1]));
            } else {
                assert(r[i] == rd[i - 1] && r[j] == rd[j - 1]);
            }
        }
    }
}

/// The ordered rows are ordered.
pub proof fn lemma_ordered_by_sorted(by: OrderBy, s: Seq<PostModel>)
    ensures
        is_ordered(by, ordered_by(by, s)),
    decreases s.len(),
{
    if s.len() != 0 {
        lemma_ordered_by_sorted(by, s.drop_first());
        lemma_insert_ordered_sorted(by, s[0], ordered_by(by, s.drop_first()));
    }
}

/// Inserting a row in front of the first row that it precedes is an
/// insertion at that row's position.
proof fn lemma_insert_ordered_at(by: OrderBy, p: PostModel, s: Seq<PostModel>, j: int)
    requires
        0 <= j <= s.len(),
        forall|l: int| 0 <= l < j ==> !precedes(by, p, #[trigger] s[l]),
        j < s.len() ==> precedes(by, p, s[j]),
    ensures
        insert_ordered(by, p, s) == s.insert(j, p),
    decreases j,
{
    if j == 0 {
        if s.len() == 0 {
            assert(insert_ordered(by, p, s) =~= s.insert(0, p));
        } else {
            assert(seq![p] + s =~= s.insert(0, p));
        }
    } else {
        let d = s.drop_first();
        assert(forall|l: int| 0 <= l < j - 1 ==> !precedes(by, p, #[trigger] d[l])) by {
            assert(forall|l: int| 0 <= l < d.len() ==> d[l] == s[l + 1]);
        }
        lemma_insert_ordered_at(by, p, d, j - 1);
        assert(seq![s[0]] + d.insert(j - 1, p) =~= s.insert(j, p));
    }
}

/// Whether `a` may stand before `b` under `by`.
fn precedes_exec(by: OrderBy, a: &Post, b: &Post) -> (r: bool)
    ensures
        r == precedes(by, a@, b@),
{
    match by {
        OrderBy::Id => a.id >= b.id,
        OrderBy::CreateTime => a.create_time > b.create_time || (a.create_time == b.create_time
            && a.id >= b.id),
        OrderBy::HitTime => a.hit_time > b.hit_time || (a.hit_time == b.hit_time && a.id >= b.id),
    }
}

/// The position in front of the first row that `p` precedes.
fn insert_position(by: OrderBy, p: &Post, v: &Vec<Post>) -> (j: usize)
    ensures
        j <= v@.len(),
        forall|l: int| 0 <= l < j ==> !precedes(by, p@, #[trigger] v@[l]@),
        j < v@.len() ==> precedes(by, p@, v@[j as int]@),
{
    let mut j: usize = 0;
    while j < v.len()
        invariant
            j <= v@.len(),
            forall|l: int| 0 <= l < j ==> !precedes(by, p@, #[trigger] v@[l]@),
        decreases v@.len() - j,
    {
        if precedes_exec(by, p, &v[j]) {
            return j;
        }
        j = j + 1;
    }
    j
}

/// Insert a row into an ordered vector of rows.
fn insert_sorted_vec(by: OrderBy, p: Post, v: &mut Vec<Post>)
    ensures
        models(final(v)@) == insert_ordered(by, p@, models(old(v)@)),
{
    let j = insert_position(by, &p, v);
    proof {
        assert(forall|l: int| 0 <= l < j ==> !precedes(by, p@, #[trigger] models(v@)[l]));
        lemma_insert_ordered_at(by, p@, models(v@), j as int);
    }
    let ghost before = v@;
    v.insert(j, p);
    proof {
        assert(models(v@) =~= models(before).insert(j as int, p@));
    }
}

/// A copy of the rows, ordered by `by` descending.
pub fn ordered_copy(by: OrderBy, src: &Vec<Post>) -> (r: Vec<Post>)
    ensures
        models(r@) == ordered_by(by, models(src@)),
{
    let mut r: Vec<Post> = Vec::new();
    let mut i: usize = src.len();
    proof {
        assert(models(r@) =~= models(src@).skip(src@.len() as int));
    }
    while i > 0
        invariant
            i <= src@.len(),
            models(r@) == ordered_by(by, models(src@).skip(i as int)),
        decreases i,
    {
        i = i - 1;
        let p = src[i].clone();
        insert_sorted_vec(by, p, &mut r);
        proof {
            let m = models(src@);
            assert(m.skip(i as int).drop_first() =~= m.skip(i + 1));
            assert(m.skip(i as int)[0] == m[i as int]);
        }
    }
    proof {
        assert(models(src@).skip(0) =~= models(src@));
    }
    r
}

} // verus!
