use vstd::prelude::*;

use crate::order::lemma_ordered_by_all;
use crate::order::lemma_ordered_by_len;
use crate::order::lemma_ordered_by_sorted;
use crate::order::ordered_by;
use crate::order::ordered_copy;
use crate::order::is_ordered;
use crate::order::OrderBy;
use crate::post::assigned;
use crate::post::models;
use crate::post::NewPost;
use crate::post::Post;
use crate::post::PostModel;
use crate::post::PostType;
use crate::tag::Tag;

verus! {

/// Why an operation on the repository failed.
#[derive(Clone, Copy, Debug, PartialEq, Eq, Structural)]
pub enum RepoError {
    /// No row carries the given identifier.
    NotFound,
    /// The identifier space is exhausted.
    IdExhausted,
}

/// The number of rows on one page.
pub const LIMIT: i64 = 5;

/// The over-fetch decision behind the latest-five query: of `fetched` rows
/// fetched (one more than a page), how many to keep and whether more rows
/// exist beyond the page.
pub fn latest_five_cut(fetched: usize) -> (r: (usize, bool))
    ensures
        r.0 as int == if fetched < 5 {
            fetched as int
        } else {
            5
        },
        r.1 <==> fetched > 5,
{
    if fetched > 5 {
        (5, true)
    } else {
        (fetched, false)
    }
}

/// Rows that carry the identifier `id`.
pub open spec fn with_id(id: int) -> spec_fn(PostModel) -> bool {
    |p: PostModel| p.id == id
}

/// Rows that do not carry the identifier `id`.
pub open spec fn without_id(id: int) -> spec_fn(PostModel) -> bool {
    |p: PostModel| p.id != id
}

/// Rows that carry the slug `slug`.
pub open spec fn with_slug(slug: Seq<char>) -> spec_fn(PostModel) -> bool {
    |p: PostModel| p.slug_url == slug
}

/// Rows of the category `t`, published or not.
pub open spec fn of_type(t: PostType) -> spec_fn(PostModel) -> bool {
    |p: PostModel| p.post_type == t
}

/// Published rows of the category `t`.
pub open spec fn published_of_type(t: PostType) -> spec_fn(PostModel) -> bool {
    |p: PostModel| p.published && p.post_type == t
}

/// Published rows whose tag payload is a structural superset of `frag`.
pub open spec fn published_with_tag(frag: Map<Seq<char>, Seq<char>>) -> spec_fn(
    PostModel,
) -> bool {
    |p: PostModel| p.published && frag.submap_of(p.tag)
}

/// The published rows of the category `t`, newest first.
pub open spec fn published_ordered(s: Seq<PostModel>, t: PostType) -> Seq<PostModel> {
    ordered_by(OrderBy::CreateTime, s.filter(published_of_type(t)))
}

/// Filtering one more row keeps or appends that row.
pub proof fn lemma_filter_push<A>(s: Seq<A>, pred: spec_fn(A) -> bool, x: A)
    ensures
        s.push(x).filter(pred) == if pred(x) {
            s.filter(pred).push(x)
        } else {
            s.filter(pred)
        },
{
    reveal(Seq::filter);
    assert(s.push(x).drop_last() =~= s);
}

/// A sequence in which exactly one row has a property filters to that row.
pub proof fn lemma_filter_unique<A>(s: Seq<A>, pred: spec_fn(A) -> bool, i: int)
    requires
        0 <= i < s.len(),
        pred(s[i]),
        forall|j: int| 0 <= j < s.len() && j != i ==> !pred(#[trigger] s[j]),
    ensures
        s.filter(pred) == seq![s[i]],
    decreases s.len(),
{
    reveal(Seq::filter);
    let d = s.drop_last();
    if i == s.len() - 1 {
        assert(forall|j: int| 0 <= j < d.len() ==> !pred(#[trigger] d[j])) by {
            assert(forall|j: int| 0 <= j < d.len() ==> d[j] == s[j]);
        }
        d.lemma_all_neg_filter_empty(pred);
        assert(d.filter(pred).push(s.last()) =~= seq![s[i]]);
    } else {
        assert(forall|j: int| 0 <= j < d.len() && j != i ==> !pred(#[trigger] d[j])) by {
            assert(forall|j: int| 0 <= j < d.len() ==> d[j] == s[j]);
        }
        lemma_filter_unique(d, pred, i);
        assert(s[i] == d[i]);
    }
}

/// A relation that held of every pair of rows, in order, still holds of
/// every pair after filtering.
pub proof fn lemma_filter_pairwise<A>(
    s: Seq<A>,
    pred: spec_fn(A) -> bool,
    r: spec_fn(A, A) -> bool,
)
    requires
        forall|i: int, j: int| 0 <= i < j < s.len() ==> r(#[trigger] s[i], #[trigger] s[j]),
    ensures
        forall|i: int, j: int|
            0 <= i < j < s.filter(pred).len() ==> r(
                #[trigger] s.filter(pred)[i],
                #[trigger] s.filter(pred)[j],
            ),
    decreases s.len(),
{
    reveal(Seq::filter);
    if s.len() != 0 {
        let d = s.drop_last();
        let f = s.filter(pred);
        let df = d.filter(pred);
        assert(forall|i: int, j: int|
            0 <= i < j < d.len() ==> r(#[trigger] d[i], #[trigger] d[j])) by {
            assert(forall|i: int| 0 <= i < d.len() ==> d[i] == s[i]);
        }
        lemma_filter_pairwise(d, pred, r);
        if pred(s.last()) {
            assert forall|i: int, j: int| 0 <= i < j < f.len() implies r(f[i], f[j]) by {
                if j == f.len() - 1 {
                    assert(f[i] == df[i]);
                    assert(df.contains(df[i]));
                    d.lemma_filter_contains_rev(pred, df[i]);
                    let k = choose|k: int| 0 <= k < d.len() && d[k] == df[i];
                    assert(d[k] == s[k]);
                    assert(r(s[k], s[s.len() - 1]));
                } else {
                    assert(f[i] == df[i] && f[j] == df[j]);
                }
            }
        }
    }
}

/// Every row kept by a filter is a row of the unfiltered sequence.
pub proof fn lemma_filter_element_of<A>(s: Seq<A>, pred: spec_fn(A) -> bool, i: int)
    requires
        0 <= i < s.filter(pred).len(),
    ensures
        exists|k: int| 0 <= k < s.len() && s[k] == s.filter(pred)[i],
{
    let f = s.filter(pred);
    assert(f.contains(f[i]));
    s.lemma_filter_contains_rev(pred, f[i]);
}

/// An in-memory post table with the access operations of the persistence
/// boundary: rows are queried by identifier, slug, category, tag payload or
/// recency, and changed by whole-row update, hit-counter update, insertion
/// and deletion.
///
/// The view of the repository is the sequence of its rows, in the order in
/// which they were inserted, which is also ascending identifier order.
pub struct PostRepository {
    posts: Vec<Post>,
    next_id: i32,
}

impl View for PostRepository {
    type V = Seq<PostModel>;

    closed spec fn view(&self) -> Seq<PostModel> {
        models(self.posts@)
    }
}

/// Which rows a scan of the table keeps.
#[derive(Clone, Copy)]
enum RowPick<'a> {
    OfType(PostType),
    PublishedOfType(PostType),
    WithId(i32),
    WithoutId(i32),
    WithSlug(&'a str),
    PublishedWithTag(&'a Tag),
}

impl<'a> RowPick<'a> {
    spec fn pred(self) -> spec_fn(PostModel) -> bool {
        match self {
            RowPick::OfType(t) => of_type(t),
            RowPick::PublishedOfType(t) => published_of_type(t),
            RowPick::WithId(id) => with_id(id as int),
            RowPick::WithoutId(id) => without_id(id as int),
            RowPick::WithSlug(s) => with_slug(s@),
            RowPick::PublishedWithTag(t) => published_with_tag(t@),
        }
    }

    fn test(self, p: &Post) -> (r: bool)
        ensures
            r == self.pred()(p@),
    {
        match self {
            RowPick::OfType(t) => p.post_type == t,
            RowPick::PublishedOfType(t) => p.published && p.post_type == t,
            RowPick::WithId(id) => p.id == id,
            RowPick::WithoutId(id) => p.id != id,
            RowPick::WithSlug(s) => p.slug_url.as_str().eq(s),
            RowPick::PublishedWithTag(t) => p.published && p.tag.contains_fragment(t),
        }
    }
}

impl PostRepository {
    /// The identifier that the next inserted row will carry.
    pub closed spec fn spec_next_id(&self) -> int {
        self.next_id as int
    }

    /// Identifiers are at least one, pairwise distinct, and below the next
    /// identifier to be assigned.
    pub closed spec fn wf(&self) -> bool {
        &&& 1 <= self.next_id
        &&& forall|i: int, j: int|
            0 <= i < j < self@.len() ==> (#[trigger] self@[i]).id != (#[trigger] self@[j]).id
        &&& forall|i: int| 0 <= i < self@.len() ==> 1 <= (#[trigger] self@[i]).id < self.next_id as int
    }

    /// A well-formed repository carries pairwise-distinct identifiers, each
    /// at least one and below the next identifier to be assigned.
    pub proof fn lemma_wf_ids_distinct(&self)
        requires
            self.wf(),
        ensures
            forall|i: int, j: int|
                0 <= i < j < self@.len() ==> (#[trigger] self@[i]).id != (#[trigger] self@[j]).id,
            forall|i: int| 0 <= i < self@.len() ==> 1 <= (#[trigger] self@[i]).id,
            1 <= self.spec_next_id(),
            forall|i: int| 0 <= i < self@.len() ==> (#[trigger] self@[i]).id < self.spec_next_id(),
    {
    }

    /// An empty repository whose first row will carry the identifier one.
    pub fn new() -> (r: PostRepository)
        ensures
            r@ == Seq::<PostModel>::empty(),
            r.wf(),
            r.spec_next_id() == 1,
    {
        let r = PostRepository { posts: Vec::new(), next_id: 1 };
        proof {
            assert(r@ =~= Seq::<PostModel>::empty());
        }
        r
    }

    /// An empty repository that assigns identifiers from `first_id` on, as
    /// a table resumes an existing identifier sequence.
    pub fn starting_at(first_id: i32) -> (r: PostRepository)
        requires
            1 <= first_id,
        ensures
            r@ == Seq::<PostModel>::empty(),
            r.wf(),
            r.spec_next_id() == first_id,
    {
        let r = PostRepository { posts: Vec::new(), next_id: first_id };
        proof {
            assert(r@ =~= Seq::<PostModel>::empty());
        }
        r
    }

    /// The rows that a scan with `pick` keeps, in table order.
    fn rows_where(&self, pick: RowPick) -> (r: Vec<Post>)
        ensures
            models(r@) == self@.filter(pick.pred()),
    {
        let mut out: Vec<Post> = Vec::new();
        let mut i: usize = 0;
        proof {
            assert(models(out@) =~= self@.take(0).filter(pick.pred()));
        }
        while i < self.posts.len()
            invariant
                i <= self.posts@.len(),
                self@.len() == self.posts@.len(),
                models(out@) == self@.take(i as int).filter(pick.pred()),
            decreases self.posts@.len() - i,
        {
            proof {
                assert(self@.take(i + 1) =~= self@.take(i as int).push(self@[i as int]));
                lemma_filter_push(self@.take(i as int), pick.pred(), self@[i as int]);
            }
            let p = &self.posts[i];
            let ghost before = models(out@);
            if pick.test(p) {
                out.push(p.clone());
                proof {
                    assert(models(out@) =~= before.push(p@));
                }
            }
            i = i + 1;
        }
        proof {
            assert(self@.take(self@.len() as int) =~= self@);
        }
        out
    }

    /// The index of the row carrying `id`, if there is one.
    fn index_of_id(&self, id: i32) -> (r: Option<usize>)
        ensures
            match r {
                Some(i) => i < self@.len() && self@[i as int].id == id as int,
                None => forall|j: int| 0 <= j < self@.len() ==> (#[trigger] self@[j]).id != id as int,
            },
    {
        let mut i: usize = 0;
        while i < self.posts.len()
            invariant
                i <= self.posts@.len(),
                self@.len() == self.posts@.len(),
                forall|j: int| 0 <= j < i ==> (#[trigger] self@[j]).id != id as int,
            decreases self.posts@.len() - i,
        {
            if self.posts[i].id == id {
                return Some(i);
            }
            i = i + 1;
        }
        None
    }

    /// All rows, by identifier descending.
    pub fn query_all(&self) -> (r: Vec<Post>)
        ensures
            models(r@) == ordered_by(OrderBy::Id, self@),
            is_ordered(OrderBy::Id, models(r@)),
    {
        let r = ordered_copy(OrderBy::Id, &self.posts);
        proof {
            lemma_ordered_by_sorted(OrderBy::Id, self@);
        }
        r
    }

    /// The published rows of the category `t`, newest first.
    fn published_of(&self, t: PostType) -> (r: Vec<Post>)
        ensures
            models(r@) == published_ordered(self@, t),
    {
        let picked = self.rows_where(RowPick::PublishedOfType(t));
        ordered_copy(OrderBy::CreateTime, &picked)
    }

    /// All published posts, newest first.
    pub fn query_all_published_post(&self) -> (r: Vec<Post>)
        ensures
            models(r@) == published_ordered(self@, PostType::Post),
    {
        self.published_of(PostType::Post)
    }

    /// All published about pages, newest first.
    pub fn query_latest_about(&self) -> (r: Vec<Post>)
        ensures
            models(r@) == published_ordered(self@, PostType::About),
    {
        self.published_of(PostType::About)
    }

    /// All published friend pages, newest first.
    pub fn query_latest_friend(&self) -> (r: Vec<Post>)
        ensures
            models(r@) == published_ordered(self@, PostType::Friend),
    {
        self.published_of(PostType::Friend)
    }

    /// The five newest published posts, and whether more exist: the flag is
    /// true exactly when more than five published posts are in the table.
    pub fn query_latest_five_post(&self) -> (r: (Vec<Post>, bool))
        ensures
            ({
                let full = published_ordered(self@, PostType::Post);
                models(r.0@) == full.take(
                    if full.len() < 5 {
                        full.len() as int
                    } else {
                        5
                    },
                )
            }),
            r.0@.len() <= 5,
            r.1 <==> self@.filter(published_of_type(PostType::Post)).len() > 5,
    {
        let mut full = self.published_of(PostType::Post);
        proof {
            lemma_ordered_by_len(
                OrderBy::CreateTime,
                self@.filter(published_of_type(PostType::Post)),
            );
        }
        let ghost whole = models(full@);
        let (keep, more) = latest_five_cut(full.len());
        full.truncate(keep);
        proof {
            assert(models(full@) =~= whole.take(keep as int));
        }
        (full, more)
    }

    /// The page of published posts at the zero-based page index `offset`:
    /// five rows per page, newest first; a page past the last row is empty.
    pub fn pagination_query(&self, offset: i64) -> (r: Vec<Post>)
        requires
            0 <= offset,
        ensures
            ({
                let full = published_ordered(self@, PostType::Post);
                let lo = if 5 * offset < full.len() {
                    5 * (offset as int)
                } else {
                    full.len() as int
                };
                let hi = if 5 * offset + 5 < full.len() {
                    5 * (offset as int) + 5
                } else {
                    full.len() as int
                };
                models(r@) == full.subrange(lo, hi)
            }),
            r@.len() <= 5,
    {
        let full = self.published_of(PostType::Post);
        let ghost whole = models(full@);
        let len = full.len();
        let start128: u128 = (offset as u128) * 5;
        if start128 >= (len as u128) {
            let out: Vec<Post> = Vec::new();
            proof {
                assert(models(out@) =~= whole.subrange(whole.len() as int, whole.len() as int));
            }
            return out;
        }
        let start = start128 as usize;
        let end = if len - start < 5 {
            len
        } else {
            start + 5
        };
        let mut out: Vec<Post> = Vec::new();
        let mut k = start;
        proof {
            assert(models(out@) =~= whole.subrange(start as int, start as int));
        }
        while k < end
            invariant
                start <= k <= end <= full@.len(),
                whole == models(full@),
                models(out@) == whole.subrange(start as int, k as int),
            decreases end - k,
        {
            let ghost before = models(out@);
            out.push(full[k].clone());
            proof {
                assert(models(out@) =~= before.push(whole[k as int]));
                assert(whole.subrange(start as int, k + 1) =~= whole.subrange(
                    start as int,
                    k as int,
                ).push(whole[k as int]));
            }
            k = k + 1;
        }
        out
    }

    /// The published rows whose tag payload contains `query_tag` as a
    /// structural subset, newest first.
    pub fn query_by_tag(&self, query_tag: &Tag) -> (r: Vec<Post>)
        ensures
            models(r@) == ordered_by(
                OrderBy::CreateTime,
                self@.filter(published_with_tag(query_tag@)),
            ),
            forall|i: int|
                0 <= i < models(r@).len() ==> (#[trigger] models(r@)[i]).published
                    && query_tag@.submap_of(models(r@)[i].tag),
    {
        let picked = self.rows_where(RowPick::PublishedWithTag(query_tag));
        let r = ordered_copy(OrderBy::CreateTime, &picked);
        proof {
            let pred = published_with_tag(query_tag@);
            let f = self@.filter(pred);
            assert(forall|i: int| 0 <= i < f.len() ==> pred(#[trigger] f[i])) by {
                assert forall|i: int| 0 <= i < f.len() implies pred(f[i]) by {
                    self@.lemma_filter_pred(pred, i);
                }
            }
            lemma_ordered_by_all(OrderBy::CreateTime, f, pred);
        }
        r
    }

    /// The zero-or-one-row result of a query by identifier.
    pub fn query_by_id(&self, id: i32) -> (r: Vec<Post>)
        ensures
            models(r@) == self@.filter(with_id(id as int)),
            self.wf() ==> models(r@).len() <= 1,
    {
        let r = self.rows_where(RowPick::WithId(id));
        proof {
            if self.wf() {
                let pred = with_id(id as int);
                if exists|i: int| 0 <= i < self@.len() && pred(#[trigger] self@[i]) {
                    let i = choose|i: int| 0 <= i < self@.len() && pred(#[trigger] self@[i]);
                    lemma_filter_unique(self@, pred, i);
                } else {
                    self@.lemma_all_neg_filter_empty(pred);
                }
            }
        }
        r
    }

    /// The zero-or-more-row result of a query by slug.
    pub fn query_by_slug_url(&self, slug_url: &str) -> (r: Vec<Post>)
        ensures
            models(r@) == self@.filter(with_slug(slug_url@)),
    {
        self.rows_where(RowPick::WithSlug(slug_url))
    }

    /// The ten posts with the highest hit counters, published or not,
    /// by hit counter descending.
    pub fn query_ten_hottest_posts(&self) -> (r: Vec<Post>)
        ensures
            ({
                let full = ordered_by(OrderBy::HitTime, self@.filter(of_type(PostType::Post)));
                models(r@) == full.take(
                    if full.len() < 10 {
                        full.len() as int
                    } else {
                        10
                    },
                )
            }),
            r@.len() <= 10,
    {
        let picked = self.rows_where(RowPick::OfType(PostType::Post));
        let mut full = ordered_copy(OrderBy::HitTime, &picked);
        proof {
            lemma_ordered_by_len(OrderBy::HitTime, self@.filter(of_type(PostType::Post)));
        }
        let ghost whole = models(full@);
        if full.len() > 10 {
            full.truncate(10);
            proof {
                assert(models(full@) =~= whole.take(10));
            }
        } else {
            proof {
                assert(whole.take(whole.len() as int) =~= whole);
            }
        }
        full
    }

    /// Delete the row carrying `id`; the other rows keep their order.
    pub fn delete_with_id(&mut self, id: i32) -> (r: Result<(), RepoError>)
        requires
            old(self).wf(),
        ensures
            final(self).wf(),
            final(self).spec_next_id() == old(self).spec_next_id(),
            final(self)@ == old(self)@.filter(without_id(id as int)),
            r is Ok <==> exists|i: int|
                0 <= i < old(self)@.len() && (#[trigger] old(self)@[i]).id == id as int,
            r is Err ==> r == Err::<(), RepoError>(RepoError::NotFound),
    {
        let found = self.index_of_id(id);
        let kept = self.rows_where(RowPick::WithoutId(id));
        self.posts = kept;
        proof {
            let pred = without_id(id as int);
            let s = old(self)@;
            lemma_filter_pairwise(s, pred, |a: PostModel, b: PostModel| a.id != b.id);
            let f = s.filter(pred);
            assert forall|i: int| 0 <= i < f.len() implies 1 <= (#[trigger] f[i]).id
                < self.next_id as int by {
                lemma_filter_element_of(s, pred, i);
                let k = choose|k: int| 0 <= k < s.len() && s[k] == f[i];
                assert(1 <= s[k].id < self.next_id as int);
            }
        }
        match found {
            Some(_) => Ok(()),
            None => Err(RepoError::NotFound),
        }
    }

    /// Replace the whole row that carries `post`'s identifier with `post`;
    /// every other row is unchanged.
    pub fn update(&mut self, post: &Post) -> (r: Result<(), RepoError>)
        requires
            old(self).wf(),
        ensures
            final(self).wf(),
            final(self).spec_next_id() == old(self).spec_next_id(),
            final(self)@.len() == old(self)@.len(),
            forall|i: int|
                0 <= i < old(self)@.len() ==> (#[trigger] final(self)@[i]) == (
                if old(self)@[i].id == post@.id {
                    post@
                } else {
                    old(self)@[i]
                }),
            r is Ok <==> exists|i: int|
                0 <= i < old(self)@.len() && (#[trigger] old(self)@[i]).id == post@.id,
            r is Err ==> r == Err::<(), RepoError>(RepoError::NotFound),
    {
        let mut out: Vec<Post> = Vec::new();
        let mut found = false;
        let mut i: usize = 0;
        while i < self.posts.len()
            invariant
                i <= self.posts@.len(),
                self@.len() == self.posts@.len(),
                self@ == old(self)@,
                out@.len() == i,
                forall|j: int|
                    0 <= j < i ==> (#[trigger] models(out@)[j]) == (
                    if self@[j].id == post@.id {
                        post@
                    } else {
                        self@[j]
                    }),
                found <==> exists|j: int| 0 <= j < i && (#[trigger] self@[j]).id == post@.id,
            decreases self.posts@.len() - i,
        {
            let ghost before = models(out@);
            if self.posts[i].id == post.id {
                out.push(post.clone());
                found = true;
                proof {
                    assert((#[trigger] self@[i as int]).id == post@.id);
                    assert(models(out@) =~= before.push(post@));
                }
            } else {
                out.push(self.posts[i].clone());
                proof {
                    assert(models(out@) =~= before.push(self@[i as int]));
                }
            }
            i = i + 1;
        }
        self.posts = out;
        if found {
            Ok(())
        } else {
            Err(RepoError::NotFound)
        }
    }

    /// Set the hit counter of the row carrying `id` to `hit_time`; every
    /// other field and every other row is unchanged.
    pub fn increase_hit_time(&mut self, id: i32, hit_time: i32) -> (r: Result<(), RepoError>)
        requires
            old(self).wf(),
        ensures
            final(self).wf(),
            final(self).spec_next_id() == old(self).spec_next_id(),
            final(self)@.len() == old(self)@.len(),
            forall|i: int|
                0 <= i < old(self)@.len() ==> (#[trigger] final(self)@[i]) == (
                if old(self)@[i].id == id as int {
                    PostModel { hit_time: hit_time as int, ..old(self)@[i] }
                } else {
                    old(self)@[i]
                }),
            r is Ok <==> exists|i: int|
                0 <= i < old(self)@.len() && (#[trigger] old(self)@[i]).id == id as int,
            r is Err ==> r == Err::<(), RepoError>(RepoError::NotFound),
    {
        let mut out: Vec<Post> = Vec::new();
        let mut found = false;
        let mut i: usize = 0;
        while i < self.posts.len()
            invariant
                i <= self.posts@.len(),
                self@.len() == self.posts@.len(),
                self@ == old(self)@,
                out@.len() == i,
                forall|j: int|
                    0 <= j < i ==> (#[trigger] models(out@)[j]) == (
                    if self@[j].id == id as int {
                        PostModel { hit_time: hit_time as int, ..self@[j] }
                    } else {
                        self@[j]
                    }),
                found <==> exists|j: int| 0 <= j < i && (#[trigger] self@[j]).id == id as int,
            decreases self.posts@.len() - i,
        {
            let ghost before = models(out@);
            if self.posts[i].id == id {
                let mut row = self.posts[i].clone();
                row.hit_time = hit_time;
                proof {
                    assert(row@ =~= PostModel { hit_time: hit_time as int, ..self@[i as int] });
                }
                out.push(row);
                found = true;
                proof {
                    assert((#[trigger] self@[i as int]).id == id as int);
                    assert(models(out@) =~= before.push(
                        PostModel { hit_time: hit_time as int, ..self@[i as int] },
                    ));
                }
            } else {
                out.push(self.posts[i].clone());
                proof {
                    assert(models(out@) =~= before.push(self@[i as int]));
                }
            }
            i = i + 1;
        }
        self.posts = out;
        if found {
            Ok(())
        } else {
            Err(RepoError::NotFound)
        }
    }
}

impl NewPost {
    /// Insert one row; on success the repository assigns it the next
    /// identifier, which no present row carries, and appends it.
    pub fn insert(new_post: &NewPost, repo: &mut PostRepository) -> (r: Result<i32, RepoError>)
        requires
            old(repo).wf(),
        ensures
            final(repo).wf(),
            r is Ok <==> old(repo).spec_next_id() < i32::MAX as int,
            match r {
                Ok(id) => {
                    &&& id as int == old(repo).spec_next_id()
                    &&& final(repo)@ == old(repo)@.push(assigned(new_post@, id as int))
                    &&& final(repo).spec_next_id() == old(repo).spec_next_id() + 1
                    &&& forall|j: int|
                        0 <= j < old(repo)@.len() ==> (#[trigger] old(repo)@[j]).id != id as int
                },
                Err(e) => {
                    &&& e == RepoError::IdExhausted
                    &&& final(repo)@ == old(repo)@
                    &&& final(repo).spec_next_id() == old(repo).spec_next_id()
                },
            },
    {
        if repo.next_id == i32::MAX {
            return Err(RepoError::IdExhausted);
        }
        let id = repo.next_id;
        repo.next_id = repo.next_id + 1;
        let row = Post {
            id,
            title: new_post.title.clone(),
            subtitle: new_post.subtitle.clone(),
            raw_content: new_post.raw_content.clone(),
            rendered_content: new_post.rendered_content.clone(),
            create_time: new_post.create_time,
            modify_time: new_post.modify_time,
            post_type: new_post.post_type,
            hit_time: new_post.hit_time,
            published: new_post.published,
            slug_url: new_post.slug_url.clone(),
            enable_comment: new_post.enable_comment,
            tag: new_post.tag.clone(),
        };
        proof {
            assert(row@ =~= assigned(new_post@, id as int));
        }
        let ghost before = repo@;
        repo.posts.push(row);
        proof {
            assert(repo@ =~= before.push(assigned(new_post@, id as int)));
        }
        Ok(id)
    }
}

} // verus!
