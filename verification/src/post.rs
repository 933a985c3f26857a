use vstd::prelude::*;

use crate::tag::Tag;

verus! {

/// The closed set of content categories that share the post table.
#[derive(Clone, Copy, Debug, PartialEq, Eq, Structural)]
pub enum PostType {
    About,
    Post,
    Friend,
}

impl PostType {
    /// The small-integer encoding used at the storage boundary.
    pub open spec fn code_spec(self) -> i32 {
        match self {
            PostType::About => 1,
            PostType::Post => 2,
            PostType::Friend => 3,
        }
    }

    /// Encode the category as its storage integer.
    pub fn code(self) -> (r: i32)
        ensures
            r == self.code_spec(),
    {
        match self {
            PostType::About => 1,
            PostType::Post => 2,
            PostType::Friend => 3,
        }
    }

    /// Decode a storage integer; anything outside the closed set is rejected.
    pub fn from_code(code: i32) -> (r: Option<PostType>)
        ensures
            r is Some <==> (code == 1 || code == 2 || code == 3),
            r is Some ==> r->0.code_spec() == code,
    {
        if code == 1 {
            Some(PostType::About)
        } else if code == 2 {
            Some(PostType::Post)
        } else if code == 3 {
            Some(PostType::Friend)
        } else {
            None
        }
    }
}

/// A persisted post row.
///
/// Timestamps are kept as seconds, and the tag payload as a flat string map;
/// the identifier is assigned by the repository and is stable once assigned.
#[derive(Debug, PartialEq)]
pub struct Post {
    pub id: i32,
    pub title: String,
    pub subtitle: String,
    pub raw_content: String,
    pub rendered_content: String,
    pub create_time: i64,
    pub modify_time: i64,
    pub post_type: PostType,
    pub hit_time: i32,
    pub published: bool,
    pub slug_url: String,
    pub enable_comment: bool,
    pub tag: Tag,
}

/// The mathematical reading of a post row.
#[verifier::ext_equal]
pub ghost struct PostModel {
    pub id: int,
    pub title: Seq<char>,
    pub subtitle: Seq<char>,
    pub raw_content: Seq<char>,
    pub rendered_content: Seq<char>,
    pub create_time: int,
    pub modify_time: int,
    pub post_type: PostType,
    pub hit_time: int,
    pub published: bool,
    pub slug_url: Seq<char>,
    pub enable_comment: bool,
    pub tag: Map<Seq<char>, Seq<char>>,
}

impl View for Post {
    type V = PostModel;

    open spec fn view(&self) -> PostModel {
        PostModel {
            id: self.id as int,
            title: self.title@,
            subtitle: self.subtitle@,
            raw_content: self.raw_content@,
            rendered_content: self.rendered_content@,
            create_time: self.create_time as int,
            modify_time: self.modify_time as int,
            post_type: self.post_type,
            hit_time: self.hit_time as int,
            published: self.published,
            slug_url: self.slug_url@,
            enable_comment: self.enable_comment,
            tag: self.tag@,
        }
    }
}

impl Clone for Post {
    /// A clone reads the same.
    fn clone(&self) -> (r: Self)
        ensures
            r@ == self@,
    {
        Post {
            id: self.id,
            title: self.title.clone(),
            subtitle: self.subtitle.clone(),
            raw_content: self.raw_content.clone(),
            rendered_content: self.rendered_content.clone(),
            create_time: self.create_time,
            modify_time: self.modify_time,
            post_type: self.post_type,
            hit_time: self.hit_time,
            published: self.published,
            slug_url: self.slug_url.clone(),
            enable_comment: self.enable_comment,
            tag: self.tag.clone(),
        }
    }
}

/// The reading of a sequence of rows.
pub open spec fn models(s: Seq<Post>) -> Seq<PostModel> {
    s.map_values(|p: Post| p@)
}

/// An insertable post: a `Post` without the identifier, which the
/// repository assigns.
#[derive(Debug, PartialEq)]
pub struct NewPost {
    pub title: String,
    pub subtitle: String,
    pub raw_content: String,
    pub rendered_content: String,
    pub create_time: i64,
    pub modify_time: i64,
    pub post_type: PostType,
    pub hit_time: i32,
    pub published: bool,
    pub slug_url: String,
    pub enable_comment: bool,
    pub tag: Tag,
}

/// The mathematical reading of an insertable post.
#[verifier::ext_equal]
pub ghost struct NewPostModel {
    pub title: Seq<char>,
    pub subtitle: Seq<char>,
    pub raw_content: Seq<char>,
    pub rendered_content: Seq<char>,
    pub create_time: int,
    pub modify_time: int,
    pub post_type: PostType,
    pub hit_time: int,
    pub published: bool,
    pub slug_url: Seq<char>,
    pub enable_comment: bool,
    pub tag: Map<Seq<char>, Seq<char>>,
}

impl View for NewPost {
    type V = NewPostModel;

    open spec fn view(&self) -> NewPostModel {
        NewPostModel {
            title: self.title@,
            subtitle: self.subtitle@,
            raw_content: self.raw_content@,
            rendered_content: self.rendered_content@,
            create_time: self.create_time as int,
            modify_time: self.modify_time as int,
            post_type: self.post_type,
            hit_time: self.hit_time as int,
            published: self.published,
            slug_url: self.slug_url@,
            enable_comment: self.enable_comment,
            tag: self.tag@,
        }
    }
}

/// The row that inserting `np` under the identifier `id` creates.
pub open spec fn assigned(np: NewPostModel, id: int) -> PostModel {
    PostModel {
        id: id,
        title: np.title,
        subtitle: np.subtitle,
        raw_content: np.raw_content,
        rendered_content: np.rendered_content,
        create_time: np.create_time,
        modify_time: np.modify_time,
        post_type: np.post_type,
        hit_time: np.hit_time,
        published: np.published,
        slug_url: np.slug_url,
        enable_comment: np.enable_comment,
        tag: np.tag,
    }
}

/// Relies on `std::time::SystemTime::now` for the current wall-clock time,
/// read as seconds since the Unix epoch, negative when the clock stands
/// before it; the result depends on the clock, so nothing is promised of
/// it. Both cases of the fallible reading are converted, so the call
/// cannot panic.
#[verifier::external_body]
fn now_seconds() -> i64 {
    match std::time::SystemTime::now().duration_since(std::time::UNIX_EPOCH) {
        Ok(since) => i64::try_from(since.as_secs()).unwrap_or(i64::MAX),
        Err(before) => i64::try_from(before.duration().as_secs()).map_or(i64::MIN, |s| -s),
    }
}

impl NewPost {
    /// An insertable post stamped with the current time: the creation and
    /// modification times are both set to now, and the hit counter to zero.
    pub fn with_current_time(
        title: String,
        subtitle: String,
        raw_content: String,
        rendered_content: String,
        post_type: PostType,
        published: bool,
        slug_url: String,
        enable_comment: bool,
        tag: Tag,
    ) -> (r: NewPost)
        ensures
            r@.title == title@,
            r@.subtitle == subtitle@,
            r@.raw_content == raw_content@,
            r@.rendered_content == rendered_content@,
            r@.create_time == r@.modify_time,
            r@.post_type == post_type,
            r@.hit_time == 0,
            r@.published == published,
            r@.slug_url == slug_url@,
            r@.enable_comment == enable_comment,
            r@.tag == tag@,
    {
        let now = now_seconds();
        NewPost {
            title,
            subtitle,
            raw_content,
            rendered_content,
            create_time: now,
            modify_time: now,
            post_type,
            hit_time: 0,
            published,
            slug_url,
            enable_comment,
            tag,
        }
    }
}

/// A read-only projection of a post for list views, without the content
/// bodies or the modification time.
#[derive(Debug, PartialEq)]
pub struct PostView {
    pub id: i32,
    pub title: String,
    pub subtitle: String,
    pub create_time: i64,
    pub post_type: PostType,
    pub hit_time: i32,
    pub published: bool,
    pub slug_url: String,
    pub enable_comment: bool,
    pub tag: Tag,
}

/// The mathematical reading of a list-view projection.
#[verifier::ext_equal]
pub ghost struct PostViewModel {
    pub id: int,
    pub title: Seq<char>,
    pub subtitle: Seq<char>,
    pub create_time: int,
    pub post_type: PostType,
    pub hit_time: int,
    pub published: bool,
    pub slug_url: Seq<char>,
    pub enable_comment: bool,
    pub tag: Map<Seq<char>, Seq<char>>,
}

impl View for PostView {
    type V = PostViewModel;

    open spec fn view(&self) -> PostViewModel {
        PostViewModel {
            id: self.id as int,
            title: self.title@,
            subtitle: self.subtitle@,
            create_time: self.create_time as int,
            post_type: self.post_type,
            hit_time: self.hit_time as int,
            published: self.published,
            slug_url: self.slug_url@,
            enable_comment: self.enable_comment,
            tag: self.tag@,
        }
    }
}

/// The projection of a row that a list view shows.
pub open spec fn projected(p: PostModel) -> PostViewModel {
    PostViewModel {
        id: p.id,
        title: p.title,
        subtitle: p.subtitle,
        create_time: p.create_time,
        post_type: p.post_type,
        hit_time: p.hit_time,
        published: p.published,
        slug_url: p.slug_url,
        enable_comment: p.enable_comment,
        tag: p.tag,
    }
}

impl PostView {
    /// Project a row for a list view.
    pub fn model_convert_to_postview(post: &Post) -> (r: PostView)
        ensures
            r@ == projected(post@),
    {
        PostView {
            id: post.id,
            title: post.title.clone(),
            subtitle: post.subtitle.clone(),
            create_time: post.create_time,
            post_type: post.post_type,
            hit_time: post.hit_time,
            published: post.published,
            slug_url: post.slug_url.clone(),
            enable_comment: post.enable_comment,
            tag: post.tag.clone(),
        }
    }
}

} // verus!
