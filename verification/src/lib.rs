use vstd::prelude::*;

pub mod order;
pub mod post;
pub mod properties;
pub mod repo;
pub mod tag;

pub use order::OrderBy;
pub use post::NewPost;
pub use post::NewPostModel;
pub use post::Post;
pub use post::PostModel;
pub use post::PostType;
pub use post::PostView;
pub use post::PostViewModel;
pub use repo::latest_five_cut;
pub use repo::PostRepository;
pub use repo::RepoError;
pub use repo::LIMIT;
pub use tag::Tag;

verus! {

} // verus!
