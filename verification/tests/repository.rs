use post_store::NewPost;
use post_store::Post;
use post_store::PostRepository;
use post_store::PostType;
use post_store::PostView;
use post_store::RepoError;
use post_store::Tag;
use post_store::LIMIT;

fn sample(title: &str, slug: &str, create_time: i64, post_type: PostType, published: bool) -> NewPost {
    NewPost {
        title: title.to_string(),
        subtitle: format!("{} subtitle", title),
        raw_content: format!("{} raw", title),
        rendered_content: format!("{} rendered", title),
        create_time,
        modify_time: create_time,
        post_type,
        hit_time: 0,
        published,
        slug_url: slug.to_string(),
        enable_comment: true,
        tag: Tag::new(),
    }
}

fn insert_ok(repo: &mut PostRepository, np: &NewPost) -> i32 {
    NewPost::insert(np, repo).expect("the identifier space is not exhausted")
}

#[test]
fn insert_then_query_by_id_round_trips() {
    let mut repo = PostRepository::new();
    let np = sample("first", "first-post", 100, PostType::Post, true);
    let id = insert_ok(&mut repo, &np);
    assert_eq!(id, 1);
    let rows = repo.query_by_id(id);
    assert_eq!(rows.len(), 1);
    let row = &rows[0];
    assert_eq!(row.id, id);
    assert_eq!(row.title, np.title);
    assert_eq!(row.subtitle, np.subtitle);
    assert_eq!(row.raw_content, np.raw_content);
    assert_eq!(row.rendered_content, np.rendered_content);
    assert_eq!(row.create_time, np.create_time);
    assert_eq!(row.modify_time, np.modify_time);
    assert_eq!(row.post_type, np.post_type);
    assert_eq!(row.hit_time, np.hit_time);
    assert_eq!(row.published, np.published);
    assert_eq!(row.slug_url, np.slug_url);
    assert_eq!(row.enable_comment, np.enable_comment);
    assert_eq!(row.tag, np.tag);
}

#[test]
fn identifiers_are_assigned_in_sequence() {
    let mut repo = PostRepository::new();
    for expected in 1..4 {
        let np = sample("n", "n", expected as i64, PostType::Post, true);
        assert_eq!(insert_ok(&mut repo, &np), expected);
    }
}

#[test]
fn starting_at_resumes_an_identifier_sequence() {
    let mut repo = PostRepository::starting_at(7);
    let np = sample("seventh", "seventh", 1, PostType::Post, true);
    assert_eq!(insert_ok(&mut repo, &np), 7);
}

#[test]
fn insert_fails_when_identifiers_run_out() {
    let mut repo = PostRepository::starting_at(i32::MAX);
    let np = sample("late", "late", 1, PostType::Post, true);
    assert_eq!(NewPost::insert(&np, &mut repo), Err(RepoError::IdExhausted));
    assert_eq!(repo.query_all().len(), 0);
}

#[test]
fn query_by_id_of_absent_row_is_empty() {
    let mut repo = PostRepository::new();
    insert_ok(&mut repo, &sample("one", "one", 1, PostType::Post, true));
    assert!(repo.query_by_id(99).is_empty());
}

#[test]
fn query_all_orders_by_identifier_descending() {
    let mut repo = PostRepository::new();
    insert_ok(&mut repo, &sample("a", "a", 300, PostType::Post, true));
    insert_ok(&mut repo, &sample("b", "b", 100, PostType::About, false));
    insert_ok(&mut repo, &sample("c", "c", 200, PostType::Friend, true));
    let rows = repo.query_all();
    let ids: Vec<i32> = rows.iter().map(|p| p.id).collect();
    assert_eq!(ids, vec![3, 2, 1]);
}

#[test]
fn query_all_published_post_filters_and_orders_by_creation_time() {
    let mut repo = PostRepository::new();
    insert_ok(&mut repo, &sample("old post", "old", 100, PostType::Post, true));
    insert_ok(&mut repo, &sample("about", "about", 500, PostType::About, true));
    insert_ok(&mut repo, &sample("draft", "draft", 400, PostType::Post, false));
    insert_ok(&mut repo, &sample("new post", "new", 300, PostType::Post, true));
    let rows = repo.query_all_published_post();
    let titles: Vec<&str> = rows.iter().map(|p| p.title.as_str()).collect();
    assert_eq!(titles, vec!["new post", "old post"]);
}

#[test]
fn equal_creation_times_order_by_identifier_descending() {
    let mut repo = PostRepository::new();
    insert_ok(&mut repo, &sample("first", "first", 100, PostType::Post, true));
    insert_ok(&mut repo, &sample("second", "second", 100, PostType::Post, true));
    let rows = repo.query_all_published_post();
    let ids: Vec<i32> = rows.iter().map(|p| p.id).collect();
    assert_eq!(ids, vec![2, 1]);
}

#[test]
fn query_latest_about_and_friend_pick_their_categories() {
    let mut repo = PostRepository::new();
    insert_ok(&mut repo, &sample("about me", "about", 100, PostType::About, true));
    insert_ok(&mut repo, &sample("a post", "post", 200, PostType::Post, true));
    insert_ok(&mut repo, &sample("friends", "friends", 300, PostType::Friend, true));
    insert_ok(&mut repo, &sample("hidden about", "h", 400, PostType::About, false));
    let about = repo.query_latest_about();
    assert_eq!(about.len(), 1);
    assert_eq!(about[0].title, "about me");
    let friend = repo.query_latest_friend();
    assert_eq!(friend.len(), 1);
    assert_eq!(friend[0].title, "friends");
}

#[test]
fn latest_five_reports_no_more_at_five_posts() {
    let mut repo = PostRepository::new();
    for k in 0..5 {
        insert_ok(&mut repo, &sample("p", "p", k as i64, PostType::Post, true));
    }
    let (rows, more) = repo.query_latest_five_post();
    assert_eq!(rows.len(), 5);
    assert!(!more);
}

#[test]
fn latest_five_reports_more_at_six_posts() {
    let mut repo = PostRepository::new();
    for k in 0..6 {
        insert_ok(&mut repo, &sample("p", "p", k as i64, PostType::Post, true));
    }
    let (rows, more) = repo.query_latest_five_post();
    assert_eq!(rows.len(), 5);
    assert!(more);
    let times: Vec<i64> = rows.iter().map(|p| p.create_time).collect();
    assert_eq!(times, vec![5, 4, 3, 2, 1]);
}

#[test]
fn latest_five_returns_fewer_when_fewer_exist() {
    let mut repo = PostRepository::new();
    insert_ok(&mut repo, &sample("only", "only", 1, PostType::Post, true));
    insert_ok(&mut repo, &sample("draft", "draft", 2, PostType::Post, false));
    let (rows, more) = repo.query_latest_five_post();
    assert_eq!(rows.len(), 1);
    assert!(!more);
}

#[test]
fn pagination_windows_are_contiguous_and_cover_the_published_order() {
    let mut repo = PostRepository::new();
    for k in 0..12 {
        insert_ok(&mut repo, &sample("p", "p", (100 + k) as i64, PostType::Post, true));
    }
    let full = repo.query_all_published_post();
    let mut concatenated: Vec<Post> = Vec::new();
    for page in 0..3 {
        concatenated.extend(repo.pagination_query(page));
    }
    assert_eq!(concatenated, full);
    assert_eq!(repo.pagination_query(0).len(), 5);
    assert_eq!(repo.pagination_query(1).len(), 5);
    assert_eq!(repo.pagination_query(2).len(), 2);
    assert!(repo.pagination_query(3).is_empty());
    assert!(repo.pagination_query(1000).is_empty());
}

#[test]
fn limit_is_five() {
    assert_eq!(LIMIT, 5);
}

#[test]
fn increase_hit_time_changes_only_the_hit_counter() {
    let mut repo = PostRepository::new();
    let np = sample("counted", "counted", 50, PostType::Post, true);
    let id = insert_ok(&mut repo, &np);
    let other = insert_ok(&mut repo, &sample("other", "other", 60, PostType::Post, true));
    assert_eq!(repo.increase_hit_time(id, 41), Ok(()));
    let rows = repo.query_by_id(id);
    assert_eq!(rows.len(), 1);
    assert_eq!(rows[0].hit_time, 41);
    assert_eq!(rows[0].title, np.title);
    assert_eq!(rows[0].create_time, np.create_time);
    assert_eq!(rows[0].slug_url, np.slug_url);
    let untouched = repo.query_by_id(other);
    assert_eq!(untouched[0].hit_time, 0);
}

#[test]
fn increase_hit_time_of_absent_row_is_not_found() {
    let mut repo = PostRepository::new();
    assert_eq!(repo.increase_hit_time(5, 1), Err(RepoError::NotFound));
}

#[test]
fn update_replaces_the_whole_row() {
    let mut repo = PostRepository::new();
    let id = insert_ok(&mut repo, &sample("before", "before", 10, PostType::Post, true));
    insert_ok(&mut repo, &sample("bystander", "bystander", 20, PostType::Post, true));
    let mut tag = Tag::new();
    tag.insert("lang".to_string(), "en".to_string());
    let replacement = Post {
        id,
        title: "after".to_string(),
        subtitle: "after subtitle".to_string(),
        raw_content: "after raw".to_string(),
        rendered_content: "after rendered".to_string(),
        create_time: 11,
        modify_time: 12,
        post_type: PostType::About,
        hit_time: 9,
        published: false,
        slug_url: "after".to_string(),
        enable_comment: false,
        tag,
    };
    assert_eq!(repo.update(&replacement), Ok(()));
    let rows = repo.query_by_id(id);
    assert_eq!(rows.len(), 1);
    assert_eq!(rows[0], replacement);
    let bystander = repo.query_by_id(2);
    assert_eq!(bystander[0].title, "bystander");
}

#[test]
fn update_of_absent_row_is_not_found() {
    let mut repo = PostRepository::new();
    let template = sample("nobody", "nobody", 1, PostType::Post, true);
    let row = Post {
        id: 3,
        title: template.title,
        subtitle: template.subtitle,
        raw_content: template.raw_content,
        rendered_content: template.rendered_content,
        create_time: template.create_time,
        modify_time: template.modify_time,
        post_type: template.post_type,
        hit_time: template.hit_time,
        published: template.published,
        slug_url: template.slug_url,
        enable_comment: template.enable_comment,
        tag: template.tag,
    };
    assert_eq!(repo.update(&row), Err(RepoError::NotFound));
}

#[test]
fn delete_then_query_by_id_is_empty() {
    let mut repo = PostRepository::new();
    let id = insert_ok(&mut repo, &sample("doomed", "doomed", 1, PostType::Post, true));
    let keeper = insert_ok(&mut repo, &sample("keeper", "keeper", 2, PostType::Post, true));
    assert_eq!(repo.delete_with_id(id), Ok(()));
    assert!(repo.query_by_id(id).is_empty());
    assert_eq!(repo.query_by_id(keeper).len(), 1);
}

#[test]
fn delete_of_absent_row_is_not_found() {
    let mut repo = PostRepository::new();
    assert_eq!(repo.delete_with_id(4), Err(RepoError::NotFound));
}

#[test]
fn query_by_slug_url_matches_exactly() {
    let mut repo = PostRepository::new();
    insert_ok(&mut repo, &sample("a", "shared-slug", 1, PostType::Post, true));
    insert_ok(&mut repo, &sample("b", "other-slug", 2, PostType::Post, true));
    insert_ok(&mut repo, &sample("c", "shared-slug", 3, PostType::Post, false));
    let rows = repo.query_by_slug_url("shared-slug");
    assert_eq!(rows.len(), 2);
    assert_eq!(rows[0].title, "a");
    assert_eq!(rows[1].title, "c");
    assert!(repo.query_by_slug_url("missing").is_empty());
}

#[test]
fn ten_hottest_posts_rank_by_hit_counter_regardless_of_published() {
    let mut repo = PostRepository::new();
    for k in 0..12 {
        let published = k % 2 == 0;
        let id = insert_ok(&mut repo, &sample("p", "p", k as i64, PostType::Post, published));
        repo.increase_hit_time(id, (k * 10) as i32).unwrap();
    }
    let about = insert_ok(&mut repo, &sample("about", "about", 1, PostType::About, true));
    repo.increase_hit_time(about, 1000).unwrap();
    let rows = repo.query_ten_hottest_posts();
    assert_eq!(rows.len(), 10);
    let hits: Vec<i32> = rows.iter().map(|p| p.hit_time).collect();
    assert_eq!(hits, vec![110, 100, 90, 80, 70, 60, 50, 40, 30, 20]);
    assert!(rows.iter().all(|p| p.post_type == PostType::Post));
}

#[test]
fn query_by_tag_matches_structural_supersets_only() {
    let mut repo = PostRepository::new();
    let mut en_rust = sample("en rust", "en-rust", 10, PostType::Post, true);
    en_rust.tag.insert("lang".to_string(), "en".to_string());
    en_rust.tag.insert("topic".to_string(), "rust".to_string());
    insert_ok(&mut repo, &en_rust);
    let mut fr = sample("fr", "fr", 20, PostType::Post, true);
    fr.tag.insert("lang".to_string(), "fr".to_string());
    insert_ok(&mut repo, &fr);
    let mut hidden = sample("hidden", "hidden", 30, PostType::Post, false);
    hidden.tag.insert("lang".to_string(), "en".to_string());
    insert_ok(&mut repo, &hidden);

    let mut query = Tag::new();
    query.insert("lang".to_string(), "en".to_string());
    let rows = repo.query_by_tag(&query);
    assert_eq!(rows.len(), 1);
    assert_eq!(rows[0].title, "en rust");

    let empty_query = Tag::new();
    let all_published = repo.query_by_tag(&empty_query);
    assert_eq!(all_published.len(), 2);

    let mut narrow = Tag::new();
    narrow.insert("lang".to_string(), "en".to_string());
    narrow.insert("topic".to_string(), "go".to_string());
    assert!(repo.query_by_tag(&narrow).is_empty());
}

#[test]
fn post_type_codes_round_trip() {
    assert_eq!(PostType::About.code(), 1);
    assert_eq!(PostType::Post.code(), 2);
    assert_eq!(PostType::Friend.code(), 3);
    assert_eq!(PostType::from_code(1), Some(PostType::About));
    assert_eq!(PostType::from_code(2), Some(PostType::Post));
    assert_eq!(PostType::from_code(3), Some(PostType::Friend));
    assert_eq!(PostType::from_code(0), None);
    assert_eq!(PostType::from_code(4), None);
}

#[test]
fn post_view_projects_the_row() {
    let mut tag = Tag::new();
    tag.insert("lang".to_string(), "en".to_string());
    let post = Post {
        id: 5,
        title: "title".to_string(),
        subtitle: "subtitle".to_string(),
        raw_content: "raw".to_string(),
        rendered_content: "rendered".to_string(),
        create_time: 123,
        modify_time: 456,
        post_type: PostType::Post,
        hit_time: 7,
        published: true,
        slug_url: "slug".to_string(),
        enable_comment: false,
        tag,
    };
    let view = PostView::model_convert_to_postview(&post);
    assert_eq!(view.id, 5);
    assert_eq!(view.title, "title");
    assert_eq!(view.subtitle, "subtitle");
    assert_eq!(view.create_time, 123);
    assert_eq!(view.post_type, PostType::Post);
    assert_eq!(view.hit_time, 7);
    assert!(view.published);
    assert_eq!(view.slug_url, "slug");
    assert!(!view.enable_comment);
    assert_eq!(view.tag, post.tag);
}

#[test]
fn with_current_time_stamps_both_timestamps_alike() {
    let np = NewPost::with_current_time(
        "t".to_string(),
        "s".to_string(),
        "r".to_string(),
        "h".to_string(),
        PostType::Post,
        true,
        "slug".to_string(),
        true,
        Tag::new(),
    );
    assert_eq!(np.create_time, np.modify_time);
    assert_eq!(np.hit_time, 0);
    assert_eq!(np.title, "t");
    assert!(np.create_time > 1_600_000_000);
}

#[test]
fn latest_five_cut_keeps_a_page_and_flags_the_sixth() {
    assert_eq!(post_store::latest_five_cut(0), (0, false));
    assert_eq!(post_store::latest_five_cut(5), (5, false));
    assert_eq!(post_store::latest_five_cut(6), (5, true));
}
