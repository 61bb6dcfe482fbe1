use blog_core::records::{
    CommentStatus, CreateCommentDto, CreateLinkDto, CreatePostDto, UpdateLinkDto, UpdatePostDto,
};
use blog_core::store::BlogStore;
use blog_core::AppError;

fn dto(title: &str, content: &str, tags: &[&str], published: bool) -> CreatePostDto {
    CreatePostDto {
        title: title.to_string(),
        content_md: content.to_string(),
        tags: tags.iter().map(|t| t.to_string()).collect(),
        published,
    }
}

fn comment(post_id: i32, nickname: &str) -> CreateCommentDto {
    CreateCommentDto {
        post_id,
        nickname: nickname.to_string(),
        email: "a@example.com".to_string(),
        content: "hello".to_string(),
    }
}

#[test]
fn test_create_post_end_to_end() {
    let mut store = BlogStore::new();
    let first = store
        .create_post(dto("My First Post!", "Some content.", &["Rust", "Web"], true), 1_000)
        .unwrap();
    assert_eq!(first.post.slug, "my-first-post");
    assert_eq!(first.post.title, "My First Post!");
    assert_eq!(first.tags.len(), 2);
    assert_eq!(first.tags[0].name, "Rust");
    assert_eq!(first.tags[0].slug, "rust");
    assert_eq!(first.tags[1].name, "Web");
    assert_eq!(first.tags[1].slug, "web");
    assert_eq!(store.post_tags.len(), 2);

    let second = store
        .create_post(dto("My First Post!", "Other content.", &["Rust"], true), 2_000)
        .unwrap();
    assert_eq!(second.post.slug, "my-first-post-1");
    assert_eq!(second.tags.len(), 1);
    assert_eq!(second.tags[0].id, first.tags[0].id);
    assert_eq!(store.tags.len(), 2);
}

#[test]
fn test_create_post_summary_and_flags() {
    let mut store = BlogStore::new();
    let p = store
        .create_post(dto("Draft", "line one\n\nline two\nline three\nline four", &[], false), 5)
        .unwrap();
    assert_eq!(p.post.summary, "line one line two line three");
    assert!(!p.post.published);
    assert_eq!(p.post.created_at, 5);
    assert_eq!(p.post.updated_at, 5);
    assert_eq!(p.tags.len(), 0);
}

#[test]
fn test_tag_names_trimmed_and_deduplicated() {
    let mut store = BlogStore::new();
    let p = store
        .create_post(dto("Post", "c", &[" Rust ", "", "Rust", "Web", "  "], true), 1)
        .unwrap();
    let names: Vec<&str> = p.tags.iter().map(|t| t.name.as_str()).collect();
    assert_eq!(names, vec!["Rust", "Web"]);
}

#[test]
fn test_reconcile_convergence() {
    let mut store = BlogStore::new();
    let p = store.create_post(dto("Post", "c", &["a", "b"], true), 1).unwrap();
    let post_id = p.post.id;
    let tag_a_id = p.tags[0].id;

    let updated = store
        .update_post(
            post_id,
            UpdatePostDto {
                title: None,
                content_md: None,
                tags: Some(vec!["b".to_string(), "c".to_string()]),
                published: None,
            },
            2,
        )
        .unwrap();
    let names: Vec<&str> = updated.tags.iter().map(|t| t.name.as_str()).collect();
    assert_eq!(names, vec!["b", "c"]);
    let assoc_tags: Vec<i32> = store
        .post_tags
        .iter()
        .filter(|pt| pt.post_id == post_id)
        .map(|pt| pt.tag_id)
        .collect();
    assert_eq!(assoc_tags.len(), 2);
    assert!(assoc_tags.contains(&updated.tags[0].id));
    assert!(assoc_tags.contains(&updated.tags[1].id));
    // tag "a" is never deleted by reconciliation
    assert!(store.tags.iter().any(|t| t.id == tag_a_id && t.name == "a"));
}

#[test]
fn test_tag_identity_stable_across_posts() {
    let mut store = BlogStore::new();
    let p1 = store.create_post(dto("One", "c", &["shared"], true), 1).unwrap();
    let p2 = store.create_post(dto("Two", "c", &["shared"], true), 2).unwrap();
    assert_eq!(p1.tags[0].id, p2.tags[0].id);
    assert_eq!(store.tags.len(), 1);
}

#[test]
fn test_create_post_rolls_back_on_tag_conflict() {
    let mut store = BlogStore::new();
    // the existing tag owns the slug the new tag name would derive
    store.create_tag("Alpha Beta", 1).unwrap();
    let before_posts = store.posts.len();
    let before_tags = store.tags.len();
    let r = store.create_post(dto("Unlucky", "c", &["Alpha-Beta"], true), 2);
    assert!(matches!(r, Err(AppError::Conflict(_))));
    assert_eq!(store.posts.len(), before_posts);
    assert_eq!(store.tags.len(), before_tags);
    assert!(store.get_post_by_slug("unlucky").is_err());
}

#[test]
fn test_update_post_fields() {
    let mut store = BlogStore::new();
    let p = store.create_post(dto("Hello", "old body", &["x"], false), 1).unwrap();
    let id = p.post.id;

    // title change re-derives the slug; the post's own slug is in the
    // snapshot, so the resolver suffixes
    let u = store
        .update_post(
            id,
            UpdatePostDto {
                title: Some("Hello!".to_string()),
                content_md: Some("new body".to_string()),
                tags: None,
                published: Some(true),
            },
            9,
        )
        .unwrap();
    assert_eq!(u.post.title, "Hello!");
    assert_eq!(u.post.slug, "hello-1");
    assert_eq!(u.post.summary, "new body");
    assert!(u.post.published);
    assert_eq!(u.post.created_at, 1);
    assert_eq!(u.post.updated_at, 9);
    // tags untouched and returned as stored
    assert_eq!(u.tags.len(), 1);
    assert_eq!(u.tags[0].name, "x");

    // same title again: no slug re-derivation
    let v = store
        .update_post(
            id,
            UpdatePostDto {
                title: Some("Hello!".to_string()),
                content_md: None,
                tags: None,
                published: None,
            },
            10,
        )
        .unwrap();
    assert_eq!(v.post.slug, "hello-1");

    let missing = store.update_post(
        999,
        UpdatePostDto { title: None, content_md: None, tags: None, published: None },
        11,
    );
    assert!(matches!(missing, Err(AppError::NotFound(_))));
}

#[test]
fn test_delete_post_cascades() {
    let mut store = BlogStore::new();
    let p = store.create_post(dto("Doomed", "c", &["t"], true), 1).unwrap();
    let id = p.post.id;
    store.create_comment(comment(id, "n"), 2).unwrap();
    assert_eq!(store.comments.len(), 1);
    assert_eq!(store.post_tags.len(), 1);

    store.delete_post(id).unwrap();
    assert!(store.posts.is_empty());
    assert!(store.post_tags.is_empty());
    assert!(store.comments.is_empty());
    // tags survive a post deletion
    assert_eq!(store.tags.len(), 1);
    assert!(matches!(store.delete_post(id), Err(AppError::NotFound(_))));
}

#[test]
fn test_comments_lifecycle() {
    let mut store = BlogStore::new();
    let unpublished = store.create_post(dto("Draft", "c", &[], false), 1).unwrap();
    let published = store.create_post(dto("Live", "c", &[], true), 2).unwrap();

    assert!(matches!(
        store.create_comment(comment(999, "n"), 3),
        Err(AppError::NotFound(_))
    ));
    assert!(matches!(
        store.create_comment(comment(unpublished.post.id, "n"), 3),
        Err(AppError::ValidationError(_))
    ));

    let c = store.create_comment(comment(published.post.id, "n"), 3).unwrap();
    assert_eq!(c.status, CommentStatus::Pending);
    assert_eq!(c.created_at, 3);

    assert!(matches!(
        store.update_comment_status(c.id, "weird"),
        Err(AppError::ValidationError(_))
    ));
    assert!(matches!(
        store.update_comment_status(999, "approved"),
        Err(AppError::NotFound(_))
    ));
    let approved = store.update_comment_status(c.id, "approved").unwrap();
    assert_eq!(approved.status, CommentStatus::Approved);

    store.delete_comment(c.id).unwrap();
    assert!(store.comments.is_empty());
    assert!(matches!(store.delete_comment(c.id), Err(AppError::NotFound(_))));
}

#[test]
fn test_list_comments_filter_order_page() {
    let mut store = BlogStore::new();
    let p = store.create_post(dto("Live", "c", &[], true), 1).unwrap();
    let c1 = store.create_comment(comment(p.post.id, "one"), 10).unwrap();
    let c2 = store.create_comment(comment(p.post.id, "two"), 30).unwrap();
    let c3 = store.create_comment(comment(p.post.id, "three"), 20).unwrap();
    store.update_comment_status(c1.id, "approved").unwrap();
    store.update_comment_status(c2.id, "approved").unwrap();

    // approved only, newest first
    let (approved, total) = store.list_comments(p.post.id, 1, 10, false).unwrap();
    assert_eq!(total, 2);
    assert_eq!(approved.iter().map(|c| c.id).collect::<Vec<_>>(), vec![c2.id, c1.id]);

    // everything, newest first
    let (all, total_all) = store.list_comments(p.post.id, 1, 10, true).unwrap();
    assert_eq!(total_all, 3);
    assert_eq!(all.iter().map(|c| c.id).collect::<Vec<_>>(), vec![c2.id, c3.id, c1.id]);

    // pagination: page 2 of size 2
    let (page2, _) = store.list_comments(p.post.id, 2, 2, true).unwrap();
    assert_eq!(page2.iter().map(|c| c.id).collect::<Vec<_>>(), vec![c1.id]);

    assert!(store.list_comments(999, 1, 10, true).is_err());

    let (by_status, n) = store.list_all_comments(1, 10, Some("pending"));
    assert_eq!(n, 1);
    assert_eq!(by_status[0].id, c3.id);
    let (none, zero) = store.list_all_comments(1, 10, Some("bogus"));
    assert!(none.is_empty());
    assert_eq!(zero, 0);
}

#[test]
fn test_tags_api() {
    let mut store = BlogStore::new();
    let t1 = store.create_tag("Systems Programming", 1).unwrap();
    assert_eq!(t1.slug, "systems-programming");
    let again = store.create_tag("Systems Programming", 2).unwrap();
    assert_eq!(again.id, t1.id);
    assert_eq!(store.tags.len(), 1);

    // a fresh name whose derived slug is taken is a conflict
    let clash = store.create_tag("Systems  Programming", 3);
    assert!(matches!(clash, Err(AppError::Conflict(_))));

    let t2 = store.create_tag("arrays", 4).unwrap();
    let listed = store.list_tags();
    assert_eq!(
        listed.iter().map(|t| t.name.as_str()).collect::<Vec<_>>(),
        vec!["Systems Programming", "arrays"]
    );

    assert_eq!(store.get_tag(t2.id).unwrap().name, "arrays");
    assert!(matches!(store.get_tag(999), Err(AppError::NotFound(_))));
    assert_eq!(store.get_tag_by_slug("arrays").unwrap().id, t2.id);
    assert!(store.get_tag_by_slug("nope").is_err());

    let mut with_posts = BlogStore::new();
    let p = with_posts
        .create_post(dto("P", "c", &["gone"], true), 1)
        .unwrap();
    let tag_id = p.tags[0].id;
    with_posts.delete_tag(tag_id).unwrap();
    assert!(with_posts.tags.is_empty());
    assert!(with_posts.post_tags.is_empty());
    assert_eq!(with_posts.posts.len(), 1);
    assert!(matches!(with_posts.delete_tag(tag_id), Err(AppError::NotFound(_))));
}

#[test]
fn test_links_api() {
    let mut store = BlogStore::new();
    let l1 = store.create_link(
        CreateLinkDto {
            name: "zeta".to_string(),
            url: "https://z.example".to_string(),
            description: Some("desc".to_string()),
        },
        1,
    );
    let l2 = store.create_link(
        CreateLinkDto {
            name: "alpha".to_string(),
            url: "https://a.example".to_string(),
            description: None,
        },
        2,
    );
    let (listed, total) = store.list_links(1, 10);
    assert_eq!(total, 2);
    assert_eq!(
        listed.iter().map(|l| l.name.as_str()).collect::<Vec<_>>(),
        vec!["alpha", "zeta"]
    );

    assert_eq!(store.get_link(l1.id).unwrap().url, "https://z.example");
    assert!(matches!(store.get_link(999), Err(AppError::NotFound(_))));

    // a patch always replaces the description, clearing it when absent
    let u = store
        .update_link(
            l1.id,
            UpdateLinkDto { name: None, url: Some("https://new.example".to_string()), description: None },
            9,
        )
        .unwrap();
    assert_eq!(u.name, "zeta");
    assert_eq!(u.url, "https://new.example");
    assert_eq!(u.description, None);
    assert_eq!(u.updated_at, 9);

    store.delete_link(l2.id).unwrap();
    assert_eq!(store.links.len(), 1);
    assert!(matches!(store.delete_link(l2.id), Err(AppError::NotFound(_))));
}

#[test]
fn test_list_posts_order_and_pages() {
    let mut store = BlogStore::new();
    store.create_post(dto("Old", "c", &[], true), 10).unwrap();
    store.create_post(dto("Mid", "c", &[], false), 20).unwrap();
    store.create_post(dto("New", "c", &[], true), 30).unwrap();

    let (published, total) = store.list_posts(1, 10, true);
    assert_eq!(total, 2);
    assert_eq!(
        published.iter().map(|p| p.post.title.as_str()).collect::<Vec<_>>(),
        vec!["New", "Old"]
    );

    let (all, total_all) = store.list_posts(1, 2, false);
    assert_eq!(total_all, 3);
    assert_eq!(
        all.iter().map(|p| p.post.title.as_str()).collect::<Vec<_>>(),
        vec!["New", "Mid"]
    );
    let (page2, _) = store.list_posts(2, 2, false);
    assert_eq!(page2.iter().map(|p| p.post.title.as_str()).collect::<Vec<_>>(), vec!["Old"]);
}

#[test]
fn test_search_posts() {
    let mut store = BlogStore::new();
    store
        .create_post(dto("Rust ownership", "A deep dive into borrowing.", &[], true), 10)
        .unwrap();
    store
        .create_post(dto("Gardening", "Planting rust-resistant wheat.", &[], true), 20)
        .unwrap();
    store
        .create_post(dto("Hidden Rust", "draft text", &[], false), 30)
        .unwrap();

    let hits = store.search_posts("Rust", true);
    assert_eq!(hits.len(), 1);
    assert_eq!(hits[0].post.title, "Rust ownership");

    // case-sensitive containment, title or content
    let lower = store.search_posts("rust", true);
    assert_eq!(lower.len(), 1);
    assert_eq!(lower[0].post.title, "Gardening");

    let unpublished_too = store.search_posts("Rust", false);
    assert_eq!(unpublished_too.len(), 2);
    assert_eq!(unpublished_too[0].post.title, "Hidden Rust");

    assert!(store.search_posts("   ", true).is_empty());
    assert!(store.search_posts("", true).is_empty());
}

#[test]
fn test_get_tag_posts() {
    let mut store = BlogStore::new();
    let a = store.create_post(dto("A", "c", &["shared"], true), 10).unwrap();
    let b = store.create_post(dto("B", "c", &["shared"], false), 20).unwrap();
    store.create_post(dto("C", "c", &["other"], true), 30).unwrap();
    let tag_id = a.tags[0].id;

    let (published, total) = store.get_tag_posts(tag_id, 1, 10, true).unwrap();
    assert_eq!(total, 1);
    assert_eq!(published[0].post.id, a.post.id);

    let (all, total_all) = store.get_tag_posts(tag_id, 1, 10, false).unwrap();
    assert_eq!(total_all, 2);
    assert_eq!(all[0].post.id, b.post.id);
    assert_eq!(all[1].post.id, a.post.id);

    assert!(store.get_tag_posts(999, 1, 10, false).is_err());
}

#[test]
fn test_get_post_lookups() {
    let mut store = BlogStore::new();
    let p = store.create_post(dto("Find Me", "c", &["t"], true), 1).unwrap();
    let by_id = store.get_post(p.post.id).unwrap();
    assert_eq!(by_id.post.slug, "find-me");
    assert_eq!(by_id.tags.len(), 1);
    let by_slug = store.get_post_by_slug("find-me").unwrap();
    assert_eq!(by_slug.post.id, p.post.id);
    assert!(matches!(store.get_post(999), Err(AppError::NotFound(_))));
    assert!(matches!(store.get_post_by_slug("none"), Err(AppError::NotFound(_))));
}

#[test]
fn test_error_variants_distinct() {
    let e1 = AppError::NotFound("x".to_string());
    let e2 = AppError::Conflict("x".to_string());
    let e3 = AppError::ValidationError("x".to_string());
    let e4 = AppError::StoreFailure("x".to_string());
    assert_ne!(e1, e2);
    assert_ne!(e2, e3);
    assert_ne!(e3, e4);
    assert_eq!(e4, AppError::StoreFailure("x".to_string()));
}

#[test]
fn test_reconcile_direct() {
    let mut store = BlogStore::new();
    let p = store.create_post(dto("Post", "c", &[], true), 1).unwrap();
    let post_id = p.post.id;
    store
        .handle_post_tags(post_id, &vec!["a".to_string(), "b".to_string()], 2)
        .unwrap();
    let second = store
        .handle_post_tags(post_id, &vec!["b".to_string(), "c".to_string()], 3)
        .unwrap();
    let assoc_names: Vec<String> = store
        .post_tags
        .iter()
        .filter(|pt| pt.post_id == post_id)
        .map(|pt| {
            store
                .tags
                .iter()
                .find(|t| t.id == pt.tag_id)
                .unwrap()
                .name
                .clone()
        })
        .collect();
    assert_eq!(assoc_names, vec!["b".to_string(), "c".to_string()]);
    assert_eq!(second.len(), 2);
    // reconciliation never deletes a tag
    assert!(store.tags.iter().any(|t| t.name == "a"));
}
