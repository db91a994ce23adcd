use blog_core::date::Date;
use blog_core::post::Post;
use blog_core::query::{BlogQuery, filter_posts};
use blog_core::store::{Store, find_by_slug, get_all_posts, get_post_by_slug, load_posts};
use blog_core::tags::{get_all_tags, tags_by_frequency};
use blog_core::loader::SourceFile;

fn make_post(slug: &str, tags: &[&str]) -> Post {
    Post {
        slug: slug.to_string(),
        title: slug.to_string(),
        date: Date { year: 2024, month: 1, day: 1 },
        tags: tags.iter().map(|t| t.to_string()).collect(),
        summary: String::new(),
        html_content: String::new(),
    }
}

fn source(name: &str, title: &str, date: &str, tags: &[&str]) -> SourceFile {
    let content = if tags.is_empty() {
        format!("---\ntitle: {}\ndate: {}\n---\nbody", title, date)
    } else {
        let mut tag_block = String::new();
        for t in tags {
            tag_block.push_str(&format!("  - {}\n", t));
        }
        format!("---\ntitle: {}\ndate: {}\ntags:\n{}---\nbody", title, date, tag_block)
    };
    SourceFile { name: name.to_string(), content: Some(content) }
}

#[test]
fn fresh_store_serves_an_empty_snapshot() {
    let store = Store::new();
    assert!(get_all_posts(&store).is_empty());
}

#[test]
fn by_slug_on_absent_key_returns_none() {
    let store = Store::new();
    load_posts(&store, vec![source("a.md", "A", "2024-01-01", &[])]);
    assert!(get_post_by_slug(&store, "missing").is_none());
}

#[test]
fn by_slug_finds_exact_case_sensitive_match() {
    let store = Store::new();
    load_posts(
        &store,
        vec![
            source("alpha.md", "Alpha", "2024-01-01", &[]),
            source("beta.md", "Beta", "2024-01-02", &[]),
        ],
    );
    let p = get_post_by_slug(&store, "alpha").unwrap();
    assert_eq!(p.title, "Alpha");
    assert!(get_post_by_slug(&store, "Alpha").is_none());
}

#[test]
fn find_by_slug_takes_the_first_match() {
    let posts = vec![make_post("dup", &["one"]), make_post("dup", &["two"])];
    let p = find_by_slug(&posts, "dup").unwrap();
    assert_eq!(p.tags, vec!["one".to_string()]);
}

#[test]
fn all_returns_an_independent_copy() {
    let store = Store::new();
    load_posts(&store, vec![source("a.md", "A", "2024-01-01", &[])]);
    let mut copy = get_all_posts(&store);
    copy.clear();
    assert_eq!(get_all_posts(&store).len(), 1);
}

#[test]
fn tag_frequencies_rank_rarest_last() {
    let posts = vec![
        make_post("p1", &["A", "B"]),
        make_post("p2", &["A", "B"]),
        make_post("p3", &["A", "B", "C"]),
    ];
    let tags = tags_by_frequency(&posts);
    assert_eq!(tags.len(), 3);
    assert_eq!(tags[2], "C");
    assert!(tags[0] == "A" || tags[0] == "B");
    assert!(tags[1] == "A" || tags[1] == "B");
    assert_ne!(tags[0], tags[1]);
}

#[test]
fn duplicate_tags_in_one_post_count_twice() {
    let posts = vec![make_post("p1", &["solo", "dup", "dup"]), make_post("p2", &["solo"])];
    let tags = tags_by_frequency(&posts);
    assert_eq!(tags.len(), 2);
    assert!(tags.contains(&"dup".to_string()));
    assert!(tags.contains(&"solo".to_string()));
}

#[test]
fn store_tags_come_from_the_snapshot() {
    let store = Store::new();
    load_posts(
        &store,
        vec![
            source("a.md", "A", "2024-01-01", &["rust", "proofs"]),
            source("b.md", "B", "2024-01-02", &["rust"]),
        ],
    );
    let tags = get_all_tags(&store);
    assert_eq!(tags, vec!["rust".to_string(), "proofs".to_string()]);
}

#[test]
fn filter_posts_keeps_only_the_tagged_ones() {
    let posts = vec![
        make_post("p1", &["rust"]),
        make_post("p2", &["prose"]),
        make_post("p3", &["rust", "prose"]),
    ];
    let q = BlogQuery { tag: Some("rust".to_string()) };
    let picked = filter_posts(&posts, &q);
    let slugs: Vec<&str> = picked.iter().map(|p| p.slug.as_str()).collect();
    assert_eq!(slugs, vec!["p1", "p3"]);
}

#[test]
fn filter_posts_without_tag_keeps_everything() {
    let posts = vec![make_post("p1", &[]), make_post("p2", &["x"])];
    let q = BlogQuery { tag: None };
    assert_eq!(filter_posts(&posts, &q).len(), 2);
}
