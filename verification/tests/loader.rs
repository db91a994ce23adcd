use blog_core::loader::{SourceFile, build_snapshot};
use blog_core::store::{Store, get_all_posts, load_posts};

fn file(name: &str, content: &str) -> SourceFile {
    SourceFile { name: name.to_string(), content: Some(content.to_string()) }
}

fn post_content(title: &str, date: &str) -> String {
    format!("---\ntitle: {}\ndate: {}\n---\nbody of {}", title, date, title)
}

#[test]
fn valid_siblings_survive_a_bad_file() {
    let files = vec![
        file("bad.md", "no delimiter at all"),
        file("good.md", &post_content("Good", "2024-01-01")),
        file("also-good.md", &post_content("Also", "2024-02-01")),
    ];
    let posts = build_snapshot(files);
    assert_eq!(posts.len(), 2);
    assert!(posts.iter().all(|p| p.slug != "bad"));
}

#[test]
fn unreadable_file_is_skipped() {
    let files = vec![
        SourceFile { name: "gone.md".to_string(), content: None },
        file("here.md", &post_content("Here", "2024-01-01")),
    ];
    let posts = build_snapshot(files);
    assert_eq!(posts.len(), 1);
    assert_eq!(posts[0].slug, "here");
}

#[test]
fn non_markdown_entries_are_ignored()
{
    let files = vec![
        file("notes.txt", &post_content("Txt", "2024-01-01")),
        file("post.md", &post_content("Md", "2024-01-02")),
    ];
    let posts = build_snapshot(files);
    assert_eq!(posts.len(), 1);
    assert_eq!(posts[0].slug, "post");
}

#[test]
fn snapshot_is_sorted_by_date_descending() {
    let files = vec![
        file("old.md", &post_content("Old", "2020-05-01")),
        file("new.md", &post_content("New", "2024-03-09")),
        file("mid.md", &post_content("Mid", "2022-12-31")),
    ];
    let posts = build_snapshot(files);
    let slugs: Vec<&str> = posts.iter().map(|p| p.slug.as_str()).collect();
    assert_eq!(slugs, vec!["new", "mid", "old"]);
}

#[test]
fn equal_dates_keep_filename_ascending_order() {
    let files = vec![
        file("b.md", &post_content("B", "2024-01-01")),
        file("c.md", &post_content("C", "2024-01-01")),
        file("a.md", &post_content("A", "2024-01-01")),
        file("d.md", &post_content("D", "2025-06-06")),
    ];
    let posts = build_snapshot(files);
    let slugs: Vec<&str> = posts.iter().map(|p| p.slug.as_str()).collect();
    assert_eq!(slugs, vec!["d", "a", "b", "c"]);
}

#[test]
fn reload_against_empty_directory_clears_the_cache() {
    let store = Store::new();
    load_posts(&store, vec![file("a.md", &post_content("A", "2024-01-01"))]);
    assert_eq!(get_all_posts(&store).len(), 1);
    load_posts(&store, Vec::new());
    assert!(get_all_posts(&store).is_empty());
}

#[test]
fn empty_batch_builds_empty_snapshot() {
    let posts = build_snapshot(Vec::new());
    assert!(posts.is_empty());
}
