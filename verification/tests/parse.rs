use blog_core::error::ParseError;
use blog_core::frontmatter::split_frontmatter;
use blog_core::post::parse_post;

#[test]
fn well_formed_file() {
    let content = "---\ntitle: Hello\ndate: 2024-01-15\ntags:\n  - rust\n  - proofs\n---\n# Hi\n\nBody text";
    let post = parse_post("hello-world.md", content).unwrap();
    assert_eq!(post.slug, "hello-world");
    assert_eq!(post.title, "Hello");
    assert_eq!(post.date.year, 2024);
    assert_eq!(post.date.month, 1);
    assert_eq!(post.date.day, 15);
    assert_eq!(post.tags, vec!["rust".to_string(), "proofs".to_string()]);
    assert_eq!(post.html_content, "<h1>Hi</h1>\n<p>Body text</p>\n");
    assert_eq!(post.summary, "# Hi\n\nBody text");
}

#[test]
fn slug_keeps_inner_dots() {
    let content = "---\ntitle: T\ndate: 2024-01-01\n---\nx";
    let post = parse_post("post.2024.md", content).unwrap();
    assert_eq!(post.slug, "post.2024");
}

#[test]
fn markdown_rendering_is_not_identity() {
    let content = "---\ntitle: T\ndate: 2024-01-01\n---\n~~gone~~";
    let post = parse_post("a.md", content).unwrap();
    assert_eq!(post.html_content, "<p><del>gone</del></p>\n");
}

#[test]
fn markdown_table_is_rendered() {
    let content = "---\ntitle: T\ndate: 2024-01-01\n---\n| a | b |\n| - | - |\n| 1 | 2 |\n";
    let post = parse_post("a.md", content).unwrap();
    assert!(post.html_content.contains("<table>"));
}

#[test]
fn missing_opening_delimiter_fails() {
    let content = "title: no frontmatter\ndate: 2024-01-01\n";
    let err = parse_post("a.md", content).unwrap_err();
    assert_eq!(err, ParseError::MissingOpeningDelimiter);
    assert!(err.is_format_error());
}

#[test]
fn missing_closing_delimiter_fails() {
    let content = "---\ntitle: x\ndate: 2024-01-01\nbody without end";
    let err = parse_post("a.md", content).unwrap_err();
    assert_eq!(err, ParseError::MissingClosingDelimiter);
    assert!(err.is_format_error());
}

#[test]
fn split_yields_trimmed_parts() {
    let content = "  \n---\ntitle: x\n---\n\nbody here\n";
    let (fm, body) = split_frontmatter(content).unwrap();
    assert_eq!(fm, "title: x");
    assert_eq!(body, "body here");
}

#[test]
fn split_reports_missing_opening() {
    let r = split_frontmatter("--- title inline\n---\n");
    assert_eq!(r.unwrap_err(), ParseError::MissingOpeningDelimiter);
}

#[test]
fn split_skips_longer_dash_runs() {
    let content = "---\ntitle: x\n----\nstill frontmatter\n";
    let r = split_frontmatter(content);
    assert_eq!(r.unwrap_err(), ParseError::MissingClosingDelimiter);
}

#[test]
fn missing_title_fails_decode() {
    let content = "---\ndate: 2024-01-01\n---\nbody";
    assert_eq!(parse_post("a.md", content).unwrap_err(), ParseError::InvalidFrontmatter);
}

#[test]
fn missing_date_fails_decode() {
    let content = "---\ntitle: x\n---\nbody";
    assert_eq!(parse_post("a.md", content).unwrap_err(), ParseError::InvalidFrontmatter);
}

#[test]
fn non_list_tags_fail_decode() {
    let content = "---\ntitle: x\ndate: 2024-01-01\ntags: 5\n---\nbody";
    assert_eq!(parse_post("a.md", content).unwrap_err(), ParseError::InvalidFrontmatter);
}

#[test]
fn tags_default_to_empty() {
    let content = "---\ntitle: x\ndate: 2024-01-01\n---\nbody";
    let post = parse_post("a.md", content).unwrap();
    assert!(post.tags.is_empty());
}

#[test]
fn explicit_summary_is_verbatim() {
    let content = "---\ntitle: x\ndate: 2024-01-01\nsummary: \"  spaced out  \"\n---\nbody";
    let post = parse_post("a.md", content).unwrap();
    assert_eq!(post.summary, "  spaced out  ");
}

#[test]
fn leap_day_parses() {
    let content = "---\ntitle: x\ndate: 2024-02-29\n---\nbody";
    assert!(parse_post("a.md", content).is_ok());
}

#[test]
fn invalid_dates_fail() {
    for bad in [
        "2023-02-29",
        "2024-13-01",
        "2024-00-10",
        "2024-04-31",
        "2024-1-15",
        "2024/01/15",
        "24-01-15",
        "not-a-date",
    ] {
        let content = format!("---\ntitle: x\ndate: \"{}\"\n---\nbody", bad);
        assert_eq!(
            parse_post("a.md", &content).unwrap_err(),
            ParseError::InvalidDate,
            "{}",
            bad
        );
    }
}

#[test]
fn empty_body_renders_empty_markup() {
    let post = parse_post("a.md", "---\ntitle: x\ndate: 2024-01-01\n---\n").unwrap();
    assert_eq!(post.html_content, "");
    assert_eq!(post.summary, "");
}

#[test]
fn error_messages_name_the_failure() {
    assert_eq!(ParseError::MissingOpeningDelimiter.message(), "missing opening delimiter");
    assert_eq!(ParseError::Io.message(), "file unreadable");
}
