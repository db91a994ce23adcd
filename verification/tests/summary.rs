use blog_core::post::parse_post;

fn post_with_body(body: &str) -> blog_core::post::Post {
    let content = format!("---\ntitle: x\ndate: 2024-01-01\n---\n{}", body);
    parse_post("a.md", &content).unwrap()
}

#[test]
fn body_of_exactly_200_values_gets_suffix() {
    let body: String = "a".repeat(200);
    let post = post_with_body(&body);
    assert_eq!(post.summary.chars().count(), 203);
    assert_eq!(post.summary, format!("{}...", body));
}

#[test]
fn body_longer_than_200_values_is_truncated() {
    let body: String = "b".repeat(250);
    let post = post_with_body(&body);
    assert_eq!(post.summary, format!("{}...", "b".repeat(200)));
}

#[test]
fn short_body_is_verbatim_without_suffix() {
    let post = post_with_body("just a short body");
    assert_eq!(post.summary, "just a short body");
}

#[test]
fn truncated_summary_is_trimmed_before_suffix() {
    let body = format!("{}   {}", "c".repeat(197), "d".repeat(50));
    let post = post_with_body(&body);
    assert_eq!(post.summary, format!("{}...", "c".repeat(197)));
}

#[test]
fn multibyte_body_counts_scalar_values_not_bytes() {
    let body: String = "\u{e9}".repeat(100);
    let post = post_with_body(&body);
    assert_eq!(post.summary, body);
}
