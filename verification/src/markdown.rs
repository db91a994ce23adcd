//! Markdown rendering: the one step of the parser that an outside
//! renderer performs.

use vstd::prelude::*;

verus! {

/// What rendering a markdown body yields. The rendering is a function
/// of the input text alone; an empty body renders to empty markup.
pub uninterp spec fn html_of(s: Seq<char>) -> Seq<char>;

/// Relies on `pulldown_cmark::Parser::new_ext` and
/// `pulldown_cmark::html::push_html`: renders markdown to markup with
/// strikethrough, tables, footnotes and heading attributes enabled;
/// unknown constructs degrade to literal text rather than failing, and
/// the output depends on the input text alone.
#[verifier::external_body]
pub(crate) fn render_markdown(markdown: &str) -> (r: String)
    ensures
        r@ == html_of(markdown@),
        markdown@.len() == 0 ==> r@.len() == 0,
{
    let options = pulldown_cmark::Options::ENABLE_STRIKETHROUGH
        | pulldown_cmark::Options::ENABLE_TABLES | pulldown_cmark::Options::ENABLE_FOOTNOTES
        | pulldown_cmark::Options::ENABLE_HEADING_ATTRIBUTES;
    let parser = pulldown_cmark::Parser::new_ext(markdown, options);
    let mut out = String::new();
    pulldown_cmark::html::push_html(&mut out, parser);
    out
}

} // verus!
