//! The `Post` record and the parser that turns one file's name and
//! contents into it.

use vstd::prelude::*;
use crate::date::{Date, date_of_chars, parse_date_chars, valid_date_chars};
use crate::error::ParseError;
use crate::frontmatter::{
    body_text_spec, decode_frontmatter_text, fm_text_spec, frontmatter_of, has_closing,
    opens_with_delim, split_frontmatter,
};
use crate::markdown::{html_of, render_markdown};
use crate::text::{chars_of, string_from_chars, subvec, trim_chars, trim_spec, trim_start_spec};

verus! {

/// One blog post, as served to callers.
#[derive(Debug)]
pub struct Post {
    pub slug: String,
    pub title: String,
    pub date: Date,
    pub tags: Vec<String>,
    pub summary: String,
    pub html_content: String,
}

/// The mathematical shadow of `Post`: every text field as a character
/// sequence.
pub struct PostView {
    pub slug: Seq<char>,
    pub title: Seq<char>,
    pub date: Date,
    pub tags: Seq<Seq<char>>,
    pub summary: Seq<char>,
    pub html_content: Seq<char>,
}

impl View for Post {
    type V = PostView;

    open spec fn view(&self) -> PostView {
        PostView {
            slug: self.slug@,
            title: self.title@,
            date: self.date,
            tags: self.tags.deep_view(),
            summary: self.summary@,
            html_content: self.html_content@,
        }
    }
}

impl DeepView for Post {
    type V = PostView;

    open spec fn deep_view(&self) -> PostView {
        self.view()
    }
}

/// Copies a vector of strings, value for value.
pub fn clone_strings(v: &Vec<String>) -> (r: Vec<String>)
    ensures
        r@ == v@,
{
    let mut r: Vec<String> = Vec::new();
    let mut i: usize = 0;
    while i < v.len()
        invariant
            0 <= i <= v@.len(),
            r@ == v@.take(i as int),
        decreases v@.len() - i,
    {
        r.push(v[i].clone());
        proof {
            assert(v@.take(i + 1 as int) =~= v@.take(i as int).push(v@[i as int]));
        }
        i = i + 1;
    }
    proof {
        assert(v@.take(v@.len() as int) =~= v@);
    }
    r
}

impl Clone for Post {
    /// An independent copy whose view is the same.
    fn clone(&self) -> (r: Self)
        ensures
            r@ == self@,
    {
        let r = Post {
            slug: self.slug.clone(),
            title: self.title.clone(),
            date: self.date,
            tags: clone_strings(&self.tags),
            summary: self.summary.clone(),
            html_content: self.html_content.clone(),
        };
        proof {
            assert(r.tags.deep_view() =~= self.tags.deep_view());
        }
        r
    }
}

/// The position of the last `.` that does not open the name, or -1:
/// the point where the extension is cut off.
pub open spec fn last_dot(s: Seq<char>) -> int
    decreases s.len(),
{
    if s.len() <= 1 {
        -1
    } else if s.last() == '.' {
        s.len() - 1
    } else {
        last_dot(s.drop_last())
    }
}

/// The file name without its extension, as `slug` derivation has it.
pub open spec fn stem_of(s: Seq<char>) -> Seq<char> {
    if last_dot(s) < 0 {
        s
    } else {
        s.take(last_dot(s))
    }
}

/// Cuts the extension off a file name.
fn stem_chars(name: &Vec<char>) -> (r: Vec<char>)
    ensures
        r@ == stem_of(name@),
{
    let mut i: usize = name.len();
    proof {
        assert(name@.take(name@.len() as int) =~= name@);
    }
    while i > 1
        invariant
            0 <= i <= name@.len(),
            last_dot(name@) == last_dot(name@.take(i as int)),
        decreases i,
    {
        if name[i - 1] == '.' {
            proof {
                assert(name@.take(i as int).last() == name@[i - 1]);
            }
            let r = subvec(name, 0, i - 1);
            proof {
                assert(last_dot(name@) == i - 1);
                assert(name@.subrange(0, i - 1) =~= name@.take(i - 1));
            }
            return r;
        }
        proof {
            let t = name@.take(i as int);
            assert(t.last() == name@[i - 1]);
            assert(t.drop_last() =~= name@.take(i - 1));
        }
        i = i - 1;
    }
    let r = subvec(name, 0, name.len());
    proof {
        assert(name@.subrange(0, name@.len() as int) =~= name@);
        assert(last_dot(name@) == -1);
    }
    r
}

/// The summary derived from a body with no explicit one: the first 200
/// characters, trimmed, with a `...` suffix where the body reaches the
/// 200-character boundary.
pub open spec fn summary_of_body(body: Seq<char>) -> Seq<char> {
    if body.len() >= 200 {
        trim_spec(body.take(200)) + seq!['.', '.', '.']
    } else {
        trim_spec(body)
    }
}

/// Builds the derived summary of a body.
fn summary_from_body(body: &Vec<char>) -> (r: Vec<char>)
    ensures
        r@ == summary_of_body(body@),
{
    if body.len() >= 200 {
        let prefix = subvec(body, 0, 200);
        proof {
            assert(prefix@ =~= body@.take(200));
        }
        let mut t = trim_chars(&prefix);
        t.push('.');
        t.push('.');
        t.push('.');
        proof {
            assert(t@ =~= trim_spec(body@.take(200)) + seq!['.', '.', '.']);
        }
        t
    } else {
        trim_chars(body)
    }
}

/// What parsing a file named `name` with contents `content` yields:
/// `None` where a typed failure is reported, the complete post
/// otherwise.
pub open spec fn parse_spec(name: Seq<char>, content: Seq<char>) -> Option<PostView> {
    let t = trim_start_spec(content);
    if !opens_with_delim(t) {
        None
    } else if !has_closing(t) {
        None
    } else {
        let body = body_text_spec(t);
        match frontmatter_of(fm_text_spec(t)) {
            None => None,
            Some(f) => if !valid_date_chars(f.date_text) {
                None
            } else {
                Some(
                    PostView {
                        slug: stem_of(name),
                        title: f.title,
                        date: date_of_chars(f.date_text),
                        tags: match f.tags {
                            Some(ts) => ts,
                            None => Seq::empty(),
                        },
                        summary: match f.summary {
                            Some(s) => s,
                            None => summary_of_body(body),
                        },
                        html_content: html_of(body),
                    },
                )
            },
        }
    }
}

/// Which typed failure parsing reports, where it yields no post.
pub open spec fn parse_error_spec(content: Seq<char>) -> ParseError {
    let t = trim_start_spec(content);
    if !opens_with_delim(t) {
        ParseError::MissingOpeningDelimiter
    } else if !has_closing(t) {
        ParseError::MissingClosingDelimiter
    } else if frontmatter_of(fm_text_spec(t)) is None {
        ParseError::InvalidFrontmatter
    } else {
        ParseError::InvalidDate
    }
}

/// Parses one file into a `Post`, or reports a typed failure; malformed
/// input never raises an unrecoverable fault.
pub fn parse_post(name: &str, content: &str) -> (r: Result<Post, ParseError>)
    ensures
        r matches Ok(p) ==> parse_spec(name@, content@) == Some(p@),
        r is Ok <==> parse_spec(name@, content@) is Some,
        r matches Err(e) ==> e == parse_error_spec(content@),
{
    let (fm_s, body_s) = match split_frontmatter(content) {
        Ok(p) => p,
        Err(e) => {
            return Err(e);
        },
    };
    let f = match decode_frontmatter_text(fm_s.as_str()) {
        Ok(f) => f,
        Err(e) => {
            return Err(e);
        },
    };
    let date_cs = chars_of(f.date_text.as_str());
    let date = match parse_date_chars(&date_cs) {
        Some(d) => d,
        None => {
            return Err(ParseError::InvalidDate);
        },
    };
    let name_cs = chars_of(name);
    let slug_cs = stem_chars(&name_cs);
    let slug = string_from_chars(&slug_cs);
    let html_content = render_markdown(body_s.as_str());
    let summary = match f.summary {
        Some(s) => s,
        None => {
            let body_cs = chars_of(body_s.as_str());
            let sum_cs = summary_from_body(&body_cs);
            string_from_chars(&sum_cs)
        },
    };
    let tags = match f.tags {
        Some(ts) => ts,
        None => Vec::new(),
    };
    let post = Post { slug, title: f.title, date, tags, summary, html_content };
    proof {
        let expected = parse_spec(name@, content@)->Some_0;
        assert(post@.tags =~= expected.tags);
        assert(post@ == expected);
    }
    Ok(post)
}

} // verus!
