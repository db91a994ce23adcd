//! The frontmatter block: locating its delimiter lines, and decoding
//! the metadata schema inside it.

use vstd::prelude::*;
use crate::error::ParseError;
use crate::text::{
    chars_of, string_from_chars, subvec, trim_chars, trim_spec, trim_start_spec, is_space_char,
    is_space,
};

verus! {

/// The decoded frontmatter schema: `title` and `date` are required,
/// `tags` and `summary` are optional and stay absent when the file
/// leaves them out.
pub struct Frontmatter {
    pub title: String,
    pub date_text: String,
    pub tags: Option<Vec<String>>,
    pub summary: Option<String>,
}

/// The mathematical shadow of `Frontmatter`: every field as a character
/// sequence.
pub struct FrontmatterView {
    pub title: Seq<char>,
    pub date_text: Seq<char>,
    pub tags: Option<Seq<Seq<char>>>,
    pub summary: Option<Seq<char>>,
}

impl View for Frontmatter {
    type V = FrontmatterView;

    open spec fn view(&self) -> FrontmatterView {
        FrontmatterView {
            title: self.title@,
            date_text: self.date_text@,
            tags: match self.tags {
                Some(v) => Some(v.deep_view()),
                None => None,
            },
            summary: match self.summary {
                Some(s) => Some(s@),
                None => None,
            },
        }
    }
}

/// What the YAML decode of a frontmatter block yields: `None` where the
/// schema is not met, the decoded fields otherwise. The decode is a
/// function of the text alone.
pub uninterp spec fn frontmatter_of(s: Seq<char>) -> Option<FrontmatterView>;

/// Relies on `serde_yaml::from_str` and the `serde_yaml::Value`
/// accessors `get`, `as_str`, `as_sequence` and `is_null`: decodes the
/// frontmatter schema (required string fields `title` and `date`, an
/// optional sequence of strings `tags`, an optional string `summary`,
/// where an explicit `null` summary counts as absent).
#[verifier::external_body]
fn decode_frontmatter(s: &str) -> (r: Option<Frontmatter>)
    ensures
        r matches Some(f) ==> frontmatter_of(s@) == Some(f@),
        r is None ==> frontmatter_of(s@) is None,
{
    let v: serde_yaml::Value = serde_yaml::from_str(s).ok()?;
    let title = v.get("title")?.as_str()?.to_owned();
    let date_text = v.get("date")?.as_str()?.to_owned();
    let tags = match v.get("tags") {
        None => None,
        Some(t) => Some(t.as_sequence()?.iter().map(|x| x.as_str().map(str::to_owned)).collect::<Option<Vec<String>>>()?),
    };
    let summary = match v.get("summary") {
        None => None,
        Some(x) if x.is_null() => None,
        Some(x) => Some(x.as_str()?.to_owned()),
    };
    Some(Frontmatter { title, date_text, tags, summary })
}

/// Decodes a frontmatter block, reporting schema failure as an error.
pub fn decode_frontmatter_text(s: &str) -> (r: Result<Frontmatter, ParseError>)
    ensures
        r matches Ok(f) ==> frontmatter_of(s@) == Some(f@),
        r matches Err(e) ==> e is InvalidFrontmatter && frontmatter_of(s@) is None,
{
    match decode_frontmatter(s) {
        Some(f) => Ok(f),
        None => Err(ParseError::InvalidFrontmatter),
    }
}

/// The delimiter token `---` stands at `i` as a whole line: preceded by
/// a line break or the start, followed by a line break or the end.
pub open spec fn is_delim_line_at(s: Seq<char>, i: int) -> bool {
    &&& 0 <= i
    &&& i + 3 <= s.len()
    &&& (i == 0 || s[i - 1] == '\n')
    &&& s[i] == '-'
    &&& s[i + 1] == '-'
    &&& s[i + 2] == '-'
    &&& (i + 3 == s.len() || s[i + 3] == '\n')
}

/// After trimming leading white space, the content begins with a
/// delimiter line.
pub open spec fn opens_with_delim(t: Seq<char>) -> bool {
    is_delim_line_at(t, 0)
}

/// The first position at or after `i` where a delimiter line stands,
/// or -1 where none does.
pub open spec fn closing_from(t: Seq<char>, i: int) -> int
    decreases t.len() - i,
{
    if i < 0 || i + 3 > t.len() {
        -1
    } else if is_delim_line_at(t, i) {
        i
    } else {
        closing_from(t, i + 1)
    }
}

/// The position of the closing delimiter line: the first delimiter line
/// after the opening one, or -1.
pub open spec fn closing_idx(t: Seq<char>) -> int {
    closing_from(t, 4)
}

/// A closing delimiter line exists after the opening one.
pub open spec fn has_closing(t: Seq<char>) -> bool {
    closing_idx(t) >= 0
}

/// The frontmatter text: between the delimiter lines, trimmed.
pub open spec fn fm_text_spec(t: Seq<char>) -> Seq<char> {
    trim_spec(t.subrange(3, closing_idx(t)))
}

/// The body text: after the closing delimiter line, trimmed.
pub open spec fn body_text_spec(t: Seq<char>) -> Seq<char> {
    trim_spec(t.subrange(closing_idx(t) + 3, t.len() as int))
}

/// Splits trimmed content into the frontmatter text and the body text,
/// each trimmed of surrounding white space; fails where a delimiter
/// line is missing.
pub fn split_frontmatter(content: &str) -> (r: Result<(String, String), ParseError>)
    ensures
        ({
            let t = trim_start_spec(content@);
            &&& (r matches Err(e) && e is MissingOpeningDelimiter) <==> !opens_with_delim(t)
            &&& (r matches Err(e) && e is MissingClosingDelimiter) <==> (opens_with_delim(t)
                && !has_closing(t))
            &&& (r matches Ok(p) ==> opens_with_delim(t) && has_closing(t) && p.0@ == fm_text_spec(
                t,
            ) && p.1@ == body_text_spec(t))
            &&& (opens_with_delim(t) && has_closing(t) ==> r is Ok)
        }),
{
    let cs = chars_of(content);
    let n = cs.len();
    let mut lo: usize = 0;
    while lo < n && is_space_char(cs[lo])
        invariant
            0 <= lo <= n == cs@.len(),
            forall|i: int| 0 <= i < lo ==> is_space(#[trigger] cs@[i]),
        decreases n - lo,
    {
        lo = lo + 1;
    }
    let t = subvec(&cs, lo, n);
    proof {
        crate::text::lemma_trim_start_at(cs@, lo as int);
    }
    let m = t.len();
    if !(m >= 3 && t[0] == '-' && t[1] == '-' && t[2] == '-' && (m == 3 || t[3] == '\n')) {
        return Err(ParseError::MissingOpeningDelimiter);
    }
    let mut i: usize = 4;
    let mut found: Option<usize> = None;
    while found.is_none() && i <= m - 3
        invariant
            4 <= i,
            m == t@.len(),
            m >= 3,
            found is None ==> closing_idx(t@) == closing_from(t@, i as int),
            found matches Some(k) ==> closing_idx(t@) == k && 4 <= k && k + 3 <= m,
        decreases m - i + (if found is None { 1int } else { 0int }),
    {
        if t[i - 1] == '\n' && t[i] == '-' && t[i + 1] == '-' && t[i + 2] == '-' && (i + 3 == m || t[i
            + 3] == '\n') {
            proof {
                assert(is_delim_line_at(t@, i as int));
            }
            found = Some(i);
        } else {
            proof {
                assert(!is_delim_line_at(t@, i as int));
            }
            i = i + 1;
        }
    }
    let k = match found {
        Some(k) => k,
        None => {
            proof {
                assert(closing_from(t@, i as int) == -1);
            }
            return Err(ParseError::MissingClosingDelimiter);
        },
    };
    let fm_raw = subvec(&t, 3, k);
    let body_raw = subvec(&t, k + 3, m);
    let fm = trim_chars(&fm_raw);
    let body = trim_chars(&body_raw);
    let fm_s = string_from_chars(&fm);
    let body_s = string_from_chars(&body);
    Ok((fm_s, body_s))
}

} // verus!
