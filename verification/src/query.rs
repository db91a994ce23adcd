//! Read-side narrowing: the tag filter a caller's query applies to a
//! snapshot before rendering it.

use vstd::prelude::*;
use crate::post::{Post, PostView};
use crate::text::{chars_of, eq_chars};

verus! {

/// A caller's query: an optional tag to narrow the snapshot to.
pub struct BlogQuery {
    pub tag: Option<String>,
}

impl View for BlogQuery {
    type V = Option<Seq<char>>;

    open spec fn view(&self) -> Option<Seq<char>> {
        match self.tag {
            Some(t) => Some(t@),
            None => None,
        }
    }
}

/// The post carries the tag.
pub open spec fn has_tag(p: PostView, t: Seq<char>) -> bool {
    exists|i: int| 0 <= i < p.tags.len() && p.tags[i] == t
}

/// What the query keeps: everything without a tag filter, the posts
/// carrying the tag with one, in snapshot order.
pub open spec fn selected(s: Seq<PostView>, q: Option<Seq<char>>) -> Seq<PostView> {
    match q {
        None => s,
        Some(t) => s.filter(|p: PostView| has_tag(p, t)),
    }
}

/// Decides whether a post carries the tag.
fn post_has_tag(p: &Post, t_cs: &Vec<char>) -> (r: bool)
    ensures
        r == has_tag(p@, t_cs@),
{
    let mut i: usize = 0;
    while i < p.tags.len()
        invariant
            0 <= i <= p.tags@.len(),
            p.tags.deep_view() == p@.tags,
            forall|j: int| 0 <= j < i ==> (#[trigger] p@.tags[j]) != t_cs@,
        decreases p.tags@.len() - i,
    {
        let cs = chars_of(p.tags[i].as_str());
        if eq_chars(&cs, t_cs) {
            proof {
                assert(p@.tags[i as int] == t_cs@);
            }
            return true;
        }
        proof {
            assert(p@.tags[i as int] != t_cs@);
        }
        i = i + 1;
    }
    false
}

/// Keeps the posts the query selects, in snapshot order.
pub fn filter_posts(posts: &Vec<Post>, query: &BlogQuery) -> (r: Vec<Post>)
    ensures
        r.deep_view() == selected(posts.deep_view(), query@),
{
    let t = match &query.tag {
        None => {
            return crate::store::clone_posts(posts);
        },
        Some(t) => t,
    };
    let t_cs = chars_of(t.as_str());
    let mut r: Vec<Post> = Vec::new();
    let mut i: usize = 0;
    proof {
        reveal(Seq::filter);
        assert(r.deep_view() =~= posts.deep_view().take(0).filter(
            |p: PostView| has_tag(p, t_cs@),
        ));
    }
    while i < posts.len()
        invariant
            0 <= i <= posts@.len(),
            t_cs@ == query@->Some_0,
            r.deep_view() == posts.deep_view().take(i as int).filter(
                |p: PostView| has_tag(p, t_cs@),
            ),
        decreases posts@.len() - i,
    {
        let ghost dv = posts.deep_view();
        let keep = post_has_tag(&posts[i], &t_cs);
        if keep {
            r.push(posts[i].clone());
        }
        proof {
            reveal(Seq::filter);
            assert(dv.take(i + 1).drop_last() =~= dv.take(i as int));
            assert(dv.take(i + 1).last() == dv[i as int]);
            if keep {
                assert(r.deep_view() =~= dv.take(i as int).filter(
                    |p: PostView| has_tag(p, t_cs@),
                ).push(dv[i as int]));
            }
        }
        i = i + 1;
    }
    proof {
        assert(posts.deep_view().take(posts@.len() as int) =~= posts.deep_view());
    }
    r
}

} // verus!
