//! The snapshot order: a stable sort of posts by date descending.
//! Stability is what keeps posts of one date in the order the loader
//! produced them, which is filename-ascending.

use vstd::prelude::*;
use vstd::seq_lib::*;
use crate::date::{Date, date_le, date_le_exec};
use crate::post::{Post, PostView};

verus! {

/// Sorted by date, newest first.
pub open spec fn sorted_by_date_desc(s: Seq<PostView>) -> bool {
    forall|i: int, j: int| 0 <= i < j < s.len() ==> date_le(s[j].date, s[i].date)
}

/// The subsequence of posts carrying one date, in order.
pub open spec fn with_date(s: Seq<PostView>, d: Date) -> Seq<PostView> {
    s.filter(|p: PostView| p.date == d)
}

/// Where a post goes in a snapshot sorted by date descending: after
/// every post whose date is the same or later.
pub open spec fn insert_post_spec(p: PostView, s: Seq<PostView>) -> Seq<PostView>
    decreases s.len(),
{
    if s.len() == 0 {
        seq![p]
    } else if date_le(p.date, s[0].date) {
        seq![s[0]] + insert_post_spec(p, s.drop_first())
    } else {
        seq![p] + s
    }
}

/// The stable sort by date descending: posts are inserted in input
/// order, each after all posts with the same or a later date.
pub open spec fn sort_posts_spec(s: Seq<PostView>) -> Seq<PostView>
    decreases s.len(),
{
    if s.len() == 0 {
        Seq::empty()
    } else {
        insert_post_spec(s.last(), sort_posts_spec(s.drop_last()))
    }
}

/// Inserting into a sorted snapshot keeps it sorted.
proof fn lemma_insert_post_sorted(p: PostView, s: Seq<PostView>)
    requires
        sorted_by_date_desc(s),
    ensures
        sorted_by_date_desc(insert_post_spec(p, s)),
    decreases s.len(),
{
    if s.len() == 0 {
    } else if date_le(p.date, s[0].date) {
        assert(sorted_by_date_desc(s.drop_first()));
        lemma_insert_post_sorted(p, s.drop_first());
        let r = seq![s[0]] + insert_post_spec(p, s.drop_first());
        let tail = insert_post_spec(p, s.drop_first());
        assert forall|i: int, j: int| 0 <= i < j < r.len() implies date_le(
            r[j].date,
            r[i].date,
        ) by {
            if i == 0 {
                lemma_insert_post_member(p, s.drop_first(), j - 1);
            }
        }
    } else {
        let r = seq![p] + s;
        assert forall|i: int, j: int| 0 <= i < j < r.len() implies date_le(
            r[j].date,
            r[i].date,
        ) by {
            if i == 0 && j > 0 {
                if j == 1 {
                } else {
                    assert(date_le(s[j - 1].date, s[0].date));
                }
            }
        }
    }
}

/// Inserting grows the snapshot by one.
proof fn lemma_insert_post_len(p: PostView, s: Seq<PostView>)
    ensures
        insert_post_spec(p, s).len() == s.len() + 1,
    decreases s.len(),
{
    if s.len() > 0 && date_le(p.date, s[0].date) {
        lemma_insert_post_len(p, s.drop_first());
    }
}

/// Every element of an inserted snapshot is the new post or one of the
/// old ones.
proof fn lemma_insert_post_member(p: PostView, s: Seq<PostView>, i: int)
    requires
        0 <= i < insert_post_spec(p, s).len(),
    ensures
        insert_post_spec(p, s)[i] == p || exists|k: int|
            0 <= k < s.len() && insert_post_spec(p, s)[i] == s[k],
    decreases s.len(),
{
    lemma_insert_post_len(p, s);
    if s.len() == 0 {
    } else if date_le(p.date, s[0].date) {
        if i > 0 {
            lemma_insert_post_member(p, s.drop_first(), i - 1);
            let t = insert_post_spec(p, s.drop_first());
            if t[i - 1] == p {
            } else {
                let k = choose|k: int| 0 <= k < s.drop_first().len() && t[i - 1] == s.drop_first()[k];
                assert(insert_post_spec(p, s)[i] == s[k + 1]);
            }
        }
    } else {
    }
}

/// Inserting a post appends it to its date's subsequence and leaves
/// every other date's subsequence alone.
proof fn lemma_insert_post_filter(p: PostView, s: Seq<PostView>, d: Date)
    requires
        sorted_by_date_desc(s),
    ensures
        with_date(insert_post_spec(p, s), d) == if d == p.date {
            with_date(s, d).push(p)
        } else {
            with_date(s, d)
        },
    decreases s.len(),
{
    reveal(Seq::filter);
    let pred = |q: PostView| q.date == d;
    if s.len() == 0 {
        assert(seq![p].drop_last() =~= Seq::<PostView>::empty());
        assert(with_date(s, d) =~= Seq::<PostView>::empty());
        if d == p.date {
            assert(with_date(seq![p], d) =~= Seq::<PostView>::empty().push(p));
        } else {
            assert(with_date(seq![p], d) =~= Seq::<PostView>::empty());
        }
    } else if date_le(p.date, s[0].date) {
        assert(sorted_by_date_desc(s.drop_first()));
        lemma_insert_post_filter(p, s.drop_first(), d);
        let tail = insert_post_spec(p, s.drop_first());
        Seq::filter_distributes_over_add(seq![s[0]], tail, pred);
        Seq::filter_distributes_over_add(seq![s[0]], s.drop_first(), pred);
        assert(seq![s[0]] + s.drop_first() =~= s);
        if d == p.date {
            assert(seq![s[0]].filter(pred) + s.drop_first().filter(pred).push(p) =~= (
            seq![s[0]].filter(pred) + s.drop_first().filter(pred)).push(p));
        }
    } else {
        s.lemma_filter_prepend(p, pred);
        if d == p.date {
            assert forall|i: int| 0 <= i < s.len() implies s[i].date != d by {
                if i == 0 {
                } else {
                    assert(date_le(s[i].date, s[0].date));
                }
            }
            lemma_no_match_filter_empty(s, d);
            assert(with_date(seq![p] + s, d) =~= with_date(s, d).push(p));
        } else {
            assert(with_date(seq![p] + s, d) =~= with_date(s, d));
        }
    }
}

/// A date that no post carries filters to the empty subsequence.
proof fn lemma_no_match_filter_empty(s: Seq<PostView>, d: Date)
    requires
        forall|i: int| 0 <= i < s.len() ==> (#[trigger] s[i]).date != d,
    ensures
        with_date(s, d) == Seq::<PostView>::empty(),
    decreases s.len(),
{
    reveal(Seq::filter);
    if s.len() > 0 {
        lemma_no_match_filter_empty(s.drop_last(), d);
    } else {
        assert(with_date(s, d) =~= Seq::<PostView>::empty());
    }
}

/// The sort yields a snapshot sorted by date descending.
pub proof fn lemma_sort_posts_sorted(s: Seq<PostView>)
    ensures
        sorted_by_date_desc(sort_posts_spec(s)),
    decreases s.len(),
{
    if s.len() > 0 {
        lemma_sort_posts_sorted(s.drop_last());
        lemma_insert_post_sorted(s.last(), sort_posts_spec(s.drop_last()));
    }
}

/// The sort is stable: for every date, the posts carrying it come out
/// exactly as they went in, in the same relative order.
pub proof fn lemma_sort_posts_stable(s: Seq<PostView>, d: Date)
    ensures
        with_date(sort_posts_spec(s), d) == with_date(s, d),
    decreases s.len(),
{
    reveal(Seq::filter);
    let pred = |q: PostView| q.date == d;
    if s.len() == 0 {
    } else {
        lemma_sort_posts_stable(s.drop_last(), d);
        lemma_sort_posts_sorted(s.drop_last());
        lemma_insert_post_filter(s.last(), sort_posts_spec(s.drop_last()), d);
        assert(s.drop_last().push(s.last()) =~= s);
        assert(with_date(s.drop_last().push(s.last()), d) == if pred(s.last()) {
            with_date(s.drop_last(), d).push(s.last())
        } else {
            with_date(s.drop_last(), d)
        });
    }
}

/// The sort neither adds nor invents posts: it has as many as went in,
/// and each one went in.
pub proof fn lemma_sort_posts_member(s: Seq<PostView>, i: int)
    requires
        0 <= i < sort_posts_spec(s).len(),
    ensures
        sort_posts_spec(s).len() == s.len(),
        exists|k: int| 0 <= k < s.len() && sort_posts_spec(s)[i] == s[k],
    decreases s.len(),
{
    lemma_sort_posts_len(s);
    let front = sort_posts_spec(s.drop_last());
    lemma_insert_post_member(s.last(), front, i);
    if sort_posts_spec(s)[i] == s.last() {
        assert(sort_posts_spec(s)[i] == s[s.len() - 1]);
    } else {
        let k = choose|k: int| 0 <= k < front.len() && sort_posts_spec(s)[i] == front[k];
        lemma_sort_posts_member(s.drop_last(), k);
        let j = choose|j: int| 0 <= j < s.drop_last().len() && front[k] == s.drop_last()[j];
        assert(sort_posts_spec(s)[i] == s[j]);
    }
}

/// The sort keeps the count.
proof fn lemma_sort_posts_len(s: Seq<PostView>)
    ensures
        sort_posts_spec(s).len() == s.len(),
    decreases s.len(),
{
    if s.len() > 0 {
        lemma_sort_posts_len(s.drop_last());
        lemma_insert_post_len(s.last(), sort_posts_spec(s.drop_last()));
    }
}

/// `insert_post_spec` placed at the first position whose date is
/// earlier is a positional insertion.
proof fn lemma_insert_post_at(p: PostView, s: Seq<PostView>, k: int)
    requires
        0 <= k <= s.len(),
        forall|t: int| 0 <= t < k ==> date_le(p.date, #[trigger] s[t].date),
        k == s.len() || !date_le(p.date, s[k].date),
    ensures
        insert_post_spec(p, s) == s.insert(k, p),
    decreases s.len(),
{
    if k == 0 {
        if s.len() == 0 {
            assert(insert_post_spec(p, s) =~= s.insert(0, p));
        } else {
            assert(insert_post_spec(p, s) =~= s.insert(0, p));
        }
    } else {
        assert(date_le(p.date, s[0].date));
        lemma_insert_post_at(p, s.drop_first(), k - 1);
        assert(seq![s[0]] + s.drop_first().insert(k - 1, p) =~= s.insert(k, p));
    }
}

/// Sorts posts by date descending with a stable insertion sort.
pub fn sort_posts_by_date(posts: Vec<Post>) -> (r: Vec<Post>)
    ensures
        r.deep_view() == sort_posts_spec(posts.deep_view()),
        sorted_by_date_desc(r.deep_view()),
{
    let mut out: Vec<Post> = Vec::new();
    let mut idx: usize = 0;
    proof {
        assert(out.deep_view() =~= sort_posts_spec(posts.deep_view().take(0)));
    }
    while idx < posts.len()
        invariant
            0 <= idx <= posts@.len(),
            out@.len() == idx,
            out.deep_view() == sort_posts_spec(posts.deep_view().take(idx as int)),
            sorted_by_date_desc(out.deep_view()),
        decreases posts@.len() - idx,
    {
        let p = posts[idx].clone();
        let ghost pre = out.deep_view();
        let mut k: usize = 0;
        while k < out.len() && date_le_exec(p.date, out[k].date)
            invariant
                0 <= k <= out@.len(),
                out.deep_view() == pre,
                forall|t: int| 0 <= t < k ==> date_le(p@.date, #[trigger] pre[t].date),
            decreases out@.len() - k,
        {
            proof {
                assert(out@[k as int].deep_view() == pre[k as int]);
            }
            k = k + 1;
        }
        proof {
            assert(k < out@.len() ==> out@[k as int].deep_view() == pre[k as int]);
        }
        out.insert(k, p);
        proof {
            lemma_insert_post_at(p@, pre, k as int);
            assert(out.deep_view() =~= pre.insert(k as int, p@));
            lemma_insert_post_sorted(p@, pre);
            let dv = posts.deep_view();
            assert(dv.take(idx + 1).drop_last() =~= dv.take(idx as int));
            assert(dv.take(idx + 1).last() == dv[idx as int]);
            assert(p@ == dv[idx as int]);
        }
        idx = idx + 1;
    }
    proof {
        assert(posts.deep_view().take(posts@.len() as int) =~= posts.deep_view());
    }
    out
}

} // verus!
