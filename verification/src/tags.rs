//! Tag aggregation: every tag occurrence across the snapshot is
//! counted, and the distinct tags come out ordered by descending
//! frequency. Ties keep first-appearance order — a deterministic
//! secondary order in place of the unspecified tie order a hashed
//! tally would give.

use vstd::prelude::*;
use vstd::seq_lib::*;
use crate::post::{Post, PostView};
use crate::store::Store;
use crate::text::{chars_of, eq_chars};

verus! {

/// How often `t` occurs in a sequence of tags.
pub open spec fn count_of(s: Seq<Seq<char>>, t: Seq<char>) -> nat {
    s.filter(|x: Seq<char>| x == t).len()
}

/// Every tag occurrence across the posts, in snapshot order; a tag
/// carried twice counts twice.
pub open spec fn all_tags_of(posts: Seq<PostView>) -> Seq<Seq<char>>
    decreases posts.len(),
{
    if posts.len() == 0 {
        Seq::empty()
    } else {
        all_tags_of(posts.drop_last()) + posts.last().tags
    }
}

/// How often the posts carry the tag `t`.
pub open spec fn tag_count(posts: Seq<PostView>, t: Seq<char>) -> nat {
    count_of(all_tags_of(posts), t)
}

/// One tally entry.
pub struct TagCount {
    pub tag: String,
    pub count: usize,
}

/// The mathematical shadow of a tally entry.
pub struct TagCountView {
    pub tag: Seq<char>,
    pub count: usize,
}

impl View for TagCount {
    type V = TagCountView;

    open spec fn view(&self) -> TagCountView {
        TagCountView { tag: self.tag@, count: self.count }
    }
}

impl DeepView for TagCount {
    type V = TagCountView;

    open spec fn deep_view(&self) -> TagCountView {
        self.view()
    }
}

/// Collects every tag occurrence across the posts, in order.
fn flatten_tags(posts: &Vec<Post>) -> (r: Vec<String>)
    ensures
        r.deep_view() == all_tags_of(posts.deep_view()),
{
    let mut r: Vec<String> = Vec::new();
    let mut i: usize = 0;
    proof {
        assert(r.deep_view() =~= all_tags_of(posts.deep_view().take(0)));
    }
    while i < posts.len()
        invariant
            0 <= i <= posts@.len(),
            r.deep_view() == all_tags_of(posts.deep_view().take(i as int)),
        decreases posts@.len() - i,
    {
        let ghost dv = posts.deep_view();
        let post = &posts[i];
        let mut j: usize = 0;
        proof {
            assert(r.deep_view() =~= all_tags_of(dv.take(i as int)) + dv[i as int].tags.take(0));
        }
        while j < post.tags.len()
            invariant
                0 <= j <= post.tags@.len(),
                post.tags.deep_view() == dv[i as int].tags,
                r.deep_view() == all_tags_of(dv.take(i as int)) + dv[i as int].tags.take(j as int),
            decreases post.tags@.len() - j,
        {
            let ghost prev = r.deep_view();
            let tag = post.tags[j].clone();
            proof {
                assert(tag@ == dv[i as int].tags[j as int]);
            }
            r.push(tag);
            proof {
                let tags = dv[i as int].tags;
                assert(r.deep_view() =~= prev.push(tags[j as int]));
                assert(tags.take(j + 1) =~= tags.take(j as int).push(tags[j as int]));
                assert(r.deep_view() =~= all_tags_of(dv.take(i as int)) + tags.take(j + 1));
            }
            j = j + 1;
        }
        proof {
            let tags = dv[i as int].tags;
            assert(tags.take(tags.len() as int) =~= tags);
            assert(dv.take(i + 1).drop_last() =~= dv.take(i as int));
            assert(dv.take(i + 1).last() == dv[i as int]);
            assert(r.deep_view() =~= all_tags_of(dv.take(i + 1)));
        }
        i = i + 1;
    }
    proof {
        assert(posts.deep_view().take(posts@.len() as int) =~= posts.deep_view());
    }
    r
}

/// Distinct keys: no two entries tally the same tag.
spec fn distinct_tags(s: Seq<TagCountView>) -> bool {
    forall|a: int, b: int| 0 <= a < b < s.len() ==> s[a].tag != s[b].tag
}

/// Tallies the occurrences: one entry per distinct tag, holding
/// exactly how often it occurs.
fn count_occurrences(occ: &Vec<String>) -> (r: Vec<TagCount>)
    ensures
        distinct_tags(r.deep_view()),
        forall|a: int|
            0 <= a < r.deep_view().len() ==> (#[trigger] r.deep_view()[a]).count == count_of(
                occ.deep_view(),
                r.deep_view()[a].tag,
            ) && r.deep_view()[a].count > 0,
        forall|t: Seq<char>|
            count_of(occ.deep_view(), t) > 0 ==> exists|a: int|
                0 <= a < r.deep_view().len() && (#[trigger] r.deep_view()[a]).tag == t,
{
    let n = occ.len();
    let mut entries: Vec<TagCount> = Vec::new();
    let mut k: usize = 0;
    proof {
        reveal(Seq::filter);
        assert(occ.deep_view().take(0) =~= Seq::<Seq<char>>::empty());
    }
    while k < n
        invariant
            0 <= k <= n == occ@.len(),
            distinct_tags(entries.deep_view()),
            forall|a: int|
                0 <= a < entries.deep_view().len() ==> (#[trigger] entries.deep_view()[a]).count
                    == count_of(occ.deep_view().take(k as int), entries.deep_view()[a].tag)
                    && entries.deep_view()[a].count > 0,
            forall|t: Seq<char>|
                count_of(occ.deep_view().take(k as int), t) > 0 ==> exists|a: int|
                    0 <= a < entries.deep_view().len() && (#[trigger] entries.deep_view()[a]).tag
                        == t,
        decreases n - k,
    {
        let ghost odv = occ.deep_view();
        let ghost pre = entries.deep_view();
        let cur = chars_of(occ[k].as_str());
        let mut idx: usize = 0;
        let mut hit = false;
        while idx < entries.len() && !hit
            invariant
                0 <= idx <= entries@.len(),
                entries.deep_view() == pre,
                cur@ == odv[k as int],
                k < odv.len(),
                hit ==> idx < entries@.len() && pre[idx as int].tag == odv[k as int],
                !hit ==> forall|a: int| 0 <= a < idx ==> (#[trigger] pre[a]).tag != odv[k as int],
            decreases entries@.len() - idx + (if hit { 0int } else { 1int }),
        {
            let e_cs = chars_of(entries[idx].tag.as_str());
            if eq_chars(&e_cs, &cur) {
                hit = true;
            } else {
                proof {
                    assert(pre[idx as int].tag != odv[k as int]);
                }
                idx = idx + 1;
            }
        }
        proof {
            reveal(Seq::filter);
            assert(odv.take(k + 1).drop_last() =~= odv.take(k as int));
            assert(odv.take(k + 1).last() == odv[k as int]);
            assert forall|t: Seq<char>| true implies count_of(odv.take(k + 1), t) == count_of(
                odv.take(k as int),
                t,
            ) + (if t == odv[k as int] {
                1int
            } else {
                0int
            }) by {
                let pred = |x: Seq<char>| x == t;
                if pred(odv[k as int]) {
                } else {
                }
            }
        }
        if hit {
            let mut e = entries.remove(idx);
            proof {
                assert(e.count == count_of(odv.take(k as int), e.tag@));
                assert(count_of(odv.take(k as int), e.tag@) <= odv.take(k as int).len()) by {
                    odv.take(k as int).lemma_filter_len(|x: Seq<char>| x == e.tag@);
                }
            }
            e.count = e.count + 1;
            entries.insert(idx, e);
            proof {
                assert(entries.deep_view() =~= pre.update(idx as int, entries.deep_view()[idx as int]));
                assert(entries.deep_view()[idx as int].tag == odv[k as int]);
                assert(entries.deep_view()[idx as int].count == count_of(odv.take(k + 1), odv[k as int]));
                let now = entries.deep_view();
                assert forall|t: Seq<char>| #[trigger] count_of(odv.take(k + 1), t) > 0 implies exists|a: int|
                    0 <= a < now.len() && (#[trigger] now[a]).tag == t by {
                    if t == odv[k as int] {
                        assert(now[idx as int].tag == t);
                    } else {
                        assert(count_of(odv.take(k as int), t) > 0);
                        assert(exists|a: int|
                            0 <= a < pre.len() && (#[trigger] pre[a]).tag == t);
                        let a = choose|a: int| 0 <= a < pre.len() && (#[trigger] pre[a]).tag == t;
                        assert(now[a].tag == t);
                    }
                }
            }
        } else {
            let tag_copy = occ[k].clone();
            entries.push(TagCount { tag: tag_copy, count: 1 });
            proof {
                assert(count_of(odv.take(k as int), odv[k as int]) == 0) by {
                    if count_of(odv.take(k as int), odv[k as int]) > 0 {
                        let a = choose|a: int|
                            0 <= a < pre.len() && (#[trigger] pre[a]).tag == odv[k as int];
                        assert(false);
                    }
                }
                assert(entries.deep_view() =~= pre.push(entries.deep_view()[pre.len() as int]));
                assert(entries.deep_view()[pre.len() as int].tag == odv[k as int]);
                assert(entries.deep_view()[pre.len() as int].count == 1);
                let now = entries.deep_view();
                assert forall|t: Seq<char>| #[trigger] count_of(odv.take(k + 1), t) > 0 implies exists|a: int|
                    0 <= a < now.len() && (#[trigger] now[a]).tag == t by {
                    if t == odv[k as int] {
                        assert(now[pre.len() as int].tag == t);
                    } else {
                        assert(count_of(odv.take(k as int), t) > 0);
                        assert(exists|a: int|
                            0 <= a < pre.len() && (#[trigger] pre[a]).tag == t);
                        let a = choose|a: int| 0 <= a < pre.len() && (#[trigger] pre[a]).tag == t;
                        assert(now[a].tag == t);
                    }
                }
            }
        }
        k = k + 1;
    }
    proof {
        assert(occ.deep_view().take(occ@.len() as int) =~= occ.deep_view());
    }
    entries
}

/// Sorted by count, largest first.
spec fn sorted_by_count_desc(s: Seq<TagCountView>) -> bool {
    forall|i: int, j: int| 0 <= i < j < s.len() ==> s[i].count >= s[j].count
}

/// Splicing one element in adds exactly that element to the
/// membership.
proof fn lemma_insert_contains<A>(s: Seq<A>, k: int, e: A, x: A)
    requires
        0 <= k <= s.len(),
    ensures
        s.insert(k, e).contains(x) <==> (s.contains(x) || x == e),
{
    s.insert_ensures(k, e);
    let r = s.insert(k, e);
    if s.contains(x) {
        let i = choose|i: int| 0 <= i < s.len() && s[i] == x;
        if i < k {
            assert(r[i] == x);
        } else {
            assert(r[i + 1] == x);
        }
    }
    if x == e {
        assert(r[k] == x);
    }
    if r.contains(x) {
        let i = choose|i: int| 0 <= i < r.len() && r[i] == x;
        if i < k {
            assert(s[i] == x);
        } else if i == k {
        } else {
            assert(r[(i - 1) + 1] == s[i - 1]);
        }
    }
}

/// Sorts the tally by count descending with a stable insertion sort;
/// entries with equal counts keep their first-appearance order.
fn sort_entries(entries: Vec<TagCount>) -> (r: Vec<TagCount>)
    requires
        distinct_tags(entries.deep_view()),
    ensures
        sorted_by_count_desc(r.deep_view()),
        distinct_tags(r.deep_view()),
        forall|x: TagCountView|
            r.deep_view().contains(x) <==> entries.deep_view().contains(x),
{
    let mut out: Vec<TagCount> = Vec::new();
    let mut idx: usize = 0;
    while idx < entries.len()
        invariant
            0 <= idx <= entries@.len(),
            distinct_tags(entries.deep_view()),
            out@.len() == idx,
            sorted_by_count_desc(out.deep_view()),
            distinct_tags(out.deep_view()),
            forall|x: TagCountView|
                out.deep_view().contains(x) <==> entries.deep_view().take(idx as int).contains(x),
        decreases entries@.len() - idx,
    {
        let ghost dv = entries.deep_view();
        let ghost pre = out.deep_view();
        let e = TagCount { tag: entries[idx].tag.clone(), count: entries[idx].count };
        proof {
            assert(e@ == dv[idx as int]);
        }
        let mut k: usize = 0;
        while k < out.len() && out[k].count >= e.count
            invariant
                0 <= k <= out@.len(),
                out.deep_view() == pre,
                forall|t: int| 0 <= t < k ==> (#[trigger] pre[t]).count >= e@.count,
            decreases out@.len() - k,
        {
            proof {
                assert(out@[k as int].deep_view() == pre[k as int]);
            }
            k = k + 1;
        }
        proof {
            assert(k < out@.len() ==> out@[k as int].deep_view() == pre[k as int]);
        }
        out.insert(k, e);
        proof {
            pre.insert_ensures(k as int, dv[idx as int]);
            assert(out.deep_view() =~= pre.insert(k as int, dv[idx as int]));
            let now = out.deep_view();
            // sortedness across the splice
            assert forall|i: int, j: int| 0 <= i < j < now.len() implies now[i].count
                >= now[j].count by {
                if i < k && j < k {
                } else if i < k && j == k {
                } else if i == k && j > k {
                    assert(now[j] == pre[j - 1]);
                    assert(!(pre[k as int].count >= dv[idx as int].count) || k == pre.len());
                    if k < pre.len() {
                        assert(pre[k as int].count <= pre[j - 1].count || pre[k as int].count
                            >= pre[j - 1].count);
                    }
                } else if i < k && j > k {
                    assert(now[j] == pre[j - 1]);
                } else {
                    assert(now[i] == pre[i - 1]);
                    assert(now[j] == pre[j - 1]);
                }
            }
            // membership across the splice
            assert forall|x: TagCountView| true implies (now.contains(x) <==> dv.take(
                idx + 1,
            ).contains(x)) by {
                lemma_insert_contains(pre, k as int, dv[idx as int], x);
                assert(dv.take(idx + 1).drop_last() =~= dv.take(idx as int));
                if dv.take(idx as int).contains(x) {
                    let a = choose|a: int| 0 <= a < idx && dv.take(idx as int)[a] == x;
                    assert(dv.take(idx + 1)[a] == x);
                }
                if x == dv[idx as int] {
                    assert(dv.take(idx + 1)[idx as int] == x);
                }
                if dv.take(idx + 1).contains(x) {
                    let a = choose|a: int| 0 <= a <= idx && (#[trigger] dv.take(idx + 1)[a]) == x;
                    if a < idx {
                        assert(dv.take(idx as int)[a] == x);
                    }
                }
            }
            // distinctness across the splice
            assert forall|a: int, b: int| 0 <= a < b < now.len() implies now[a].tag
                != now[b].tag by {
                let xa = if a < k {
                    pre[a]
                } else if a == k {
                    dv[idx as int]
                } else {
                    pre[a - 1]
                };
                let xb = if b < k {
                    pre[b]
                } else if b == k {
                    dv[idx as int]
                } else {
                    pre[b - 1]
                };
                assert(now[a] == xa);
                assert(now[b] == xb);
                if a == k || b == k {
                    let other = if a == k {
                        xb
                    } else {
                        xa
                    };
                    assert(pre.contains(other));
                    let c = choose|c: int| 0 <= c < idx && dv.take(idx as int)[c] == other;
                    assert(dv[c] == other);
                    assert(dv[c].tag != dv[idx as int].tag);
                }
            }
        }
        idx = idx + 1;
    }
    proof {
        assert(entries.deep_view().take(entries@.len() as int) =~= entries.deep_view());
    }
    out
}

/// The distinct tags of the snapshot, ordered by how often they occur,
/// most frequent first; ties keep first-appearance order. A tag is
/// listed exactly where it occurs at all, and no tag is listed twice.
pub fn tags_by_frequency(posts: &Vec<Post>) -> (r: Vec<String>)
    ensures
        forall|i: int, j: int|
            0 <= i < j < r.deep_view().len() ==> r.deep_view()[i] != r.deep_view()[j],
        forall|t: Seq<char>|
            r.deep_view().contains(t) <==> tag_count(posts.deep_view(), t) > 0,
        forall|i: int, j: int|
            0 <= i < j < r.deep_view().len() ==> tag_count(posts.deep_view(), r.deep_view()[i])
                >= tag_count(posts.deep_view(), r.deep_view()[j]),
{
    let occ = flatten_tags(posts);
    let entries = count_occurrences(&occ);
    let sorted = sort_entries(entries);
    let ghost eds = entries.deep_view();
    let ghost sds = sorted.deep_view();
    let mut r: Vec<String> = Vec::new();
    let mut i: usize = 0;
    while i < sorted.len()
        invariant
            0 <= i <= sorted@.len(),
            sds == sorted.deep_view(),
            r.deep_view().len() == i,
            forall|a: int| 0 <= a < i ==> r.deep_view()[a] == (#[trigger] sds[a]).tag,
        decreases sorted@.len() - i,
    {
        r.push(sorted[i].tag.clone());
        i = i + 1;
    }
    proof {
        let odv = occ.deep_view();
        let pdv = posts.deep_view();
        let rdv = r.deep_view();
        // every listed tag is an entry's tag, with the entry's count
        assert forall|a: int| 0 <= a < rdv.len() implies eds.contains(sds[a]) && (
        #[trigger] rdv[a]) == sds[a].tag && sds[a].count == tag_count(pdv, rdv[a]) by {
            assert(sds.contains(sds[a]));
            let b = choose|b: int| 0 <= b < eds.len() && eds[b] == sds[a];
            assert(eds[b].count == count_of(odv, eds[b].tag));
        }
        // distinctness carries over from the entries
        assert forall|i1: int, j1: int| 0 <= i1 < j1 < rdv.len() implies rdv[i1] != rdv[j1] by {
            assert(sds[i1].tag != sds[j1].tag);
        }
        // membership: listed exactly where the count is positive
        assert forall|t: Seq<char>| true implies (rdv.contains(t) <==> tag_count(pdv, t) > 0) by {
            if rdv.contains(t) {
                let a = choose|a: int| 0 <= a < rdv.len() && rdv[a] == t;
                assert(sds[a].count == tag_count(pdv, t));
            }
            if tag_count(pdv, t) > 0 {
                let a = choose|a: int| 0 <= a < eds.len() && (#[trigger] eds[a]).tag == t;
                assert(sds.contains(eds[a]));
                let b = choose|b: int| 0 <= b < sds.len() && sds[b] == eds[a];
                assert(rdv[b] == t);
            }
        }
    }
    r
}

/// The distinct tags of the current snapshot, ordered by descending
/// frequency within whichever snapshot the reader lands on; no tag is
/// listed twice.
pub fn get_all_tags(store: &Store) -> (r: Vec<String>)
    ensures
        forall|i: int, j: int|
            0 <= i < j < r.deep_view().len() ==> r.deep_view()[i] != r.deep_view()[j],
{
    let posts = store.all();
    tags_by_frequency(&posts)
}

} // verus!
