//! The loader: from an enumerated directory to an ordered batch of
//! posts. Files whose name does not end in `.md` are ignored, the rest
//! are processed in filename-ascending order, every per-file failure
//! skips that file alone, and the survivors are sorted by date
//! descending with ties kept in processing order.

use vstd::prelude::*;
use vstd::seq_lib::*;
use crate::date::{Date, date_wf, lemma_valid_date_wf, valid_date_chars};
use crate::frontmatter::{fm_text_spec, frontmatter_of};
use crate::post::{Post, PostView, parse_post, parse_spec};
use crate::sorting::{
    lemma_sort_posts_member, lemma_sort_posts_stable, sort_posts_by_date, sort_posts_spec,
    sorted_by_date_desc, with_date,
};
use crate::text::trim_start_spec;
use crate::text::{chars_of, lex_le, lemma_lex_le_total, lemma_lex_le_trans, lex_le_chars};

verus! {

/// One directory entry as the loader receives it: the file's name and
/// its contents, absent where the file was unreadable.
pub struct SourceFile {
    pub name: String,
    pub content: Option<String>,
}

/// The mathematical shadow of `SourceFile`.
pub struct SourceFileView {
    pub name: Seq<char>,
    pub content: Option<Seq<char>>,
}

impl View for SourceFile {
    type V = SourceFileView;

    open spec fn view(&self) -> SourceFileView {
        SourceFileView {
            name: self.name@,
            content: match self.content {
                Some(c) => Some(c@),
                None => None,
            },
        }
    }
}

impl DeepView for SourceFile {
    type V = SourceFileView;

    open spec fn deep_view(&self) -> SourceFileView {
        self.view()
    }
}

impl Clone for SourceFile {
    /// An independent copy whose view is the same.
    fn clone(&self) -> (r: Self)
        ensures
            r@ == self@,
    {
        SourceFile {
            name: self.name.clone(),
            content: match &self.content {
                Some(c) => Some(c.clone()),
                None => None,
            },
        }
    }
}

/// The name ends in the markdown extension.
pub open spec fn ends_md(name: Seq<char>) -> bool {
    name.len() >= 3 && name.subrange(name.len() - 3, name.len() as int) == seq!['.', 'm', 'd']
}

/// The entries the loader keeps: those with the markdown extension.
pub open spec fn md_files(files: Seq<SourceFileView>) -> Seq<SourceFileView> {
    files.filter(|f: SourceFileView| ends_md(f.name))
}

/// Decides `ends_md` on a concrete name.
fn ends_md_exec(name: &String) -> (r: bool)
    ensures
        r == ends_md(name@),
{
    let cs = chars_of(name.as_str());
    let n = cs.len();
    if n < 3 {
        return false;
    }
    let r = cs[n - 3] == '.' && cs[n - 2] == 'm' && cs[n - 1] == 'd';
    proof {
        if r {
            assert(name@.subrange(name@.len() - 3, name@.len() as int) =~= seq!['.', 'm', 'd']);
        } else {
            assert(name@.subrange(name@.len() - 3, name@.len() as int) != seq!['.', 'm', 'd']);
        }
    }
    r
}

/// Keeps the entries with the markdown extension, in order.
fn filter_md(files: &Vec<SourceFile>) -> (r: Vec<SourceFile>)
    ensures
        r.deep_view() == md_files(files.deep_view()),
{
    let mut r: Vec<SourceFile> = Vec::new();
    let mut i: usize = 0;
    proof {
        reveal(Seq::filter);
        assert(r.deep_view() =~= files.deep_view().take(0).filter(
            |f: SourceFileView| ends_md(f.name),
        ));
    }
    while i < files.len()
        invariant
            0 <= i <= files@.len(),
            r.deep_view() == files.deep_view().take(i as int).filter(
                |f: SourceFileView| ends_md(f.name),
            ),
        decreases files@.len() - i,
    {
        let ghost dv = files.deep_view();
        let keep = ends_md_exec(&files[i].name);
        if keep {
            r.push(files[i].clone());
        }
        proof {
            reveal(Seq::filter);
            assert(dv.take(i + 1).drop_last() =~= dv.take(i as int));
            assert(dv.take(i + 1).last() == dv[i as int]);
            if keep {
                assert(r.deep_view() =~= dv.take(i as int).filter(
                    |f: SourceFileView| ends_md(f.name),
                ).push(dv[i as int]));
            }
        }
        i = i + 1;
    }
    proof {
        assert(files.deep_view().take(files@.len() as int) =~= files.deep_view());
    }
    r
}

/// Sorted by filename ascending.
pub open spec fn sorted_by_name(s: Seq<SourceFileView>) -> bool {
    forall|i: int, j: int| 0 <= i < j < s.len() ==> lex_le(s[i].name, s[j].name)
}

/// Where an entry goes in a batch sorted by name: after every entry
/// whose name is the same or earlier.
pub open spec fn insert_file_spec(f: SourceFileView, s: Seq<SourceFileView>) -> Seq<SourceFileView>
    decreases s.len(),
{
    if s.len() == 0 {
        seq![f]
    } else if lex_le(s[0].name, f.name) {
        seq![s[0]] + insert_file_spec(f, s.drop_first())
    } else {
        seq![f] + s
    }
}

/// The sort by filename ascending, entries inserted in input order.
pub open spec fn sort_files_spec(s: Seq<SourceFileView>) -> Seq<SourceFileView>
    decreases s.len(),
{
    if s.len() == 0 {
        Seq::empty()
    } else {
        insert_file_spec(s.last(), sort_files_spec(s.drop_last()))
    }
}

/// Inserting into a name-sorted batch keeps it sorted.
proof fn lemma_insert_file_sorted(f: SourceFileView, s: Seq<SourceFileView>)
    requires
        sorted_by_name(s),
    ensures
        sorted_by_name(insert_file_spec(f, s)),
    decreases s.len(),
{
    if s.len() == 0 {
    } else if lex_le(s[0].name, f.name) {
        assert(sorted_by_name(s.drop_first()));
        lemma_insert_file_sorted(f, s.drop_first());
        let r = seq![s[0]] + insert_file_spec(f, s.drop_first());
        assert forall|i: int, j: int| 0 <= i < j < r.len() implies lex_le(
            r[i].name,
            r[j].name,
        ) by {
            if i == 0 {
                lemma_insert_file_member(f, s.drop_first(), j - 1);
                if r[j] == f {
                } else {
                    let k = choose|k: int|
                        0 <= k < s.drop_first().len() && r[j] == s.drop_first()[k];
                    assert(lex_le(s[0].name, s[k + 1].name));
                }
            }
        }
    } else {
        lemma_lex_le_total(s[0].name, f.name);
        let r = seq![f] + s;
        assert forall|i: int, j: int| 0 <= i < j < r.len() implies lex_le(
            r[i].name,
            r[j].name,
        ) by {
            if i == 0 && j > 0 {
                if j == 1 {
                } else {
                    assert(lex_le(s[0].name, s[j - 1].name));
                    lemma_lex_le_trans(f.name, s[0].name, s[j - 1].name);
                }
            }
        }
    }
}

/// Inserting grows the batch by one.
proof fn lemma_insert_file_len(f: SourceFileView, s: Seq<SourceFileView>)
    ensures
        insert_file_spec(f, s).len() == s.len() + 1,
    decreases s.len(),
{
    if s.len() > 0 && lex_le(s[0].name, f.name) {
        lemma_insert_file_len(f, s.drop_first());
    }
}

/// Every element of an inserted batch is the new entry or an old one.
proof fn lemma_insert_file_member(f: SourceFileView, s: Seq<SourceFileView>, i: int)
    requires
        0 <= i < insert_file_spec(f, s).len(),
    ensures
        insert_file_spec(f, s)[i] == f || exists|k: int|
            0 <= k < s.len() && insert_file_spec(f, s)[i] == s[k],
    decreases s.len(),
{
    lemma_insert_file_len(f, s);
    if s.len() == 0 {
    } else if lex_le(s[0].name, f.name) {
        if i > 0 {
            lemma_insert_file_member(f, s.drop_first(), i - 1);
            let t = insert_file_spec(f, s.drop_first());
            if t[i - 1] == f {
            } else {
                let k = choose|k: int| 0 <= k < s.drop_first().len() && t[i - 1] == s.drop_first()[k];
                assert(insert_file_spec(f, s)[i] == s[k + 1]);
            }
        }
    } else {
    }
}

/// `insert_file_spec` placed at the first position whose name is later
/// is a positional insertion.
proof fn lemma_insert_file_at(f: SourceFileView, s: Seq<SourceFileView>, k: int)
    requires
        0 <= k <= s.len(),
        forall|t: int| 0 <= t < k ==> lex_le((#[trigger] s[t]).name, f.name),
        k == s.len() || !lex_le(s[k].name, f.name),
    ensures
        insert_file_spec(f, s) == s.insert(k, f),
    decreases s.len(),
{
    if k == 0 {
        assert(insert_file_spec(f, s) =~= s.insert(0, f));
    } else {
        assert(lex_le(s[0].name, f.name));
        lemma_insert_file_at(f, s.drop_first(), k - 1);
        assert(seq![s[0]] + s.drop_first().insert(k - 1, f) =~= s.insert(k, f));
    }
}

/// Decides whether one entry's name is the same or earlier than the
/// given name.
fn name_le(a: &SourceFile, b_cs: &Vec<char>) -> (r: bool)
    ensures
        r == lex_le(a@.name, b_cs@),
{
    let a_cs = chars_of(a.name.as_str());
    lex_le_chars(&a_cs, b_cs)
}

/// Sorts entries by filename ascending with an insertion sort.
fn sort_files_by_name(files: Vec<SourceFile>) -> (r: Vec<SourceFile>)
    ensures
        r.deep_view() == sort_files_spec(files.deep_view()),
        sorted_by_name(r.deep_view()),
{
    let mut out: Vec<SourceFile> = Vec::new();
    let mut idx: usize = 0;
    proof {
        assert(out.deep_view() =~= sort_files_spec(files.deep_view().take(0)));
    }
    while idx < files.len()
        invariant
            0 <= idx <= files@.len(),
            out@.len() == idx,
            out.deep_view() == sort_files_spec(files.deep_view().take(idx as int)),
            sorted_by_name(out.deep_view()),
        decreases files@.len() - idx,
    {
        let f = files[idx].clone();
        let f_cs = chars_of(f.name.as_str());
        let ghost pre = out.deep_view();
        let mut k: usize = 0;
        while k < out.len() && name_le(&out[k], &f_cs)
            invariant
                0 <= k <= out@.len(),
                out.deep_view() == pre,
                f_cs@ == f@.name,
                forall|t: int| 0 <= t < k ==> lex_le((#[trigger] pre[t]).name, f@.name),
            decreases out@.len() - k,
        {
            proof {
                assert(out@[k as int].deep_view() == pre[k as int]);
            }
            k = k + 1;
        }
        proof {
            assert(k < out@.len() ==> out@[k as int].deep_view() == pre[k as int]);
        }
        out.insert(k, f);
        proof {
            lemma_insert_file_at(f@, pre, k as int);
            assert(out.deep_view() =~= pre.insert(k as int, f@));
            lemma_insert_file_sorted(f@, pre);
            let dv = files.deep_view();
            assert(dv.take(idx + 1).drop_last() =~= dv.take(idx as int));
            assert(dv.take(idx + 1).last() == dv[idx as int]);
        }
        idx = idx + 1;
    }
    proof {
        assert(files.deep_view().take(files@.len() as int) =~= files.deep_view());
    }
    out
}

/// The posts the parser yields from a batch, in batch order: an
/// unreadable or malformed file contributes nothing and aborts nothing.
pub open spec fn parse_oks(files: Seq<SourceFileView>) -> Seq<PostView>
    decreases files.len(),
{
    if files.len() == 0 {
        Seq::empty()
    } else {
        let rest = parse_oks(files.drop_last());
        let f = files.last();
        match f.content {
            None => rest,
            Some(c) => match parse_spec(f.name, c) {
                Some(p) => rest.push(p),
                None => rest,
            },
        }
    }
}

/// Parses each entry in order, skipping every failing one.
fn parse_files(files: &Vec<SourceFile>) -> (r: Vec<Post>)
    ensures
        r.deep_view() == parse_oks(files.deep_view()),
{
    let mut out: Vec<Post> = Vec::new();
    let mut i: usize = 0;
    proof {
        assert(out.deep_view() =~= parse_oks(files.deep_view().take(0)));
    }
    while i < files.len()
        invariant
            0 <= i <= files@.len(),
            out.deep_view() == parse_oks(files.deep_view().take(i as int)),
        decreases files@.len() - i,
    {
        let ghost dv = files.deep_view();
        let ghost pre = out.deep_view();
        match &files[i].content {
            None => {},
            Some(c) => {
                match parse_post(files[i].name.as_str(), c.as_str()) {
                    Ok(p) => {
                        out.push(p);
                    },
                    Err(_) => {},
                }
            },
        }
        proof {
            assert(dv.take(i + 1).drop_last() =~= dv.take(i as int));
            assert(dv.take(i + 1).last() == dv[i as int]);
            assert(out.deep_view() =~= parse_oks(dv.take(i + 1)));
        }
        i = i + 1;
    }
    proof {
        assert(files.deep_view().take(files@.len() as int) =~= files.deep_view());
    }
    out
}

/// What one loader run yields from the enumerated directory: the
/// markdown entries, in filename-ascending order, each parsed with
/// failures skipped, and the batch sorted by date descending with the
/// filename order as the tie-break.
pub open spec fn loaded_spec(files: Seq<SourceFileView>) -> Seq<PostView> {
    sort_posts_spec(parse_oks(sort_files_spec(md_files(files))))
}

/// Builds the snapshot one loader run hands to the store.
pub fn build_snapshot(files: Vec<SourceFile>) -> (r: Vec<Post>)
    ensures
        r.deep_view() == loaded_spec(files.deep_view()),
        sorted_by_date_desc(r.deep_view()),
        forall|i: int|
            0 <= i < r.deep_view().len() ==> date_wf((#[trigger] r.deep_view()[i]).date),
{
    let only_md = filter_md(&files);
    let ordered = sort_files_by_name(only_md);
    let parsed = parse_files(&ordered);
    let r = sort_posts_by_date(parsed);
    proof {
        assert forall|i: int| 0 <= i < r.deep_view().len() implies date_wf(
            (#[trigger] r.deep_view()[i]).date,
        ) by {
            lemma_snapshot_dates_wf(files.deep_view(), i);
        }
    }
    r
}

/// An empty directory loads to an empty snapshot.
pub proof fn lemma_loaded_empty()
    ensures
        loaded_spec(Seq::<SourceFileView>::empty()) == Seq::<PostView>::empty(),
{
    reveal(Seq::filter);
    assert(md_files(Seq::<SourceFileView>::empty()) =~= Seq::<SourceFileView>::empty());
}

/// A post the parser yields carries the date its file's frontmatter
/// spelled, so its date is well-formed.
proof fn lemma_parse_spec_date_wf(name: Seq<char>, content: Seq<char>)
    requires
        parse_spec(name, content) is Some,
    ensures
        date_wf(parse_spec(name, content)->Some_0.date),
{
    let t = trim_start_spec(content);
    let f = frontmatter_of(fm_text_spec(t))->Some_0;
    assert(valid_date_chars(f.date_text));
    lemma_valid_date_wf(f.date_text);
}

/// Every post the parse stage yields has a well-formed date.
proof fn lemma_parse_oks_dates_wf(files: Seq<SourceFileView>, k: int)
    requires
        0 <= k < parse_oks(files).len(),
    ensures
        date_wf(parse_oks(files)[k].date),
    decreases files.len(),
{
    if files.len() > 0 {
        let rest = parse_oks(files.drop_last());
        let f = files.last();
        if k < rest.len() {
            lemma_parse_oks_dates_wf(files.drop_last(), k);
        } else {
            match f.content {
                None => {
                    lemma_parse_oks_dates_wf(files.drop_last(), k);
                },
                Some(c) => {
                    if parse_spec(f.name, c) is Some {
                        lemma_parse_spec_date_wf(f.name, c);
                    } else {
                        lemma_parse_oks_dates_wf(files.drop_last(), k);
                    }
                },
            }
        }
    }
}

/// The invariant of the persisted record: every post in a loaded
/// snapshot has a date successfully parsed from its source file.
pub proof fn lemma_snapshot_dates_wf(files: Seq<SourceFileView>, i: int)
    requires
        0 <= i < loaded_spec(files).len(),
    ensures
        date_wf(loaded_spec(files)[i].date),
{
    let parsed = parse_oks(sort_files_spec(md_files(files)));
    lemma_sort_posts_member(parsed, i);
    let k = choose|k: int| 0 <= k < parsed.len() && loaded_spec(files)[i] == parsed[k];
    lemma_parse_oks_dates_wf(sort_files_spec(md_files(files)), k);
}

/// The final sort is stable: for every date, the snapshot lists that
/// date's posts exactly as the filename-ordered parse produced them,
/// so posts sharing a date keep their filename-ascending order.
pub proof fn lemma_snapshot_stable_per_date(files: Seq<SourceFileView>, d: Date)
    ensures
        with_date(loaded_spec(files), d) == with_date(
            parse_oks(sort_files_spec(md_files(files))),
            d,
        ),
{
    lemma_sort_posts_stable(parse_oks(sort_files_spec(md_files(files))), d);
}

/// `parse_oks` distributes over concatenation.
proof fn lemma_parse_oks_concat(a: Seq<SourceFileView>, b: Seq<SourceFileView>)
    ensures
        parse_oks(a + b) == parse_oks(a) + parse_oks(b),
    decreases b.len(),
{
    if b.len() == 0 {
        assert(a + b =~= a);
        assert(parse_oks(a) + parse_oks(b) =~= parse_oks(a));
    } else {
        assert((a + b).drop_last() =~= a + b.drop_last());
        assert((a + b).last() == b.last());
        lemma_parse_oks_concat(a, b.drop_last());
        let f = b.last();
        match f.content {
            None => {},
            Some(c) => {
                if parse_spec(f.name, c) is Some {
                    assert((parse_oks(a) + parse_oks(b.drop_last())).push(
                        parse_spec(f.name, c)->Some_0,
                    ) =~= parse_oks(a) + parse_oks(b.drop_last()).push(
                        parse_spec(f.name, c)->Some_0,
                    ));
                }
            },
        }
    }
}

/// A file that fails to parse contributes nothing, wherever the name
/// sort places it.
proof fn lemma_parse_oks_insert_failed(f: SourceFileView, s: Seq<SourceFileView>)
    requires
        match f.content {
            None => true,
            Some(c) => parse_spec(f.name, c) is None,
        },
    ensures
        parse_oks(insert_file_spec(f, s)) == parse_oks(s),
    decreases s.len(),
{
    if s.len() == 0 {
        assert(seq![f].drop_last() =~= Seq::<SourceFileView>::empty());
        assert(parse_oks(Seq::<SourceFileView>::empty()) =~= Seq::<PostView>::empty());
        assert(seq![f].last() == f);
        assert(parse_oks(seq![f]) =~= parse_oks(s));
    } else if lex_le(s[0].name, f.name) {
        lemma_parse_oks_insert_failed(f, s.drop_first());
        lemma_parse_oks_concat(seq![s[0]], insert_file_spec(f, s.drop_first()));
        lemma_parse_oks_concat(seq![s[0]], s.drop_first());
        assert(seq![s[0]] + s.drop_first() =~= s);
    } else {
        lemma_parse_oks_concat(seq![f], s);
        assert(seq![f].drop_last() =~= Seq::<SourceFileView>::empty());
        assert(parse_oks(Seq::<SourceFileView>::empty()) =~= Seq::<PostView>::empty());
        assert(seq![f].last() == f);
        assert(parse_oks(seq![f]) =~= Seq::<PostView>::empty());
        assert(Seq::<PostView>::empty() + parse_oks(s) =~= parse_oks(s));
    }
}

/// A file that fails to parse is excluded from the batch and excludes
/// nothing else: loading with it yields the same snapshot as loading
/// without it.
pub proof fn lemma_failed_file_excluded(files: Seq<SourceFileView>, f: SourceFileView)
    requires
        match f.content {
            None => true,
            Some(c) => parse_spec(f.name, c) is None,
        },
    ensures
        loaded_spec(files.push(f)) == loaded_spec(files),
{
    reveal(Seq::filter);
    let pred = |g: SourceFileView| ends_md(g.name);
    assert(files.push(f).drop_last() =~= files);
    if !ends_md(f.name) {
        assert(md_files(files.push(f)) == md_files(files));
    } else {
        assert(md_files(files.push(f)) == md_files(files).push(f));
        let m = md_files(files);
        assert(m.push(f).drop_last() =~= m);
        assert(sort_files_spec(m.push(f)) == insert_file_spec(f, sort_files_spec(m)));
        lemma_parse_oks_insert_failed(f, sort_files_spec(m));
    }
}

} // verus!
