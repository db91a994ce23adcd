//! The cache store: one snapshot behind a multi-reader single-writer
//! guard, replaced wholesale and only ever read as a whole.

use vstd::prelude::*;
use vstd::rwlock::{RwLock, RwLockPredicate};
use crate::date::date_wf;
use crate::loader::{SourceFile, build_snapshot};
use crate::post::{Post, PostView};
use crate::sorting::sorted_by_date_desc;
use crate::text::{chars_of, eq_chars};

verus! {

/// What holds of every snapshot: it is ordered by date descending, as
/// one whole loader run produced it, and every post in it carries a
/// well-formed parsed date.
pub open spec fn snapshot_wf(v: Seq<PostView>) -> bool {
    &&& sorted_by_date_desc(v)
    &&& forall|i: int| 0 <= i < v.len() ==> date_wf((#[trigger] v[i]).date)
}

/// The guard's invariant: only well-formed snapshots are admitted.
pub struct SnapshotPred {}

impl RwLockPredicate<Vec<Post>> for SnapshotPred {
    open spec fn inv(self, v: Vec<Post>) -> bool {
        snapshot_wf(v.deep_view())
    }
}

/// Copies a snapshot, post for post.
pub fn clone_posts(posts: &Vec<Post>) -> (r: Vec<Post>)
    ensures
        r.deep_view() == posts.deep_view(),
{
    let mut r: Vec<Post> = Vec::new();
    let mut i: usize = 0;
    proof {
        assert(r.deep_view() =~= posts.deep_view().take(0));
    }
    while i < posts.len()
        invariant
            0 <= i <= posts@.len(),
            r.deep_view() == posts.deep_view().take(i as int),
        decreases posts@.len() - i,
    {
        r.push(posts[i].clone());
        proof {
            let dv = posts.deep_view();
            assert(dv.take(i + 1) =~= dv.take(i as int).push(dv[i as int]));
            assert(r.deep_view() =~= dv.take(i as int).push(dv[i as int]));
        }
        i = i + 1;
    }
    proof {
        assert(posts.deep_view().take(posts@.len() as int) =~= posts.deep_view());
    }
    r
}

/// The first post carrying the given slug, by exact, case-sensitive
/// comparison; `None` where no post does — an absent key is no error.
pub fn find_by_slug(posts: &Vec<Post>, slug: &str) -> (r: Option<Post>)
    ensures
        r matches Some(p) ==> p@.slug == slug@ && exists|i: int|
            0 <= i < posts.deep_view().len() && posts.deep_view()[i] == p@ && forall|j: int|
                0 <= j < i ==> (#[trigger] posts.deep_view()[j]).slug != slug@,
        r is None <==> forall|i: int|
            0 <= i < posts.deep_view().len() ==> (#[trigger] posts.deep_view()[i]).slug != slug@,
{
    let slug_cs = chars_of(slug);
    let mut i: usize = 0;
    while i < posts.len()
        invariant
            0 <= i <= posts@.len(),
            slug_cs@ == slug@,
            forall|j: int| 0 <= j < i ==> (#[trigger] posts.deep_view()[j]).slug != slug@,
        decreases posts@.len() - i,
    {
        let cs = chars_of(posts[i].slug.as_str());
        if eq_chars(&cs, &slug_cs) {
            let p = posts[i].clone();
            proof {
                assert(posts.deep_view()[i as int] == p@);
            }
            return Some(p);
        }
        proof {
            assert(posts.deep_view()[i as int].slug != slug@);
        }
        i = i + 1;
    }
    None
}

/// The store: one snapshot reference, owned here and guarded for
/// concurrent access. Readers are blocked only for the instant of a
/// writer's swap, and always observe one complete snapshot — the guard
/// hands a reader a single `Vec<Post>` value that a single `replace`
/// installed whole, never an interleaving of two.
pub struct Store {
    lock: RwLock<Vec<Post>, SnapshotPred>,
}

impl Store {
    /// A store whose snapshot is empty until the first `replace`.
    pub fn new() -> Store {
        Store { lock: RwLock::new(Vec::new(), Ghost(SnapshotPred {  })) }
    }

    /// Swaps the held snapshot for the given one; the swap itself is
    /// the only critical section.
    pub fn replace(&self, posts: Vec<Post>)
        requires
            snapshot_wf(posts.deep_view()),
    {
        let (_old_snapshot, handle) = self.lock.acquire_write();
        handle.release_write(posts);
    }

    /// A full, independent copy of the current snapshot. Whichever
    /// snapshot the reader lands on, it is well-formed as a whole.
    pub fn all(&self) -> (r: Vec<Post>)
        ensures
            snapshot_wf(r.deep_view()),
    {
        let read = self.lock.acquire_read();
        let snapshot = read.borrow();
        let r = clone_posts(snapshot);
        read.release_read();
        r
    }

    /// The first post of the current snapshot carrying the given slug.
    pub fn by_slug(&self, slug: &str) -> (r: Option<Post>)
        ensures
            r matches Some(p) ==> p@.slug == slug@,
    {
        let read = self.lock.acquire_read();
        let snapshot = read.borrow();
        let r = find_by_slug(snapshot, slug);
        read.release_read();
        r
    }
}

/// Scans the given entries and atomically replaces the store's
/// snapshot with the resulting batch. Every per-file failure skips
/// that file alone; the outcome is observed only by querying the
/// store afterwards.
pub fn load_posts(store: &Store, files: Vec<SourceFile>) {
    let snapshot = build_snapshot(files);
    store.replace(snapshot);
}

/// A full, independent copy of the current snapshot.
pub fn get_all_posts(store: &Store) -> (r: Vec<Post>)
    ensures
        snapshot_wf(r.deep_view()),
{
    store.all()
}

/// The first post carrying the given slug, or nothing.
pub fn get_post_by_slug(store: &Store, slug: &str) -> (r: Option<Post>)
    ensures
        r matches Some(p) ==> p@.slug == slug@,
{
    store.by_slug(slug)
}

} // verus!
