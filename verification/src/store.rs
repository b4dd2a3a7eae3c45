//! The content graph repository: an arena of posts keyed by opaque id,
//! with referential-integrity checks on create and an application-level
//! transactional cascade on delete. Every mutation either applies in full
//! or leaves the store exactly as it was.

use vstd::prelude::*;
use crate::FedError;
use crate::model::{Post, Relation, PostPatch, ts_ok, relation_of};
use crate::time::{MIN_WIRE_TS, MAX_WIRE_TS};

verus! {

/// Some post in the arena carries this id.
pub open spec fn has_id(s: Seq<Post>, id: Seq<char>) -> bool {
    exists|i: int| 0 <= i < s.len() && s[i].id@ == id
}

/// Ids are unique across the arena.
pub open spec fn ids_distinct(s: Seq<Post>) -> bool {
    forall|i: int, j: int| 0 <= i < j < s.len() ==> s[i].id@ != s[j].id@
}

/// A reference field, when present, resolves inside the arena.
pub open spec fn ref_ok(s: Seq<Post>, o: Option<Seq<char>>) -> bool {
    match o {
        Some(r) => has_id(s, r),
        None => true,
    }
}

/// All three self-references of a post resolve inside the arena.
pub open spec fn refs_ok(s: Seq<Post>, p: Post) -> bool {
    &&& ref_ok(s, p.reblog_id.deep_view())
    &&& ref_ok(s, p.reply_id.deep_view())
    &&& ref_ok(s, p.quoting_id.deep_view())
}

/// No post of the arena carries a dangling self-reference.
pub open spec fn graph_closed(s: Seq<Post>) -> bool {
    forall|i: int| 0 <= i < s.len() ==> refs_ok(s, #[trigger] s[i])
}

/// A set of ids is closed under the self-references of the given arena:
/// whenever a member's post points somewhere, it points into the set.
pub open spec fn id_closed(ids: Set<Seq<char>>, s: Seq<Post>) -> bool {
    forall|i: int| (0 <= i < s.len() && ids.contains((#[trigger] s[i]).id@)) ==> {
        &&& match s[i].reblog_id.deep_view() {
            Some(r) => ids.contains(r),
            None => true,
        }
        &&& match s[i].reply_id.deep_view() {
            Some(r) => ids.contains(r),
            None => true,
        }
        &&& match s[i].quoting_id.deep_view() {
            Some(r) => ids.contains(r),
            None => true,
        }
    }
}

/// The post carrying the given id.
pub open spec fn post_by_id(s: Seq<Post>, id: Seq<char>) -> Post {
    s[choose|i: int| 0 <= i < s.len() && s[i].id@ == id]
}

/// How removal maps indices.
proof fn lemma_remove_points(s: Seq<Post>, d: int)
    requires
        0 <= d < s.len(),
    ensures
        s.remove(d).len() == s.len() - 1,
        forall|j: int| 0 <= j < d ==> s.remove(d)[j] == s[j],
        forall|j: int| d <= j < s.len() - 1 ==> s.remove(d)[j] == s[j + 1],
{
    assert(s.remove(d) =~= s.subrange(0, d) + s.subrange(d + 1, s.len() as int));
}

/// The id-keyed arena of posts with the users they must belong to.
pub struct PostStore {
    users: Vec<String>,
    posts: Vec<Post>,
}

/// Finds the index of the post with the given id.
fn find_in(posts: &Vec<Post>, id: &str) -> (r: Option<usize>)
    ensures
        match r {
            Some(i) => i < posts@.len() && posts@[i as int].id@ == id@,
            None => !has_id(posts@, id@),
        },
{
    let n = posts.len();
    let mut i: usize = 0;
    while i < n
        invariant
            i <= n,
            n == posts@.len(),
            forall|j: int| 0 <= j < i ==> (#[trigger] posts@[j]).id@ != id@,
        decreases n - i,
    {
        if crate::strutil::str_eq(posts[i].id.as_str(), id) {
            return Some(i);
        }
        i = i + 1;
    }
    None
}

/// Whether the user list carries the given id.
fn find_user(users: &Vec<String>, id: &str) -> (r: bool)
    ensures
        r == users.deep_view().contains(id@),
{
    let n = users.len();
    let mut i: usize = 0;
    while i < n
        invariant
            i <= n,
            n == users@.len(),
            forall|j: int| 0 <= j < i ==> users.deep_view()[j] != id@,
        decreases n - i,
    {
        if crate::strutil::str_eq(users[i].as_str(), id) {
            proof {
                assert(users.deep_view()[i as int] == id@);
            }
            return true;
        }
        i = i + 1;
    }
    proof {
        if users.deep_view().contains(id@) {
            let j = choose|j: int| 0 <= j < users.deep_view().len()
                && users.deep_view()[j] == id@;
            assert(users.deep_view()[j] != id@);
        }
    }
    false
}

/// No member of the id set names a post authored by the given creator.
pub open spec fn creator_free(ids: Set<Seq<char>>, s: Seq<Post>, uid: Seq<char>) -> bool {
    forall|i: int| (0 <= i < s.len() && ids.contains((#[trigger] s[i]).id@))
        ==> s[i].creator@ != uid
}

/// Finds the index of the given user id.
fn find_user_idx(users: &Vec<String>, id: &str) -> (r: Option<usize>)
    ensures
        match r {
            Some(i) => i < users@.len() && users.deep_view()[i as int] == id@,
            None => !users.deep_view().contains(id@),
        },
{
    let n = users.len();
    let mut i: usize = 0;
    while i < n
        invariant
            i <= n,
            n == users@.len(),
            forall|j: int| 0 <= j < i ==> users.deep_view()[j] != id@,
        decreases n - i,
    {
        if crate::strutil::str_eq(users[i].as_str(), id) {
            proof {
                assert(users.deep_view()[i as int] == id@);
            }
            return Some(i);
        }
        i = i + 1;
    }
    proof {
        if users.deep_view().contains(id@) {
            let j = choose|j: int| 0 <= j < users.deep_view().len()
                && users.deep_view()[j] == id@;
            assert(users.deep_view()[j] != id@);
        }
    }
    None
}

/// Finds a post authored by the given creator, if any.
fn find_by_creator(posts: &Vec<Post>, uid: &str) -> (r: Option<usize>)
    ensures
        match r {
            Some(i) => i < posts@.len() && posts@[i as int].creator@ == uid@,
            None => forall|j: int| 0 <= j < posts@.len()
                ==> (#[trigger] posts@[j]).creator@ != uid@,
        },
{
    let n = posts.len();
    let mut i: usize = 0;
    while i < n
        invariant
            i <= n,
            n == posts@.len(),
            forall|j: int| 0 <= j < i ==> (#[trigger] posts@[j]).creator@ != uid@,
        decreases n - i,
    {
        if crate::strutil::str_eq(posts[i].creator.as_str(), uid) {
            return Some(i);
        }
        i = i + 1;
    }
    None
}

/// Checks the three self-references of a post against the arena.
fn refs_present(posts: &Vec<Post>, p: &Post) -> (r: bool)
    ensures
        r == refs_ok(posts@, *p),
{
    let ok1 = match &p.reblog_id {
        Some(rid) => find_in(posts, rid.as_str()).is_some(),
        None => true,
    };
    let ok2 = match &p.reply_id {
        Some(rid) => find_in(posts, rid.as_str()).is_some(),
        None => true,
    };
    let ok3 = match &p.quoting_id {
        Some(rid) => find_in(posts, rid.as_str()).is_some(),
        None => true,
    };
    ok1 && ok2 && ok3
}

/// Finds a post whose references no longer all resolve, if any.
fn find_dangling(posts: &Vec<Post>) -> (r: Option<usize>)
    ensures
        match r {
            Some(i) => i < posts@.len() && !refs_ok(posts@, posts@[i as int]),
            None => graph_closed(posts@),
        },
{
    let n = posts.len();
    let mut i: usize = 0;
    while i < n
        invariant
            i <= n,
            n == posts@.len(),
            forall|j: int| 0 <= j < i ==> refs_ok(posts@, #[trigger] posts@[j]),
        decreases n - i,
    {
        if !refs_present(posts, &posts[i]) {
            return Some(i);
        }
        i = i + 1;
    }
    None
}

impl PostStore {
    /// The ids of the known users.
    pub closed spec fn users_v(&self) -> Seq<Seq<char>> {
        self.users.deep_view()
    }

    /// The posts of the arena.
    pub closed spec fn posts_v(&self) -> Seq<Post> {
        self.posts@
    }

    /// The store's invariant: unique ids on both sides, no dangling
    /// self-reference, every creator known, every timestamp pair in order
    /// and in range.
    pub closed spec fn wf(&self) -> bool {
        &&& forall|i: int, j: int| 0 <= i < j < self.users.deep_view().len()
            ==> self.users.deep_view()[i] != self.users.deep_view()[j]
        &&& ids_distinct(self.posts@)
        &&& graph_closed(self.posts@)
        &&& forall|i: int| 0 <= i < self.posts@.len()
            ==> self.users.deep_view().contains((#[trigger] self.posts@[i]).creator@)
        &&& forall|i: int| 0 <= i < self.posts@.len() ==> ts_ok(#[trigger] self.posts@[i])
    }

    /// An empty store.
    pub fn new() -> (s: Self)
        ensures
            s.wf(),
            s.posts_v().len() == 0,
            s.users_v().len() == 0,
    {
        PostStore { users: Vec::new(), posts: Vec::new() }
    }

    /// Registers a user id; refuses a duplicate and leaves the store as is.
    pub fn add_user(&mut self, id: String) -> (r: Result<(), FedError>)
        requires
            old(self).wf(),
        ensures
            final(self).wf(),
            final(self).posts_v() == old(self).posts_v(),
            old(self).users_v().contains(id@) ==> r == Err::<(), FedError>(
                FedError::ConstraintViolation,
            ) && final(self).users_v() == old(self).users_v(),
            !old(self).users_v().contains(id@) ==> r == Ok::<(), FedError>(())
                && final(self).users_v() == old(self).users_v().push(id@),
    {
        if find_user(&self.users, id.as_str()) {
            return Err(FedError::ConstraintViolation);
        }
        let ghost before = self.users.deep_view();
        self.users.push(id);
        proof {
            assert(self.users.deep_view() =~= before.push(self.users@.last()@));
            assert forall|i: int, j: int| 0 <= i < j < self.users.deep_view().len()
                implies self.users.deep_view()[i] != self.users.deep_view()[j] by {
                if j == before.len() {
                    assert(self.users.deep_view()[j] == before.push(
                        self.users@.last()@)[j]);
                    assert(self.users.deep_view()[i] == before[i]);
                    assert(before.contains(before[i]));
                }
            }
            assert forall|i: int| 0 <= i < self.posts@.len()
                implies self.users.deep_view().contains(
                    (#[trigger] self.posts@[i]).creator@) by {
                let k = choose|k: int| 0 <= k < before.len()
                    && before[k] == self.posts@[i].creator@;
                assert(self.users.deep_view()[k] == self.posts@[i].creator@);
            }
        }
        Ok(())
    }

    /// The post with the given id, if present.
    pub fn get<'a>(&'a self, id: &str) -> (r: Option<&'a Post>)
        ensures
            match r {
                Some(p) => has_id(self.posts_v(), id@) && p.id@ == id@
                    && self.posts_v().contains(*p),
                None => !has_id(self.posts_v(), id@),
            },
    {
        match find_in(&self.posts, id) {
            Some(i) => {
                proof {
                    assert(self.posts@.contains(self.posts@[i as int]));
                }
                Some(&self.posts[i])
            },
            None => None,
        }
    }

    /// Inserts a new post. Fails with the constraint error, leaving the
    /// store unchanged, exactly when the id is taken, the creator is
    /// unknown, a self-reference does not resolve, or a timestamp is out
    /// of order or range; otherwise appends the post.
    pub fn create(&mut self, p: Post) -> (r: Result<(), FedError>)
        requires
            old(self).wf(),
        ensures
            final(self).wf(),
            final(self).users_v() == old(self).users_v(),
            ({
                let ok = !has_id(old(self).posts_v(), p.id@)
                    && old(self).users_v().contains(p.creator@)
                    && refs_ok(old(self).posts_v(), p) && ts_ok(p);
                if ok {
                    r == Ok::<(), FedError>(()) && final(self).posts_v()
                        == old(self).posts_v().push(p)
                } else {
                    r == Err::<(), FedError>(FedError::ConstraintViolation)
                        && final(self).posts_v() == old(self).posts_v()
                }
            }),
    {
        if find_in(&self.posts, p.id.as_str()).is_some() {
            return Err(FedError::ConstraintViolation);
        }
        if !find_user(&self.users, p.creator.as_str()) {
            return Err(FedError::ConstraintViolation);
        }
        if !refs_present(&self.posts, &p) {
            return Err(FedError::ConstraintViolation);
        }
        if p.created_at < MIN_WIRE_TS || p.created_at > MAX_WIRE_TS {
            return Err(FedError::ConstraintViolation);
        }
        match &p.updated_at {
            Some(u) => {
                if *u < p.created_at || *u > MAX_WIRE_TS {
                    return Err(FedError::ConstraintViolation);
                }
            },
            None => {},
        }
        let ghost before = self.posts@;
        self.posts.push(p);
        proof {
            let cur = self.posts@;
            assert(cur == before.push(p));
            assert forall|x: Seq<char>| has_id(before, x) implies has_id(cur, x) by {
                let k = choose|k: int| 0 <= k < before.len() && before[k].id@ == x;
                assert(cur[k].id@ == x);
            }
            assert(cur[before.len() as int] == p);
            assert forall|i: int| 0 <= i < cur.len()
                implies refs_ok(cur, #[trigger] cur[i]) by {
                if i < before.len() {
                    assert(cur[i] == before[i]);
                    assert(refs_ok(before, before[i]));
                } else {
                    assert(cur[i] == p);
                    assert(refs_ok(before, p));
                }
            }
            assert(ids_distinct(cur)) by {
                assert forall|i: int, j: int| 0 <= i < j < cur.len()
                    implies cur[i].id@ != cur[j].id@ by {
                    if j < before.len() {
                    } else {
                        assert(cur[j] == p);
                        assert(cur[i] == before[i]);
                        if before[i].id@ == p.id@ {
                            assert(has_id(before, p.id@));
                        }
                    }
                }
            }
        }
        Ok(())
    }

    /// Applies a partial update to the post with the given id, setting the
    /// edit time to the operation time. Fails with the not-found error,
    /// leaving the store as is, exactly when the id is absent; fails with
    /// the constraint error, leaving the store as is, exactly when the
    /// operation time precedes the post's creation time — an edit stamped
    /// before creation would break the timestamp invariant.
    pub fn update(&mut self, id: &str, patch: &PostPatch, now: i64) -> (r: Result<
        (),
        FedError,
    >)
        requires
            old(self).wf(),
            MIN_WIRE_TS <= now <= MAX_WIRE_TS,
        ensures
            final(self).wf(),
            final(self).users_v() == old(self).users_v(),
            !has_id(old(self).posts_v(), id@) ==> r == Err::<(), FedError>(FedError::NotFound)
                && final(self).posts_v() == old(self).posts_v(),
            has_id(old(self).posts_v(), id@)
                && now < post_by_id(old(self).posts_v(), id@).created_at ==> r == Err::<
                (),
                FedError,
            >(FedError::ConstraintViolation) && final(self).posts_v() == old(self).posts_v(),
            has_id(old(self).posts_v(), id@)
                && now >= post_by_id(old(self).posts_v(), id@).created_at ==> r == Ok::<
                (),
                FedError,
            >(()) && exists|i: int|
                0 <= i < old(self).posts_v().len()
                && (#[trigger] old(self).posts_v()[i]).id@ == id@
                && final(self).posts_v() == old(self).posts_v().update(
                    i,
                    apply_patch(old(self).posts_v()[i], *patch, now),
                ),
    {
        let i = match find_in(&self.posts, id) {
            Some(i) => i,
            None => {
                return Err(FedError::NotFound);
            },
        };
        proof {
            let k = choose|k: int| 0 <= k < self.posts@.len() && self.posts@[k].id@ == id@;
            assert(self.posts@[k].id@ == self.posts@[i as int].id@);
            assert(k == i as int);
            assert(post_by_id(self.posts@, id@) == self.posts@[i as int]);
        }
        if now < self.posts[i].created_at {
            return Err(FedError::ConstraintViolation);
        }
        let ghost before = self.posts@;
        let newp = patched_post(&self.posts[i], patch, now);
        self.posts.remove(i);
        self.posts.insert(i, newp);
        proof {
            let cur = self.posts@;
            assert(cur =~= before.update(i as int, apply_patch(before[i as int], *patch, now)));
            assert(before[i as int].id@ == id@);
            assert forall|x: Seq<char>| has_id(cur, x) == has_id(before, x) by {
                assert(forall|j: int| 0 <= j < cur.len()
                    ==> (#[trigger] cur[j]).id@ == before[j].id@);
                if has_id(cur, x) {
                    let k = choose|k: int| 0 <= k < cur.len() && cur[k].id@ == x;
                    assert(before[k].id@ == x);
                }
                if has_id(before, x) {
                    let k = choose|k: int| 0 <= k < before.len() && before[k].id@ == x;
                    assert(cur[k].id@ == x);
                }
            }
            assert forall|j: int| 0 <= j < cur.len()
                implies refs_ok(cur, #[trigger] cur[j]) by {
                assert(refs_ok(before, before[j]));
                assert(cur[j].reblog_id == before[j].reblog_id);
                assert(cur[j].reply_id == before[j].reply_id);
                assert(cur[j].quoting_id == before[j].quoting_id);
            }
            assert(ids_distinct(cur)) by {
                assert(forall|j: int| 0 <= j < cur.len()
                    ==> (#[trigger] cur[j]).id@ == before[j].id@);
            }
        }
        Ok(())
    }

    /// Removes the post with the given id and, transactionally, every post
    /// that transitively references it. Fails with the not-found error,
    /// leaving the store as is, exactly when the id is absent. On success
    /// the id is gone, every surviving post is unchanged from before, no
    /// surviving reference dangles, and every post whose id belongs to some
    /// reference-closed set avoiding the target survives: the cascade
    /// removes exactly the dependent set, never more.
    pub fn delete(&mut self, id: &str) -> (r: Result<(), FedError>)
        requires
            old(self).wf(),
        ensures
            final(self).wf(),
            final(self).users_v() == old(self).users_v(),
            !has_id(old(self).posts_v(), id@) ==> r == Err::<(), FedError>(FedError::NotFound)
                && final(self).posts_v() == old(self).posts_v(),
            has_id(old(self).posts_v(), id@) ==> {
                &&& r == Ok::<(), FedError>(())
                &&& !has_id(final(self).posts_v(), id@)
                &&& forall|j: int| 0 <= j < final(self).posts_v().len()
                    ==> old(self).posts_v().contains(#[trigger] final(self).posts_v()[j])
                &&& graph_closed(final(self).posts_v())
                &&& forall|ids: Set<Seq<char>>| #![trigger id_closed(ids, old(self).posts_v())]
                    (!ids.contains(id@) && id_closed(ids, old(self).posts_v()))
                    ==> forall|i: int| (0 <= i < old(self).posts_v().len()
                        && ids.contains((#[trigger] old(self).posts_v()[i]).id@))
                        ==> has_id(final(self).posts_v(), old(self).posts_v()[i].id@)
            },
    {
        let ghost orig = self.posts@;
        let ghost tid = id@;
        let d0 = match find_in(&self.posts, id) {
            Some(i) => i,
            None => {
                return Err(FedError::NotFound);
            },
        };
        proof {
            lemma_remove_points(orig, d0 as int);
        }
        self.posts.remove(d0);
        proof {
            self.lemma_delete_step_ok(orig, orig, tid, d0 as int);
        }
        let mut done = false;
        while !done
            invariant
                tid == id@,
                ids_distinct(self.posts@),
                !has_id(self.posts@, tid),
                forall|j: int| 0 <= j < self.posts@.len()
                    ==> orig.contains(#[trigger] self.posts@[j]),
                forall|ids: Set<Seq<char>>| #![trigger id_closed(ids, orig)]
                    (!ids.contains(tid) && id_closed(ids, orig))
                    ==> forall|i: int| (0 <= i < orig.len()
                        && ids.contains((#[trigger] orig[i]).id@))
                        ==> has_id(self.posts@, orig[i].id@),
                done ==> graph_closed(self.posts@),
                self.users == old(self).users,
                ids_distinct(orig),
                graph_closed(orig),
            decreases 2 * self.posts@.len() + (if done { 0int } else { 1int }),
        {
            match find_dangling(&self.posts) {
                None => {
                    done = true;
                },
                Some(d) => {
                    let ghost cur = self.posts@;
                    proof {
                        lemma_remove_points(cur, d as int);
                        self.lemma_dangling_not_protected(orig, tid, d as int);
                    }
                    self.posts.remove(d);
                },
            }
        }
        proof {
            assert forall|j: int| 0 <= j < self.posts@.len()
                implies ts_ok(#[trigger] self.posts@[j])
                    && old(self).users.deep_view().contains(self.posts@[j].creator@) by {
                let k = choose|k: int| 0 <= k < orig.len() && orig[k] == self.posts@[j];
                assert(ts_ok(orig[k]));
            }
        }
        Ok(())
    }

    /// After removing the target, every reference-closed set avoiding it is
    /// still fully present.
    proof fn lemma_delete_step_ok(&self, orig: Seq<Post>, cur: Seq<Post>, tid: Seq<char>, d: int)
        requires
            0 <= d < cur.len(),
            cur[d].id@ == tid,
            ids_distinct(cur),
            cur == orig,
            self.posts@ == cur.remove(d),
        ensures
            ids_distinct(self.posts@),
            !has_id(self.posts@, tid),
            forall|j: int| 0 <= j < self.posts@.len()
                ==> orig.contains(#[trigger] self.posts@[j]),
            forall|ids: Set<Seq<char>>| #![trigger id_closed(ids, orig)]
                (!ids.contains(tid) && id_closed(ids, orig))
                ==> forall|i: int| (0 <= i < orig.len()
                    && ids.contains((#[trigger] orig[i]).id@))
                    ==> has_id(self.posts@, orig[i].id@),
    {
        lemma_remove_points(cur, d);
        let nxt = self.posts@;
        assert forall|j: int| 0 <= j < nxt.len()
            implies orig.contains(#[trigger] nxt[j]) by {
            if j < d {
                assert(nxt[j] == cur[j]);
            } else {
                assert(nxt[j] == cur[j + 1]);
            }
        }
        assert(ids_distinct(nxt)) by {
            assert forall|i: int, j: int| 0 <= i < j < nxt.len()
                implies nxt[i].id@ != nxt[j].id@ by {
                let i0: int = if i < d { i } else { i + 1 };
                let j0: int = if j < d { j } else { j + 1 };
                assert(nxt[i] == cur[i0]);
                assert(nxt[j] == cur[j0]);
            }
        }
        assert(!has_id(nxt, tid)) by {
            if has_id(nxt, tid) {
                let k = choose|k: int| 0 <= k < nxt.len() && nxt[k].id@ == tid;
                let k0: int = if k < d { k } else { k + 1 };
                assert(nxt[k] == cur[k0]);
                assert(cur[k0].id@ == cur[d].id@);
                assert(k0 != d);
            }
        }
        assert forall|ids: Set<Seq<char>>| #![trigger id_closed(ids, orig)]
            (!ids.contains(tid) && id_closed(ids, orig))
            implies forall|i: int| (0 <= i < orig.len()
                && ids.contains((#[trigger] orig[i]).id@))
                ==> has_id(nxt, orig[i].id@) by {
            assert forall|i: int| (0 <= i < orig.len()
                && ids.contains((#[trigger] orig[i]).id@))
                implies has_id(nxt, orig[i].id@) by {
                assert(orig[i].id@ != tid);
                assert(i != d);
                let i1: int = if i < d { i } else { i - 1 };
                assert(nxt[i1] == cur[i]);
            }
        }
    }

    /// A post with a dangling reference belongs to no reference-closed set
    /// that avoids the target, so removing it keeps every such set present.
    proof fn lemma_dangling_not_protected(&self, orig: Seq<Post>, tid: Seq<char>, d: int)
        requires
            0 <= d < self.posts@.len(),
            !refs_ok(self.posts@, self.posts@[d]),
            ids_distinct(self.posts@),
            !has_id(self.posts@, tid),
            graph_closed(orig),
            forall|j: int| 0 <= j < self.posts@.len()
                ==> orig.contains(#[trigger] self.posts@[j]),
            forall|ids: Set<Seq<char>>| #![trigger id_closed(ids, orig)]
                (!ids.contains(tid) && id_closed(ids, orig))
                ==> forall|i: int| (0 <= i < orig.len()
                    && ids.contains((#[trigger] orig[i]).id@))
                    ==> has_id(self.posts@, orig[i].id@),
        ensures
            ids_distinct(self.posts@.remove(d)),
            !has_id(self.posts@.remove(d), tid),
            forall|j: int| 0 <= j < self.posts@.remove(d).len()
                ==> orig.contains(#[trigger] self.posts@.remove(d)[j]),
            forall|ids: Set<Seq<char>>| #![trigger id_closed(ids, orig)]
                (!ids.contains(tid) && id_closed(ids, orig))
                ==> forall|i: int| (0 <= i < orig.len()
                    && ids.contains((#[trigger] orig[i]).id@))
                    ==> has_id(self.posts@.remove(d), orig[i].id@),
    {
        let cur = self.posts@;
        let nxt = cur.remove(d);
        let p = cur[d];
        lemma_remove_points(cur, d);
        assert forall|j: int| 0 <= j < nxt.len()
            implies orig.contains(#[trigger] nxt[j]) by {
            if j < d {
                assert(nxt[j] == cur[j]);
            } else {
                assert(nxt[j] == cur[j + 1]);
            }
        }
        assert(ids_distinct(nxt)) by {
            assert forall|i: int, j: int| 0 <= i < j < nxt.len()
                implies nxt[i].id@ != nxt[j].id@ by {
                let i0: int = if i < d { i } else { i + 1 };
                let j0: int = if j < d { j } else { j + 1 };
                assert(nxt[i] == cur[i0]);
                assert(nxt[j] == cur[j0]);
            }
        }
        assert(!has_id(nxt, tid)) by {
            if has_id(nxt, tid) {
                let k = choose|k: int| 0 <= k < nxt.len() && nxt[k].id@ == tid;
                let k0: int = if k < d { k } else { k + 1 };
                assert(nxt[k] == cur[k0]);
                assert(has_id(cur, tid));
            }
        }
        // the dangling reference of `p`
        assert(exists|r: Seq<char>| ref_names(p, r) && !has_id(cur, r)) by {
            if !ref_ok(cur, p.reblog_id.deep_view()) {
                let r = p.reblog_id.deep_view()->Some_0;
                assert(ref_names(p, r) && !has_id(cur, r));
            } else if !ref_ok(cur, p.reply_id.deep_view()) {
                let r = p.reply_id.deep_view()->Some_0;
                assert(ref_names(p, r) && !has_id(cur, r));
            } else {
                let r = p.quoting_id.deep_view()->Some_0;
                assert(ref_names(p, r) && !has_id(cur, r));
            }
        }
        let bad = choose|r: Seq<char>| ref_names(p, r) && !has_id(cur, r);
        assert forall|ids: Set<Seq<char>>| #![trigger id_closed(ids, orig)]
            (!ids.contains(tid) && id_closed(ids, orig))
            implies forall|i: int| (0 <= i < orig.len()
                && ids.contains((#[trigger] orig[i]).id@))
                ==> has_id(nxt, orig[i].id@) by {
            // the dangling post's id cannot belong to `ids`
            assert(!ids.contains(p.id@)) by {
                if ids.contains(p.id@) {
                    assert(cur.contains(p));
                    assert(orig.contains(p));
                    let k = choose|k: int| 0 <= k < orig.len() && orig[k] == p;
                    assert(ids.contains(orig[k].id@));
                    assert(ids.contains(bad));
                    assert(refs_ok(orig, orig[k]));
                    assert(has_id(orig, bad));
                    let m = choose|m: int| 0 <= m < orig.len() && orig[m].id@ == bad;
                    assert(ids.contains(orig[m].id@));
                    assert(has_id(cur, orig[m].id@));
                }
            }
            assert forall|i: int| (0 <= i < orig.len()
                && ids.contains((#[trigger] orig[i]).id@))
                implies has_id(nxt, orig[i].id@) by {
                assert(has_id(cur, orig[i].id@));
                let w = choose|w: int| 0 <= w < cur.len() && cur[w].id@ == orig[i].id@;
                assert(orig[i].id@ != p.id@);
                assert(w != d);
                let w1: int = if w < d { w } else { w - 1 };
                assert(nxt[w1] == cur[w]);
            }
        }
    }

    /// Removes a user and, transactionally, every post with that creator
    /// together with every post that transitively references one. Fails
    /// with the not-found error, leaving the store as is, exactly when the
    /// user id is unknown. On success the user and every post of theirs is
    /// gone, every surviving post is unchanged from before, no surviving
    /// reference dangles, and every post whose id belongs to some
    /// reference-closed set free of that creator's posts survives.
    pub fn delete_user(&mut self, id: &str) -> (r: Result<(), FedError>)
        requires
            old(self).wf(),
        ensures
            final(self).wf(),
            !old(self).users_v().contains(id@) ==> r == Err::<(), FedError>(FedError::NotFound)
                && final(self).users_v() == old(self).users_v()
                && final(self).posts_v() == old(self).posts_v(),
            old(self).users_v().contains(id@) ==> {
                &&& r == Ok::<(), FedError>(())
                &&& exists|ui: int| 0 <= ui < old(self).users_v().len()
                    && old(self).users_v()[ui] == id@
                    && final(self).users_v() == old(self).users_v().remove(ui)
                &&& forall|j: int| 0 <= j < final(self).posts_v().len()
                    ==> (#[trigger] final(self).posts_v()[j]).creator@ != id@
                &&& forall|j: int| 0 <= j < final(self).posts_v().len()
                    ==> old(self).posts_v().contains(#[trigger] final(self).posts_v()[j])
                &&& graph_closed(final(self).posts_v())
                &&& forall|ids: Set<Seq<char>>| #![trigger id_closed(ids, old(self).posts_v())]
                    (creator_free(ids, old(self).posts_v(), id@)
                        && id_closed(ids, old(self).posts_v()))
                    ==> forall|i: int| (0 <= i < old(self).posts_v().len()
                        && ids.contains((#[trigger] old(self).posts_v()[i]).id@))
                        ==> has_id(final(self).posts_v(), old(self).posts_v()[i].id@)
            },
    {
        let ghost orig = self.posts@;
        let ghost origu = self.users.deep_view();
        let ghost uid = id@;
        let ui = match find_user_idx(&self.users, id) {
            Some(i) => i,
            None => {
                return Err(FedError::NotFound);
            },
        };
        self.users.remove(ui);
        proof {
            assert(self.users@ == old(self).users@.remove(ui as int));
            assert forall|j: int| 0 <= j < self.users.deep_view().len()
                implies self.users.deep_view()[j] == origu.remove(ui as int)[j] by {
                assert(origu.remove(ui as int) =~= origu.subrange(0, ui as int)
                    + origu.subrange(ui + 1, origu.len() as int));
                if j < ui {
                    assert(self.users@[j] == old(self).users@[j]);
                } else {
                    assert(self.users@[j] == old(self).users@[j + 1]);
                }
            }
            assert(self.users.deep_view() =~= origu.remove(ui as int));
            assert(forall|i: int| (0 <= i < orig.len()
                && orig[i].creator@ != uid)
                ==> self.users.deep_view().contains((#[trigger] orig[i]).creator@)) by {
                assert forall|i: int| (0 <= i < orig.len() && orig[i].creator@ != uid)
                    implies self.users.deep_view().contains(
                        (#[trigger] orig[i]).creator@) by {
                    let m = choose|m: int| 0 <= m < origu.len()
                        && origu[m] == orig[i].creator@;
                    assert(m != ui);
                    let m1: int = if m < ui { m } else { m - 1 };
                    assert(self.users.deep_view()[m1] == origu[m]);
                }
            }
        }
        // first pass: drop the user's own posts
        let mut done = false;
        while !done
            invariant
                uid == id@,
                ids_distinct(self.posts@),
                forall|j: int| 0 <= j < self.posts@.len()
                    ==> orig.contains(#[trigger] self.posts@[j]),
                forall|ids: Set<Seq<char>>| #![trigger id_closed(ids, orig)]
                    (creator_free(ids, orig, uid) && id_closed(ids, orig))
                    ==> forall|i: int| (0 <= i < orig.len()
                        && ids.contains((#[trigger] orig[i]).id@))
                        ==> has_id(self.posts@, orig[i].id@),
                done ==> forall|j: int| 0 <= j < self.posts@.len()
                    ==> (#[trigger] self.posts@[j]).creator@ != uid,
                self.users@ == old(self).users@.remove(ui as int),
                ids_distinct(orig),
                graph_closed(orig),
            decreases 2 * self.posts@.len() + (if done { 0int } else { 1int }),
        {
            match find_by_creator(&self.posts, id) {
                None => {
                    done = true;
                },
                Some(d) => {
                    let ghost cur = self.posts@;
                    proof {
                        lemma_remove_points(cur, d as int);
                        self.lemma_creator_post_not_protected(orig, uid, d as int);
                    }
                    self.posts.remove(d);
                },
            }
        }
        // second pass: erode posts whose references now dangle
        let mut done2 = false;
        while !done2
            invariant
                uid == id@,
                ids_distinct(self.posts@),
                forall|j: int| 0 <= j < self.posts@.len()
                    ==> orig.contains(#[trigger] self.posts@[j]),
                forall|j: int| 0 <= j < self.posts@.len()
                    ==> (#[trigger] self.posts@[j]).creator@ != uid,
                forall|ids: Set<Seq<char>>| #![trigger id_closed(ids, orig)]
                    (creator_free(ids, orig, uid) && id_closed(ids, orig))
                    ==> forall|i: int| (0 <= i < orig.len()
                        && ids.contains((#[trigger] orig[i]).id@))
                        ==> has_id(self.posts@, orig[i].id@),
                done2 ==> graph_closed(self.posts@),
                self.users@ == old(self).users@.remove(ui as int),
                ids_distinct(orig),
                graph_closed(orig),
            decreases 2 * self.posts@.len() + (if done2 { 0int } else { 1int }),
        {
            match find_dangling(&self.posts) {
                None => {
                    done2 = true;
                },
                Some(d) => {
                    let ghost cur = self.posts@;
                    proof {
                        lemma_remove_points(cur, d as int);
                        self.lemma_dangling_not_creator_protected(orig, uid, d as int);
                    }
                    self.posts.remove(d);
                },
            }
        }
        proof {
            assert(origu[ui as int] == uid);
            assert forall|j: int| 0 <= j < self.posts@.len()
                implies ts_ok(#[trigger] self.posts@[j]) by {
                let k = choose|k: int| 0 <= k < orig.len() && orig[k] == self.posts@[j];
                assert(ts_ok(orig[k]));
            }
            assert forall|j: int| 0 <= j < self.posts@.len()
                implies self.users.deep_view().contains(
                    (#[trigger] self.posts@[j]).creator@) by {
                let k = choose|k: int| 0 <= k < orig.len() && orig[k] == self.posts@[j];
            }
            assert forall|i: int, j: int| 0 <= i < j < self.users.deep_view().len()
                implies self.users.deep_view()[i] != self.users.deep_view()[j] by {
                assert(self.users.deep_view() == origu.remove(ui as int));
                assert(origu.remove(ui as int) =~= origu.subrange(0, ui as int)
                    + origu.subrange(ui + 1, origu.len() as int));
                let i0: int = if i < ui { i } else { i + 1 };
                let j0: int = if j < ui { j } else { j + 1 };
                assert(self.users.deep_view()[i] == origu[i0]);
                assert(self.users.deep_view()[j] == origu[j0]);
            }
        }
        Ok(())
    }

    /// A post authored by the removed user belongs to no creator-free set,
    /// so removing it keeps every such set present.
    proof fn lemma_creator_post_not_protected(&self, orig: Seq<Post>, uid: Seq<char>, d: int)
        requires
            0 <= d < self.posts@.len(),
            self.posts@[d].creator@ == uid,
            ids_distinct(self.posts@),
            forall|j: int| 0 <= j < self.posts@.len()
                ==> orig.contains(#[trigger] self.posts@[j]),
            forall|ids: Set<Seq<char>>| #![trigger id_closed(ids, orig)]
                (creator_free(ids, orig, uid) && id_closed(ids, orig))
                ==> forall|i: int| (0 <= i < orig.len()
                    && ids.contains((#[trigger] orig[i]).id@))
                    ==> has_id(self.posts@, orig[i].id@),
        ensures
            ids_distinct(self.posts@.remove(d)),
            forall|j: int| 0 <= j < self.posts@.remove(d).len()
                ==> orig.contains(#[trigger] self.posts@.remove(d)[j]),
            forall|ids: Set<Seq<char>>| #![trigger id_closed(ids, orig)]
                (creator_free(ids, orig, uid) && id_closed(ids, orig))
                ==> forall|i: int| (0 <= i < orig.len()
                    && ids.contains((#[trigger] orig[i]).id@))
                    ==> has_id(self.posts@.remove(d), orig[i].id@),
    {
        let cur = self.posts@;
        let nxt = cur.remove(d);
        let p = cur[d];
        lemma_remove_points(cur, d);
        assert forall|j: int| 0 <= j < nxt.len()
            implies orig.contains(#[trigger] nxt[j]) by {
            if j < d {
                assert(nxt[j] == cur[j]);
            } else {
                assert(nxt[j] == cur[j + 1]);
            }
        }
        assert(ids_distinct(nxt)) by {
            assert forall|i: int, j: int| 0 <= i < j < nxt.len()
                implies nxt[i].id@ != nxt[j].id@ by {
                let i0: int = if i < d { i } else { i + 1 };
                let j0: int = if j < d { j } else { j + 1 };
                assert(nxt[i] == cur[i0]);
                assert(nxt[j] == cur[j0]);
            }
        }
        assert forall|ids: Set<Seq<char>>| #![trigger id_closed(ids, orig)]
            (creator_free(ids, orig, uid) && id_closed(ids, orig))
            implies forall|i: int| (0 <= i < orig.len()
                && ids.contains((#[trigger] orig[i]).id@))
                ==> has_id(nxt, orig[i].id@) by {
            assert(!ids.contains(p.id@)) by {
                if ids.contains(p.id@) {
                    assert(cur.contains(p));
                    assert(orig.contains(p));
                    let k = choose|k: int| 0 <= k < orig.len() && orig[k] == p;
                    assert(ids.contains(orig[k].id@));
                    assert(orig[k].creator@ != uid);
                }
            }
            assert forall|i: int| (0 <= i < orig.len()
                && ids.contains((#[trigger] orig[i]).id@))
                implies has_id(nxt, orig[i].id@) by {
                assert(has_id(cur, orig[i].id@));
                let w = choose|w: int| 0 <= w < cur.len() && cur[w].id@ == orig[i].id@;
                assert(orig[i].id@ != p.id@);
                assert(w != d);
                let w1: int = if w < d { w } else { w - 1 };
                assert(nxt[w1] == cur[w]);
            }
        }
    }

    /// As in the single-post cascade, a dangling post is unprotected; here
    /// the protected sets are the creator-free reference-closed ones.
    proof fn lemma_dangling_not_creator_protected(&self, orig: Seq<Post>, uid: Seq<char>, d: int)
        requires
            0 <= d < self.posts@.len(),
            !refs_ok(self.posts@, self.posts@[d]),
            ids_distinct(self.posts@),
            graph_closed(orig),
            forall|j: int| 0 <= j < self.posts@.len()
                ==> orig.contains(#[trigger] self.posts@[j]),
            forall|j: int| 0 <= j < self.posts@.len()
                ==> (#[trigger] self.posts@[j]).creator@ != uid,
            forall|ids: Set<Seq<char>>| #![trigger id_closed(ids, orig)]
                (creator_free(ids, orig, uid) && id_closed(ids, orig))
                ==> forall|i: int| (0 <= i < orig.len()
                    && ids.contains((#[trigger] orig[i]).id@))
                    ==> has_id(self.posts@, orig[i].id@),
        ensures
            ids_distinct(self.posts@.remove(d)),
            forall|j: int| 0 <= j < self.posts@.remove(d).len()
                ==> orig.contains(#[trigger] self.posts@.remove(d)[j]),
            forall|j: int| 0 <= j < self.posts@.remove(d).len()
                ==> (#[trigger] self.posts@.remove(d)[j]).creator@ != uid,
            forall|ids: Set<Seq<char>>| #![trigger id_closed(ids, orig)]
                (creator_free(ids, orig, uid) && id_closed(ids, orig))
                ==> forall|i: int| (0 <= i < orig.len()
                    && ids.contains((#[trigger] orig[i]).id@))
                    ==> has_id(self.posts@.remove(d), orig[i].id@),
    {
        let cur = self.posts@;
        let nxt = cur.remove(d);
        let p = cur[d];
        lemma_remove_points(cur, d);
        assert forall|j: int| 0 <= j < nxt.len()
            implies orig.contains(#[trigger] nxt[j])
                && (#[trigger] nxt[j]).creator@ != uid by {
            if j < d {
                assert(nxt[j] == cur[j]);
            } else {
                assert(nxt[j] == cur[j + 1]);
            }
        }
        assert(ids_distinct(nxt)) by {
            assert forall|i: int, j: int| 0 <= i < j < nxt.len()
                implies nxt[i].id@ != nxt[j].id@ by {
                let i0: int = if i < d { i } else { i + 1 };
                let j0: int = if j < d { j } else { j + 1 };
                assert(nxt[i] == cur[i0]);
                assert(nxt[j] == cur[j0]);
            }
        }
        assert(exists|r: Seq<char>| ref_names(p, r) && !has_id(cur, r)) by {
            if !ref_ok(cur, p.reblog_id.deep_view()) {
                let r = p.reblog_id.deep_view()->Some_0;
                assert(ref_names(p, r) && !has_id(cur, r));
            } else if !ref_ok(cur, p.reply_id.deep_view()) {
                let r = p.reply_id.deep_view()->Some_0;
                assert(ref_names(p, r) && !has_id(cur, r));
            } else {
                let r = p.quoting_id.deep_view()->Some_0;
                assert(ref_names(p, r) && !has_id(cur, r));
            }
        }
        let bad = choose|r: Seq<char>| ref_names(p, r) && !has_id(cur, r);
        assert forall|ids: Set<Seq<char>>| #![trigger id_closed(ids, orig)]
            (creator_free(ids, orig, uid) && id_closed(ids, orig))
            implies forall|i: int| (0 <= i < orig.len()
                && ids.contains((#[trigger] orig[i]).id@))
                ==> has_id(nxt, orig[i].id@) by {
            assert(!ids.contains(p.id@)) by {
                if ids.contains(p.id@) {
                    assert(cur.contains(p));
                    assert(orig.contains(p));
                    let k = choose|k: int| 0 <= k < orig.len() && orig[k] == p;
                    assert(ids.contains(orig[k].id@));
                    assert(ids.contains(bad));
                    assert(refs_ok(orig, orig[k]));
                    assert(has_id(orig, bad));
                    let m = choose|m: int| 0 <= m < orig.len() && orig[m].id@ == bad;
                    assert(ids.contains(orig[m].id@));
                    assert(has_id(cur, orig[m].id@));
                }
            }
            assert forall|i: int| (0 <= i < orig.len()
                && ids.contains((#[trigger] orig[i]).id@))
                implies has_id(nxt, orig[i].id@) by {
                assert(has_id(cur, orig[i].id@));
                let w = choose|w: int| 0 <= w < cur.len() && cur[w].id@ == orig[i].id@;
                assert(orig[i].id@ != p.id@);
                assert(w != d);
                let w1: int = if w < d { w } else { w - 1 };
                assert(nxt[w1] == cur[w]);
            }
        }
    }

    /// Resolves the named relation of a post: the related post, an empty
    /// result when the field is null, and the not-found error exactly when
    /// the post itself is absent (under the invariant, a present field
    /// always resolves).
    pub fn resolve_relation<'a>(&'a self, id: &str, kind: Relation) -> (r: Result<
        Option<&'a Post>,
        FedError,
    >)
        requires
            self.wf(),
        ensures
            match r {
                Ok(Some(p)) => has_id(self.posts_v(), id@)
                    && relation_of(post_by_id(self.posts_v(), id@), kind) == Some(p.id@)
                    && self.posts_v().contains(*p),
                Ok(None) => has_id(self.posts_v(), id@)
                    && relation_of(post_by_id(self.posts_v(), id@), kind) is None,
                Err(e) => e == FedError::NotFound && !has_id(self.posts_v(), id@),
            },
    {
        let i = match find_in(&self.posts, id) {
            Some(i) => i,
            None => {
                return Err(FedError::NotFound);
            },
        };
        proof {
            assert(post_by_id(self.posts@, id@).id@ == id@);
            assert(post_by_id(self.posts@, id@) == self.posts@[i as int]);
        }
        let target: &Option<String> = match kind {
            Relation::Reblog => &self.posts[i].reblog_id,
            Relation::Reply => &self.posts[i].reply_id,
            Relation::Quote => &self.posts[i].quoting_id,
        };
        match target {
            Some(rid) => {
                match find_in(&self.posts, rid.as_str()) {
                    Some(j) => {
                        proof {
                            assert(self.posts@.contains(self.posts@[j as int]));
                        }
                        Ok(Some(&self.posts[j]))
                    },
                    None => {
                        proof {
                            assert(refs_ok(self.posts@, self.posts@[i as int]));
                        }
                        Err(FedError::NotFound)
                    },
                }
            },
            None => Ok(None),
        }
    }
}

/// Cascade completeness: once an id is gone from a closed arena, no
/// surviving post references it through any of the three relations — a
/// reblog or reply of a deleted post can never survive the deletion.
pub proof fn lemma_cascade_complete(s: Seq<Post>, id: Seq<char>)
    requires
        graph_closed(s),
        !has_id(s, id),
    ensures
        forall|j: int| 0 <= j < s.len() ==> !ref_names(#[trigger] s[j], id),
{
    assert forall|j: int| 0 <= j < s.len() implies !ref_names(s[j], id) by {
        assert(refs_ok(s, s[j]));
    }
}

/// The given id is one of the post's reference targets.
pub open spec fn ref_names(p: Post, r: Seq<char>) -> bool {
    ||| p.reblog_id.deep_view() == Some(r)
    ||| p.reply_id.deep_view() == Some(r)
    ||| p.quoting_id.deep_view() == Some(r)
}

/// The patched value of a post: requested fields replaced, the edit time
/// set to the operation time.
pub open spec fn apply_patch(p: Post, q: PostPatch, now: i64) -> Post {
    Post {
        id: p.id,
        title: match q.title {
            Some(t) => Some(t),
            None => p.title,
        },
        content: match q.content {
            Some(c) => c,
            None => p.content,
        },
        local: p.local,
        created_at: p.created_at,
        updated_at: Some(now),
        reblog_id: p.reblog_id,
        content_type: match q.content_type {
            Some(c) => c,
            None => p.content_type,
        },
        visibility: match q.visibility {
            Some(vv) => vv,
            None => p.visibility,
        },
        reply_id: p.reply_id,
        quoting_id: p.quoting_id,
        sensitive: match q.sensitive {
            Some(b) => b,
            None => p.sensitive,
        },
        spoiler_text: match q.spoiler_text {
            Some(s) => Some(s),
            None => p.spoiler_text,
        },
        creator: p.creator,
        url: p.url,
    }
}

/// Builds the patched copy of a post.
fn patched_post(p: &Post, q: &PostPatch, now: i64) -> (r: Post)
    ensures
        r == apply_patch(*p, *q, now),
{
    let r = Post {
        id: p.id.clone(),
        title: match &q.title {
            Some(t) => Some(t.clone()),
            None => crate::model::copy_opt(&p.title),
        },
        content: match &q.content {
            Some(c) => c.clone(),
            None => p.content.clone(),
        },
        local: p.local,
        created_at: p.created_at,
        updated_at: Some(now),
        reblog_id: crate::model::copy_opt(&p.reblog_id),
        content_type: match &q.content_type {
            Some(c) => c.clone(),
            None => p.content_type.clone(),
        },
        visibility: match &q.visibility {
            Some(vv) => vv.clone(),
            None => p.visibility.clone(),
        },
        reply_id: crate::model::copy_opt(&p.reply_id),
        quoting_id: crate::model::copy_opt(&p.quoting_id),
        sensitive: match &q.sensitive {
            Some(b) => *b,
            None => p.sensitive,
        },
        spoiler_text: match &q.spoiler_text {
            Some(s) => Some(s.clone()),
            None => crate::model::copy_opt(&p.spoiler_text),
        },
        creator: p.creator.clone(),
        url: p.url.clone(),
    };
    proof {
        assert(r =~= apply_patch(*p, *q, now));
    }
    r
}

} // verus!
