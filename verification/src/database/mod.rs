pub mod enums;
pub mod laws;
pub mod model;
pub mod post;
pub mod tag;
pub mod user;

use crate::database::model::{DatabaseData, TagData, UserData};
use crate::database::post::{PostData, PostFull};
use crate::database::tag::Tag;
use crate::database::user::User;
use vstd::prelude::*;

verus! {

/// Why the store refused a statement.
#[derive(Debug, Clone, Copy, PartialEq, Eq, Structural)]
pub enum DatabaseError {
    /// A number would leave the range of its column.
    OutOfRange,
    /// A row with the same unique value is already there.
    Conflict,
}

/// The views of a sequence of posts, in order.
pub open spec fn rows(posts: Seq<PostFull>) -> Seq<PostData> {
    Seq::new(posts.len(), |k: int| posts[k]@)
}

/// The views of a sequence of borrowed posts, in order.
pub open spec fn row_refs(posts: Seq<&PostFull>) -> Seq<PostData> {
    Seq::new(posts.len(), |k: int| posts[k]@)
}

/// The views of a sequence of counter rows, in order.
pub open spec fn tag_rows(tags: Seq<Tag>) -> Seq<TagData> {
    Seq::new(tags.len(), |k: int| tags[k]@)
}

/// The views of a sequence of users, in order.
pub open spec fn user_rows(users: Seq<User>) -> Seq<UserData> {
    Seq::new(users.len(), |k: int| users[k]@)
}

/// The store held in memory: the tables of posts, tag counters and users.
#[derive(Debug, PartialEq, Eq)]
pub struct Database {
    /// The posts, in the order they were stored.
    pub posts: Vec<PostFull>,
    /// The tag counters, in the order they were first counted.
    pub tags: Vec<Tag>,
    /// The users, in the order they registered.
    pub users: Vec<User>,
    /// The last post identifier given out.
    pub last_post: i64,
    /// The last tag identifier given out.
    pub last_tag: i64,
    /// The last user identifier given out.
    pub last_user: i32,
}

impl View for Database {
    type V = DatabaseData;

    open spec fn view(&self) -> DatabaseData {
        DatabaseData {
            posts: rows(self.posts@),
            tags: tag_rows(self.tags@),
            users: user_rows(self.users@),
            last_post: self.last_post as int,
            last_tag: self.last_tag as int,
            last_user: self.last_user as int,
        }
    }
}

impl Database {
    /// Whether the tables keep what they guarantee.
    pub open spec fn wf(&self) -> bool {
        self@.wf()
    }

    /// Whether the post rows keep what they guarantee.
    fn check_posts(&self) -> (ok: bool)
        ensures
            ok == ({
                &&& forall|i: int|
                    0 <= i < self@.posts.len() ==> 0 < (#[trigger] self@.posts[i]).id
                        <= self@.last_post
                &&& forall|i: int, j: int|
                    0 <= i < j < self@.posts.len() ==> (#[trigger] self@.posts[i]).id < (
                    #[trigger] self@.posts[j]).id
                &&& forall|i: int|
                    0 <= i < self@.posts.len() ==> (#[trigger] self@.posts[i]).tags.no_duplicates()
            }),
    {
        let mut k: usize = 0;
        while k < self.posts.len()
            invariant
                k <= self.posts@.len(),
                forall|i: int|
                    0 <= i < k ==> 0 < (#[trigger] self@.posts[i]).id <= self@.last_post,
                forall|i: int, j: int|
                    0 <= i < j < k ==> (#[trigger] self@.posts[i]).id < (
                    #[trigger] self@.posts[j]).id,
                forall|i: int| 0 <= i < k ==> (#[trigger] self@.posts[i]).tags.no_duplicates(),
            decreases self.posts@.len() - k,
        {
            let post: &PostFull = &self.posts[k];
            assert(self@.posts[k as int] == post@);
            if post.id <= 0 || post.id > self.last_post {
                return false;
            }
            if k > 0 && self.posts[k - 1].id >= post.id {
                assert(self@.posts[k - 1].id >= self@.posts[k as int].id);
                return false;
            }
            if !post.tag_vector.is_distinct() {
                return false;
            }
            proof {
                assert forall|i: int, j: int| 0 <= i < j < k + 1 implies (
                #[trigger] self@.posts[i]).id < (#[trigger] self@.posts[j]).id by {
                    if j == k && i < k - 1 {
                        assert(self@.posts[i].id < self@.posts[k - 1].id);
                    }
                }
            }
            k = k + 1;
        }
        true
    }

    /// Whether the counter rows keep what they guarantee.
    fn check_tags(&self) -> (ok: bool)
        ensures
            ok == ({
                &&& forall|i: int|
                    0 <= i < self@.tags.len() ==> 0 < (#[trigger] self@.tags[i]).id
                        <= self@.last_tag
                &&& forall|i: int, j: int|
                    0 <= i < j < self@.tags.len() ==> (#[trigger] self@.tags[i]).name != (
                    #[trigger] self@.tags[j]).name
            }),
    {
        let mut k: usize = 0;
        while k < self.tags.len()
            invariant
                k <= self.tags@.len(),
                forall|i: int| 0 <= i < k ==> 0 < (#[trigger] self@.tags[i]).id <= self@.last_tag,
                forall|i: int, j: int|
                    0 <= i < j < k ==> (#[trigger] self@.tags[i]).name != (
                    #[trigger] self@.tags[j]).name,
            decreases self.tags@.len() - k,
        {
            let tag: &Tag = &self.tags[k];
            assert(self@.tags[k as int] == tag@);
            if tag.id <= 0 || tag.id > self.last_tag {
                return false;
            }
            let mut c: usize = 0;
            while c < k
                invariant
                    c <= k < self.tags@.len(),
                    tag == &self.tags@[k as int],
                    forall|i: int| 0 <= i < c ==> (#[trigger] self@.tags[i]).name != tag@.name,
                decreases k - c,
            {
                if self.tags[c].name == tag.name {
                    assert(self@.tags[c as int].name == self@.tags[k as int].name);
                    return false;
                }
                c = c + 1;
            }
            k = k + 1;
        }
        true
    }

    /// Whether the user rows keep what they guarantee.
    fn check_users(&self) -> (ok: bool)
        ensures
            ok == ({
                &&& forall|i: int|
                    0 <= i < self@.users.len() ==> 0 < (#[trigger] self@.users[i]).id
                        <= self@.last_user
                &&& forall|i: int, j: int|
                    0 <= i < j < self@.users.len() ==> (#[trigger] self@.users[i]).id < (
                    #[trigger] self@.users[j]).id
            }),
    {
        let mut k: usize = 0;
        while k < self.users.len()
            invariant
                k <= self.users@.len(),
                forall|i: int|
                    0 <= i < k ==> 0 < (#[trigger] self@.users[i]).id <= self@.last_user,
                forall|i: int, j: int|
                    0 <= i < j < k ==> (#[trigger] self@.users[i]).id < (
                    #[trigger] self@.users[j]).id,
            decreases self.users@.len() - k,
        {
            let user: &User = &self.users[k];
            assert(self@.users[k as int] == user@);
            if user.id <= 0 || user.id > self.last_user {
                return false;
            }
            if k > 0 && self.users[k - 1].id >= user.id {
                assert(self@.users[k - 1].id >= self@.users[k as int].id);
                return false;
            }
            proof {
                assert forall|i: int, j: int| 0 <= i < j < k + 1 implies (
                #[trigger] self@.users[i]).id < (#[trigger] self@.users[j]).id by {
                    if j == k && i < k - 1 {
                        assert(self@.users[i].id < self@.users[k - 1].id);
                    }
                }
            }
            k = k + 1;
        }
        true
    }

    /// Whether the tables keep what they guarantee. A store that was put
    /// together by hand is checked with this before it is used.
    pub fn check(&self) -> (ok: bool)
        ensures
            ok == self.wf(),
    {
        self.last_post >= 0 && self.last_tag >= 0 && self.last_user >= 0 && self.check_posts()
            && self.check_tags() && self.check_users()
    }

    /// A copy of the store.
    pub fn duplicate(&self) -> (db: Database)
        ensures
            db@ == self@,
    {
        let mut posts: Vec<PostFull> = Vec::new();
        let mut i: usize = 0;
        while i < self.posts.len()
            invariant
                i <= self.posts@.len(),
                rows(posts@) == rows(self.posts@).take(i as int),
            decreases self.posts@.len() - i,
        {
            let ghost had = rows(posts@);
            posts.push(self.posts[i].duplicate());
            i = i + 1;
            assert(rows(posts@) =~= had.push(self.posts@[i - 1]@));
            assert(rows(self.posts@).take(i as int) =~= rows(self.posts@).take(i - 1).push(
                self.posts@[i - 1]@,
            ));
        }
        assert(rows(self.posts@).take(i as int) =~= rows(self.posts@));
        let mut tags: Vec<Tag> = Vec::new();
        let mut j: usize = 0;
        while j < self.tags.len()
            invariant
                j <= self.tags@.len(),
                tag_rows(tags@) == tag_rows(self.tags@).take(j as int),
            decreases self.tags@.len() - j,
        {
            let ghost had = tag_rows(tags@);
            tags.push(self.tags[j].duplicate());
            j = j + 1;
            assert(tag_rows(tags@) =~= had.push(self.tags@[j - 1]@));
            assert(tag_rows(self.tags@).take(j as int) =~= tag_rows(self.tags@).take(j - 1).push(
                self.tags@[j - 1]@,
            ));
        }
        assert(tag_rows(self.tags@).take(j as int) =~= tag_rows(self.tags@));
        let mut users: Vec<User> = Vec::new();
        let mut k: usize = 0;
        while k < self.users.len()
            invariant
                k <= self.users@.len(),
                user_rows(users@) == user_rows(self.users@).take(k as int),
            decreases self.users@.len() - k,
        {
            let ghost had = user_rows(users@);
            users.push(self.users[k].duplicate());
            k = k + 1;
            assert(user_rows(users@) =~= had.push(self.users@[k - 1]@));
            assert(user_rows(self.users@).take(k as int) =~= user_rows(self.users@).take(
                k - 1,
            ).push(self.users@[k - 1]@));
        }
        assert(user_rows(self.users@).take(k as int) =~= user_rows(self.users@));
        Database {
            posts,
            tags,
            users,
            last_post: self.last_post,
            last_tag: self.last_tag,
            last_user: self.last_user,
        }
    }

    /// A store with empty tables.
    pub fn new() -> (db: Database)
        ensures
            db@ == DatabaseData::empty(),
            db.wf(),
    {
        let db = Database {
            posts: Vec::new(),
            tags: Vec::new(),
            users: Vec::new(),
            last_post: 0,
            last_tag: 0,
            last_user: 0,
        };
        assert(rows(db.posts@) =~= Seq::<PostData>::empty());
        assert(tag_rows(db.tags@) =~= Seq::<TagData>::empty());
        assert(user_rows(db.users@) =~= Seq::<UserData>::empty());
        db
    }
}

} // verus!
