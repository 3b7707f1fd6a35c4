//! The store as a mathematical value: its tables as sequences of rows, and
//! each statement that the library issues as a function from one value of
//! the store to the next.
use crate::database::enums::{Perms, PostSorting};
use crate::database::post::{NewPostData, PostData};
use vstd::prelude::*;

verus! {

/// A row of the tag counter table.
pub ghost struct TagData {
    pub id: int,
    pub name: Seq<char>,
    pub count: int,
    pub ty: int,
}

/// A row of the user table.
pub ghost struct UserData {
    pub id: int,
    pub name: Seq<char>,
    pub email: Option<Seq<char>>,
    pub pass: Seq<char>,
    pub picture: Seq<char>,
    pub perms: Perms,
}

/// The tables of the store, and the last identifier that each has given out.
pub ghost struct DatabaseData {
    pub posts: Seq<PostData>,
    pub tags: Seq<TagData>,
    pub users: Seq<UserData>,
    pub last_post: int,
    pub last_tag: int,
    pub last_user: int,
}

/// `tags` without repetitions: of equal tags the first one stays.
pub open spec fn distinct(tags: Seq<Seq<char>>) -> Seq<Seq<char>>
    decreases tags.len(),
{
    if tags.len() == 0 {
        Seq::empty()
    } else if distinct(tags.drop_last()).contains(tags.last()) {
        distinct(tags.drop_last())
    } else {
        distinct(tags.drop_last()).push(tags.last())
    }
}

/// Whether a row of `posts` has the identifier `id`.
pub open spec fn has_post(posts: Seq<PostData>, id: int) -> bool {
    exists|k: int| 0 <= k < posts.len() && (#[trigger] posts[k]).id == id
}

/// The place of the row with the identifier `id`, where there is one.
pub open spec fn place_of(posts: Seq<PostData>, id: int) -> int {
    choose|k: int| 0 <= k < posts.len() && (#[trigger] posts[k]).id == id
}

/// The rows with the delete mark of the row `id` set to `mark`.
pub open spec fn marked(posts: Seq<PostData>, id: int, mark: bool) -> Seq<PostData> {
    Seq::new(
        posts.len(),
        |k: int|
            if posts[k].id == id {
                PostData { is_deleted: mark, ..posts[k] }
            } else {
                posts[k]
            },
    )
}

/// The rows with the path of the row `id` set to `path`.
pub open spec fn moved(posts: Seq<PostData>, id: int, path: Seq<char>) -> Seq<PostData> {
    Seq::new(
        posts.len(),
        |k: int|
            if posts[k].id == id {
                PostData { path: path, ..posts[k] }
            } else {
                posts[k]
            },
    )
}

/// The rows that carry the delete mark, in table order.
pub open spec fn marked_rows(posts: Seq<PostData>) -> Seq<PostData>
    decreases posts.len(),
{
    if posts.len() == 0 {
        Seq::empty()
    } else if posts.last().is_deleted {
        marked_rows(posts.drop_last()).push(posts.last())
    } else {
        marked_rows(posts.drop_last())
    }
}

/// The rows without the delete mark, in table order.
pub open spec fn active_rows(posts: Seq<PostData>) -> Seq<PostData>
    decreases posts.len(),
{
    if posts.len() == 0 {
        Seq::empty()
    } else if posts.last().is_deleted {
        active_rows(posts.drop_last())
    } else {
        active_rows(posts.drop_last()).push(posts.last())
    }
}

/// A search expression matches a post that carries every tag of it.
pub open spec fn carries_all(tags: Seq<Seq<char>>, asked: Seq<Seq<char>>) -> bool {
    forall|k: int| 0 <= k < asked.len() ==> tags.contains(#[trigger] asked[k])
}

/// Whether a search lists the post: it is not deleted, matches the
/// expression of the wanted tags if there is one, and does not match the
/// expression of the barred tags if there is one.
pub open spec fn selects(post: PostData, wanted: Seq<Seq<char>>, barred: Seq<Seq<char>>) -> bool {
    &&& !post.is_deleted
    &&& carries_all(post.tags, wanted)
    &&& barred.len() > 0 ==> !carries_all(post.tags, barred)
}

/// The key that an order compares first.
pub open spec fn sort_key(post: PostData, sorting: PostSorting) -> int {
    if sorting.by_date() {
        post.create_date
    } else {
        post.score
    }
}

/// Whether `a` is listed before `b`: by the key, and by the identifier
/// where the keys are equal.
pub open spec fn precedes(a: PostData, b: PostData, sorting: PostSorting) -> bool {
    let ka = sort_key(a, sorting);
    let kb = sort_key(b, sorting);
    if sorting.ascending() {
        ka < kb || (ka == kb && a.id < b.id)
    } else {
        ka > kb || (ka == kb && a.id > b.id)
    }
}

/// The ordered list `list` with `post` put at its place.
pub open spec fn placed(list: Seq<PostData>, post: PostData, sorting: PostSorting) -> Seq<PostData>
    decreases list.len(),
{
    if list.len() == 0 {
        seq![post]
    } else if precedes(post, list[0], sorting) {
        seq![post] + list
    } else {
        seq![list[0]] + placed(list.drop_first(), post, sorting)
    }
}

/// The posts that a search selects, in the order asked for.
pub open spec fn ranking(
    posts: Seq<PostData>,
    wanted: Seq<Seq<char>>,
    barred: Seq<Seq<char>>,
    sorting: PostSorting,
) -> Seq<PostData>
    decreases posts.len(),
{
    if posts.len() == 0 {
        Seq::empty()
    } else if selects(posts.last(), wanted, barred) {
        placed(ranking(posts.drop_last(), wanted, barred, sorting), posts.last(), sorting)
    } else {
        ranking(posts.drop_last(), wanted, barred, sorting)
    }
}

/// Page `page` of `list`, with `limit` rows to a page.
pub open spec fn page_of(list: Seq<PostData>, page: nat, limit: nat) -> Seq<PostData> {
    let from: int = if page * limit <= list.len() {
        (page * limit) as int
    } else {
        list.len() as int
    };
    let to: int = if from + limit <= list.len() {
        from + limit
    } else {
        list.len() as int
    };
    list.subrange(from, to)
}

/// How often `name` occurs in `names`.
pub open spec fn occurrences(names: Seq<Seq<char>>, name: Seq<char>) -> int
    decreases names.len(),
{
    if names.len() == 0 {
        0
    } else if names.last() == name {
        occurrences(names.drop_last(), name) + 1
    } else {
        occurrences(names.drop_last(), name)
    }
}

/// How many posts without the delete mark carry the tag `name`.
pub open spec fn usage(posts: Seq<PostData>, name: Seq<char>) -> int
    decreases posts.len(),
{
    if posts.len() == 0 {
        0
    } else if !posts.last().is_deleted && posts.last().tags.contains(name) {
        usage(posts.drop_last(), name) + 1
    } else {
        usage(posts.drop_last(), name)
    }
}

/// Whether a counter row has the name `name`.
pub open spec fn has_tag(tags: Seq<TagData>, name: Seq<char>) -> bool {
    exists|k: int| 0 <= k < tags.len() && (#[trigger] tags[k]).name == name
}

/// The place of the counter row with the name `name`, where there is one.
pub open spec fn tag_place(tags: Seq<TagData>, name: Seq<char>) -> int {
    choose|k: int| 0 <= k < tags.len() && (#[trigger] tags[k]).name == name
}

/// What the counter table says of `name`: the count of its row, and 0
/// where it has no row.
pub open spec fn count_of(tags: Seq<TagData>, name: Seq<char>) -> int {
    if has_tag(tags, name) {
        tags[tag_place(tags, name)].count
    } else {
        0
    }
}

impl DatabaseData {
    /// The store with empty tables.
    pub open spec fn empty() -> DatabaseData {
        DatabaseData {
            posts: Seq::empty(),
            tags: Seq::empty(),
            users: Seq::empty(),
            last_post: 0,
            last_tag: 0,
            last_user: 0,
        }
    }

    /// What the tables guarantee: identifiers are positive, grow down each
    /// table and stay at or below the last one given out, which is not
    /// negative; no post carries a tag twice; no two counter rows have one
    /// name.
    pub open spec fn wf(self) -> bool {
        &&& 0 <= self.last_post
        &&& 0 <= self.last_tag
        &&& 0 <= self.last_user
        &&& forall|i: int|
            0 <= i < self.posts.len() ==> 0 < (#[trigger] self.posts[i]).id <= self.last_post
        &&& forall|i: int, j: int|
            0 <= i < j < self.posts.len() ==> (#[trigger] self.posts[i]).id < (
            #[trigger] self.posts[j]).id
        &&& forall|i: int|
            0 <= i < self.posts.len() ==> (#[trigger] self.posts[i]).tags.no_duplicates()
        &&& forall|i: int|
            0 <= i < self.tags.len() ==> 0 < (#[trigger] self.tags[i]).id <= self.last_tag
        &&& forall|i: int, j: int|
            0 <= i < j < self.tags.len() ==> (#[trigger] self.tags[i]).name != (
            #[trigger] self.tags[j]).name
        &&& forall|i: int|
            0 <= i < self.users.len() ==> 0 < (#[trigger] self.users[i]).id <= self.last_user
        &&& forall|i: int, j: int|
            0 <= i < j < self.users.len() ==> (#[trigger] self.users[i]).id < (
            #[trigger] self.users[j]).id
    }

    /// The post `id`, unless it is missing or carries the delete mark.
    pub open spec fn active_post(self, id: int) -> Option<PostData> {
        if has_post(self.posts, id) && !self.posts[place_of(self.posts, id)].is_deleted {
            Some(self.posts[place_of(self.posts, id)])
        } else {
            None
        }
    }

    /// The row that an insert of `new` at the time `now` adds.
    pub open spec fn fresh_post(self, new: NewPostData, now: int) -> PostData {
        PostData {
            id: self.last_post + 1,
            poster: new.poster,
            tags: distinct(new.tags),
            create_date: now,
            modified_date: now,
            description: Some(new.description),
            rating: new.rating,
            score: 0,
            views: 0,
            source: None,
            filename: new.filename,
            path: new.path,
            ext: new.ext,
            size: new.size,
            width: new.dimensions.0,
            height: new.dimensions.1,
            is_deleted: false,
        }
    }

    /// The store after an insert of `new` at the time `now`.
    pub open spec fn inserted(self, new: NewPostData, now: int) -> DatabaseData {
        DatabaseData {
            posts: self.posts.push(self.fresh_post(new, now)),
            last_post: self.last_post + 1,
            ..self
        }
    }

    /// The store after the delete mark of the post `id` is set to `mark`.
    pub open spec fn with_mark(self, id: int, mark: bool) -> DatabaseData {
        DatabaseData { posts: marked(self.posts, id, mark), ..self }
    }

    /// The store after the path of the post `id` is set to `path`.
    pub open spec fn with_path(self, id: int, path: Seq<char>) -> DatabaseData {
        DatabaseData { posts: moved(self.posts, id, path), ..self }
    }

    /// Whether a purge of the post `id` removes a row: only a row that
    /// carries the delete mark is removed.
    pub open spec fn purge_removes(self, id: int) -> bool {
        has_post(self.posts, id) && self.posts[place_of(self.posts, id)].is_deleted
    }

    /// The store after a purge of the post `id`.
    pub open spec fn purged(self, id: int) -> DatabaseData {
        if self.purge_removes(id) {
            DatabaseData { posts: self.posts.remove(place_of(self.posts, id)), ..self }
        } else {
            self
        }
    }

    /// The store after the counter of `name` went up by one; a tag that
    /// had no row gets one with the count 1.
    pub open spec fn bumped(self, name: Seq<char>) -> DatabaseData {
        if has_tag(self.tags, name) {
            let k = tag_place(self.tags, name);
            DatabaseData {
                tags: self.tags.update(k, TagData { count: self.tags[k].count + 1, ..self.tags[k] }),
                ..self
            }
        } else {
            DatabaseData {
                tags: self.tags.push(
                    TagData { id: self.last_tag + 1, name: name, count: 1, ty: 0 },
                ),
                last_tag: self.last_tag + 1,
                ..self
            }
        }
    }

    /// The store after the counter of each of `names` went up by one, once
    /// for each time the name occurs.
    pub open spec fn counted_up(self, names: Seq<Seq<char>>) -> DatabaseData
        decreases names.len(),
    {
        if names.len() == 0 {
            self
        } else {
            self.counted_up(names.drop_last()).bumped(names.last())
        }
    }

    /// Whether the counter of `name` can go up by one: its count, or the
    /// identifier of the row that it needs, stays in the range of its column.
    pub open spec fn bump_fits(self, name: Seq<char>) -> bool {
        if has_tag(self.tags, name) {
            self.tags[tag_place(self.tags, name)].count < i64::MAX
        } else {
            self.last_tag < i64::MAX
        }
    }

    /// Whether the counters of `names` can go up one after the other.
    pub open spec fn count_up_fits(self, names: Seq<Seq<char>>) -> bool
        decreases names.len(),
    {
        if names.len() == 0 {
            true
        } else {
            self.count_up_fits(names.drop_last()) && self.counted_up(names.drop_last()).bump_fits(
                names.last(),
            )
        }
    }

    /// Whether every counter whose name is among `names` can go down by one.
    pub open spec fn count_down_fits(self, names: Seq<Seq<char>>) -> bool {
        forall|k: int|
            0 <= k < self.tags.len() && names.contains((#[trigger] self.tags[k]).name)
                ==> self.tags[k].count > i64::MIN
    }

    /// The store after every counter whose name is among `names` went down
    /// by one. A counter may go below zero.
    pub open spec fn counted_down(self, names: Seq<Seq<char>>) -> DatabaseData {
        DatabaseData {
            tags: Seq::new(
                self.tags.len(),
                |k: int|
                    if names.contains(self.tags[k].name) {
                        TagData { count: self.tags[k].count - 1, ..self.tags[k] }
                    } else {
                        self.tags[k]
                    },
            ),
            ..self
        }
    }

    /// The store after a purge of each of `ids` in turn.
    pub open spec fn purged_each(self, ids: Seq<int>) -> DatabaseData
        decreases ids.len(),
    {
        if ids.len() == 0 {
            self
        } else {
            self.purged_each(ids.drop_last()).purged(ids.last())
        }
    }

    /// The store after an upload of `new` at the time `now`: each of its
    /// tags is counted up once, however often the upload lists it, the
    /// post is stored, and its path is set to `path`.
    pub open spec fn uploaded(self, new: NewPostData, now: int, path: Seq<char>) -> DatabaseData {
        self.counted_up(distinct(new.tags)).inserted(new, now).with_path(self.last_post + 1, path)
    }

    /// The store after a user deleted the post `id`: its tags are counted
    /// down and it carries the delete mark. Its row stays.
    pub open spec fn soft_deleted(self, id: int) -> DatabaseData {
        match self.active_post(id) {
            Some(post) => self.counted_down(post.tags).with_mark(id, true),
            None => self,
        }
    }

    /// The store after the change `change`.
    pub open spec fn changed(self, change: Change) -> DatabaseData {
        match change {
            Change::Upload(new, now, path) => self.uploaded(new, now, path),
            Change::Delete(id) => self.soft_deleted(id),
        }
    }

    /// The store after each of `changes` in turn.
    pub open spec fn changed_by(self, changes: Seq<Change>) -> DatabaseData
        decreases changes.len(),
    {
        if changes.len() == 0 {
            self
        } else {
            self.changed_by(changes.drop_last()).changed(changes.last())
        }
    }

    /// Every counter says how many posts without the delete mark carry its
    /// tag, and a tag without a counter is carried by none.
    pub open spec fn counted(self) -> bool {
        forall|name: Seq<char>| #[trigger] count_of(self.tags, name) == usage(self.posts, name)
    }
}

/// A change that a request makes to the store.
pub ghost enum Change {
    /// An upload of a post at a time, with the path that it is given.
    Upload(NewPostData, int, Seq<char>),
    /// A user deletes a post: it gets the delete mark.
    Delete(int),
}

/// The pages `0` to `count - 1` of `list`, one after the other.
pub open spec fn first_pages(list: Seq<PostData>, limit: nat, count: nat) -> Seq<PostData>
    decreases count,
{
    if count == 0 {
        Seq::empty()
    } else {
        first_pages(list, limit, (count - 1) as nat) + page_of(list, (count - 1) as nat, limit)
    }
}

/// The identifiers of `posts`, in order.
pub open spec fn ids_of(posts: Seq<PostData>) -> Seq<int> {
    Seq::new(posts.len(), |k: int| posts[k].id)
}

/// How many counter rows have a name among `names`.
pub open spec fn named_rows(tags: Seq<TagData>, names: Seq<Seq<char>>) -> int
    decreases tags.len(),
{
    if tags.len() == 0 {
        0
    } else if names.contains(tags.last().name) {
        named_rows(tags.drop_last(), names) + 1
    } else {
        named_rows(tags.drop_last(), names)
    }
}

/// The first user with the name `name`.
pub open spec fn user_named(users: Seq<UserData>, name: Seq<char>) -> Option<UserData>
    decreases users.len(),
{
    if users.len() == 0 {
        None
    } else if users[0].name == name {
        Some(users[0])
    } else {
        user_named(users.drop_first(), name)
    }
}

/// The first user with the identifier `id`.
pub open spec fn user_with_id(users: Seq<UserData>, id: int) -> Option<UserData>
    decreases users.len(),
{
    if users.len() == 0 {
        None
    } else if users[0].id == id {
        Some(users[0])
    } else {
        user_with_id(users.drop_first(), id)
    }
}

/// Whether a user has the name `name` or the address `email`.
pub open spec fn user_known(users: Seq<UserData>, name: Seq<char>, email: Option<Seq<char>>) -> bool {
    exists|k: int|
        0 <= k < users.len() && ((#[trigger] users[k]).name == name || (email is Some
            && users[k].email == email))
}

/// Whether `user` may delete a post of `poster`: the poster may, and so may
/// a moderator or an administrator. A user that the store does not know
/// has no permission level.
pub open spec fn may_delete(poster: int, user: int, perms: Option<Perms>) -> bool {
    poster == user || (perms is Some && perms->0.is_staff())
}

/// The permission level of the user `id`, where the store knows the user.
pub open spec fn perms_of(users: Seq<UserData>, id: int) -> Option<Perms> {
    match user_with_id(users, id) {
        Some(user) => Some(user.perms),
        None => None,
    }
}

/// After a counter went up the table still keeps what it guarantees.
pub proof fn lemma_bumped_wf(db: DatabaseData, name: Seq<char>)
    requires
        db.wf(),
    ensures
        db.bumped(name).wf(),
{
    let next = db.bumped(name);
    if has_tag(db.tags, name) {
        let k = tag_place(db.tags, name);
        assert forall|i: int, j: int| 0 <= i < j < next.tags.len() implies (
        #[trigger] next.tags[i]).name != (#[trigger] next.tags[j]).name by {
            assert(next.tags[i].name == db.tags[i].name);
            assert(next.tags[j].name == db.tags[j].name);
        }
        assert forall|i: int| 0 <= i < next.tags.len() implies 0 < (#[trigger] next.tags[i]).id
            <= next.last_tag by {
            assert(next.tags[i].id == db.tags[i].id);
        }
    } else {
        assert forall|i: int, j: int| 0 <= i < j < next.tags.len() implies (
        #[trigger] next.tags[i]).name != (#[trigger] next.tags[j]).name by {
            assert(next.tags[i] == db.tags[i]);
            if j < db.tags.len() {
                assert(next.tags[j] == db.tags[j]);
            }
        }
        assert forall|i: int| 0 <= i < next.tags.len() implies 0 < (#[trigger] next.tags[i]).id
            <= next.last_tag by {
            if i < db.tags.len() {
                assert(next.tags[i] == db.tags[i]);
            }
        }
    }
}

/// Counting tags up touches the counter table alone, and keeps what the
/// tables guarantee.
pub proof fn lemma_counted_up_frame(db: DatabaseData, names: Seq<Seq<char>>)
    requires
        db.wf(),
    ensures
        db.counted_up(names).wf(),
        db.counted_up(names).posts == db.posts,
        db.counted_up(names).users == db.users,
        db.counted_up(names).last_post == db.last_post,
        db.counted_up(names).last_user == db.last_user,
    decreases names.len(),
{
    if names.len() > 0 {
        lemma_counted_up_frame(db, names.drop_last());
        lemma_bumped_wf(db.counted_up(names.drop_last()), names.last());
    }
}

/// With growing identifiers a row is found by its identifier alone.
pub proof fn lemma_place_of(db: DatabaseData, id: int, k: int)
    requires
        db.wf(),
        0 <= k < db.posts.len(),
        db.posts[k].id == id,
    ensures
        has_post(db.posts, id),
        place_of(db.posts, id) == k,
{
    let c = place_of(db.posts, id);
    if c < k {
        assert(db.posts[c].id < db.posts[k].id);
    } else if k < c {
        assert(db.posts[k].id < db.posts[c].id);
    }
}

/// With distinct names a counter row is found by its name alone.
pub proof fn lemma_tag_place(db: DatabaseData, name: Seq<char>, k: int)
    requires
        db.wf(),
        0 <= k < db.tags.len(),
        db.tags[k].name == name,
    ensures
        has_tag(db.tags, name),
        tag_place(db.tags, name) == k,
        count_of(db.tags, name) == db.tags[k].count,
{
    let c = tag_place(db.tags, name);
    if c < k {
        assert(db.tags[c].name != db.tags[k].name);
    } else if k < c {
        assert(db.tags[k].name != db.tags[c].name);
    }
}

/// A list without repetitions is its own list of distinct tags.
pub proof fn lemma_distinct(tags: Seq<Seq<char>>)
    ensures
        distinct(tags).no_duplicates(),
        forall|t: Seq<char>| distinct(tags).contains(t) <==> tags.contains(t),
        tags.no_duplicates() ==> distinct(tags) == tags,
    decreases tags.len(),
{
    if tags.len() > 0 {
        let front = tags.drop_last();
        let d = distinct(front);
        lemma_distinct(front);
        let last = tags.last();
        assert forall|t: Seq<char>| distinct(tags).contains(t) <==> tags.contains(t) by {
            assert(d.contains(t) <==> front.contains(t));
            if tags.contains(t) {
                let k = choose|k: int| 0 <= k < tags.len() && tags[k] == t;
                if k < front.len() {
                    assert(front[k] == t);
                    assert(front.contains(t));
                    let j = choose|j: int| 0 <= j < d.len() && d[j] == t;
                    if !d.contains(last) {
                        assert(d.push(last)[j] == t);
                    }
                } else {
                    assert(t == last);
                    if !d.contains(last) {
                        assert(d.push(last)[d.len() as int] == t);
                    }
                }
            }
            if distinct(tags).contains(t) {
                let j = choose|j: int| 0 <= j < distinct(tags).len() && distinct(tags)[j] == t;
                if j < d.len() {
                    assert(d[j] == t);
                    assert(d.contains(t));
                    assert(front.contains(t));
                    let k = choose|k: int| 0 <= k < front.len() && front[k] == t;
                    assert(tags[k] == t);
                } else {
                    assert(tags[tags.len() - 1] == t);
                }
            }
        }
        if tags.no_duplicates() {
            assert(front.no_duplicates());
            if d.contains(last) {
                assert(front.contains(last));
                let k = choose|k: int| 0 <= k < front.len() && front[k] == last;
                assert(tags[k] == tags[tags.len() - 1]);
            }
            assert(front.push(tags.last()) =~= tags);
        }
    }
}

} // verus!
