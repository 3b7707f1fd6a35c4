//! What holds of the store whatever it holds: a purge is idempotent, the
//! tag counters follow the posts, and the pages of a search are cut from
//! one list.
use crate::database::enums::PostSorting;
use crate::database::model::{
    active_rows, count_of, distinct, first_pages, has_post, has_tag, ids_of, lemma_bumped_wf,
    lemma_counted_up_frame, lemma_distinct, lemma_place_of, lemma_tag_place, marked, marked_rows,
    moved, occurrences, page_of, place_of, placed, precedes, ranking, selects, tag_place,
    usage, Change, DatabaseData,
};
use crate::database::post::{NewPostData, PostData};
use vstd::prelude::*;

verus! {

/// A purge keeps what the tables guarantee.
pub proof fn lemma_purged_wf(db: DatabaseData, id: int)
    requires
        db.wf(),
    ensures
        db.purged(id).wf(),
{
    if db.purge_removes(id) {
        let k = place_of(db.posts, id);
        let next = db.purged(id);
        assert forall|i: int| 0 <= i < next.posts.len() implies 0 < (#[trigger] next.posts[i]).id
            <= next.last_post && next.posts[i].tags.no_duplicates() by {
            if i < k {
                assert(next.posts[i] == db.posts[i]);
            } else {
                assert(next.posts[i] == db.posts[i + 1]);
            }
        }
        assert forall|i: int, j: int| 0 <= i < j < next.posts.len() implies (
        #[trigger] next.posts[i]).id < (#[trigger] next.posts[j]).id by {
            let a = if i < k {
                i
            } else {
                i + 1
            };
            let b = if j < k {
                j
            } else {
                j + 1
            };
            assert(next.posts[i] == db.posts[a]);
            assert(next.posts[j] == db.posts[b]);
        }
    }
}

/// A second purge of the same post removes nothing and changes nothing:
/// once its row is gone, or where it never carried the delete mark, the
/// purge finds no row to remove.
pub proof fn law_purge_twice(db: DatabaseData, id: int)
    requires
        db.wf(),
    ensures
        !db.purged(id).purge_removes(id),
        db.purged(id).purged(id) == db.purged(id),
{
    if db.purge_removes(id) {
        let k = place_of(db.posts, id);
        let next = db.purged(id);
        lemma_purged_wf(db, id);
        if has_post(next.posts, id) {
            let c = place_of(next.posts, id);
            let at = if c < k {
                c
            } else {
                c + 1
            };
            assert(next.posts[c] == db.posts[at]);
            lemma_place_of(db, id, at);
        }
    }
}

/// A purge of a post that carries no delete mark changes nothing: a post
/// leaves the store only by way of the delete mark.
pub proof fn law_purge_spares_active(db: DatabaseData, id: int)
    requires
        db.wf(),
        db.active_post(id) is Some,
    ensures
        !db.purge_removes(id),
        db.purged(id) == db,
{
}

/// Purging posts that are in front of the last row leaves the last row in
/// its place.
proof fn lemma_purge_before_last(db: DatabaseData, last: PostData, ids: Seq<int>)
    requires
        (DatabaseData { posts: db.posts.push(last), ..db }).wf(),
        forall|k: int| 0 <= k < ids.len() ==> ids[k] != last.id,
    ensures
        db.wf(),
        db.purged_each(ids).wf(),
        (DatabaseData { posts: db.posts.push(last), ..db }).purged_each(ids) == (DatabaseData {
            posts: db.purged_each(ids).posts.push(last),
            ..db.purged_each(ids)
        }),
        (DatabaseData { posts: db.posts.push(last), ..db }).purged_each(ids).wf(),
    decreases ids.len(),
{
    let whole = DatabaseData { posts: db.posts.push(last), ..db };
    assert(db.wf()) by {
        assert(whole.tags == db.tags);
        assert(whole.users == db.users);
        assert forall|i: int| 0 <= i < db.tags.len() implies 0 < (#[trigger] db.tags[i]).id
            <= db.last_tag by {
            assert(whole.tags[i] == db.tags[i]);
        }
        assert forall|i: int, j: int| 0 <= i < j < db.tags.len() implies (#[trigger] db.tags[i]).name
            != (#[trigger] db.tags[j]).name by {
            assert(whole.tags[i] == db.tags[i]);
            assert(whole.tags[j] == db.tags[j]);
        }
        assert forall|i: int| 0 <= i < db.posts.len() implies 0 < (#[trigger] db.posts[i]).id
            <= db.last_post && db.posts[i].tags.no_duplicates() by {
            assert(whole.posts[i] == db.posts[i]);
        }
        assert forall|i: int, j: int| 0 <= i < j < db.posts.len() implies (
        #[trigger] db.posts[i]).id < (#[trigger] db.posts[j]).id by {
            assert(whole.posts[i] == db.posts[i]);
            assert(whole.posts[j] == db.posts[j]);
        }
    }
    if ids.len() == 0 {
    } else {
        let front = ids.drop_last();
        let id = ids.last();
        lemma_purge_before_last(db, last, front);
        let part = db.purged_each(front);
        let full = whole.purged_each(front);
        assert(full.posts == part.posts.push(last));
        lemma_purged_wf(part, id);
        lemma_purged_wf(full, id);
        if has_post(part.posts, id) {
            let k = place_of(part.posts, id);
            assert(full.posts[k] == part.posts[k]);
            lemma_place_of(full, id, k);
            if part.posts[k].is_deleted {
                assert(full.posts.remove(k) =~= part.posts.remove(k).push(last));
            }
        } else {
            if has_post(full.posts, id) {
                let c = place_of(full.posts, id);
                if c < part.posts.len() {
                    assert(part.posts[c] == full.posts[c]);
                }
            }
        }
    }
}

/// No identifier of a row in front of the last row is that of the last row.
proof fn lemma_marked_before_last(db: DatabaseData, last: PostData)
    requires
        (DatabaseData { posts: db.posts.push(last), ..db }).wf(),
    ensures
        forall|k: int|
            0 <= k < ids_of(marked_rows(db.posts)).len() ==> ids_of(marked_rows(db.posts))[k]
                != last.id,
{
    let whole = DatabaseData { posts: db.posts.push(last), ..db };
    lemma_rows_kept(db.posts);
    assert forall|k: int| 0 <= k < ids_of(marked_rows(db.posts)).len() implies ids_of(
        marked_rows(db.posts),
    )[k] != last.id by {
        let row = marked_rows(db.posts)[k];
        assert(marked_rows(db.posts).contains(row));
        assert(db.posts.contains(row));
        let j = choose|j: int| 0 <= j < db.posts.len() && db.posts[j] == row;
        assert(whole.posts[j] == row);
        assert(whole.posts[db.posts.len() as int] == last);
        assert(whole.posts[j].id < whole.posts[db.posts.len() as int].id);
    }
}

/// The rows with the delete mark and the rows without it are rows of the
/// table, and carry the mark or not as their list says.
pub proof fn lemma_rows_kept(posts: Seq<PostData>)
    ensures
        forall|p: PostData|
            #[trigger] marked_rows(posts).contains(p) <==> (posts.contains(p) && p.is_deleted),
        forall|p: PostData|
            #[trigger] active_rows(posts).contains(p) <==> (posts.contains(p) && !p.is_deleted),
    decreases posts.len(),
{
    if posts.len() > 0 {
        let front = posts.drop_last();
        let last = posts.last();
        lemma_rows_kept(front);
        assert forall|p: PostData|
            #[trigger] marked_rows(posts).contains(p) <==> (posts.contains(p) && p.is_deleted) by {
            lemma_contains_last(posts, p);
            assert(marked_rows(front).contains(p) <==> (front.contains(p) && p.is_deleted));
            if last.is_deleted {
                lemma_contains_push(marked_rows(front), last, p);
            }
        }
        assert forall|p: PostData|
            #[trigger] active_rows(posts).contains(p) <==> (posts.contains(p) && !p.is_deleted) by {
            lemma_contains_last(posts, p);
            assert(active_rows(front).contains(p) <==> (front.contains(p) && !p.is_deleted));
            if !last.is_deleted {
                lemma_contains_push(active_rows(front), last, p);
            }
        }
    } else {
        assert forall|p: PostData|
            #[trigger] marked_rows(posts).contains(p) <==> (posts.contains(p) && p.is_deleted) by {
            assert(marked_rows(posts).len() == 0);
        }
        assert forall|p: PostData|
            #[trigger] active_rows(posts).contains(p) <==> (posts.contains(p) && !p.is_deleted) by {
            assert(active_rows(posts).len() == 0);
        }
    }
}

/// What a list with one more row at its end holds.
proof fn lemma_contains_push(list: Seq<PostData>, last: PostData, p: PostData)
    ensures
        list.push(last).contains(p) <==> (list.contains(p) || p == last),
{
    if list.contains(p) {
        let k = choose|k: int| 0 <= k < list.len() && list[k] == p;
        assert(list.push(last)[k] == p);
    }
    if p == last {
        assert(list.push(last)[list.len() as int] == p);
    }
    if list.push(last).contains(p) {
        let k = choose|k: int| 0 <= k < list.push(last).len() && list.push(last)[k] == p;
        if k < list.len() {
            assert(list[k] == p);
        }
    }
}

/// What a list that is not empty holds: its last row, and what the rows
/// in front of it hold.
proof fn lemma_contains_last(list: Seq<PostData>, p: PostData)
    requires
        list.len() > 0,
    ensures
        list.contains(p) <==> (list.drop_last().contains(p) || p == list.last()),
{
    assert(list.drop_last().push(list.last()) =~= list);
    lemma_contains_push(list.drop_last(), list.last(), p);
}

/// Purging every post that carries the delete mark leaves exactly the
/// posts without it.
pub proof fn law_purge_all(db: DatabaseData)
    requires
        db.wf(),
    ensures
        db.purged_each(ids_of(marked_rows(db.posts))).wf(),
        db.purged_each(ids_of(marked_rows(db.posts))) == (DatabaseData {
            posts: active_rows(db.posts),
            ..db
        }),
    decreases db.posts.len(),
{
    if db.posts.len() == 0 {
        assert(ids_of(marked_rows(db.posts)) =~= Seq::<int>::empty());
        assert(active_rows(db.posts) =~= db.posts);
    } else {
        let last = db.posts.last();
        let front = DatabaseData { posts: db.posts.drop_last(), ..db };
        assert(front.posts.push(last) =~= db.posts);
        assert(db == DatabaseData { posts: front.posts.push(last), ..front });
        let ids = ids_of(marked_rows(front.posts));
        lemma_marked_before_last(front, last);
        lemma_purge_before_last(front, last, ids);
        law_purge_all(front);
        let swept = db.purged_each(ids);
        assert(swept.posts == active_rows(front.posts).push(last));
        if last.is_deleted {
            let all = ids_of(marked_rows(db.posts));
            assert(all.drop_last() =~= ids);
            assert(all.last() == last.id);
            let k = active_rows(front.posts).len() as int;
            assert(swept.posts[k] == last);
            lemma_place_of(swept, last.id, k);
            assert(swept.posts.remove(k) =~= active_rows(front.posts));
            lemma_purged_wf(swept, last.id);
        } else {
            assert(ids_of(marked_rows(db.posts)) =~= ids);
        }
    }
}

/// The rows with the delete mark keep the order of the table, so their
/// identifiers grow.
proof fn lemma_marked_grow(db: DatabaseData)
    requires
        db.wf(),
    ensures
        forall|i: int, j: int|
            0 <= i < j < marked_rows(db.posts).len() ==> (#[trigger] marked_rows(db.posts)[i]).id < (
            #[trigger] marked_rows(db.posts)[j]).id,
    decreases db.posts.len(),
{
    if db.posts.len() > 0 {
        let last = db.posts.last();
        let front = DatabaseData { posts: db.posts.drop_last(), ..db };
        assert(front.posts.push(last) =~= db.posts);
        assert(db == DatabaseData { posts: front.posts.push(last), ..front });
        lemma_purge_before_last(front, last, Seq::empty());
        lemma_marked_grow(front);
        lemma_marked_before_last(front, last);
        lemma_rows_kept(front.posts);
        let before = marked_rows(front.posts);
        let list = marked_rows(db.posts);
        assert forall|i: int, j: int| 0 <= i < j < list.len() implies (#[trigger] list[i]).id < (
        #[trigger] list[j]).id by {
            assert(list[i] == before[i]);
            if j < before.len() {
                assert(list[j] == before[j]);
            } else {
                assert(before.contains(before[i]));
                assert(front.posts.contains(before[i]));
                let c = choose|c: int| 0 <= c < front.posts.len() && front.posts[c] == before[i];
                assert(db.posts[c] == before[i]);
                assert(db.posts[c].id < db.posts[db.posts.len() - 1].id);
            }
        }
    }
}

/// While the posts with the delete mark are purged in table order, those
/// that are not yet purged stay in the table, so each purge removes a row.
pub proof fn lemma_purge_in_turn(db: DatabaseData, k: int)
    requires
        db.wf(),
        0 <= k <= marked_rows(db.posts).len(),
    ensures
        db.purged_each(ids_of(marked_rows(db.posts).take(k))).wf(),
        forall|j: int|
            k <= j < marked_rows(db.posts).len() ==> db.purged_each(
                ids_of(marked_rows(db.posts).take(k)),
            ).posts.contains(#[trigger] marked_rows(db.posts)[j]),
        k < marked_rows(db.posts).len() ==> db.purged_each(
            ids_of(marked_rows(db.posts).take(k)),
        ).purge_removes(marked_rows(db.posts)[k].id),
    decreases k,
{
    let list = marked_rows(db.posts);
    let now = db.purged_each(ids_of(list.take(k)));
    lemma_rows_kept(db.posts);
    lemma_marked_grow(db);
    if k == 0 {
        assert(ids_of(list.take(0)) =~= Seq::<int>::empty());
        assert forall|j: int| 0 <= j < list.len() implies now.posts.contains(#[trigger] list[j]) by {
            assert(list.contains(list[j]));
        }
    } else {
        lemma_purge_in_turn(db, k - 1);
        let was = db.purged_each(ids_of(list.take(k - 1)));
        let gone = list[k - 1];
        assert(ids_of(list.take(k)).drop_last() =~= ids_of(list.take(k - 1)));
        assert(ids_of(list.take(k)).last() == gone.id);
        assert(now == was.purged(gone.id));
        lemma_purged_wf(was, gone.id);
        let at = place_of(was.posts, gone.id);
        assert forall|j: int| k <= j < list.len() implies now.posts.contains(#[trigger] list[j]) by {
            assert(was.posts.contains(list[j]));
            let c = choose|c: int| 0 <= c < was.posts.len() && was.posts[c] == list[j];
            assert(list[k - 1].id < list[j].id);
            if c < at {
                assert(now.posts[c] == list[j]);
            } else {
                assert(c != at);
                assert(now.posts[c - 1] == list[j]);
            }
        }
    }
    if k < list.len() {
        assert(now.posts.contains(list[k]));
        let c = choose|c: int| 0 <= c < now.posts.len() && now.posts[c] == list[k];
        lemma_place_of(now, list[k].id, c);
        assert(list.contains(list[k]));
    }
}

/// A delete mark that is set and cleared again leaves the post as it was:
/// a post that is restored is active as before.
pub proof fn law_restore_undoes_delete(db: DatabaseData, id: int)
    requires
        db.wf(),
        db.active_post(id) is Some,
    ensures
        db.with_mark(id, true).with_mark(id, false) == db,
        db.with_mark(id, true).active_post(id) is None,
{
    let k = place_of(db.posts, id);
    let marked_db = db.with_mark(id, true);
    assert(marked_db.posts[k].id == id);
    assert(has_post(marked_db.posts, id));
    assert(marked_db.with_mark(id, false).posts =~= db.posts) by {
        assert forall|i: int| 0 <= i < db.posts.len() implies marked_db.with_mark(id, false).posts[i]
            == db.posts[i] by {
            if db.posts[i].id == id {
                lemma_place_of(db, id, i);
            }
        }
    }
    let c = place_of(marked_db.posts, id);
    assert(marked_db.posts[c].id == id);
    assert(marked_db.posts[c].is_deleted);
}

/// After every post with the delete mark was purged none is left to
/// purge: a second run removes no row, and so names no file to remove.
pub proof fn law_purge_all_twice(db: DatabaseData)
    requires
        db.wf(),
    ensures
        marked_rows(db.purged_each(ids_of(marked_rows(db.posts))).posts) == Seq::<PostData>::empty(),
{
    law_purge_all(db);
    lemma_rows_kept(db.posts);
    lemma_rows_kept(active_rows(db.posts));
    let left = marked_rows(active_rows(db.posts));
    if left.len() > 0 {
        let p = left[0];
        assert(left.contains(p));
        assert(active_rows(db.posts).contains(p) && p.is_deleted);
        assert(db.posts.contains(p) && !p.is_deleted);
    }
    assert(left.len() == 0);
    assert(left =~= Seq::<PostData>::empty());
}

/// A name that is listed once at most occurs once if it is listed at all.
proof fn lemma_occurrences(names: Seq<Seq<char>>, name: Seq<char>)
    requires
        names.no_duplicates(),
    ensures
        occurrences(names, name) == if names.contains(name) {
            1int
        } else {
            0int
        },
    decreases names.len(),
{
    if names.len() > 0 {
        let front = names.drop_last();
        lemma_occurrences(front, name);
        if names.last() == name {
            if front.contains(name) {
                let k = choose|k: int| 0 <= k < front.len() && front[k] == name;
                assert(names[k] == names[names.len() - 1]);
            }
            assert(names[names.len() - 1] == name);
        } else {
            if names.contains(name) {
                let k = choose|k: int| 0 <= k < names.len() && names[k] == name;
                assert(front[k] == name);
            }
            if front.contains(name) {
                let k = choose|k: int| 0 <= k < front.len() && front[k] == name;
                assert(names[k] == name);
            }
        }
    }
}

/// One more on the counter of `name` is one more for `name` and nothing
/// for any other tag.
proof fn lemma_count_bumped(db: DatabaseData, name: Seq<char>, other: Seq<char>)
    requires
        db.wf(),
    ensures
        count_of(db.bumped(name).tags, other) == count_of(db.tags, other) + if other == name {
            1int
        } else {
            0int
        },
{
    let next = db.bumped(name);
    lemma_bumped_wf(db, name);
    if has_tag(db.tags, name) {
        let k = tag_place(db.tags, name);
        if has_tag(db.tags, other) {
            let j = tag_place(db.tags, other);
            assert(next.tags[j].name == other);
            lemma_tag_place(next, other, j);
        } else {
            if has_tag(next.tags, other) {
                let c = tag_place(next.tags, other);
                assert(db.tags[c].name == other);
            }
        }
    } else {
        if has_tag(db.tags, other) {
            let j = tag_place(db.tags, other);
            assert(next.tags[j] == db.tags[j]);
            lemma_tag_place(next, other, j);
        } else {
            if other == name {
                assert(next.tags[db.tags.len() as int].name == name);
                lemma_tag_place(next, other, db.tags.len() as int);
            } else if has_tag(next.tags, other) {
                let c = tag_place(next.tags, other);
                if c < db.tags.len() {
                    assert(db.tags[c].name == other);
                }
            }
        }
    }
}

/// Counting tags up adds to the counter of each tag how often it is listed.
proof fn lemma_count_up(db: DatabaseData, names: Seq<Seq<char>>, other: Seq<char>)
    requires
        db.wf(),
    ensures
        count_of(db.counted_up(names).tags, other) == count_of(db.tags, other) + occurrences(
            names,
            other,
        ),
    decreases names.len(),
{
    if names.len() > 0 {
        lemma_count_up(db, names.drop_last(), other);
        lemma_counted_up_frame(db, names.drop_last());
        lemma_count_bumped(db.counted_up(names.drop_last()), names.last(), other);
    }
}

/// Counting tags down keeps what the tables guarantee, and takes one from
/// the counter of each listed tag that has a counter.
proof fn lemma_count_down(db: DatabaseData, names: Seq<Seq<char>>, other: Seq<char>)
    requires
        db.wf(),
    ensures
        db.counted_down(names).wf(),
        count_of(db.counted_down(names).tags, other) == count_of(db.tags, other) - if names.contains(
            other,
        ) && has_tag(db.tags, other) {
            1int
        } else {
            0int
        },
{
    let next = db.counted_down(names);
    assert(next.wf()) by {
        assert forall|i: int| 0 <= i < next.tags.len() implies 0 < (#[trigger] next.tags[i]).id
            <= next.last_tag by {
            assert(next.tags[i].id == db.tags[i].id);
        }
        assert forall|i: int, j: int| 0 <= i < j < next.tags.len() implies (
        #[trigger] next.tags[i]).name != (#[trigger] next.tags[j]).name by {
            assert(next.tags[i].name == db.tags[i].name);
            assert(next.tags[j].name == db.tags[j].name);
        }
    }
    if has_tag(db.tags, other) {
        let j = tag_place(db.tags, other);
        assert(next.tags[j].name == other);
        lemma_tag_place(next, other, j);
    } else {
        if has_tag(next.tags, other) {
            let c = tag_place(next.tags, other);
            assert(db.tags[c].name == other);
        }
    }
}

/// One more row at the end of the table is one more use of each of its
/// tags if it carries no delete mark.
proof fn lemma_usage_push(posts: Seq<PostData>, post: PostData, name: Seq<char>)
    ensures
        usage(posts.push(post), name) == usage(posts, name) + if !post.is_deleted
            && post.tags.contains(name) {
            1int
        } else {
            0int
        },
{
    assert(posts.push(post).drop_last() =~= posts);
}

/// The path of a post has no part in how often a tag is used.
proof fn lemma_usage_moved(posts: Seq<PostData>, id: int, path: Seq<char>, name: Seq<char>)
    ensures
        usage(moved(posts, id, path), name) == usage(posts, name),
    decreases posts.len(),
{
    if posts.len() > 0 {
        lemma_usage_moved(posts.drop_last(), id, path, name);
        assert(moved(posts, id, path).drop_last() =~= moved(posts.drop_last(), id, path));
    }
}

/// A tag is used no less often than never, and at least once where a post
/// without the delete mark carries it.
proof fn lemma_usage_some(posts: Seq<PostData>, k: int, name: Seq<char>)
    requires
        0 <= k < posts.len(),
        !posts[k].is_deleted,
        posts[k].tags.contains(name),
    ensures
        usage(posts, name) >= 1,
    decreases posts.len(),
{
    lemma_usage_least(posts.drop_last(), name);
    if k < posts.len() - 1 {
        lemma_usage_some(posts.drop_last(), k, name);
    }
}

/// A tag is used no less often than never.
proof fn lemma_usage_least(posts: Seq<PostData>, name: Seq<char>)
    ensures
        usage(posts, name) >= 0,
    decreases posts.len(),
{
    if posts.len() > 0 {
        lemma_usage_least(posts.drop_last(), name);
    }
}

/// The delete mark on the post at place `k` takes one use from each of
/// its tags if it carried no mark before, and none otherwise.
proof fn lemma_usage_marked(posts: Seq<PostData>, k: int, name: Seq<char>)
    requires
        0 <= k < posts.len(),
        forall|i: int, j: int|
            0 <= i < j < posts.len() ==> (#[trigger] posts[i]).id < (#[trigger] posts[j]).id,
    ensures
        usage(marked(posts, posts[k].id, true), name) == usage(posts, name) - if !posts[k].is_deleted
            && posts[k].tags.contains(name) {
            1int
        } else {
            0int
        },
    decreases posts.len(),
{
    let id = posts[k].id;
    let front = posts.drop_last();
    let last = posts.last();
    assert(marked(posts, id, true).drop_last() =~= marked(front, id, true));
    if k == posts.len() - 1 {
        assert(marked(front, id, true) =~= front) by {
            assert forall|i: int| 0 <= i < front.len() implies marked(front, id, true)[i]
                == front[i] by {
                assert(posts[i].id < posts[k].id);
            }
        }
    } else {
        assert(posts[k].id < posts[posts.len() - 1].id);
        assert forall|i: int, j: int| 0 <= i < j < front.len() implies (#[trigger] front[i]).id < (
        #[trigger] front[j]).id by {
            assert(posts[i].id < posts[j].id);
        }
        assert(front[k] == posts[k]);
        lemma_usage_marked(front, k, name);
    }
}

/// An insert keeps what the tables guarantee.
proof fn lemma_inserted_wf(db: DatabaseData, new: NewPostData, now: int)
    requires
        db.wf(),
    ensures
        db.inserted(new, now).wf(),
{
    let next = db.inserted(new, now);
    lemma_distinct(new.tags);
    assert forall|i: int| 0 <= i < next.posts.len() implies 0 < (#[trigger] next.posts[i]).id
        <= next.last_post && next.posts[i].tags.no_duplicates() by {
        if i < db.posts.len() {
            assert(next.posts[i] == db.posts[i]);
        }
    }
    assert forall|i: int, j: int| 0 <= i < j < next.posts.len() implies (
    #[trigger] next.posts[i]).id < (#[trigger] next.posts[j]).id by {
        assert(next.posts[i] == db.posts[i]);
        if j < db.posts.len() {
            assert(next.posts[j] == db.posts[j]);
        }
    }
}

/// A new path or a new delete mark keeps what the tables guarantee.
proof fn lemma_marked_moved_wf(db: DatabaseData, id: int, mark: bool, path: Seq<char>)
    requires
        db.wf(),
    ensures
        db.with_mark(id, mark).wf(),
        db.with_path(id, path).wf(),
{
    let a = db.with_mark(id, mark);
    assert forall|i: int| 0 <= i < a.posts.len() implies 0 < (#[trigger] a.posts[i]).id
        <= a.last_post && a.posts[i].tags.no_duplicates() by {
        assert(a.posts[i].id == db.posts[i].id);
    }
    assert forall|i: int, j: int| 0 <= i < j < a.posts.len() implies (#[trigger] a.posts[i]).id < (
    #[trigger] a.posts[j]).id by {
        assert(a.posts[i].id == db.posts[i].id);
        assert(a.posts[j].id == db.posts[j].id);
    }
    let b = db.with_path(id, path);
    assert forall|i: int| 0 <= i < b.posts.len() implies 0 < (#[trigger] b.posts[i]).id
        <= b.last_post && b.posts[i].tags.no_duplicates() by {
        assert(b.posts[i].id == db.posts[i].id);
    }
    assert forall|i: int, j: int| 0 <= i < j < b.posts.len() implies (#[trigger] b.posts[i]).id < (
    #[trigger] b.posts[j]).id by {
        assert(b.posts[i].id == db.posts[i].id);
        assert(b.posts[j].id == db.posts[j].id);
    }
}

/// An upload keeps the counters right: where every counter said how many
/// posts without the delete mark carry its tag, it still does after a post
/// was uploaded, whatever tags the upload lists and however often.
pub proof fn law_upload_keeps_count(db: DatabaseData, new: NewPostData, now: int, path: Seq<char>)
    requires
        db.wf(),
        db.counted(),
    ensures
        db.uploaded(new, now, path).wf(),
        db.uploaded(new, now, path).counted(),
{
    let once = distinct(new.tags);
    let up = db.counted_up(once);
    let stored = up.inserted(new, now);
    let next = db.uploaded(new, now, path);
    lemma_counted_up_frame(db, once);
    lemma_inserted_wf(up, new, now);
    lemma_marked_moved_wf(stored, db.last_post + 1, true, path);
    lemma_distinct(new.tags);
    assert forall|name: Seq<char>| #[trigger]
        count_of(next.tags, name) == usage(next.posts, name) by {
        lemma_count_up(db, once, name);
        lemma_occurrences(once, name);
        lemma_usage_push(db.posts, up.fresh_post(new, now), name);
        lemma_usage_moved(stored.posts, db.last_post + 1, path, name);
        assert(count_of(db.tags, name) == usage(db.posts, name));
    }
}

/// A delete keeps the counters right: where every counter said how many
/// posts without the delete mark carry its tag, it still does after a user
/// deleted a post.
pub proof fn law_delete_keeps_count(db: DatabaseData, id: int)
    requires
        db.wf(),
        db.counted(),
    ensures
        db.soft_deleted(id).wf(),
        db.soft_deleted(id).counted(),
{
    let next = db.soft_deleted(id);
    match db.active_post(id) {
        Some(post) => {
            let k = place_of(db.posts, id);
            let down = db.counted_down(post.tags);
            assert(down.wf()) by {
                lemma_count_down(db, post.tags, post.tags[0]);
            }
            lemma_marked_moved_wf(down, id, true, Seq::empty());
            assert forall|name: Seq<char>| #[trigger]
                count_of(next.tags, name) == usage(next.posts, name) by {
                lemma_count_down(db, post.tags, name);
                lemma_usage_marked(db.posts, k, name);
                assert(count_of(db.tags, name) == usage(db.posts, name));
                if post.tags.contains(name) {
                    lemma_usage_some(db.posts, k, name);
                }
            }
        },
        None => {},
    }
}

/// After any run of uploads and deletes on an empty store every counter
/// says how many posts without the delete mark carry its tag.
pub proof fn law_counters_follow_posts(changes: Seq<Change>)
    ensures
        DatabaseData::empty().changed_by(changes).wf(),
        DatabaseData::empty().changed_by(changes).counted(),
    decreases changes.len(),
{
    let start = DatabaseData::empty();
    if changes.len() == 0 {
        assert forall|name: Seq<char>| #[trigger]
            count_of(start.tags, name) == usage(start.posts, name) by {}
    } else {
        let front = changes.drop_last();
        law_counters_follow_posts(front);
        let at = start.changed_by(front);
        match changes.last() {
            Change::Upload(new, now, path) => {
                law_upload_keeps_count(at, new, now, path);
            },
            Change::Delete(id) => {
                law_delete_keeps_count(at, id);
            },
        }
    }
}

/// The order of a search is strict: no post is listed before itself.
pub proof fn law_order_is_strict(a: PostData, sorting: PostSorting)
    ensures
        !precedes(a, a, sorting),
{
}

/// The order of a search is transitive.
pub proof fn law_order_is_transitive(a: PostData, b: PostData, c: PostData, sorting: PostSorting)
    requires
        precedes(a, b, sorting),
        precedes(b, c, sorting),
    ensures
        precedes(a, c, sorting),
{
}

/// The order of a search is total on posts with different identifiers:
/// one of two such posts is listed before the other, whatever their keys.
pub proof fn law_order_is_total(a: PostData, b: PostData, sorting: PostSorting)
    requires
        a.id != b.id,
    ensures
        precedes(a, b, sorting) || precedes(b, a, sorting),
{
}

/// Where a post is put into an ordered list.
proof fn lemma_placed_at(list: Seq<PostData>, post: PostData, sorting: PostSorting) -> (k: int)
    ensures
        0 <= k <= list.len(),
        placed(list, post, sorting) == list.insert(k, post),
        forall|j: int| 0 <= j < k ==> !precedes(post, #[trigger] list[j], sorting),
        k < list.len() ==> precedes(post, list[k], sorting),
    decreases list.len(),
{
    if list.len() == 0 {
        assert(list.insert(0, post) =~= seq![post]);
        0
    } else if precedes(post, list[0], sorting) {
        assert(list.insert(0, post) =~= seq![post] + list);
        0
    } else {
        let rest = list.drop_first();
        let k = lemma_placed_at(rest, post, sorting);
        assert(list.insert(k + 1, post) =~= seq![list[0]] + rest.insert(k, post));
        assert forall|j: int| 0 <= j < k + 1 implies !precedes(post, #[trigger] list[j], sorting) by {
            if j > 0 {
                assert(list[j] == rest[j - 1]);
            }
        }
        if k + 1 < list.len() {
            assert(list[k + 1] == rest[k]);
        }
        k + 1
    }
}

/// Whether each post of `list` is listed before every later one.
pub open spec fn in_order(list: Seq<PostData>, sorting: PostSorting) -> bool {
    forall|i: int, j: int|
        0 <= i < j < list.len() ==> precedes(#[trigger] list[i], #[trigger] list[j], sorting)
}

/// What a search lists: every post of the table that it selects and no
/// other, each before every post that comes after it in the order asked
/// for, and no two with one identifier.
pub proof fn law_ranking(
    db: DatabaseData,
    wanted: Seq<Seq<char>>,
    barred: Seq<Seq<char>>,
    sorting: PostSorting,
)
    requires
        db.wf(),
    ensures
        forall|p: PostData| #[trigger]
            ranking(db.posts, wanted, barred, sorting).contains(p) <==> (db.posts.contains(p)
                && selects(p, wanted, barred)),
        in_order(ranking(db.posts, wanted, barred, sorting), sorting),
        forall|i: int, j: int|
            0 <= i < j < ranking(db.posts, wanted, barred, sorting).len() ==> (#[trigger] ranking(
                db.posts,
                wanted,
                barred,
                sorting,
            )[i]).id != (#[trigger] ranking(db.posts, wanted, barred, sorting)[j]).id,
    decreases db.posts.len(),
{
    let list = ranking(db.posts, wanted, barred, sorting);
    if db.posts.len() == 0 {
        assert forall|p: PostData| #[trigger]
            list.contains(p) <==> (db.posts.contains(p) && selects(p, wanted, barred)) by {}
    } else {
        let last = db.posts.last();
        let front = DatabaseData { posts: db.posts.drop_last(), ..db };
        assert(front.wf()) by {
            assert(front.tags == db.tags);
            assert(front.users == db.users);
            assert forall|i: int| 0 <= i < front.posts.len() implies 0 < (
            #[trigger] front.posts[i]).id <= front.last_post && front.posts[i].tags.no_duplicates() by {
                assert(front.posts[i] == db.posts[i]);
            }
            assert forall|i: int, j: int| 0 <= i < j < front.posts.len() implies (
            #[trigger] front.posts[i]).id < (#[trigger] front.posts[j]).id by {
                assert(front.posts[i] == db.posts[i]);
                assert(front.posts[j] == db.posts[j]);
            }
        }
        law_ranking(front, wanted, barred, sorting);
        let before = ranking(front.posts, wanted, barred, sorting);
        assert forall|i: int| 0 <= i < before.len() implies (#[trigger] before[i]).id
            != last.id by {
            assert(before.contains(before[i]));
            assert(front.posts.contains(before[i]));
            let c = choose|c: int| 0 <= c < front.posts.len() && front.posts[c] == before[i];
            assert(db.posts[c] == before[i]);
            assert(db.posts[c].id < db.posts[db.posts.len() - 1].id);
        }
        if selects(last, wanted, barred) {
            let k = lemma_placed_at(before, last, sorting);
            assert(list == before.insert(k, last));
            assert forall|p: PostData| #[trigger]
                list.contains(p) <==> (db.posts.contains(p) && selects(p, wanted, barred)) by {
                lemma_contains_last(db.posts, p);
                assert(before.contains(p) <==> (front.posts.contains(p) && selects(
                    p,
                    wanted,
                    barred,
                )));
                if before.contains(p) {
                    let c = choose|c: int| 0 <= c < before.len() && before[c] == p;
                    if c < k {
                        assert(list[c] == p);
                    } else {
                        assert(list[c + 1] == p);
                    }
                }
                if p == last {
                    assert(list[k] == p);
                }
                if list.contains(p) {
                    let c = choose|c: int| 0 <= c < list.len() && list[c] == p;
                    if c < k {
                        assert(before[c] == p);
                    } else if c > k {
                        assert(before[c - 1] == p);
                    }
                }
            }
            assert forall|i: int, j: int| 0 <= i < j < list.len() implies precedes(
                #[trigger] list[i],
                #[trigger] list[j],
                sorting,
            ) && list[i].id != list[j].id by {
                let a = if i < k {
                    i
                } else {
                    i - 1
                };
                let b = if j < k {
                    j
                } else {
                    j - 1
                };
                if i == k {
                    assert(list[j] == before[b]);
                    if b > k {
                        assert(precedes(before[k], before[b], sorting));
                        law_order_is_transitive(last, before[k], before[b], sorting);
                    }
                } else if j == k {
                    assert(list[i] == before[a]);
                    law_order_is_total(last, before[a], sorting);
                } else {
                    assert(list[i] == before[a]);
                    assert(list[j] == before[b]);
                }
            }
        } else {
            assert forall|p: PostData| #[trigger]
                list.contains(p) <==> (db.posts.contains(p) && selects(p, wanted, barred)) by {
                lemma_contains_last(db.posts, p);
                assert(before.contains(p) <==> (front.posts.contains(p) && selects(
                    p,
                    wanted,
                    barred,
                )));
            }
        }
    }
}

/// The first pages of a list, put one after the other, are the list from
/// its start: `count` pages of `limit` rows are its first `count * limit`
/// rows, or all of it where it has no more. So no row is listed twice and
/// none is passed over, whatever the keys of the rows.
pub proof fn law_pages_join(list: Seq<PostData>, limit: nat, count: nat)
    ensures
        first_pages(list, limit, count) == if count * limit <= list.len() {
            list.take((count * limit) as int)
        } else {
            list
        },
    decreases count,
{
    if count == 0 {
        assert(list.take(0) =~= Seq::<PostData>::empty());
        assert(0 * limit == 0) by (nonlinear_arith);
    } else {
        let done = (count - 1) as nat;
        law_pages_join(list, limit, done);
        assert(count * limit == done * limit + limit) by (nonlinear_arith)
            requires
                done == count - 1,
        ;
        let page = page_of(list, done, limit);
        if done * limit <= list.len() {
            if count * limit <= list.len() {
                assert(list.take((done * limit) as int) + page =~= list.take(
                    (count * limit) as int,
                ));
            } else {
                assert(list.take((done * limit) as int) + page =~= list);
            }
        } else {
            assert(page =~= Seq::<PostData>::empty());
            assert(list + page =~= list);
        }
    }
}

/// Enough pages of a search hold the whole list of a search without a
/// limit, each post once: the pages of one query and one order are cut
/// from one list, in which no two posts have one identifier.
pub proof fn law_pages_cover(
    db: DatabaseData,
    wanted: Seq<Seq<char>>,
    barred: Seq<Seq<char>>,
    sorting: PostSorting,
    limit: nat,
    count: nat,
)
    requires
        db.wf(),
        count * limit >= ranking(db.posts, wanted, barred, sorting).len(),
    ensures
        first_pages(ranking(db.posts, wanted, barred, sorting), limit, count) == ranking(
            db.posts,
            wanted,
            barred,
            sorting,
        ),
        forall|i: int, j: int|
            0 <= i < j < ranking(db.posts, wanted, barred, sorting).len() ==> (#[trigger] ranking(
                db.posts,
                wanted,
                barred,
                sorting,
            )[i]).id != (#[trigger] ranking(db.posts, wanted, barred, sorting)[j]).id,
{
    let list = ranking(db.posts, wanted, barred, sorting);
    law_ranking(db, wanted, barred, sorting);
    law_pages_join(list, limit, count);
    if count * limit == list.len() {
        assert(list.take(list.len() as int) =~= list);
    }
}

} // verus!
