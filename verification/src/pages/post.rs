use crate::auth::AuthInfo;
use crate::database::enums::{ImageExtension, Perms, Rating};
use crate::database::laws::{law_purge_all, law_purge_all_twice, lemma_purge_in_turn};
use crate::database::model::{
    active_rows, distinct, has_post, ids_of, lemma_counted_up_frame, marked_rows, may_delete,
    perms_of, place_of, DatabaseData,
};
use crate::database::post::{NewPost, NewPostData, Post, PostData, PostFull, Timestamp};
use crate::database::tag::{slices, Tag, TagVector};
use crate::database::{rows, Database};
use crate::error::APIError;
use crate::settings::RunSettings;
use crate::text::{
    check_unreserved, digit_char, hex_digit, push_signed_decimal, signed_decimal, texts, trim,
    trimmed, unreserved,
};
use vstd::prelude::*;

verus! {

/// The reply for a post that is not there.
pub const POST_NOT_FOUND: &'static str = "{\"error\":\"post not found\"}";

/// The reply after a post was deleted.
pub const POST_DELETED: &'static str = "{\"success\":\"post deleted\"}";

/// The reply after the deleted posts were purged.
pub const POSTS_PURGED: &'static str = "{\"success\":\"posts purged\"}";

/// The path that a new post has until its identifier is known.
pub const INITIAL_PATH: &'static str = "00";

/// The edge of a thumbnail, in pixels.
pub const THUMB_SIZE: u32 = 320;

/// The bucket of a post: bits 16 to 23 of its identifier.
pub open spec fn bucket(id: int) -> int {
    (id / 65536) % 256
}

/// The subfolder of a post: its bucket as two hexadecimal digits.
pub open spec fn subfolder(id: int) -> Seq<char> {
    seq![hex_digit(bucket(id) / 16), hex_digit(bucket(id) % 16)]
}

proof fn lemma_bucket_of_negative(id: int, m: int)
    requires
        id < 0,
        m == -(id + 1),
    ensures
        bucket(id) == 255 - (m / 65536) % 256,
{
    let q = m / 65536;
    let r = m % 65536;
    assert(m == 65536 * q + r && 0 <= r < 65536) by (nonlinear_arith)
        requires
            q == m / 65536,
            r == m % 65536,
            m >= 0,
    ;
    assert(id == 65536 * (-q - 1) + (65535 - r));
    assert(id / 65536 == -q - 1) by (nonlinear_arith)
        requires
            id == 65536 * (-q - 1) + (65535 - r),
            0 <= 65535 - r < 65536,
    ;
    let a = q / 256;
    let b = q % 256;
    assert(q == 256 * a + b && 0 <= b < 256) by (nonlinear_arith)
        requires
            a == q / 256,
            b == q % 256,
            q >= 0,
    ;
    assert((-q - 1) % 256 == 255 - b) by (nonlinear_arith)
        requires
            -q - 1 == 256 * (-a - 1) + (255 - b),
            0 <= 255 - b < 256,
    ;
}

/// The subfolder that the files of the post `id` are kept in. It depends
/// on the identifier alone, and there are 256 of them.
pub fn image_path(id: i64) -> (s: String)
    ensures
        s@ == subfolder(id as int),
{
    let byte: u8 = if id >= 0 {
        ((id / 65536) % 256) as u8
    } else {
        let m: i64 = -(id + 1);
        proof {
            lemma_bucket_of_negative(id as int, m as int);
        }
        (255 - (m / 65536) % 256) as u8
    };
    let mut s = String::new();
    s.push(digit_char(byte / 16));
    s.push(digit_char(byte % 16));
    s
}

/// The storage root, closed by a `/` unless it is empty or ends in one.
pub open spec fn root_prefix(root: Seq<char>) -> Seq<char> {
    if root.len() == 0 || root.last() == '/' {
        root
    } else {
        root.push('/')
    }
}

/// Where the image of a post is kept: `{root}/img/{subfolder}/{id}-{filename}`.
pub open spec fn image_file(root: Seq<char>, subfolder: Seq<char>, id: int, filename: Seq<char>) -> Seq<
    char,
> {
    root_prefix(root) + "img/"@ + subfolder + seq!['/'] + signed_decimal(id) + seq!['-'] + filename
}

/// Where the thumbnail of a post is kept:
/// `{root}/tmb/{subfolder}/{id}-thumbnail.jpg`.
pub open spec fn thumbnail_file(root: Seq<char>, subfolder: Seq<char>, id: int) -> Seq<char> {
    root_prefix(root) + "tmb/"@ + subfolder + seq!['/'] + signed_decimal(id) + "-thumbnail.jpg"@
}

/// The storage root, ready for the rest of a path to follow.
fn start_path(root: &str) -> (s: String)
    ensures
        s@ == root_prefix(root@),
{
    let mut s = String::from_str(root);
    let length: usize = root.unicode_len();
    if length > 0 && root.get_char(length - 1) != '/' {
        s.push('/');
    }
    s
}

/// The paths of the two files of a post: its image and its thumbnail.
pub fn format_paths(root: &str, subfolder: &str, id: i64, filename: &str) -> (paths: (String, String))
    ensures
        paths.0@ == image_file(root@, subfolder@, id as int, filename@),
        paths.1@ == thumbnail_file(root@, subfolder@, id as int),
{
    let mut img_path = start_path(root);
    img_path.append("img/");
    img_path.append(subfolder);
    img_path.push('/');
    push_signed_decimal(&mut img_path, id);
    img_path.push('-');
    img_path.append(filename);
    let mut tmb_path = start_path(root);
    tmb_path.append("tmb/");
    tmb_path.append(subfolder);
    tmb_path.push('/');
    push_signed_decimal(&mut tmb_path, id);
    tmb_path.append("-thumbnail.jpg");
    (img_path, tmb_path)
}

/// The query of a request for one post.
#[derive(Debug, Clone, Copy, PartialEq, Eq, Structural)]
pub struct IdPostQuery {
    pub id: i64,
}

/// The identifier to look a post up by for a request to see it: none for
/// a negative one, which names no post.
pub fn asked_post(query: &IdPostQuery) -> (id: Option<i64>)
    ensures
        id == if query.id < 0 {
            None::<i64>
        } else {
            Some(query.id)
        },
{
    if query.id < 0 {
        None
    } else {
        Some(query.id)
    }
}

/// What a request to see a post is answered with, once the post was
/// looked up: the post where it was found with its attributes.
pub fn found_post(found: Option<Post>) -> (r: Option<PostFull>)
    ensures
        r == match found {
            Some(Post::Full(post)) => Some(post),
            _ => None::<PostFull>,
        },
{
    match found {
        Some(Post::Full(post)) => Some(post),
        _ => None,
    }
}

/// The post that the query names, unless it is missing or deleted. A
/// negative identifier names no post.
pub fn get_post(query: &IdPostQuery, db: &Database) -> (r: Option<PostFull>)
    requires
        db.wf(),
    ensures
        match r {
            Some(post) => db@.active_post(query.id as int) == Some(post@),
            None => db@.active_post(query.id as int) is None,
        },
{
    match asked_post(query) {
        Some(id) => found_post(Post::select_post(db, id)),
        None => {
            proof {
                if has_post(db@.posts, query.id as int) {
                    assert(db@.posts[place_of(db@.posts, query.id as int)].id > 0);
                }
            }
            None
        },
    }
}

/// What a request to delete the post `id` leads to, for the user `user`.
pub open spec fn delete_outcome(db: DatabaseData, id: int, user: int) -> Result<bool, APIError> {
    if id < 0 {
        Err(APIError::BadRequestData)
    } else {
        match db.active_post(id) {
            None => Ok(false),
            Some(post) => if !may_delete(post.poster, user, perms_of(db.users, user)) {
                Err(APIError::Auth)
            } else if !db.count_down_fits(post.tags) {
                Err(APIError::InternalError)
            } else {
                Ok(true)
            },
        }
    }
}

/// The identifier to look a post up by for a request to delete it.
/// `BadRequestData` for a negative one.
pub fn delete_target(query: &IdPostQuery) -> (r: Result<i64, APIError>)
    ensures
        r == if query.id < 0 {
            Err::<i64, APIError>(APIError::BadRequestData)
        } else {
            Ok::<i64, APIError>(query.id)
        },
{
    if query.id < 0 {
        Err(APIError::BadRequestData)
    } else {
        Ok(query.id)
    }
}

/// The tags of a post, where they are loaded.
pub open spec fn tags_of(post: Post) -> Seq<Seq<char>> {
    match post.data() {
        Some(data) => data.tags,
        None => Seq::empty(),
    }
}

/// What a request to delete a post does once the post was looked up and
/// the right of the user is known: nothing where there is no such post;
/// `Auth` where the user may not delete it; else the post gets the delete
/// mark and the tags that are given with it are counted down.
pub fn delete_step(found: Option<(bool, Post)>) -> (r: Result<Option<(Post, Vec<String>)>, APIError>)
    ensures
        match found {
            None => r is Ok && r->Ok_0 is None,
            Some((allowed, post)) => if allowed {
                match r {
                    Ok(Some((marked, tags))) => marked == post && texts(tags@) == tags_of(post),
                    _ => false,
                }
            } else {
                r is Err && r->Err_0 == APIError::Auth
            },
        },
{
    match found {
        Some((true, post)) => {
            let tags: Vec<String> = match &post {
                Post::Full(full) => full.tag_vector.duplicate().0,
                Post::Partial(_) => Vec::new(),
            };
            proof {
                if post is Partial {
                    assert(texts(tags@) =~= Seq::<Seq<char>>::empty());
                }
            }
            Ok(Some((post, tags)))
        },
        Some((false, _)) => Err(APIError::Auth),
        None => Ok(None),
    }
}

/// Deletes the post that the query names for the user `auth`: the post
/// gets the delete mark and its tags are counted down, both or neither.
/// Its files stay. `Ok(true)` when the post was deleted, `Ok(false)` when
/// there is no such post. Refused with `BadRequestData` for a negative
/// identifier, with `Auth` where the user is neither the poster nor a
/// moderator or administrator, and with `InternalError` where the store
/// refuses. On every refusal the store is unchanged.
pub fn delete_post(query: &IdPostQuery, db: &mut Database, auth: &AuthInfo) -> (r: Result<
    bool,
    APIError,
>)
    requires
        old(db).wf(),
    ensures
        final(db).wf(),
        r == delete_outcome(old(db)@, query.id as int, auth.uid as int),
        final(db)@ == if r == Ok::<bool, APIError>(true) {
            old(db)@.soft_deleted(query.id as int)
        } else {
            old(db)@
        },
{
    let id: i64 = match delete_target(query) {
        Ok(id) => id,
        Err(e) => {
            return Err(e);
        },
    };
    match delete_step(Post::select_can_delete(db, id, auth.uid)) {
        Ok(Some((post, tags))) => {
            let mut post = post;
            match Tag::update_decrease_counts(db, tags.as_slice()) {
                Ok(_) => {},
                Err(_) => {
                    return Err(APIError::InternalError);
                },
            }
            post.update_is_deleted(db, true);
            Ok(true)
        },
        Ok(None) => Ok(false),
        Err(e) => Err(e),
    }
}

/// The views of a sequence of pairs of strings, in order.
pub open spec fn file_pairs(files: Seq<(String, String)>) -> Seq<(Seq<char>, Seq<char>)> {
    Seq::new(files.len(), |k: int| (files[k].0@, files[k].1@))
}

/// The files to remove when each of `doomed` is purged in turn: those of
/// the posts whose row the purge removes.
pub open spec fn purge_files(db: DatabaseData, doomed: Seq<PostData>, root: Seq<char>) -> Seq<
    (Seq<char>, Seq<char>),
>
    decreases doomed.len(),
{
    if doomed.len() == 0 {
        Seq::empty()
    } else {
        let post = doomed.last();
        let before = purge_files(db, doomed.drop_last(), root);
        if db.purged_each(ids_of(doomed.drop_last())).purge_removes(post.id) {
            before.push(
                (
                    image_file(root, post.path, post.id, post.filename),
                    thumbnail_file(root, post.path, post.id),
                ),
            )
        } else {
            before
        }
    }
}

/// Whether the user may purge: only an administrator may. `Auth` for
/// anyone else.
pub fn purge_allowed(auth: &AuthInfo) -> (r: Result<(), APIError>)
    ensures
        match r {
            Ok(_) => auth.perms == Perms::Admin,
            Err(e) => e == APIError::Auth && auth.perms != Perms::Admin,
        },
{
    match auth.perms {
        Perms::Admin => Ok(()),
        _ => Err(APIError::Auth),
    }
}

/// The files to remove after the purge of one post: its image and its
/// thumbnail where the purge removed its row, and none where it did not,
/// because the row carried no delete mark or was gone already.
pub fn purge_step(removed: bool, post: &PostFull, root: &str) -> (r: Option<(String, String)>)
    ensures
        match r {
            Some(files) => {
                &&& removed
                &&& files.0@ == image_file(root@, post@.path, post@.id, post@.filename)
                &&& files.1@ == thumbnail_file(root@, post@.path, post@.id)
            },
            None => !removed,
        },
{
    if removed {
        Some(format_paths(root, post.path.as_str(), post.id, post.filename.as_str()))
    } else {
        None
    }
}

/// The two files of each of `posts`, in order.
pub open spec fn files_of(posts: Seq<PostData>, root: Seq<char>) -> Seq<(Seq<char>, Seq<char>)> {
    Seq::new(
        posts.len(),
        |k: int|
            (
                image_file(root, posts[k].path, posts[k].id, posts[k].filename),
                thumbnail_file(root, posts[k].path, posts[k].id),
            ),
    )
}

/// The first `k` purges of a run name the files of the first `k` posts
/// with the delete mark.
proof fn lemma_purge_names_files(db: DatabaseData, root: Seq<char>, k: int)
    requires
        db.wf(),
        0 <= k <= marked_rows(db.posts).len(),
    ensures
        purge_files(db, marked_rows(db.posts).take(k), root) == files_of(
            marked_rows(db.posts).take(k),
            root,
        ),
        k == marked_rows(db.posts).len() ==> purge_files(db, marked_rows(db.posts), root)
            == files_of(marked_rows(db.posts), root),
    decreases k,
{
    let list = marked_rows(db.posts);
    if k == 0 {
        assert(files_of(list.take(0), root) =~= Seq::<(Seq<char>, Seq<char>)>::empty());
    } else {
        lemma_purge_names_files(db, root, k - 1);
        lemma_purge_in_turn(db, k - 1);
        assert(list.take(k).drop_last() =~= list.take(k - 1));
        assert(list.take(k).last() == list[k - 1]);
        assert(files_of(list.take(k), root) =~= files_of(list.take(k - 1), root).push(
            (
                image_file(root, list[k - 1].path, list[k - 1].id, list[k - 1].filename),
                thumbnail_file(root, list[k - 1].path, list[k - 1].id),
            ),
        ));
    }
    if k == list.len() {
        assert(list.take(k) =~= list);
    }
}

/// A purge of every post with the delete mark names the two files of each
/// of them: on a store that nothing else changes meanwhile every purge
/// removes its row.
pub proof fn law_purge_names_all_files(db: DatabaseData, root: Seq<char>)
    requires
        db.wf(),
    ensures
        purge_files(db, marked_rows(db.posts), root) == files_of(marked_rows(db.posts), root),
{
    lemma_purge_names_files(db, root, marked_rows(db.posts).len() as int);
}

/// A second purge of every post with the delete mark, right after the
/// first, removes no row and names no file.
pub proof fn law_purge_again_names_no_file(db: DatabaseData, root: Seq<char>)
    requires
        db.wf(),
    ensures
        ({
            let after = db.purged_each(ids_of(marked_rows(db.posts)));
            &&& after.purged_each(ids_of(marked_rows(after.posts))) == after
            &&& purge_files(after, marked_rows(after.posts), root) == Seq::<
                (Seq<char>, Seq<char>),
            >::empty()
        }),
{
    let after = db.purged_each(ids_of(marked_rows(db.posts)));
    law_purge_all_twice(db);
    assert(ids_of(marked_rows(after.posts)) =~= Seq::<int>::empty());
}

/// Purges every post that carries the delete mark, one after the other,
/// and lists the files to remove: the image and the thumbnail of each post
/// whose row this run removed. A post whose row is gone already adds no
/// file. Afterwards the table holds the posts without the mark, and the
/// files of every post that had it are listed. Only an administrator may
/// purge: anyone else is refused with `Auth`, and the store is unchanged.
pub fn delete_purge_posts(db: &mut Database, settings: &RunSettings, auth: &AuthInfo) -> (r: Result<
    Vec<(String, String)>,
    APIError,
>)
    requires
        old(db).wf(),
    ensures
        final(db).wf(),
        match r {
            Ok(files) => {
                &&& auth.perms == Perms::Admin
                &&& final(db)@ == (DatabaseData {
                    posts: active_rows(old(db)@.posts),
                    ..old(db)@
                })
                &&& file_pairs(files@) == files_of(
                    marked_rows(old(db)@.posts),
                    settings.storage_root@,
                )
                &&& final(db)@ == old(db)@.purged_each(ids_of(marked_rows(old(db)@.posts)))
                &&& file_pairs(files@) == purge_files(
                    old(db)@,
                    marked_rows(old(db)@.posts),
                    settings.storage_root@,
                )
            },
            Err(e) => e == APIError::Auth && auth.perms != Perms::Admin && final(db)@ == old(db)@,
        },
{
    match purge_allowed(auth) {
        Ok(_) => {},
        Err(e) => {
            return Err(e);
        },
    }
    let doomed: Vec<PostFull> = Post::select_is_deleted(db);
    let mut files: Vec<(String, String)> = Vec::new();
    let mut k: usize = 0;
    let ghost list = rows(doomed@);
    assert(ids_of(list.take(0)) =~= Seq::<int>::empty());
    assert(file_pairs(files@) =~= Seq::<(Seq<char>, Seq<char>)>::empty());
    while k < doomed.len()
        invariant
            k <= doomed@.len(),
            list == rows(doomed@),
            db.wf(),
            db@ == old(db)@.purged_each(ids_of(list.take(k as int))),
            file_pairs(files@) == purge_files(old(db)@, list.take(k as int), settings.storage_root@),
        decreases doomed@.len() - k,
    {
        let post: &PostFull = &doomed[k];
        let ghost now = list.take(k + 1);
        let ghost had = file_pairs(files@);
        assert(now.drop_last() =~= list.take(k as int));
        assert(now.last() == post@);
        assert(ids_of(now).drop_last() =~= ids_of(list.take(k as int)));
        assert(ids_of(now).last() == post.id);
        let removed: bool = Post::Partial(post.id).delete_post_checked(db);
        match purge_step(removed, post, settings.storage_root.as_str()) {
            Some(pair) => {
                files.push(pair);
                assert(file_pairs(files@) =~= had.push(
                    (
                        image_file(settings.storage_root@, post@.path, post@.id, post@.filename),
                        thumbnail_file(settings.storage_root@, post@.path, post@.id),
                    ),
                ));
            },
            None => {},
        }
        k = k + 1;
    }
    assert(list.take(k as int) =~= list);
    proof {
        law_purge_all(old(db)@);
        law_purge_names_all_files(old(db)@, settings.storage_root@);
    }
    Ok(files)
}

/// What a client says of the post it uploads.
#[derive(Debug, PartialEq, Eq)]
pub struct NewPostDetails {
    pub tags: Vec<String>,
    pub description: String,
    pub rating: Rating,
}

/// What was found out about an uploaded image.
#[derive(Debug, Clone, Copy, PartialEq, Eq, Structural)]
pub struct ImageInfo {
    pub ext: ImageExtension,
    pub size: i32,
    pub width: i32,
    pub height: i32,
}

/// A tag is taken from an upload when it holds no reserved character and
/// is more than white space.
pub open spec fn accepted_tag(raw: Seq<char>) -> bool {
    unreserved(raw) && trimmed(raw).len() > 0
}

/// Whether every tag of an upload is taken.
pub open spec fn accepted_tags(raw: Seq<Seq<char>>) -> bool {
    forall|k: int| 0 <= k < raw.len() ==> accepted_tag(#[trigger] raw[k])
}

/// Each of `raw` without the white space at its ends.
pub open spec fn all_trimmed(raw: Seq<Seq<char>>) -> Seq<Seq<char>> {
    Seq::new(raw.len(), |k: int| trimmed(raw[k]))
}

/// The tags of an upload, each without the white space at its ends.
/// Refused with `BadTags` where a tag holds a reserved character or
/// nothing but white space.
pub fn upload_tags<'a>(raw: &'a Vec<String>) -> (r: Result<Vec<&'a str>, APIError>)
    ensures
        match r {
            Ok(tags) => accepted_tags(texts(raw@)) && slices(tags@) == all_trimmed(texts(raw@)),
            Err(e) => e == APIError::BadTags && !accepted_tags(texts(raw@)),
        },
{
    let mut tags: Vec<&'a str> = Vec::new();
    let mut i: usize = 0;
    while i < raw.len()
        invariant
            i <= raw@.len(),
            tags@.len() == i,
            forall|k: int| 0 <= k < i ==> accepted_tag(#[trigger] texts(raw@)[k]),
            forall|k: int| 0 <= k < i ==> (#[trigger] tags@[k])@ == trimmed(raw@[k]@),
        decreases raw@.len() - i,
    {
        let tag: &'a str = raw[i].as_str();
        if !check_unreserved(tag) {
            assert(!accepted_tag(texts(raw@)[i as int]));
            return Err(APIError::BadTags);
        }
        let short: &'a str = trim(tag);
        if short.is_empty() {
            assert(!accepted_tag(texts(raw@)[i as int]));
            return Err(APIError::BadTags);
        }
        tags.push(short);
        i = i + 1;
    }
    assert(slices(tags@) =~= all_trimmed(texts(raw@)));
    Ok(tags)
}

/// A post that was stored, and where its two files belong.
#[derive(Debug, PartialEq, Eq)]
pub struct StoredPost {
    pub post: PostFull,
    pub image_file: String,
    pub thumbnail_file: String,
}

/// The post that an upload asks to store.
pub open spec fn upload_of(
    image: ImageInfo,
    filename: Seq<char>,
    details: NewPostDetails,
    poster: int,
) -> NewPostData {
    NewPostData {
        filename: filename,
        ext: image.ext,
        path: INITIAL_PATH@,
        size: image.size as int,
        dimensions: (image.width as int, image.height as int),
        rating: details.rating,
        description: details.description@,
        tags: all_trimmed(texts(details.tags@)),
        poster: poster,
    }
}

/// The post to store for an upload by the user `poster`, with the tags
/// `tags` as `upload_tags` gives them. Its path is `INITIAL_PATH` until the
/// store has given it an identifier.
pub fn new_post<'a>(
    image: &ImageInfo,
    filename: &'a str,
    details: &'a NewPostDetails,
    tags: &'a [&'a str],
    poster: i32,
) -> (new: NewPost<'a>)
    ensures
        new@ == (NewPostData {
            tags: slices(tags@),
            ..upload_of(*image, filename@, *details, poster as int)
        }),
{
    NewPost {
        filename,
        ext: image.ext,
        path: INITIAL_PATH,
        size: image.size,
        dimensions: (image.width, image.height),
        description: details.description.as_str(),
        rating: details.rating,
        tags,
        poster,
    }
}

/// The tags whose counters an upload counts up: each tag of the post
/// once, however often it is listed.
pub fn counted_tags<'a>(tags: &[&'a str]) -> (once: Vec<&'a str>)
    ensures
        slices(once@) == distinct(slices(tags@)),
{
    let mut once: Vec<&'a str> = Vec::new();
    let mut kept = TagVector(Vec::new());
    let mut i: usize = 0;
    assert(slices(tags@).take(0) =~= Seq::<Seq<char>>::empty());
    assert(kept@ =~= Seq::<Seq<char>>::empty());
    assert(slices(once@) =~= Seq::<Seq<char>>::empty());
    while i < tags.len()
        invariant
            i <= tags@.len(),
            kept@ == distinct(slices(tags@).take(i as int)),
            slices(once@) == kept@,
        decreases tags@.len() - i,
    {
        let tag: String = tags[i].to_owned();
        let ghost before = kept@;
        let ghost now = slices(tags@).take(i + 1);
        assert(now.drop_last() =~= slices(tags@).take(i as int));
        assert(now.last() == tag@);
        if !kept.holds(&tag) {
            kept.0.push(tag);
            once.push(tags[i]);
            assert(kept@ =~= before.push(now.last()));
            assert(slices(once@) =~= before.push(now.last()));
        }
        i = i + 1;
    }
    assert(slices(tags@).take(i as int) =~= slices(tags@));
    once
}

/// A post that the store has just taken, put in its place: its path is
/// the subfolder of its identifier, and its two files belong there.
pub fn placed_upload(post: PostFull, root: &str) -> (stored: StoredPost)
    ensures
        stored.post@ == (PostData { path: subfolder(post@.id), ..post@ }),
        stored.image_file@ == image_file(root@, subfolder(post@.id), post@.id, post@.filename),
        stored.thumbnail_file@ == thumbnail_file(root@, subfolder(post@.id), post@.id),
{
    let folder: String = image_path(post.id);
    let (image_file, thumbnail_file) = format_paths(
        root,
        folder.as_str(),
        post.id,
        post.filename.as_str(),
    );
    let mut post = post;
    post.path = folder;
    StoredPost { post, image_file, thumbnail_file }
}

/// Whether the store takes an upload with the tags `tags`: an identifier
/// is left for the post, and the counter of each tag can go up by one.
pub open spec fn upload_fits(db: DatabaseData, tags: Seq<Seq<char>>) -> bool {
    db.last_post < i64::MAX && db.count_up_fits(distinct(tags))
}

/// Whether `r` is what storing an upload comes to, and `is` the store
/// after it, where `was` is the store before: the upload is refused with
/// `BadTags` where a tag is not taken, else with `InternalError` where the
/// store has no room, and the store is unchanged; else the post is stored
/// with the next identifier, each of its tags is counted up once, and `r`
/// holds the stored post and the paths of its two files.
pub open spec fn upload_stored(
    r: Result<StoredPost, APIError>,
    image: ImageInfo,
    filename: Seq<char>,
    details: NewPostDetails,
    poster: int,
    was: DatabaseData,
    is: DatabaseData,
    root: Seq<char>,
    now: int,
) -> bool {
    let new = upload_of(image, filename, details, poster);
    let id = was.last_post + 1;
    if !accepted_tags(texts(details.tags@)) {
        r is Err && r->Err_0 == APIError::BadTags && is == was
    } else if !upload_fits(was, new.tags) {
        r is Err && r->Err_0 == APIError::InternalError && is == was
    } else {
        &&& r is Ok
        &&& is == was.uploaded(new, now, subfolder(id))
        &&& r->Ok_0.post@ == (PostData { path: subfolder(id), ..was.fresh_post(new, now) })
        &&& r->Ok_0.image_file@ == image_file(root, subfolder(id), id, filename)
        &&& r->Ok_0.thumbnail_file@ == thumbnail_file(root, subfolder(id), id)
    }
}

/// Stores a post for the user `auth` at the time `now`, for an image of
/// which `image` is known: counts each of its tags up once, stores the
/// post, and sets its path to the subfolder of its new identifier, all of
/// it or nothing. Gives back the stored post and the paths to write its
/// image and its thumbnail to; nothing is written here. Refused with
/// `BadTags` before the store is touched where `upload_tags` refuses the
/// tags, and with `InternalError` where the store refuses. On every
/// refusal the store is unchanged.
pub fn store_upload(
    image: &ImageInfo,
    filename: &str,
    details: &NewPostDetails,
    db: &mut Database,
    settings: &RunSettings,
    auth: &AuthInfo,
    now: Timestamp,
) -> (r: Result<StoredPost, APIError>)
    requires
        old(db).wf(),
    ensures
        final(db).wf(),
        upload_stored(
            r,
            *image,
            filename@,
            *details,
            auth.uid as int,
            old(db)@,
            final(db)@,
            settings.storage_root@,
            now as int,
        ),
{
    let tags: Vec<&str> = match upload_tags(&details.tags) {
        Ok(tags) => tags,
        Err(e) => {
            return Err(e);
        },
    };
    let once: Vec<&str> = counted_tags(tags.as_slice());
    let new_post = new_post(image, filename, details, tags.as_slice(), auth.uid);
    assert(new_post@ == upload_of(*image, filename@, *details, auth.uid as int));
    if db.last_post == i64::MAX {
        return Err(APIError::InternalError);
    }
    match Tag::update_tag_count(db, once.as_slice()) {
        Ok(_) => {},
        Err(_) => {
            return Err(APIError::InternalError);
        },
    }
    proof {
        lemma_counted_up_frame(old(db)@, slices(once@));
    }
    let post: PostFull = match new_post.insert_into(db, now) {
        Ok(post) => post,
        Err(_) => {
            return Err(APIError::InternalError);
        },
    };
    let stored: StoredPost = placed_upload(post, settings.storage_root.as_str());
    let mut row = Post::Partial(stored.post.id);
    row.update_path(db, stored.post.path.as_str());
    Ok(stored)
}

/// A decoded image: what is kept of it in its post, and its thumbnail as
/// a JPEG file.
#[derive(Debug, PartialEq, Eq)]
pub struct Decoded {
    pub info: ImageInfo,
    pub thumbnail: Vec<u8>,
}

/// A post that was stored for an upload, with the thumbnail to write.
#[derive(Debug, PartialEq, Eq)]
pub struct Uploaded {
    pub stored: StoredPost,
    pub thumbnail: Vec<u8>,
}

/// The quality that thumbnails are encoded with.
pub const THUMB_QUALITY: u8 = 90;

/// The format that the first bytes of a file give away, where it is one
/// that a post may be stored in: PNG, JPEG, GIF, WebP, TIFF or BMP, each
/// by its signature.
pub open spec fn guessed_format(bytes: Seq<u8>) -> Option<ImageExtension> {
    if seq![0x89u8, 0x50, 0x4e, 0x47, 0x0d, 0x0a, 0x1a, 0x0a].is_prefix_of(bytes) {
        Some(ImageExtension::Png)
    } else if seq![0xffu8, 0xd8, 0xff].is_prefix_of(bytes) {
        Some(ImageExtension::Jpg)
    } else if seq![0x47u8, 0x49, 0x46, 0x38, 0x39, 0x61].is_prefix_of(bytes) || seq![
        0x47u8,
        0x49,
        0x46,
        0x38,
        0x37,
        0x61,
    ].is_prefix_of(bytes) {
        Some(ImageExtension::Gif)
    } else if seq![0x52u8, 0x49, 0x46, 0x46].is_prefix_of(bytes) {
        Some(ImageExtension::Webp)
    } else if seq![0x4du8, 0x4d, 0x00, 0x2a].is_prefix_of(bytes) || seq![
        0x49u8,
        0x49,
        0x2a,
        0x00,
    ].is_prefix_of(bytes) {
        Some(ImageExtension::Tiff)
    } else if seq![0x42u8, 0x4d].is_prefix_of(bytes) {
        Some(ImageExtension::Bmp)
    } else {
        None
    }
}

/// `image::guess_format` tells the format of an image by the signature
/// that its bytes begin with. A format that no post may be stored in
/// counts as none; no signature of such a format begins like one of the
/// others.
#[verifier::external_body]
fn guess_format(bytes: &[u8]) -> (r: Option<ImageExtension>)
    ensures
        r == guessed_format(bytes@),
{
    match image::guess_format(bytes) {
        Ok(image::ImageFormat::Bmp) => Some(ImageExtension::Bmp),
        Ok(image::ImageFormat::Gif) => Some(ImageExtension::Gif),
        Ok(image::ImageFormat::Jpeg) => Some(ImageExtension::Jpg),
        Ok(image::ImageFormat::Png) => Some(ImageExtension::Png),
        Ok(image::ImageFormat::Tiff) => Some(ImageExtension::Tiff),
        Ok(image::ImageFormat::WebP) => Some(ImageExtension::Webp),
        _ => None,
    }
}

/// The width and the height of the image that bytes of the format `ext`
/// decode to, where they decode: what `image::load_from_memory_with_format`
/// decodes, measured by `image::GenericImageView::dimensions`.
pub uninterp spec fn decoded_size(bytes: Seq<u8>, ext: ImageExtension) -> Option<(u32, u32)>;

/// `image::load_from_memory_with_format` decodes an image of a known
/// format, or fails, and `image::GenericImageView::dimensions` gives its
/// width and its height. Both depend on the bytes and the format alone.
#[verifier::external_body]
fn decode_size(bytes: &[u8], ext: ImageExtension) -> (r: Option<(u32, u32)>)
    ensures
        r == decoded_size(bytes@, ext),
{
    let format = match ext {
        ImageExtension::Bmp => image::ImageFormat::Bmp,
        ImageExtension::Gif => image::ImageFormat::Gif,
        ImageExtension::Jpg => image::ImageFormat::Jpeg,
        ImageExtension::Png => image::ImageFormat::Png,
        ImageExtension::Tiff => image::ImageFormat::Tiff,
        ImageExtension::Webp => image::ImageFormat::WebP,
    };
    match image::load_from_memory_with_format(bytes, format) {
        Ok(image) => Some(image::GenericImageView::dimensions(&image)),
        Err(_) => None,
    }
}

/// The JPEG file of a thumbnail of an image: the image that bytes of the
/// format `ext` decode to, cut to the square at `x` and `y` with the side
/// `side`, scaled to `edge` pixels each way and encoded with the quality
/// `quality`. `None` where the bytes do not decode or the thumbnail cannot
/// be encoded.
pub uninterp spec fn thumbnail_jpeg(
    bytes: Seq<u8>,
    ext: ImageExtension,
    x: u32,
    y: u32,
    side: u32,
    edge: u32,
    quality: u8,
) -> Option<Seq<u8>>;

/// `image::load_from_memory_with_format` decodes the image,
/// `image::imageops::crop` takes a view of a rectangle of it, cut to fit,
/// `image::imageops::thumbnail` scales the view down, and
/// `image::DynamicImage::write_to` encodes the result as a JPEG file.
/// What comes out depends on the arguments alone. A thumbnail too large
/// to count the bytes of would make the scaling panic, which `requires`
/// rules out.
#[verifier::external_body]
fn make_thumbnail(
    bytes: &[u8],
    ext: ImageExtension,
    x: u32,
    y: u32,
    side: u32,
    edge: u32,
    quality: u8,
) -> (r: Option<Vec<u8>>)
    requires
        edge <= 16384,
    ensures
        match r {
            Some(jpeg) => thumbnail_jpeg(bytes@, ext, x, y, side, edge, quality) == Some(jpeg@),
            None => thumbnail_jpeg(bytes@, ext, x, y, side, edge, quality) is None,
        },
{
    let format = match ext {
        ImageExtension::Bmp => image::ImageFormat::Bmp,
        ImageExtension::Gif => image::ImageFormat::Gif,
        ImageExtension::Jpg => image::ImageFormat::Jpeg,
        ImageExtension::Png => image::ImageFormat::Png,
        ImageExtension::Tiff => image::ImageFormat::Tiff,
        ImageExtension::Webp => image::ImageFormat::WebP,
    };
    let mut image = image::load_from_memory_with_format(bytes, format).ok()?;
    let square = image::imageops::crop(&mut image, x, y, side, side);
    let small = image::imageops::thumbnail(&*square, edge, edge);
    let mut out = std::io::Cursor::new(Vec::new());
    let jpeg = image::ImageOutputFormat::Jpeg(quality);
    image::DynamicImage::ImageRgba8(small).write_to(&mut out, jpeg).ok()?;
    Some(out.into_inner())
}

/// What is kept of an image of the format `ext`, `bytes` bytes long and
/// of the size `size`: `PayloadSize` for a length and `BadRequestData` for
/// a width or a height that the store has no room for.
pub open spec fn info_of(ext: ImageExtension, bytes: nat, size: (u32, u32)) -> Result<
    ImageInfo,
    APIError,
> {
    if bytes > i32::MAX {
        Err(APIError::PayloadSize)
    } else if size.0 > i32::MAX || size.1 > i32::MAX {
        Err(APIError::BadRequestData)
    } else {
        Ok(ImageInfo { ext: ext, size: bytes as i32, width: size.0 as i32, height: size.1 as i32 })
    }
}

/// The square to cut from an image for its thumbnail: its left edge, its
/// top edge and its side. The side is the shorter side of the image, and
/// the square sits in the middle of the longer one.
pub open spec fn crop_of(width: u32, height: u32) -> (u32, u32, u32) {
    if width < height {
        (0u32, ((height - width) / 2) as u32, width)
    } else {
        (((width - height) / 2) as u32, 0u32, height)
    }
}

/// What an uploaded image comes to: what is kept of it and the JPEG file
/// of its thumbnail, a square of `THUMB_SIZE` pixels from its middle.
/// `MimeType` where the bytes give away no format that a post may be
/// stored in; `BadRequestData` where they do not decode; what `info_of`
/// refuses; `InternalError` where the thumbnail cannot be made.
pub open spec fn image_outcome(bytes: Seq<u8>) -> Result<(ImageInfo, Seq<u8>), APIError> {
    match guessed_format(bytes) {
        None => Err(APIError::MimeType),
        Some(ext) => match decoded_size(bytes, ext) {
            None => Err(APIError::BadRequestData),
            Some(size) => match info_of(ext, bytes.len(), size) {
                Err(e) => Err(e),
                Ok(info) => {
                    let square = crop_of(size.0, size.1);
                    match thumbnail_jpeg(
                        bytes,
                        ext,
                        square.0,
                        square.1,
                        square.2,
                        THUMB_SIZE,
                        THUMB_QUALITY,
                    ) {
                        None => Err(APIError::InternalError),
                        Some(jpeg) => Ok((info, jpeg)),
                    }
                },
            },
        },
    }
}

/// What is kept of an image of the format `ext`, `bytes` bytes long and
/// of the size `size`, as `info_of` says.
pub fn image_info(ext: ImageExtension, bytes: usize, size: (u32, u32)) -> (r: Result<
    ImageInfo,
    APIError,
>)
    ensures
        r == info_of(ext, bytes as nat, size),
{
    if bytes > 0x7fff_ffff {
        Err(APIError::PayloadSize)
    } else if size.0 > 0x7fff_ffff || size.1 > 0x7fff_ffff {
        Err(APIError::BadRequestData)
    } else {
        Ok(ImageInfo { ext, size: bytes as i32, width: size.0 as i32, height: size.1 as i32 })
    }
}

/// Decodes an uploaded image and makes its thumbnail, as `image_outcome`
/// says: what is kept of the image and the JPEG file of a square of
/// `THUMB_SIZE` pixels from its middle, or the reason why the image is
/// refused.
pub fn process_image(image_data: &[u8]) -> (r: Result<Decoded, APIError>)
    ensures
        match r {
            Ok(decoded) => image_outcome(image_data@) == Ok::<(ImageInfo, Seq<u8>), APIError>(
                (decoded.info, decoded.thumbnail@),
            ),
            Err(e) => image_outcome(image_data@) == Err::<(ImageInfo, Seq<u8>), APIError>(e),
        },
{
    let ext: ImageExtension = match guess_format(image_data) {
        Some(ext) => ext,
        None => {
            return Err(APIError::MimeType);
        },
    };
    let size: (u32, u32) = match decode_size(image_data, ext) {
        Some(size) => size,
        None => {
            return Err(APIError::BadRequestData);
        },
    };
    let info: ImageInfo = match image_info(ext, image_data.len(), size) {
        Ok(info) => info,
        Err(e) => {
            return Err(e);
        },
    };
    let (x, y, side) = thumbnail_crop(size.0, size.1);
    match make_thumbnail(image_data, ext, x, y, side, THUMB_SIZE, THUMB_QUALITY) {
        Some(thumbnail) => Ok(Decoded { info, thumbnail }),
        None => Err(APIError::InternalError),
    }
}

/// Takes an upload for the user `auth` at the time `now`: decodes the
/// image of `body` and makes its thumbnail, checks the tags of `details`,
/// and stores the post. Gives back the stored post, the paths to write its
/// image and its thumbnail to, and the thumbnail; nothing is written
/// here. Refused as `image_outcome` refuses the image, and then as
/// `upload_stored` says. On every refusal the store is unchanged.
pub fn post_upload(
    body: &UploadBody,
    details: &NewPostDetails,
    db: &mut Database,
    settings: &RunSettings,
    auth: &AuthInfo,
    now: Timestamp,
) -> (r: Result<Uploaded, APIError>)
    requires
        old(db).wf(),
    ensures
        final(db).wf(),
        match image_outcome(body.image_data@) {
            Err(e) => r is Err && r->Err_0 == e && final(db)@ == old(db)@,
            Ok((info, jpeg)) => upload_stored(
                match r {
                    Ok(uploaded) => Ok(uploaded.stored),
                    Err(e) => Err(e),
                },
                info,
                body.filename@,
                *details,
                auth.uid as int,
                old(db)@,
                final(db)@,
                settings.storage_root@,
                now as int,
            ) && (r is Ok ==> r->Ok_0.thumbnail@ == jpeg),
        },
{
    let decoded: Decoded = match process_image(body.image_data.as_slice()) {
        Ok(decoded) => decoded,
        Err(e) => {
            return Err(e);
        },
    };
    match store_upload(&decoded.info, body.filename.as_str(), details, db, settings, auth, now) {
        Ok(stored) => Ok(Uploaded { stored, thumbnail: decoded.thumbnail }),
        Err(e) => Err(e),
    }
}

/// What an upload comes to once its files were written, or not. The post
/// is stored by then and stays: a file that could not be written makes the
/// upload an `InternalError`, and leaves the row as it is.
pub fn finish_upload(stored: StoredPost, image_written: bool, thumbnail_written: bool) -> (r: Result<
    PostFull,
    APIError,
>)
    ensures
        r == if image_written && thumbnail_written {
            Ok::<PostFull, APIError>(stored.post)
        } else {
            Err::<PostFull, APIError>(APIError::InternalError)
        },
{
    if image_written && thumbnail_written {
        Ok(stored.post)
    } else {
        Err(APIError::InternalError)
    }
}

/// The square to cut from an image for its thumbnail, as `crop_of` says.
/// It lies inside the image.
pub fn thumbnail_crop(width: u32, height: u32) -> (square: (u32, u32, u32))
    ensures
        square == crop_of(width, height),
        square.0 + square.2 <= width,
        square.1 + square.2 <= height,
{
    if width < height {
        (0, (height - width) / 2, width)
    } else {
        ((width - height) / 2, 0, height)
    }
}

/// The characters that no file name may hold: those that separate or
/// mark parts of a path, and the control characters.
pub open spec fn is_illegal(c: char) -> bool {
    let u = c as u32;
    c == '/' || c == '?' || c == '<' || c == '>' || c == '\\' || c == ':' || c == '*' || c == '|'
        || c == '"' || u <= 0x1f || (0x80 <= u <= 0x9f)
}

/// `sanitize_filename::sanitize` takes the illegal characters out of a
/// file name and cuts the rest to 255 bytes at most. What else it takes
/// out depends on the system that it was built for.
#[verifier::external_body]
fn sanitize(name: &str) -> (clean: String)
    ensures
        forall|i: int| 0 <= i < clean@.len() ==> !is_illegal(#[trigger] clean@[i]),
        vstd::utf8::encode_utf8(clean@).len() <= 255,
{
    sanitize_filename::sanitize(name)
}

/// What a part of an upload holds, by its name.
#[derive(Debug, Clone, Copy, PartialEq, Eq, Structural)]
pub enum FieldKind {
    /// The part `image`: the bytes of the image.
    Image,
    /// The part `data`: the details of the post, as JSON.
    Data,
    /// Any other part: it is read and counted, and not kept.
    Other,
}

/// The kind of the part with the name `name`.
pub fn field_kind(name: &str) -> (kind: FieldKind)
    ensures
        kind == if name@ == "image"@ {
            FieldKind::Image
        } else if name@ == "data"@ {
            FieldKind::Data
        } else {
            FieldKind::Other
        },
{
    let word: String = name.to_owned();
    if word == "image".to_owned() {
        FieldKind::Image
    } else if word == "data".to_owned() {
        FieldKind::Data
    } else {
        FieldKind::Other
    }
}

/// What was read of the body of an upload so far.
#[derive(Debug, PartialEq, Eq)]
pub struct UploadBody {
    /// The bytes of the image.
    pub image_data: Vec<u8>,
    /// The name to keep the image under.
    pub filename: String,
    /// The bytes of the details.
    pub data: Vec<u8>,
    /// How many bytes were read, of every part.
    pub bytes_read: usize,
}

impl UploadBody {
    /// Whether a body of `bytes_read` bytes may grow by `new_bytes`: the
    /// sum must stay below `maximum_size` KiB, and be a number that the
    /// machine can count to.
    pub open spec fn fits(bytes_read: int, new_bytes: int, maximum_size: int) -> bool {
        bytes_read + new_bytes < maximum_size * 1024 && bytes_read + new_bytes <= usize::MAX
    }

    /// A body of which nothing was read.
    pub fn new() -> (body: UploadBody)
        ensures
            body.image_data@ == Seq::<u8>::empty(),
            body.filename@ == Seq::<char>::empty(),
            body.data@ == Seq::<u8>::empty(),
            body.bytes_read == 0,
    {
        UploadBody { image_data: Vec::new(), filename: String::new(), data: Vec::new(), bytes_read: 0 }
    }

    /// Counts `new_bytes` more bytes. Refused with `PayloadSize`, and
    /// nothing counted, where the body would reach `maximum_size` KiB.
    pub fn count_bytes(&mut self, new_bytes: usize, maximum_size: usize) -> (r: Result<(), APIError>)
        ensures
            match r {
                Ok(_) => {
                    &&& UploadBody::fits(
                        old(self).bytes_read as int,
                        new_bytes as int,
                        maximum_size as int,
                    )
                    &&& *final(self) == (UploadBody {
                        bytes_read: (old(self).bytes_read + new_bytes) as usize,
                        ..*old(self)
                    })
                },
                Err(e) => {
                    &&& e == APIError::PayloadSize
                    &&& !UploadBody::fits(
                        old(self).bytes_read as int,
                        new_bytes as int,
                        maximum_size as int,
                    )
                    &&& *final(self) == *old(self)
                },
            },
    {
        let total: u128 = self.bytes_read as u128 + new_bytes as u128;
        let ceiling: u128 = maximum_size as u128 * 1024;
        if total >= ceiling || total > usize::MAX as u128 {
            Err(APIError::PayloadSize)
        } else {
            self.bytes_read = self.bytes_read + new_bytes;
            Ok(())
        }
    }

    /// Takes one chunk of a part of the kind `kind`: counts its bytes, and
    /// keeps them where the part is the image or the details. Refused
    /// with `PayloadSize`, and nothing taken, as `count_bytes` refuses.
    pub fn accept(&mut self, kind: FieldKind, chunk: &[u8], maximum_size: usize) -> (r: Result<
        (),
        APIError,
    >)
        ensures
            match r {
                Ok(_) => {
                    &&& UploadBody::fits(
                        old(self).bytes_read as int,
                        chunk@.len() as int,
                        maximum_size as int,
                    )
                    &&& final(self).bytes_read == old(self).bytes_read + chunk@.len()
                    &&& final(self).filename == old(self).filename
                    &&& final(self).image_data@ == if kind == FieldKind::Image {
                        old(self).image_data@ + chunk@
                    } else {
                        old(self).image_data@
                    }
                    &&& final(self).data@ == if kind == FieldKind::Data {
                        old(self).data@ + chunk@
                    } else {
                        old(self).data@
                    }
                },
                Err(e) => {
                    &&& e == APIError::PayloadSize
                    &&& !UploadBody::fits(
                        old(self).bytes_read as int,
                        chunk@.len() as int,
                        maximum_size as int,
                    )
                    &&& *final(self) == *old(self)
                },
            },
    {
        match self.count_bytes(chunk.len(), maximum_size) {
            Ok(_) => {},
            Err(e) => {
                return Err(e);
            },
        }
        match kind {
            FieldKind::Image => {
                self.image_data.extend_from_slice(chunk);
            },
            FieldKind::Data => {
                self.data.extend_from_slice(chunk);
            },
            FieldKind::Other => {},
        }
        Ok(())
    }

    /// Closes the image part, which came under the file name `filename`:
    /// the name is kept, made safe to use in a path. Refused with
    /// `BadRequestData` where the part has no file name.
    pub fn name_image(&mut self, filename: Option<&str>) -> (r: Result<(), APIError>)
        ensures
            match r {
                Ok(_) => {
                    &&& filename is Some
                    &&& forall|i: int|
                        0 <= i < final(self).filename@.len() ==> !is_illegal(
                            #[trigger] final(self).filename@[i],
                        )
                    &&& final(self).image_data == old(self).image_data
                    &&& final(self).data == old(self).data
                    &&& final(self).bytes_read == old(self).bytes_read
                },
                Err(e) => e == APIError::BadRequestData && filename is None && *final(self) == *old(
                    self,
                ),
            },
    {
        match filename {
            Some(name) => {
                self.filename = sanitize(name);
                Ok(())
            },
            None => Err(APIError::BadRequestData),
        }
    }
}

/// A part of the body of an upload, as it was read: its name and its file
/// name, where it has them, and its content in chunks.
#[derive(Debug, PartialEq, Eq)]
pub struct UploadPart {
    pub name: Option<String>,
    pub filename: Option<String>,
    pub chunks: Vec<Vec<u8>>,
}

/// What was read of a body, as mathematical values. The file name is left
/// out: it is whatever making it safe gives.
pub ghost struct BodyData {
    pub image_data: Seq<u8>,
    pub data: Seq<u8>,
    pub bytes_read: int,
}

/// The kind of the part with the name `name`.
pub open spec fn kind_of(name: Seq<char>) -> FieldKind {
    if name == "image"@ {
        FieldKind::Image
    } else if name == "data"@ {
        FieldKind::Data
    } else {
        FieldKind::Other
    }
}

/// The chunks of a part, as sequences of bytes.
pub open spec fn chunk_rows(chunks: Seq<Vec<u8>>) -> Seq<Seq<u8>> {
    Seq::new(chunks.len(), |k: int| chunks[k]@)
}

impl BodyData {
    /// A body of which nothing was read.
    pub open spec fn empty() -> BodyData {
        BodyData { image_data: Seq::empty(), data: Seq::empty(), bytes_read: 0 }
    }

    /// The body after one more chunk of a part of the kind `kind`, or
    /// `PayloadSize` where the chunk does not fit.
    pub open spec fn with_chunk(self, kind: FieldKind, chunk: Seq<u8>, maximum_size: int) -> Result<
        BodyData,
        APIError,
    > {
        if !UploadBody::fits(self.bytes_read, chunk.len() as int, maximum_size) {
            Err(APIError::PayloadSize)
        } else {
            Ok(
                BodyData {
                    image_data: if kind == FieldKind::Image {
                        self.image_data + chunk
                    } else {
                        self.image_data
                    },
                    data: if kind == FieldKind::Data {
                        self.data + chunk
                    } else {
                        self.data
                    },
                    bytes_read: self.bytes_read + chunk.len(),
                },
            )
        }
    }

    /// The body after the chunks of a part of the kind `kind`, taken one
    /// after the other until one does not fit.
    pub open spec fn with_chunks(
        self,
        kind: FieldKind,
        chunks: Seq<Seq<u8>>,
        maximum_size: int,
    ) -> Result<BodyData, APIError>
        decreases chunks.len(),
    {
        if chunks.len() == 0 {
            Ok(self)
        } else {
            match self.with_chunks(kind, chunks.drop_last(), maximum_size) {
                Ok(body) => body.with_chunk(kind, chunks.last(), maximum_size),
                Err(e) => Err(e),
            }
        }
    }

    /// The body after one more part: `BadRequestData` for a part without a
    /// name, and for an image without a file name once its chunks are
    /// taken.
    pub open spec fn with_part(self, part: UploadPart, maximum_size: int) -> Result<
        BodyData,
        APIError,
    > {
        match part.name {
            None => Err(APIError::BadRequestData),
            Some(name) => match self.with_chunks(
                kind_of(name@),
                chunk_rows(part.chunks@),
                maximum_size,
            ) {
                Ok(body) => if kind_of(name@) == FieldKind::Image && part.filename is None {
                    Err(APIError::BadRequestData)
                } else {
                    Ok(body)
                },
                Err(e) => Err(e),
            },
        }
    }

    /// The body after the parts, taken one after the other until one is
    /// refused.
    pub open spec fn with_parts(self, parts: Seq<UploadPart>, maximum_size: int) -> Result<
        BodyData,
        APIError,
    >
        decreases parts.len(),
    {
        if parts.len() == 0 {
            Ok(self)
        } else {
            match self.with_parts(parts.drop_last(), maximum_size) {
                Ok(body) => body.with_part(parts.last(), maximum_size),
                Err(e) => Err(e),
            }
        }
    }
}

impl View for UploadBody {
    type V = BodyData;

    open spec fn view(&self) -> BodyData {
        BodyData {
            image_data: self.image_data@,
            data: self.data@,
            bytes_read: self.bytes_read as int,
        }
    }
}

/// Whether a part is the image of an upload, by its name.
pub open spec fn is_image(part: UploadPart) -> bool {
    part.name is Some && kind_of(part.name->0@) == FieldKind::Image
}

/// Whether one of the parts is the image of an upload.
pub open spec fn has_image(parts: Seq<UploadPart>) -> bool {
    exists|k: int| 0 <= k < parts.len() && is_image(#[trigger] parts[k])
}

impl UploadBody {
    /// Whether the file name is safe to use in a path.
    pub open spec fn safely_named(self) -> bool {
        forall|i: int| 0 <= i < self.filename@.len() ==> !is_illegal(#[trigger] self.filename@[i])
    }

    /// Takes one part of a body: its chunks one after the other, and the
    /// file name of an image. Refused as `BodyData::with_part` says.
    pub fn take_part(&mut self, part: &UploadPart, maximum_size: usize) -> (r: Result<(), APIError>)
        requires
            old(self).safely_named(),
        ensures
            final(self).safely_named(),
            !is_image(*part) ==> final(self).filename == old(self).filename,
            match r {
                Ok(_) => old(self)@.with_part(*part, maximum_size as int) == Ok::<
                    BodyData,
                    APIError,
                >(final(self)@),
                Err(e) => old(self)@.with_part(*part, maximum_size as int) == Err::<
                    BodyData,
                    APIError,
                >(e),
            },
    {
        let name: &String = match &part.name {
            Some(name) => name,
            None => {
                return Err(APIError::BadRequestData);
            },
        };
        let kind: FieldKind = field_kind(name.as_str());
        let mut k: usize = 0;
        assert(chunk_rows(part.chunks@).take(0) =~= Seq::<Seq<u8>>::empty());
        while k < part.chunks.len()
            invariant
                k <= part.chunks@.len(),
                self.safely_named(),
                self.filename == old(self).filename,
                part.name is Some,
                kind == kind_of(part.name->0@),
                old(self)@.with_chunks(
                    kind,
                    chunk_rows(part.chunks@).take(k as int),
                    maximum_size as int,
                ) == Ok::<BodyData, APIError>(self@),
            decreases part.chunks@.len() - k,
        {
            let ghost now = chunk_rows(part.chunks@).take(k + 1);
            assert(now.drop_last() =~= chunk_rows(part.chunks@).take(k as int));
            assert(now.last() == part.chunks@[k as int]@);
            proof {
                lemma_chunks_prefix(
                    old(self)@,
                    kind,
                    chunk_rows(part.chunks@),
                    maximum_size as int,
                    k + 1,
                );
            }
            match self.accept(kind, part.chunks[k].as_slice(), maximum_size) {
                Ok(_) => {},
                Err(e) => {
                    return Err(e);
                },
            }
            k = k + 1;
        }
        assert(chunk_rows(part.chunks@).take(k as int) =~= chunk_rows(part.chunks@));
        match kind {
            FieldKind::Image => {
                let given: Option<&str> = match &part.filename {
                    Some(filename) => Some(filename.as_str()),
                    None => None,
                };
                self.name_image(given)
            },
            _ => Ok(()),
        }
    }
}

/// Chunks that are refused stay refused when more chunks follow.
proof fn lemma_chunks_prefix(
    body: BodyData,
    kind: FieldKind,
    chunks: Seq<Seq<u8>>,
    maximum_size: int,
    n: int,
)
    requires
        0 <= n <= chunks.len(),
    ensures
        match body.with_chunks(kind, chunks.take(n), maximum_size) {
            Err(e) => body.with_chunks(kind, chunks, maximum_size) == Err::<BodyData, APIError>(e),
            Ok(_) => true,
        },
    decreases chunks.len() - n,
{
    if n < chunks.len() {
        lemma_chunks_prefix(body, kind, chunks, maximum_size, n + 1);
        assert(chunks.take(n + 1).drop_last() =~= chunks.take(n));
    } else {
        assert(chunks.take(n) =~= chunks);
    }
}

/// Parts that are refused stay refused when more parts follow.
proof fn lemma_parts_prefix(body: BodyData, parts: Seq<UploadPart>, maximum_size: int, n: int)
    requires
        0 <= n <= parts.len(),
    ensures
        match body.with_parts(parts.take(n), maximum_size) {
            Err(e) => body.with_parts(parts, maximum_size) == Err::<BodyData, APIError>(e),
            Ok(_) => true,
        },
    decreases parts.len() - n,
{
    if n < parts.len() {
        lemma_parts_prefix(body, parts, maximum_size, n + 1);
        assert(parts.take(n + 1).drop_last() =~= parts.take(n));
    } else {
        assert(parts.take(n) =~= parts);
    }
}

/// Puts the body of an upload together from its parts: the bytes of the
/// image, the bytes of the details, and the file name of the image, made
/// safe to use in a path. Refused with `PayloadSize` as soon as the body
/// reaches `maximum_size` KiB, and with `BadRequestData` for a part
/// without a name or an image without a file name.
pub fn process_multipart_image(parts: &Vec<UploadPart>, maximum_size: usize) -> (r: Result<
    UploadBody,
    APIError,
>)
    ensures
        match r {
            Ok(body) => {
                &&& BodyData::empty().with_parts(parts@, maximum_size as int) == Ok::<
                    BodyData,
                    APIError,
                >(body@)
                &&& body.safely_named()
                &&& !has_image(parts@) ==> body.filename@ == Seq::<char>::empty()
            },
            Err(e) => BodyData::empty().with_parts(parts@, maximum_size as int) == Err::<
                BodyData,
                APIError,
            >(e),
        },
{
    let mut body = UploadBody::new();
    let mut k: usize = 0;
    assert(parts@.take(0) =~= Seq::<UploadPart>::empty());
    while k < parts.len()
        invariant
            k <= parts@.len(),
            body.safely_named(),
            !has_image(parts@.take(k as int)) ==> body.filename@ == Seq::<char>::empty(),
            BodyData::empty().with_parts(parts@.take(k as int), maximum_size as int) == Ok::<
                BodyData,
                APIError,
            >(body@),
        decreases parts@.len() - k,
    {
        let ghost now = parts@.take(k + 1);
        assert(now.drop_last() =~= parts@.take(k as int));
        assert(now.last() == parts@[k as int]);
        proof {
            lemma_parts_prefix(BodyData::empty(), parts@, maximum_size as int, k + 1);
        }
        match body.take_part(&parts[k], maximum_size) {
            Ok(_) => {},
            Err(e) => {
                return Err(e);
            },
        }
        proof {
            if !has_image(now) {
                assert(!is_image(now[k as int]));
                assert(!has_image(parts@.take(k as int))) by {
                    if has_image(parts@.take(k as int)) {
                        let c = choose|c: int|
                            0 <= c < parts@.take(k as int).len() && is_image(
                                #[trigger] parts@.take(k as int)[c],
                            );
                        assert(is_image(now[c]));
                    }
                }
            }
        }
        k = k + 1;
    }
    assert(parts@.take(k as int) =~= parts@);
    Ok(body)
}

} // verus!
