use watame::auth::AuthInfo;
use watame::database::enums::{ImageExtension, Perms, PostSorting, Rating};
use watame::database::post::{can_delete, find_post, NewPost, NotFull, Post, PostFull};
use watame::database::tag::{Tag, TagVector};
use watame::database::user::{NewUser, User};
use watame::database::{Database, DatabaseError};
use watame::error::APIError;
use watame::pages::post::{
    asked_post, counted_tags, delete_post, delete_purge_posts, delete_step, delete_target,
    finish_upload, found_post, get_post, placed_upload, purge_allowed, purge_step, store_upload,
    IdPostQuery, ImageInfo, NewPostDetails, StoredPost,
};
use watame::pages::search::search;
use watame::settings::RunSettings;

fn settings() -> RunSettings {
    RunSettings { storage_root: "/srv".to_string(), max_payload: 64 }
}

fn png() -> ImageInfo {
    ImageInfo { ext: ImageExtension::Png, size: 2048, width: 100, height: 100 }
}

fn details(tags: &[&str]) -> NewPostDetails {
    NewPostDetails {
        tags: tags.iter().map(|t| t.to_string()).collect(),
        description: String::new(),
        rating: Rating::default(),
    }
}

fn user(uid: i32) -> AuthInfo {
    AuthInfo { uid, perms: Perms::User }
}

fn admin() -> AuthInfo {
    AuthInfo { uid: 99, perms: Perms::Admin }
}

fn upload(db: &mut Database, tags: &[&str], poster: i32, now: i64) -> StoredPost {
    store_upload(&png(), "cat.png", &details(tags), db, &settings(), &user(poster), now).unwrap()
}

fn tokens(list: &[&str]) -> Vec<String> {
    list.iter().map(|t| t.to_string()).collect()
}

fn find(db: &Database, list: &[&str]) -> Vec<i64> {
    search(db, &tokens(list), 0, 50, PostSorting::DateAscending)
        .unwrap()
        .iter()
        .map(|p| p.id)
        .collect()
}

fn count(db: &Database, name: &str) -> Option<i64> {
    Tag::select_tag_name(db, name).map(|t| t.count)
}

fn row(id: i64, created: i64, score: i32, tags: &[&str]) -> PostFull {
    PostFull {
        id,
        poster: 1,
        tag_vector: TagVector(tags.iter().map(|t| t.to_string()).collect()),
        create_date: created,
        modified_date: created,
        description: None,
        rating: Rating::Safe,
        score,
        views: 0,
        source: None,
        filename: "f.png".to_string(),
        path: "00".to_string(),
        ext: ImageExtension::Png,
        size: 1,
        width: 1,
        height: 1,
        is_deleted: false,
    }
}

fn table(rows: Vec<PostFull>) -> Database {
    let mut db = Database::new();
    db.last_post = rows.iter().map(|r| r.id).max().unwrap_or(0);
    db.posts = rows;
    assert!(db.check());
    db
}

#[test]
fn an_uploaded_post_is_found_by_its_tags() {
    let mut db = Database::new();
    let stored = upload(&mut db, &["a", "b"], 1, 1_000);
    assert_eq!(
        stored.post,
        PostFull {
            id: 1,
            poster: 1,
            tag_vector: TagVector(vec!["a".to_string(), "b".to_string()]),
            create_date: 1_000,
            modified_date: 1_000,
            description: Some(String::new()),
            rating: Rating::Sketchy,
            score: 0,
            views: 0,
            source: None,
            filename: "cat.png".to_string(),
            path: "00".to_string(),
            ext: ImageExtension::Png,
            size: 2048,
            width: 100,
            height: 100,
            is_deleted: false,
        }
    );
    assert_eq!(
        search(&db, &tokens(&["a"]), 0, 20, PostSorting::DateDescending),
        Ok(vec![stored.post.duplicate()])
    );
    assert_eq!(search(&db, &tokens(&["!a"]), 0, 20, PostSorting::DateDescending), Ok(vec![]));
    assert_eq!(
        search(&db, &tokens(&["a", "!b"]), 0, 20, PostSorting::DateDescending),
        Ok(vec![])
    );
}

#[test]
fn an_upload_names_the_two_files_of_the_post() {
    let mut db = Database::new();
    db.last_post = 0x00ab_0000 - 1;
    let stored = upload(&mut db, &["a"], 1, 5);
    assert_eq!(stored.post.id, 0x00ab_0000);
    assert_eq!(stored.post.path, "ab");
    assert_eq!(stored.image_file, "/srv/img/ab/11206656-cat.png");
    assert_eq!(stored.thumbnail_file, "/srv/tmb/ab/11206656-thumbnail.jpg");
    assert_eq!(db.posts, vec![stored.post.duplicate()]);
}

#[test]
fn a_tag_with_a_space_is_refused_before_the_store_is_touched() {
    let mut db = Database::new();
    let before = db.duplicate();
    assert_eq!(
        store_upload(&png(), "cat.png", &details(&["a b"]), &mut db, &settings(), &user(1), 1),
        Err(APIError::BadTags)
    );
    assert_eq!(db, before);
    assert_eq!(db, Database::new());
}

#[test]
fn upload_refuses_each_reserved_character_and_blank_tags() {
    for bad in ["a+b", "!a", "a|b", "(a", "a)", " a", "", "\t"] {
        let mut db = Database::new();
        assert_eq!(
            store_upload(&png(), "c.png", &details(&["ok", bad]), &mut db, &settings(), &user(1), 1),
            Err(APIError::BadTags),
            "{:?}",
            bad
        );
        assert_eq!(db, Database::new());
    }
}

#[test]
fn upload_trims_tags() {
    let mut db = Database::new();
    let stored = upload(&mut db, &["\ta\n", "b\r"], 1, 1);
    assert_eq!(stored.post.tag_vector, TagVector(vec!["a".to_string(), "b".to_string()]));
    assert_eq!(count(&db, "a"), Some(1));
    assert_eq!(count(&db, "b"), Some(1));
}

#[test]
fn a_failed_file_write_leaves_the_row_standing() {
    let mut db = Database::new();
    let stored = upload(&mut db, &["a"], 1, 1);
    let post = stored.post.duplicate();
    assert_eq!(finish_upload(stored, true, false), Err(APIError::InternalError));
    assert_eq!(get_post(&IdPostQuery { id: 1 }, &db), Some(post.duplicate()));
    let again = upload(&mut db, &["a"], 1, 2);
    assert_eq!(finish_upload(again, false, true), Err(APIError::InternalError));
    let third = upload(&mut db, &["a"], 1, 3);
    let kept = third.post.duplicate();
    assert_eq!(finish_upload(third, true, true), Ok(kept));
    assert_eq!(db.posts.len(), 3);
}

#[test]
fn upload_is_refused_when_the_identifiers_have_run_out() {
    let mut db = Database::new();
    db.last_post = i64::MAX;
    let before = db.duplicate();
    assert_eq!(
        store_upload(&png(), "c.png", &details(&["a"]), &mut db, &settings(), &user(1), 1),
        Err(APIError::InternalError)
    );
    assert_eq!(db, before);
}

#[test]
fn upload_is_refused_when_a_counter_is_full() {
    let mut db = Database::new();
    Tag::insert_empty(&mut db, "a", 0).unwrap();
    db.tags[0].count = i64::MAX;
    let before = db.duplicate();
    assert_eq!(
        store_upload(&png(), "c.png", &details(&["b", "a"]), &mut db, &settings(), &user(1), 1),
        Err(APIError::InternalError)
    );
    assert_eq!(db, before);
}

#[test]
fn soft_delete_then_purge_removes_the_row_and_names_both_files() {
    let mut db = Database::new();
    let stored = upload(&mut db, &["a", "b"], 1, 1);
    assert_eq!(delete_post(&IdPostQuery { id: 1 }, &mut db, &user(1)), Ok(true));
    assert_eq!(db.posts.len(), 1);
    assert!(db.posts[0].is_deleted);
    assert_eq!(get_post(&IdPostQuery { id: 1 }, &db), None);
    assert_eq!(
        delete_purge_posts(&mut db, &settings(), &admin()),
        Ok(vec![(stored.image_file, stored.thumbnail_file)])
    );
    assert!(db.posts.is_empty());
    assert_eq!(delete_purge_posts(&mut db, &settings(), &admin()), Ok(vec![]));
    assert!(!Post::Partial(1).delete_post_checked(&mut db));
}

#[test]
fn a_second_purge_of_one_post_returns_false_and_changes_nothing() {
    let mut db = table(vec![row(1, 1, 0, &["a"]), row(2, 2, 0, &["a"])]);
    db.posts[0].is_deleted = true;
    assert!(Post::Partial(1).delete_post_checked(&mut db));
    let after = db.duplicate();
    assert!(!Post::Partial(1).delete_post_checked(&mut db));
    assert_eq!(db, after);
    assert_eq!(db.posts, vec![row(2, 2, 0, &["a"])]);
}

#[test]
fn purge_spares_a_post_without_the_delete_mark() {
    let mut db = table(vec![row(1, 1, 0, &["a"])]);
    let before = db.duplicate();
    assert!(!Post::Partial(1).delete_post_checked(&mut db));
    assert!(!Post::Full(row(1, 1, 0, &["a"])).delete_post_checked(&mut db));
    assert_eq!(db, before);
}

#[test]
fn only_an_administrator_may_purge() {
    let mut db = table(vec![row(1, 1, 0, &["a"])]);
    db.posts[0].is_deleted = true;
    let before = db.duplicate();
    for perms in [Perms::Guest, Perms::User, Perms::Moderator] {
        let who = AuthInfo { uid: 1, perms };
        assert_eq!(delete_purge_posts(&mut db, &settings(), &who), Err(APIError::Auth));
        assert_eq!(db, before);
    }
}

#[test]
fn purge_removes_every_marked_post_and_no_other() {
    let mut db = table(vec![
        row(1, 1, 0, &["a"]),
        row(2, 2, 0, &["a"]),
        row(3, 3, 0, &["a"]),
        row(0x0002_0004, 4, 0, &["a"]),
    ]);
    db.posts[0].is_deleted = true;
    db.posts[3].is_deleted = true;
    db.posts[3].path = "02".to_string();
    db.posts[0].filename = "one.gif".to_string();
    assert_eq!(
        delete_purge_posts(&mut db, &settings(), &admin()),
        Ok(vec![
            ("/srv/img/00/1-one.gif".to_string(), "/srv/tmb/00/1-thumbnail.jpg".to_string()),
            (
                "/srv/img/02/131076-f.png".to_string(),
                "/srv/tmb/02/131076-thumbnail.jpg".to_string()
            ),
        ])
    );
    assert_eq!(db.posts, vec![row(2, 2, 0, &["a"]), row(3, 3, 0, &["a"])]);
}

#[test]
fn counters_follow_uploads_and_deletes() {
    let mut db = Database::new();
    upload(&mut db, &["a", "b"], 1, 1);
    upload(&mut db, &["a"], 2, 2);
    upload(&mut db, &["c", "a"], 1, 3);
    assert_eq!(count(&db, "a"), Some(3));
    assert_eq!(count(&db, "b"), Some(1));
    assert_eq!(count(&db, "c"), Some(1));
    assert_eq!(count(&db, "d"), None);
    assert_eq!(delete_post(&IdPostQuery { id: 1 }, &mut db, &user(1)), Ok(true));
    assert_eq!(count(&db, "a"), Some(2));
    assert_eq!(count(&db, "b"), Some(0));
    assert_eq!(count(&db, "c"), Some(1));
    assert_eq!(find(&db, &["a"]), vec![2, 3]);
    assert_eq!(find(&db, &["b"]), Vec::<i64>::new());
    delete_purge_posts(&mut db, &settings(), &admin()).unwrap();
    assert_eq!(count(&db, "a"), Some(2));
    assert_eq!(count(&db, "b"), Some(0));
}

#[test]
fn a_tag_listed_twice_is_kept_once_and_counted_once() {
    let mut db = Database::new();
    let stored = upload(&mut db, &["a", "b", "\ta", "a"], 1, 1);
    assert_eq!(stored.post.tag_vector, TagVector(vec!["a".to_string(), "b".to_string()]));
    assert_eq!(count(&db, "a"), Some(1));
    assert_eq!(count(&db, "b"), Some(1));
    upload(&mut db, &["a", "a"], 2, 2);
    assert_eq!(count(&db, "a"), Some(2));
    assert_eq!(delete_post(&IdPostQuery { id: 1 }, &mut db, &user(1)), Ok(true));
    assert_eq!(count(&db, "a"), Some(1));
    assert_eq!(count(&db, "b"), Some(0));
    assert_eq!(delete_post(&IdPostQuery { id: 2 }, &mut db, &user(2)), Ok(true));
    assert_eq!(count(&db, "a"), Some(0));
}

#[test]
fn an_upload_is_refused_only_where_a_counter_cannot_go_up_once() {
    let mut db = Database::new();
    Tag::insert_empty(&mut db, "a", 0).unwrap();
    db.tags[0].count = i64::MAX - 1;
    upload(&mut db, &["a", "a", "a"], 1, 1);
    assert_eq!(count(&db, "a"), Some(i64::MAX));
    let before = db.duplicate();
    assert_eq!(
        store_upload(&png(), "c.png", &details(&["a"]), &mut db, &settings(), &user(1), 2),
        Err(APIError::InternalError)
    );
    assert_eq!(db, before);
}

#[test]
fn the_steps_of_a_request_say_what_to_do_next() {
    assert_eq!(asked_post(&IdPostQuery { id: 0 }), Some(0));
    assert_eq!(asked_post(&IdPostQuery { id: -1 }), None);
    assert_eq!(found_post(None), None);
    assert_eq!(found_post(Some(Post::Partial(3))), None);
    assert_eq!(found_post(Some(Post::Full(row(3, 1, 0, &["a"])))), Some(row(3, 1, 0, &["a"])));
    assert_eq!(delete_target(&IdPostQuery { id: 7 }), Ok(7));
    assert_eq!(delete_target(&IdPostQuery { id: -7 }), Err(APIError::BadRequestData));
    assert_eq!(delete_step(None), Ok(None));
    assert_eq!(delete_step(Some((false, Post::Partial(1)))), Err(APIError::Auth));
    assert_eq!(
        delete_step(Some((true, Post::Full(row(3, 1, 0, &["a", "b"]))))),
        Ok(Some((Post::Full(row(3, 1, 0, &["a", "b"])), vec!["a".to_string(), "b".to_string()])))
    );
    assert_eq!(delete_step(Some((true, Post::Partial(4)))), Ok(Some((Post::Partial(4), vec![]))));
    assert_eq!(purge_allowed(&admin()), Ok(()));
    assert_eq!(purge_allowed(&user(1)), Err(APIError::Auth));
    assert_eq!(purge_step(false, &row(3, 1, 0, &[]), "/srv"), None);
    assert_eq!(
        purge_step(true, &row(3, 1, 0, &[]), "/srv"),
        Some(("/srv/img/00/3-f.png".to_string(), "/srv/tmb/00/3-thumbnail.jpg".to_string()))
    );
    assert_eq!(counted_tags(&["b", "a", "b", "c", "a"]), vec!["b", "a", "c"]);
    assert_eq!(counted_tags(&[]), Vec::<&str>::new());
    let placed = placed_upload(row(0x0003_0001, 1, 0, &["a"]), "/srv/");
    assert_eq!(placed.post.path, "03");
    assert_eq!(placed.post.id, 0x0003_0001);
    assert_eq!(placed.image_file, "/srv/img/03/196609-f.png");
    assert_eq!(placed.thumbnail_file, "/srv/tmb/03/196609-thumbnail.jpg");
}

#[test]
fn update_tag_count_says_how_many_rows_it_wrote() {
    let mut db = Database::new();
    assert_eq!(Tag::update_tag_count(&mut db, &["x", "y", "x"]), Ok(3));
    assert_eq!(
        db.tags,
        vec![
            Tag { id: 1, name: "x".to_string(), count: 2, ty: 0 },
            Tag { id: 2, name: "y".to_string(), count: 1, ty: 0 },
        ]
    );
    assert_eq!(db.last_tag, 2);
    assert_eq!(Tag::update_tag_count(&mut db, &[]), Ok(0));
}

#[test]
fn update_tag_count_changes_nothing_when_it_is_refused() {
    let mut db = Database::new();
    Tag::update_tag_count(&mut db, &["x"]).unwrap();
    db.tags[0].count = i64::MAX - 1;
    let before = db.duplicate();
    assert_eq!(Tag::update_tag_count(&mut db, &["y", "x", "x"]), Err(DatabaseError::OutOfRange));
    assert_eq!(db, before);
    db.last_tag = i64::MAX;
    let before = db.duplicate();
    assert_eq!(Tag::update_tag_count(&mut db, &["new"]), Err(DatabaseError::OutOfRange));
    assert_eq!(db, before);
    assert_eq!(Tag::update_tag_count(&mut db, &["x"]), Ok(1));
    assert_eq!(db.tags[0].count, i64::MAX);
}

#[test]
fn update_decrease_counts_takes_one_from_each_named_counter() {
    let mut db = Database::new();
    Tag::update_tag_count(&mut db, &["x", "y", "z", "x"]).unwrap();
    let names = vec!["z".to_string(), "x".to_string(), "x".to_string(), "none".to_string()];
    assert_eq!(Tag::update_decrease_counts(&mut db, &names), Ok(2));
    assert_eq!(count(&db, "x"), Some(1));
    assert_eq!(count(&db, "y"), Some(1));
    assert_eq!(count(&db, "z"), Some(0));
    assert_eq!(Tag::update_decrease_counts(&mut db, &names), Ok(2));
    assert_eq!(count(&db, "z"), Some(-1));
}

#[test]
fn update_decrease_counts_changes_nothing_when_it_is_refused() {
    let mut db = Database::new();
    Tag::update_tag_count(&mut db, &["x", "y"]).unwrap();
    db.tags[1].count = i64::MIN;
    let before = db.duplicate();
    let names = vec!["x".to_string(), "y".to_string()];
    assert_eq!(Tag::update_decrease_counts(&mut db, &names), Err(DatabaseError::OutOfRange));
    assert_eq!(db, before);
    assert_eq!(Tag::update_decrease_counts(&mut db, &names[..1]), Ok(1));
}

#[test]
fn insert_empty_adds_a_counter_once() {
    let mut db = Database::new();
    assert_eq!(Tag::insert_empty(&mut db, "x", 3), Ok(()));
    assert_eq!(db.tags, vec![Tag { id: 1, name: "x".to_string(), count: 0, ty: 3 }]);
    assert_eq!(Tag::insert_empty(&mut db, "x", 4), Err(DatabaseError::Conflict));
    db.last_tag = i64::MAX;
    assert_eq!(Tag::insert_empty(&mut db, "y", 0), Err(DatabaseError::OutOfRange));
    assert_eq!(db.tags.len(), 1);
    assert_eq!(Tag::find(&db.tags, &"x".to_string()), Some(0));
    assert_eq!(Tag::find(&db.tags, &"y".to_string()), None);
}

#[test]
fn pages_of_posts_with_equal_keys_join_to_the_whole_list() {
    let db = table((1..=8).map(|id| row(id, 500, 7, &["t"])).collect());
    for sorting in [
        PostSorting::DateAscending,
        PostSorting::DateDescending,
        PostSorting::VoteAscending,
        PostSorting::VoteDescending,
    ] {
        let whole: Vec<i64> =
            search(&db, &tokens(&["t"]), 0, 50, sorting).unwrap().iter().map(|p| p.id).collect();
        let mut joined: Vec<i64> = Vec::new();
        for page in 0..4 {
            let part = search(&db, &tokens(&["t"]), page, 3, sorting).unwrap();
            assert!(part.len() <= 3);
            joined.extend(part.iter().map(|p| p.id));
        }
        assert_eq!(joined, whole);
        let mut sorted = whole.clone();
        sorted.sort();
        assert_eq!(sorted, vec![1, 2, 3, 4, 5, 6, 7, 8]);
    }
}

#[test]
fn each_order_lists_by_its_key_and_then_by_the_identifier() {
    let db = table(vec![
        row(1, 30, 5, &[]),
        row(2, 10, 5, &[]),
        row(3, 30, 1, &[]),
        row(4, 20, 9, &[]),
        row(5, 10, 9, &[]),
    ]);
    let ids = |sorting: PostSorting| -> Vec<i64> {
        search(&db, &Vec::new(), 0, 50, sorting).unwrap().iter().map(|p| p.id).collect()
    };
    assert_eq!(ids(PostSorting::DateAscending), vec![2, 5, 4, 1, 3]);
    assert_eq!(ids(PostSorting::DateDescending), vec![3, 1, 4, 5, 2]);
    assert_eq!(ids(PostSorting::VoteAscending), vec![3, 1, 2, 4, 5]);
    assert_eq!(ids(PostSorting::VoteDescending), vec![5, 4, 2, 1, 3]);
}

#[test]
fn a_page_starts_at_page_times_limit() {
    let db = table((1..=7).map(|id| row(id, id, 0, &[])).collect());
    let ids = |page: u32, limit: u32| -> Vec<i64> {
        search(&db, &Vec::new(), page, limit, PostSorting::DateAscending)
            .unwrap()
            .iter()
            .map(|p| p.id)
            .collect()
    };
    assert_eq!(ids(0, 3), vec![1, 2, 3]);
    assert_eq!(ids(1, 3), vec![4, 5, 6]);
    assert_eq!(ids(2, 3), vec![7]);
    assert_eq!(ids(3, 3), Vec::<i64>::new());
    assert_eq!(ids(0, 0), Vec::<i64>::new());
    assert_eq!(ids(5, 0), Vec::<i64>::new());
    assert_eq!(ids(u32::MAX, 50), Vec::<i64>::new());
    assert_eq!(ids(1, 5), vec![6, 7]);
}

#[test]
fn a_search_without_tags_lists_every_post_that_is_not_deleted() {
    let mut db = table(vec![row(1, 1, 0, &["a"]), row(2, 2, 0, &[]), row(3, 3, 0, &["b"])]);
    db.posts[1].is_deleted = true;
    assert_eq!(find(&db, &[]), vec![1, 3]);
}

#[test]
fn a_search_asks_for_all_wanted_tags_and_bars_posts_with_all_barred_tags() {
    let db = table(vec![
        row(1, 1, 0, &["a", "b", "c"]),
        row(2, 2, 0, &["a", "b"]),
        row(3, 3, 0, &["a"]),
        row(4, 4, 0, &["c"]),
    ]);
    assert_eq!(find(&db, &["a", "b"]), vec![1, 2]);
    assert_eq!(find(&db, &["!c"]), vec![2, 3]);
    assert_eq!(find(&db, &["a", "!b"]), vec![3]);
    assert_eq!(find(&db, &["!b", "!c"]), vec![2, 3, 4]);
    assert_eq!(find(&db, &["a", "!b", "!c"]), vec![2, 3]);
    assert_eq!(find(&db, &["zzz"]), Vec::<i64>::new());
}

#[test]
fn select_fulltext_tags_refuses_bad_tokens() {
    let db = table(vec![row(1, 1, 0, &["a"])]);
    assert_eq!(
        Post::select_fulltext_tags(&db, &["a", "b c"], 0, 10, PostSorting::DateAscending),
        Err(APIError::BadTags)
    );
    assert_eq!(
        Post::select_fulltext_tags(&db, &["a"], 0, 10, PostSorting::DateAscending),
        Ok(vec![row(1, 1, 0, &["a"])])
    );
}

#[test]
fn the_poster_and_the_staff_may_delete() {
    let mut db = table(vec![row(7, 1, 0, &["a"])]);
    db.posts[0].poster = 10;
    for (name, perms) in [
        ("guest", Perms::Guest),
        ("user", Perms::User),
        ("moderator", Perms::Moderator),
        ("admin", Perms::Admin),
        ("poster", Perms::User),
    ] {
        let id = NewUser { name, email: None, pass: "h", picture: None }
            .insert_into(&mut db)
            .unwrap()
            .id;
        db.users[(id - 1) as usize].perms = perms;
    }
    db.posts[0].poster = 5;
    let allowed = |db: &Database, who: i32| Post::select_can_delete(db, 7, who).map(|r| r.0);
    assert_eq!(allowed(&db, 1), Some(false));
    assert_eq!(allowed(&db, 2), Some(false));
    assert_eq!(allowed(&db, 3), Some(true));
    assert_eq!(allowed(&db, 4), Some(true));
    assert_eq!(allowed(&db, 5), Some(true));
    assert_eq!(allowed(&db, 77), Some(false));
    db.posts[0].poster = 77;
    assert_eq!(allowed(&db, 77), Some(true));
    let found = Post::select_can_delete(&db, 7, 3).unwrap().1;
    assert_eq!(found, Post::Full(db.posts[0].duplicate()));
}

#[test]
fn a_missing_post_cannot_be_deleted_whoever_asks() {
    let mut db = table(vec![row(7, 1, 0, &["a"])]);
    db.posts[0].is_deleted = true;
    NewUser { name: "admin", email: None, pass: "h", picture: None }.insert_into(&mut db).unwrap();
    db.users[0].perms = Perms::Admin;
    assert_eq!(Post::select_can_delete(&db, 7, 1), None);
    assert_eq!(Post::select_can_delete(&db, 8, 1), None);
    assert_eq!(Post::select_can_delete(&db, 8, 1234), None);
    assert_eq!(Post::select_can_delete(&db, -1, 1), None);
}

#[test]
fn can_delete_goes_by_the_poster_and_the_level() {
    assert!(can_delete(1, 1, None));
    assert!(can_delete(1, 1, Some(Perms::Guest)));
    assert!(!can_delete(1, 2, None));
    assert!(!can_delete(1, 2, Some(Perms::Guest)));
    assert!(!can_delete(1, 2, Some(Perms::User)));
    assert!(can_delete(1, 2, Some(Perms::Moderator)));
    assert!(can_delete(1, 2, Some(Perms::Admin)));
}

#[test]
fn delete_post_outcomes() {
    let mut db = Database::new();
    upload(&mut db, &["a"], 1, 1);
    let before = db.duplicate();
    assert_eq!(delete_post(&IdPostQuery { id: -1 }, &mut db, &user(1)), Err(APIError::BadRequestData));
    assert_eq!(delete_post(&IdPostQuery { id: 2 }, &mut db, &user(1)), Ok(false));
    assert_eq!(delete_post(&IdPostQuery { id: 1 }, &mut db, &user(2)), Err(APIError::Auth));
    assert_eq!(db, before);
    db.tags[0].count = i64::MIN;
    let before = db.duplicate();
    assert_eq!(delete_post(&IdPostQuery { id: 1 }, &mut db, &user(1)), Err(APIError::InternalError));
    assert_eq!(db, before);
    db.tags[0].count = 1;
    assert_eq!(delete_post(&IdPostQuery { id: 1 }, &mut db, &user(1)), Ok(true));
    assert_eq!(db.tags[0].count, 0);
    assert!(db.posts[0].is_deleted);
    assert_eq!(delete_post(&IdPostQuery { id: 1 }, &mut db, &user(1)), Ok(false));
    assert_eq!(db.tags[0].count, 0);
}

#[test]
fn a_moderator_known_to_the_store_may_delete_for_others() {
    let mut db = Database::new();
    upload(&mut db, &["a"], 1, 1);
    let moderator =
        NewUser { name: "mod", email: None, pass: "h", picture: None }.insert_into(&mut db).unwrap();
    db.users[0].perms = Perms::Moderator;
    let who = AuthInfo { uid: moderator.id, perms: Perms::Guest };
    assert_eq!(delete_post(&IdPostQuery { id: 1 }, &mut db, &who), Ok(true));
}

#[test]
fn get_post_finds_no_deleted_post_and_no_negative_identifier() {
    let mut db = table(vec![row(1, 1, 0, &["a"]), row(2, 2, 0, &["b"])]);
    db.posts[1].is_deleted = true;
    assert_eq!(get_post(&IdPostQuery { id: 1 }, &db), Some(row(1, 1, 0, &["a"])));
    assert_eq!(get_post(&IdPostQuery { id: 2 }, &db), None);
    assert_eq!(get_post(&IdPostQuery { id: 3 }, &db), None);
    assert_eq!(get_post(&IdPostQuery { id: -1 }, &db), None);
    assert_eq!(get_post(&IdPostQuery { id: i64::MIN }, &db), None);
    assert_eq!(find_post(&db, 2), Some(1));
    assert_eq!(find_post(&db, 9), None);
}

#[test]
fn select_is_deleted_lists_the_marked_posts_in_table_order() {
    let mut db = table(vec![row(1, 1, 0, &[]), row(2, 2, 0, &[]), row(3, 3, 0, &[])]);
    assert_eq!(Post::select_is_deleted(&db), vec![]);
    db.posts[2].is_deleted = true;
    db.posts[0].is_deleted = true;
    let marked: Vec<i64> = Post::select_is_deleted(&db).iter().map(|p| p.id).collect();
    assert_eq!(marked, vec![1, 3]);
}

#[test]
fn select_post_random_counts_round_the_active_posts() {
    let mut db = table(vec![row(1, 1, 0, &[]), row(2, 2, 0, &[]), row(3, 3, 0, &[])]);
    db.posts[1].is_deleted = true;
    let pick = |db: &Database, draw: u64| Post::select_post_random(db, draw).map(|p| p.get_id());
    assert_eq!(pick(&db, 0), Some(1));
    assert_eq!(pick(&db, 1), Some(3));
    assert_eq!(pick(&db, 2), Some(1));
    assert_eq!(pick(&db, u64::MAX), Some(3));
    db.posts[0].is_deleted = true;
    db.posts[2].is_deleted = true;
    assert_eq!(pick(&db, 0), None);
    assert_eq!(pick(&Database::new(), 5), None);
}

#[test]
fn update_path_and_mark_change_the_row_and_the_post_in_hand() {
    let mut db = table(vec![row(1, 1, 0, &["a"]), row(2, 2, 0, &["b"])]);
    let mut post = Post::select_post(&db, 2).unwrap();
    post.update_path(&mut db, "7f");
    assert_eq!(db.posts[1].path, "7f");
    assert_eq!(db.posts[0].path, "00");
    assert_eq!(post.as_full().unwrap().path, "7f");
    post.update_is_deleted(&mut db, true);
    assert!(db.posts[1].is_deleted);
    assert!(!db.posts[0].is_deleted);
    assert!(post.as_full().unwrap().is_deleted);
    let mut partial = Post::from(1);
    partial.update_is_deleted(&mut db, true);
    partial.update_is_deleted(&mut db, false);
    partial.update_path(&mut db, "01");
    assert_eq!(partial, Post::Partial(1));
    assert_eq!(db.posts[0].path, "01");
    assert!(!db.posts[0].is_deleted);
    let mut gone = Post::Partial(9);
    let before = db.duplicate();
    gone.update_path(&mut db, "ff");
    gone.update_is_deleted(&mut db, true);
    assert_eq!(db, before);
}

#[test]
fn a_partial_post_has_an_identifier_and_no_attributes() {
    let partial = Post::from(4);
    assert_eq!(partial.get_id(), 4);
    assert_eq!(partial.as_full(), Err(NotFull));
    assert_eq!(partial.into_full(), Err(NotFull));
    let full = Post::Full(row(6, 1, 0, &[]));
    assert_eq!(full.get_id(), 6);
    assert_eq!(full.as_full(), Ok(&row(6, 1, 0, &[])));
    assert_eq!(full.into_full(), Ok(row(6, 1, 0, &[])));
    assert_eq!(Post::deserialise(3, None), Post::Partial(3));
    assert_eq!(Post::deserialise(3, Some(row(3, 1, 0, &[]))), Post::Full(row(3, 1, 0, &[])));
}

#[test]
fn insert_into_gives_the_row_the_next_identifier() {
    let mut db = Database::new();
    db.last_post = 41;
    let new = NewPost {
        filename: "a.gif",
        ext: ImageExtension::Gif,
        path: "00",
        size: 10,
        dimensions: (3, 4),
        rating: Rating::Explicit,
        description: "d",
        tags: &["x", "y", "x"],
        poster: 8,
    };
    let post = new.insert_into(&mut db, 77).unwrap();
    assert_eq!(post.id, 42);
    assert_eq!(post.poster, 8);
    assert_eq!(post.tag_vector, TagVector(vec!["x".to_string(), "y".to_string()]));
    assert_eq!((post.create_date, post.modified_date), (77, 77));
    assert_eq!(post.description, Some("d".to_string()));
    assert_eq!(post.rating, Rating::Explicit);
    assert_eq!((post.score, post.views), (0, 0));
    assert_eq!(post.source, None);
    assert_eq!((post.width, post.height, post.size), (3, 4, 10));
    assert_eq!(post.ext, ImageExtension::Gif);
    assert!(!post.is_deleted);
    assert_eq!(db.posts, vec![post]);
    assert_eq!(db.last_post, 42);
    assert!(db.tags.is_empty());
    db.last_post = i64::MAX;
    assert_eq!(new.insert_into(&mut db, 78), Err(DatabaseError::OutOfRange));
    assert_eq!(db.posts.len(), 1);
}

#[test]
fn users_are_found_by_identifier_and_by_name() {
    let mut db = Database::new();
    let ann = NewUser { name: "ann", email: Some("a@x"), pass: "h1", picture: None }
        .insert_into(&mut db)
        .unwrap();
    let bob = NewUser { name: "bob", email: None, pass: "h2", picture: Some("/p.png") }
        .insert_into(&mut db)
        .unwrap();
    assert_eq!(
        ann,
        User {
            id: 1,
            name: "ann".to_string(),
            email: Some("a@x".to_string()),
            pass: "h1".to_string(),
            picture: "/s/pfp/default.png".to_string(),
            perms: Perms::User,
        }
    );
    assert_eq!(bob.id, 2);
    assert_eq!(bob.picture, "/p.png");
    assert_eq!(User::select_id(&db, 2), Some(bob.duplicate()));
    assert_eq!(User::select_id(&db, 3), None);
    assert_eq!(User::select_name(&db, "ann"), Some(ann));
    assert_eq!(User::select_name(&db, "cat"), None);
    assert!(User::check_existence(&db, "bob", None));
    assert!(User::check_existence(&db, "zed", Some("a@x")));
    assert!(!User::check_existence(&db, "zed", Some("b@x")));
    assert!(!User::check_existence(&db, "zed", None));
    db.last_user = i32::MAX;
    assert_eq!(
        NewUser { name: "zed", email: None, pass: "h", picture: None }.insert_into(&mut db),
        Err(DatabaseError::OutOfRange)
    );
}

#[test]
fn check_tells_a_sound_store_from_a_broken_one() {
    assert!(Database::new().check());
    let mut db = table(vec![row(1, 1, 0, &["a", "b"]), row(3, 2, 0, &[])]);
    Tag::update_tag_count(&mut db, &["a", "b"]).unwrap();
    NewUser { name: "ann", email: None, pass: "h", picture: None }.insert_into(&mut db).unwrap();
    NewUser { name: "bob", email: None, pass: "h", picture: None }.insert_into(&mut db).unwrap();
    assert!(db.check());
    let broken = |change: &dyn Fn(&mut Database)| {
        let mut copy = db.duplicate();
        change(&mut copy);
        !copy.check()
    };
    assert!(broken(&|d| d.last_post = 2));
    assert!(broken(&|d| d.last_post = -1));
    assert!(broken(&|d| d.last_tag = 1));
    assert!(broken(&|d| d.last_user = 1));
    assert!(broken(&|d| d.posts[0].id = 0));
    assert!(broken(&|d| d.posts[0].id = 3));
    assert!(broken(&|d| d.posts.swap(0, 1)));
    assert!(broken(&|d| d.posts[0].tag_vector.0.push("a".to_string())));
    assert!(broken(&|d| d.tags[1].name = "a".to_string()));
    assert!(broken(&|d| d.tags[0].id = 0));
    assert!(broken(&|d| d.users[1].id = 1));
    assert!(broken(&|d| d.users[0].id = -4));
    assert!(!broken(&|d| d.tags.swap(0, 1)));
    assert!(!broken(&|d| d.posts[0].is_deleted = true));
    assert!(TagVector(vec!["a".to_string(), "b".to_string()]).is_distinct());
    assert!(!TagVector(vec!["a".to_string(), "b".to_string(), "a".to_string()]).is_distinct());
}
