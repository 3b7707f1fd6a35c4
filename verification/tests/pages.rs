use watame::auth::{
    session_key, session_token, AuthDb, AuthInfo, MaybeAuthenticated, MAX_TOKEN,
};
use watame::database::enums::{ImageExtension, Perms, PostSorting, Rating};
use watame::database::post::{NewPost, PostFull, Statement};
use watame::database::tag::{Tag, TagVector};
use watame::database::user::User;
use watame::database::Database;
use watame::error::APIError;
use watame::pages::post::{
    field_kind, new_post, process_multipart_image, upload_tags, FieldKind, ImageInfo,
    NewPostDetails, UploadBody, UploadPart, INITIAL_PATH,
};
use watame::pages::search::{
    default_limit, default_page, default_sort, default_tags, get_random_post, get_search, search,
    search_statement, statement_for, tokens_of, SearchPostQuery, MAX_LIMIT, MAX_TAGS,
};
use watame::pages::tag::{get_info, TagInfoQuery};
use watame::pages::user::{
    check_register, get_logged_in, get_self, login_key, login_session, login_user,
    password_hash, password_matches, post_login, post_register, register_with_hash,
    LoginUserQuery, RegisterUserQuery, UserAPI,
};
use watame::pages::{upload_post_html, HTML_TYPE, JSON_TYPE, UPLOAD_PAGE_HTML};
use watame::settings::{Action, Overrides, RunSettings, Settings};

fn post_row(id: i64, tags: &[&str]) -> PostFull {
    PostFull {
        id,
        poster: 1,
        tag_vector: TagVector(tags.iter().map(|t| t.to_string()).collect()),
        create_date: id,
        modified_date: id,
        description: None,
        rating: Rating::Safe,
        score: 0,
        views: 0,
        source: None,
        filename: "f.png".to_string(),
        path: "00".to_string(),
        ext: ImageExtension::Jpg,
        size: 1,
        width: 1,
        height: 1,
        is_deleted: false,
    }
}

fn small_table() -> Database {
    let mut db = Database::new();
    db.posts = vec![post_row(1, &["a"]), post_row(2, &["a", "b"]), post_row(3, &["b"])];
    db.last_post = 3;
    db
}

fn query(tags: &str, page: u32, limit: u32) -> SearchPostQuery {
    SearchPostQuery { tags: tags.to_string(), page, limit, sort: PostSorting::DateAscending }
}

fn found(db: &Database, q: &SearchPostQuery) -> Result<Vec<i64>, APIError> {
    get_search(q, db).map(|posts| posts.iter().map(|p| p.id).collect())
}

#[test]
fn a_query_has_defaults() {
    assert_eq!(default_tags(), "[]");
    assert_eq!(default_page(), 0);
    assert_eq!(default_limit(), 20);
    assert_eq!(default_sort(), PostSorting::DateDescending);
    assert_eq!(
        SearchPostQuery::new(None, None, None, None),
        SearchPostQuery {
            tags: "[]".to_string(),
            page: 0,
            limit: 20,
            sort: PostSorting::DateDescending
        }
    );
    assert_eq!(
        SearchPostQuery::new(
            Some("[\"a\"]".to_string()),
            Some(2),
            Some(5),
            Some(PostSorting::VoteAscending)
        ),
        SearchPostQuery {
            tags: "[\"a\"]".to_string(),
            page: 2,
            limit: 5,
            sort: PostSorting::VoteAscending
        }
    );
}

#[test]
fn get_search_reads_its_tags_from_a_json_array() {
    let db = small_table();
    assert_eq!(found(&db, &query("[\"a\"]", 0, 20)), Ok(vec![1, 2]));
    assert_eq!(found(&db, &query(" [ \"a\" , \"!b\" ] ", 0, 20)), Ok(vec![1]));
    assert_eq!(found(&db, &query("[]", 0, 20)), Ok(vec![1, 2, 3]));
    assert_eq!(found(&db, &query("[\"c\"]", 0, 20)), Ok(vec![]));
}

#[test]
fn get_search_refuses_what_is_no_array_of_plain_strings() {
    let db = small_table();
    for bad in ["", "a", "[a]", "[\"a\"", "{\"a\":1}", "[1]", "[\"a\", null]", "\"a\"", "[\"a\\n\"]"] {
        assert_eq!(found(&db, &query(bad, 0, 20)), Err(APIError::BadRequestData), "{:?}", bad);
    }
}

#[test]
fn get_search_trims_tokens_and_leaves_out_blank_ones() {
    let db = small_table();
    assert_eq!(found(&db, &query("[\" a \", \"\", \"   \", \"b\"]", 0, 20)), Ok(vec![2]));
    assert_eq!(found(&db, &query("[\"\", \"\"]", 0, 20)), Ok(vec![1, 2, 3]));
}

#[test]
fn get_search_limits_tags_and_page_size() {
    let db = small_table();
    let ten = "[\"a\",\"a\",\"a\",\"a\",\"a\",\"a\",\"a\",\"a\",\"a\",\"a\"]";
    let eleven = "[\"a\",\"a\",\"a\",\"a\",\"a\",\"a\",\"a\",\"a\",\"a\",\"a\",\"a\"]";
    let eleven_with_blank = "[\"a\",\"a\",\"a\",\"a\",\"a\",\"a\",\"a\",\"a\",\"a\",\"a\",\" \"]";
    assert_eq!(MAX_TAGS, 10);
    assert_eq!(MAX_LIMIT, 50);
    assert_eq!(found(&db, &query(ten, 0, 50)), Ok(vec![1, 2]));
    assert_eq!(found(&db, &query(eleven_with_blank, 0, 50)), Ok(vec![1, 2]));
    assert_eq!(found(&db, &query(eleven, 0, 50)), Err(APIError::BadTags));
    assert_eq!(found(&db, &query(ten, 0, 51)), Err(APIError::PageSize));
    assert_eq!(found(&db, &query(eleven, 0, 51)), Err(APIError::BadTags));
    assert_eq!(found(&db, &query("[\"a b\"]", 0, 51)), Err(APIError::PageSize));
    assert_eq!(found(&db, &query("[\"a b\"]", 0, 50)), Err(APIError::BadTags));
}

#[test]
fn search_takes_its_tokens_as_a_list() {
    let db = small_table();
    let tokens = vec![" b ".to_string(), "!a".to_string()];
    let posts = search(&db, &tokens, 0, 20, PostSorting::DateDescending).unwrap();
    assert_eq!(posts, vec![post_row(3, &["b"])]);
}

#[test]
fn get_random_post_picks_by_the_draw() {
    let db = small_table();
    assert_eq!(get_random_post(&db, 4), Some(post_row(2, &["a", "b"])));
    assert_eq!(get_random_post(&Database::new(), 4), None);
}

#[test]
fn get_info_shows_the_counter_of_a_tag() {
    let mut db = Database::new();
    Tag::update_tag_count(&mut db, &["a", "b", "b"]).unwrap();
    assert_eq!(
        get_info(&TagInfoQuery { name: "b".to_string() }, &db),
        Some(Tag { id: 2, name: "b".to_string(), count: 2, ty: 0 })
    );
    assert_eq!(get_info(&TagInfoQuery { name: "c".to_string() }, &db), None);
}

#[test]
fn the_upload_page_is_html() {
    assert_eq!(upload_post_html(), (HTML_TYPE, UPLOAD_PAGE_HTML));
    assert_eq!(HTML_TYPE, "text/html; charset=utf-8");
    assert_eq!(JSON_TYPE, "application/json; charset=utf-8");
    assert!(UPLOAD_PAGE_HTML.contains("<form method=\"POST\" action=\"/post\" enctype=\"multipart/form-data\">"));
}

#[test]
fn parts_of_an_upload_go_by_their_name() {
    assert_eq!(field_kind("image"), FieldKind::Image);
    assert_eq!(field_kind("data"), FieldKind::Data);
    assert_eq!(field_kind("Image"), FieldKind::Other);
    assert_eq!(field_kind(""), FieldKind::Other);
}

#[test]
fn an_upload_body_keeps_the_image_and_the_details() {
    let mut body = UploadBody::new();
    assert_eq!(body.accept(FieldKind::Image, &[1, 2], 1), Ok(()));
    assert_eq!(body.accept(FieldKind::Other, &[9, 9, 9], 1), Ok(()));
    assert_eq!(body.accept(FieldKind::Data, b"{}", 1), Ok(()));
    assert_eq!(body.accept(FieldKind::Image, &[3], 1), Ok(()));
    assert_eq!(
        body,
        UploadBody {
            image_data: vec![1, 2, 3],
            filename: String::new(),
            data: b"{}".to_vec(),
            bytes_read: 8
        }
    );
}

#[test]
fn an_upload_body_must_stay_below_its_ceiling() {
    let mut body = UploadBody::new();
    assert_eq!(body.accept(FieldKind::Image, &[0u8; 1023], 1), Ok(()));
    let before = UploadBody {
        image_data: vec![0u8; 1023],
        filename: String::new(),
        data: Vec::new(),
        bytes_read: 1023,
    };
    assert_eq!(body.accept(FieldKind::Other, &[0u8; 1], 1), Err(APIError::PayloadSize));
    assert_eq!(body, before);
    assert_eq!(body.accept(FieldKind::Other, &[], 1), Ok(()));
    assert_eq!(body.count_bytes(1, 2), Ok(()));
    assert_eq!(body.bytes_read, 1024);
    assert_eq!(body.count_bytes(1024, 2), Err(APIError::PayloadSize));
    assert_eq!(body.count_bytes(usize::MAX, usize::MAX), Err(APIError::PayloadSize));
    assert_eq!(body.bytes_read, 1024);
    assert_eq!(UploadBody::new().count_bytes(0, 0), Err(APIError::PayloadSize));
}

#[test]
fn the_file_name_of_an_image_is_made_safe() {
    let mut body = UploadBody::new();
    assert_eq!(body.name_image(Some("../../etc/pass:wd\n.png")), Ok(()));
    assert_eq!(body.filename, "....etcpasswd.png");
    assert_eq!(body.name_image(Some("cat.png")), Ok(()));
    assert_eq!(body.filename, "cat.png");
    assert_eq!(body.name_image(None), Err(APIError::BadRequestData));
    assert_eq!(body.filename, "cat.png");
}

#[test]
fn upload_tags_are_checked_and_then_trimmed() {
    let raw = vec!["\tsky\n".to_string(), "sea".to_string()];
    assert_eq!(upload_tags(&raw), Ok(vec!["sky", "sea"]));
    assert_eq!(upload_tags(&Vec::new()), Ok(Vec::<&str>::new()));
    assert_eq!(upload_tags(&vec![" sky".to_string()]), Err(APIError::BadTags));
    assert_eq!(upload_tags(&vec!["\n".to_string()]), Err(APIError::BadTags));
}

#[test]
fn actions_are_read_by_name() {
    assert_eq!(Action::from_str("clear-sessions"), Ok(Action::ClearSessions));
    assert_eq!(Action::from_str("create-folders"), Ok(Action::CreateFolders));
    assert_eq!(Action::from_str("drop-tables"), Ok(Action::DropTables));
    assert_eq!(Action::from_str("install-schema"), Ok(Action::InstallSchema));
    assert_eq!(Action::from_str("run"), Ok(Action::RunServer));
    assert_eq!(Action::from_str("Run"), Err("unknown action"));
    assert_eq!(Action::from_str(""), Err("unknown action"));
    assert_eq!(Action::default(), Action::RunServer);
}

#[test]
fn settings_have_defaults() {
    let settings = Settings::default();
    assert_eq!(
        settings,
        Settings {
            server_host: "127.0.0.1:8080".to_string(),
            database_host: "127.0.0.1:5432".to_string(),
            database_credentials: ("postgres".to_string(), "password".to_string()),
            database_name: "watame".to_string(),
            storage_root: "./storage/".to_string(),
            redis_uri: "redis://127.0.0.1:6379".to_string(),
            max_payload: 65536,
            action: Action::RunServer,
        }
    );
    assert_eq!(
        RunSettings::from(&settings),
        RunSettings { storage_root: "./storage/".to_string(), max_payload: 65536 }
    );
}

#[test]
fn the_environment_overrides_the_defaults() {
    let none = Overrides {
        server_host: None,
        database_host: None,
        database_user: None,
        database_pass: None,
        database_name: None,
        redis_uri: None,
        storage_root: None,
        max_payload: None,
    };
    let mut expected = Settings::default();
    expected.action = Action::DropTables;
    assert_eq!(Settings::parse(none, Action::DropTables), expected);
    let all = Overrides {
        server_host: Some("0.0.0.0:80".to_string()),
        database_host: Some("10.0.0.1:5433".to_string()),
        database_user: Some("u".to_string()),
        database_pass: Some("p".to_string()),
        database_name: Some("n".to_string()),
        redis_uri: Some("redis://r".to_string()),
        storage_root: Some("/data".to_string()),
        max_payload: Some("12".to_string()),
    };
    assert_eq!(
        Settings::parse(all, Action::RunServer),
        Settings {
            server_host: "0.0.0.0:80".to_string(),
            database_host: "10.0.0.1:5433".to_string(),
            database_credentials: ("u".to_string(), "p".to_string()),
            database_name: "n".to_string(),
            storage_root: "/data".to_string(),
            redis_uri: "redis://r".to_string(),
            max_payload: 12,
            action: Action::RunServer,
        }
    );
    let mut settings = Settings::default();
    settings.merge_cli_opts(Action::CreateFolders);
    assert_eq!(settings.action, Action::CreateFolders);
}

#[test]
fn session_keys_are_namespaced() {
    assert_eq!(session_key(None), Ok(None));
    assert_eq!(session_key(Some("tok")), Ok(Some("user:tok".to_string())));
    assert_eq!(session_key(Some("")), Err(APIError::BadRequestData));
    assert_eq!(MAX_TOKEN, 512);
    let longest = "x".repeat(512);
    assert_eq!(session_key(Some(&longest)), Ok(Some(format!("user:{}", longest))));
    let too_long = "x".repeat(513);
    assert_eq!(session_key(Some(&too_long)), Err(APIError::BadRequestData));
    let wide = "\u{e9}".repeat(257);
    assert_eq!(session_key(Some(&wide)), Err(APIError::BadRequestData));
    assert_eq!(session_token("user:tok"), Some("tok"));
    assert_eq!(session_token("user:"), Some(""));
    assert_eq!(session_token("users:tok"), None);
    assert_eq!(session_token("tok"), None);
}

#[test]
fn a_request_may_come_from_a_user() {
    let info = AuthInfo { uid: 3, perms: Perms::Moderator };
    assert!(MaybeAuthenticated(Some(info)).is_authenticated());
    assert!(!MaybeAuthenticated(None).is_authenticated());
    assert_eq!(MaybeAuthenticated(Some(info)).into_authinfo(), info);
    assert_eq!(get_logged_in(&MaybeAuthenticated(Some(info))), "{\"status\": \"logged in\"}");
    assert_eq!(get_logged_in(&MaybeAuthenticated(None)), "{\"status\": \"logged out\"}");
    let user = User {
        id: 3,
        name: "n".to_string(),
        email: None,
        pass: "h".to_string(),
        picture: "p".to_string(),
        perms: Perms::Moderator,
    };
    assert_eq!(AuthInfo::from(user), info);
}

#[test]
fn registration_checks_lengths_and_known_users() {
    let mut db = Database::new();
    let good = RegisterUserQuery {
        user: "anna".to_string(),
        pass: "12345678".to_string(),
        email: "a@x".to_string(),
    };
    let short_name = RegisterUserQuery {
        user: "ann".to_string(),
        pass: "12345678".to_string(),
        email: "b@x".to_string(),
    };
    let short_pass = RegisterUserQuery {
        user: "anna".to_string(),
        pass: "1234567".to_string(),
        email: "b@x".to_string(),
    };
    assert_eq!(check_register(&short_name, &db), Err(APIError::BadRequestData));
    assert_eq!(check_register(&short_pass, &db), Err(APIError::BadRequestData));
    assert_eq!(register_with_hash(&short_pass, &mut db, "hash"), Err(APIError::BadRequestData));
    assert_eq!(check_register(&good, &db), Ok(()));
    assert_eq!(
        register_with_hash(&good, &mut db, "hash"),
        Ok(UserAPI {
            id: 1,
            username: "anna".to_string(),
            email: Some("a@x".to_string()),
            picture: "/s/pfp/default.png".to_string(),
            perms: Perms::User,
        })
    );
    assert_eq!(db.users[0].pass, "hash");
    assert_eq!(register_with_hash(&good, &mut db, "hash"), Err(APIError::UserExists));
    let same_mail = RegisterUserQuery {
        user: "other".to_string(),
        pass: "12345678".to_string(),
        email: "a@x".to_string(),
    };
    assert_eq!(check_register(&same_mail, &db), Err(APIError::UserExists));
    assert_eq!(db.users.len(), 1);
    db.last_user = i32::MAX;
    let late = RegisterUserQuery {
        user: "late".to_string(),
        pass: "12345678".to_string(),
        email: "l@x".to_string(),
    };
    assert_eq!(register_with_hash(&late, &mut db, "hash"), Err(APIError::InternalError));
}

#[test]
fn a_password_is_kept_hashed() {
    let mut db = Database::new();
    let query = RegisterUserQuery {
        user: "anna".to_string(),
        pass: "correct horse".to_string(),
        email: "a@x".to_string(),
    };
    let told = post_register(&query, &mut db, b"0123456789abcdef").unwrap();
    assert_eq!(told.username, "anna");
    let kept = db.users[0].duplicate();
    assert!(kept.pass.starts_with("$argon2"));
    assert_ne!(kept.pass, "correct horse");
    assert_eq!(password_hash("correct horse", b"0123456789abcdef"), Ok(kept.pass.clone()));
    assert_ne!(password_hash("correct horse", b"fedcba9876543210"), Ok(kept.pass.clone()));
    assert_eq!(password_matches(&kept, "correct horse"), Ok(true));
    assert_eq!(password_matches(&kept, "correct horsf"), Ok(false));
    assert_eq!(password_hash("correct horse", b"short"), Err(APIError::InternalError));
    let mut unreadable = kept.duplicate();
    unreadable.pass = "not a hash".to_string();
    assert_eq!(password_matches(&unreadable, "correct horse"), Err(APIError::InternalError));
    let twin = RegisterUserQuery {
        user: "bert".to_string(),
        pass: "correct horse".to_string(),
        email: "b@x".to_string(),
    };
    let before = db.duplicate();
    assert_eq!(post_register(&twin, &mut db, b"short"), Err(APIError::InternalError));
    assert_eq!(post_register(&query, &mut db, b"0123456789abcdef"), Err(APIError::UserExists));
    assert_eq!(db, before);
}

#[test]
fn login_needs_a_known_user_and_the_right_password() {
    let mut db = Database::new();
    let mut sessions = AuthDb::new();
    let register = RegisterUserQuery {
        user: "anna".to_string(),
        pass: "12345678".to_string(),
        email: "a@x".to_string(),
    };
    post_register(&register, &mut db, b"0123456789abcdef").unwrap();
    let unknown = LoginUserQuery { user: "bob".to_string(), pass: "12345678".to_string() };
    assert_eq!(login_user(&db, &unknown), Err(APIError::BadCredentials));
    assert_eq!(post_login(&db, &mut sessions, &unknown, b"abc"), Err(APIError::BadCredentials));
    let wrong = LoginUserQuery { user: "anna".to_string(), pass: "87654321".to_string() };
    assert_eq!(post_login(&db, &mut sessions, &wrong, b"abc"), Err(APIError::BadCredentials));
    assert_eq!(sessions, AuthDb::new());
    let known = LoginUserQuery { user: "anna".to_string(), pass: "12345678".to_string() };
    let reply = post_login(&db, &mut sessions, &known, b"hello world~").unwrap();
    assert_eq!(reply.token, "aGVsbG8gd29ybGR+");
    assert_eq!(reply.user.username, "anna");
    assert_eq!(sessions.sessions.len(), 1);
    assert_eq!(sessions.sessions[0].key, "user:aGVsbG8gd29ybGR+");
    assert_eq!(
        sessions.verify(Some(&reply.token)),
        Ok(Some(AuthInfo { uid: 1, perms: Perms::User }))
    );
    assert_eq!(login_key(&[0, 0, 0]), "user:AAAA");
    assert_eq!(login_key(&[0xff]), "user:/w==");
    assert_eq!(login_key(&[]), "user:");
    let user = login_user(&db, &known).unwrap();
    assert_eq!(login_session(user.duplicate(), false), Err(APIError::BadCredentials));
    let (info, api) = login_session(user, true).unwrap();
    assert_eq!(info, AuthInfo { uid: 1, perms: Perms::User });
    assert_eq!(api.username, "anna");
    assert_eq!(get_self(&db, &info).unwrap(), api);
    assert_eq!(
        get_self(&db, &AuthInfo { uid: 2, perms: Perms::User }),
        Err(APIError::BadRequestData)
    );
    db.users[0].pass = "unreadable".to_string();
    assert_eq!(post_login(&db, &mut sessions, &known, b"x"), Err(APIError::InternalError));
    assert_eq!(sessions.sessions.len(), 1);
}

#[test]
fn actions_parse_from_text() {
    assert_eq!("drop-tables".parse::<Action>(), Ok(Action::DropTables));
    assert_eq!("nothing".parse::<Action>(), Err("unknown action"));
}

#[test]
fn a_search_statement_is_built_from_the_query() {
    let statement = search_statement(&query("[\" a \", \"!b\", \"\", \"c\"]", 2, 5)).unwrap();
    assert_eq!(
        statement,
        Statement {
            text: "SELECT * FROM posts WHERE tag_vector @@ plainto_tsquery('tag_parser', $1) AND NOT tag_vector @@ plainto_tsquery('tag_parser', $2) AND is_deleted='false' ORDER BY create_date ASC, id ASC OFFSET 10 LIMIT 5".to_string(),
            params: vec!["a,c".to_string(), "b".to_string()],
        }
    );
    assert_eq!(search_statement(&query("nope", 0, 5)), Err(APIError::BadRequestData));
    assert_eq!(search_statement(&query("[\"a\\u0041\"]", 0, 5)), Err(APIError::BadRequestData));
    assert_eq!(search_statement(&query("[]", 0, 51)), Err(APIError::PageSize));
    assert_eq!(search_statement(&query("[\"(\"]", 0, 50)), Err(APIError::BadTags));
    let many: Vec<String> = (0..11).map(|n| format!("t{}", n)).collect();
    assert_eq!(
        statement_for(&many, 0, 10, PostSorting::DateAscending),
        Err(APIError::BadTags)
    );
    assert!(statement_for(&many[..10].to_vec(), 0, 10, PostSorting::DateAscending).is_ok());
    let raw = vec!["  ".to_string(), " x".to_string()];
    assert_eq!(tokens_of(&raw), vec!["x"]);
}

#[test]
fn a_registration_checks_its_lengths_first() {
    let query = |user: &str, pass: &str| RegisterUserQuery {
        user: user.to_string(),
        pass: pass.to_string(),
        email: String::new(),
    };
    assert_eq!(query("abcd", "12345678").check_lengths(), Ok(()));
    assert_eq!(query("abc", "12345678").check_lengths(), Err(APIError::BadRequestData));
    assert_eq!(query("abcd", "1234567").check_lengths(), Err(APIError::BadRequestData));
    assert_eq!(query("\u{e9}\u{e9}", "\u{e9}\u{e9}\u{e9}\u{e9}").check_lengths(), Ok(()));
}

#[test]
fn a_new_post_starts_at_the_initial_path() {
    let image = ImageInfo { ext: ImageExtension::Webp, size: 9, width: 4, height: 3 };
    let details = NewPostDetails {
        tags: vec![" a ".to_string()],
        description: "d".to_string(),
        rating: Rating::Safe,
    };
    assert_eq!(
        new_post(&image, "f.webp", &details, &["a"], 7),
        NewPost {
            filename: "f.webp",
            ext: ImageExtension::Webp,
            path: "00",
            size: 9,
            dimensions: (4, 3),
            rating: Rating::Safe,
            description: "d",
            tags: &["a"],
            poster: 7,
        }
    );
    assert_eq!(INITIAL_PATH, "00");
    assert_eq!(
        new_post(&image, "f.webp", &details, &["a", "b"], 7).tag_text(),
        "a,b,"
    );
}

fn part(name: Option<&str>, filename: Option<&str>, chunks: &[&[u8]]) -> UploadPart {
    UploadPart {
        name: name.map(|n| n.to_string()),
        filename: filename.map(|n| n.to_string()),
        chunks: chunks.iter().map(|c| c.to_vec()).collect(),
    }
}

#[test]
fn a_body_is_put_together_from_its_parts() {
    let parts = vec![
        part(Some("note"), None, &[b"zz"]),
        part(Some("image"), Some("my/cat.png"), &[&[1, 2], &[], &[3]]),
        part(Some("data"), Some("ignored"), &[b"{\"tags\"", b":[]}"]),
    ];
    assert_eq!(
        process_multipart_image(&parts, 1),
        Ok(UploadBody {
            image_data: vec![1, 2, 3],
            filename: "mycat.png".to_string(),
            data: b"{\"tags\":[]}".to_vec(),
            bytes_read: 16,
        })
    );
    assert_eq!(process_multipart_image(&Vec::new(), 1), Ok(UploadBody::new()));
}

#[test]
fn a_later_image_part_replaces_the_file_name_and_adds_its_bytes() {
    let parts = vec![
        part(Some("image"), Some("a.png"), &[&[1]]),
        part(Some("image"), Some("b.png"), &[&[2]]),
    ];
    let body = process_multipart_image(&parts, 1).unwrap();
    assert_eq!(body.image_data, vec![1, 2]);
    assert_eq!(body.filename, "b.png");
}

#[test]
fn a_body_is_refused_at_its_first_fault() {
    let big = vec![0u8; 1024];
    assert_eq!(
        process_multipart_image(&vec![part(None, Some("a.png"), &[&[1]])], 1),
        Err(APIError::BadRequestData)
    );
    assert_eq!(
        process_multipart_image(&vec![part(Some("image"), None, &[&[1]])], 1),
        Err(APIError::BadRequestData)
    );
    assert_eq!(
        process_multipart_image(&vec![part(Some("image"), None, &[&big])], 1),
        Err(APIError::PayloadSize)
    );
    assert_eq!(
        process_multipart_image(
            &vec![part(Some("other"), None, &[&big[..1000]]), part(None, None, &[])],
            1
        ),
        Err(APIError::BadRequestData)
    );
    assert_eq!(
        process_multipart_image(
            &vec![part(Some("other"), None, &[&big[..1000], &big[..24]]), part(None, None, &[])],
            1
        ),
        Err(APIError::PayloadSize)
    );
    assert_eq!(
        process_multipart_image(&vec![part(Some("data"), None, &[&big[..1023]])], 1)
            .map(|body| body.bytes_read),
        Ok(1023)
    );
    let mut body = UploadBody::new();
    assert_eq!(body.take_part(&part(Some("data"), None, &[b"ab", b"cd"]), 1), Ok(()));
    assert_eq!(body.data, b"abcd".to_vec());
}

#[test]
fn a_payload_ceiling_that_is_no_number_is_passed_over() {
    let with = |text: &str| {
        Settings::parse(
            Overrides {
                server_host: None,
                database_host: None,
                database_user: None,
                database_pass: None,
                database_name: None,
                redis_uri: None,
                storage_root: None,
                max_payload: Some(text.to_string()),
            },
            Action::RunServer,
        )
        .max_payload
    };
    assert_eq!(with("0"), 0);
    assert_eq!(with("+7"), 7);
    assert_eq!(with("007"), 7);
    assert_eq!(with(""), 65536);
    assert_eq!(with("12k"), 65536);
    assert_eq!(with("-1"), 65536);
    assert_eq!(with(" 1"), 65536);
    assert_eq!(with("99999999999999999999999999"), 65536);
}

#[test]
fn a_part_that_is_no_image_keeps_the_file_name() {
    let mut body = UploadBody::new();
    assert_eq!(body.take_part(&part(Some("image"), Some("cat.png"), &[&[1]]), 1), Ok(()));
    assert_eq!(body.take_part(&part(Some("data"), Some("x.json"), &[b"{}"]), 1), Ok(()));
    assert_eq!(body.take_part(&part(Some("more"), Some("y.bin"), &[b"12"]), 1), Ok(()));
    assert_eq!(body.filename, "cat.png");
    let unnamed = process_multipart_image(
        &vec![part(Some("data"), Some("x.json"), &[b"{}"]), part(Some("z"), Some("q"), &[])],
        1,
    )
    .unwrap();
    assert_eq!(unnamed.filename, "");
}
