use watame::auth::{AuthDb, AuthInfo, Authenticated, Session};
use watame::database::enums::Perms;
use watame::error::APIError;
use watame::pages::user::delete_logout;

fn ann() -> AuthInfo {
    AuthInfo { uid: 1, perms: Perms::User }
}

fn bob() -> AuthInfo {
    AuthInfo { uid: 2, perms: Perms::Admin }
}

#[test]
fn a_session_is_kept_once_under_its_key() {
    let mut store = AuthDb::new();
    assert!(store.remember("user:t1", &ann()));
    assert!(!store.remember("user:t1", &bob()));
    assert!(store.remember("user:t2", &bob()));
    assert_eq!(
        store.sessions,
        vec![
            Session { key: "user:t1".to_string(), info: ann() },
            Session { key: "user:t2".to_string(), info: bob() },
        ]
    );
}

#[test]
fn a_token_stands_for_the_session_under_its_key() {
    let mut store = AuthDb::new();
    store.remember("user:t1", &ann());
    store.remember("t2", &bob());
    assert_eq!(store.verify(Some("t1")), Ok(Some(ann())));
    assert_eq!(store.verify(Some("t2")), Ok(None));
    assert_eq!(store.verify(Some("user:t1")), Ok(None));
    assert_eq!(store.verify(None), Ok(None));
    assert_eq!(store.verify(Some("")), Err(APIError::BadRequestData));
    assert_eq!(store.verify(Some(&"x".repeat(513))), Err(APIError::BadRequestData));
}

#[test]
fn forget_ends_one_session() {
    let mut store = AuthDb::new();
    store.remember("user:t1", &ann());
    store.remember("user:t2", &bob());
    assert_eq!(store.forget(Some("t1")), Ok(()));
    assert_eq!(store.verify(Some("t1")), Ok(None));
    assert_eq!(store.verify(Some("t2")), Ok(Some(bob())));
    assert_eq!(store.forget(Some("t1")), Ok(()));
    assert_eq!(store.forget(None), Ok(()));
    assert_eq!(store.forget(Some("")), Err(APIError::BadRequestData));
    assert_eq!(store.sessions.len(), 1);
}

#[test]
fn logout_ends_the_session_of_the_request() {
    let mut store = AuthDb::new();
    store.remember("user:t1", &ann());
    let auth = Authenticated(ann());
    assert_eq!(
        delete_logout(&mut store, Some("t1"), &auth),
        Ok("{\"success\":\"user logged out\"}")
    );
    assert_eq!(store, AuthDb::new());
    assert_eq!(delete_logout(&mut store, Some(""), &auth), Err(APIError::BadRequestData));
    assert_eq!(auth.forget(&mut store, Some("t9")), Ok(()));
}

#[test]
fn check_tells_a_sound_session_store_from_a_broken_one() {
    let mut store = AuthDb::new();
    assert!(store.check());
    store.remember("user:a", &ann());
    store.remember("user:b", &bob());
    assert!(store.check());
    store.sessions.push(Session { key: "user:a".to_string(), info: bob() });
    assert!(!store.check());
}

#[test]
fn logout_leaves_the_other_sessions() {
    let mut store = AuthDb::new();
    store.remember("user:a", &ann());
    store.remember("user:b", &bob());
    store.remember("user:c", &ann());
    let auth = Authenticated(bob());
    assert!(delete_logout(&mut store, Some("b"), &auth).is_ok());
    assert_eq!(
        store.sessions,
        vec![
            Session { key: "user:a".to_string(), info: ann() },
            Session { key: "user:c".to_string(), info: ann() },
        ]
    );
    let before = store.sessions.len();
    assert_eq!(auth.forget(&mut store, None), Ok(()));
    assert_eq!(auth.forget(&mut store, Some("zz")), Ok(()));
    assert_eq!(store.sessions.len(), before);
}
