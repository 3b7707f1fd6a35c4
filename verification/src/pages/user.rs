use crate::auth::{
    forgotten, has_key, session_key_of, AuthDb, AuthInfo, Authenticated, MaybeAuthenticated,
    SessionData,
};
use crate::database::enums::Perms;
use crate::database::model::{user_known, user_named, user_with_id, DatabaseData, UserData};
use crate::database::post::optional_text;
use crate::database::user::{NewUser, User, DEFAULT_PICTURE};
use crate::database::Database;
use crate::error::APIError;
use vstd::prelude::*;
use vstd::utf8::encode_utf8;

verus! {

/// The reply after a user logged out.
pub const USER_LOGGED_OUT: &'static str = "{\"success\":\"user logged out\"}";

/// The reply to a user who is logged in.
pub const LOGGED_IN: &'static str = "{\"status\": \"logged in\"}";

/// The reply to a user who is not logged in.
pub const LOGGED_OUT: &'static str = "{\"status\": \"logged out\"}";

/// The shortest password taken, in bytes.
pub const MIN_PASSWORD: usize = 8;

/// A user name must be longer than this, in bytes.
pub const MIN_NAME: usize = 3;

/// What a client is told of a user: the row without the password.
#[derive(Debug, PartialEq, Eq)]
pub struct UserAPI {
    pub id: i32,
    pub username: String,
    pub email: Option<String>,
    pub picture: String,
    pub perms: Perms,
}

impl UserAPI {
    /// Whether this is what a client is told of the user `user`.
    pub open spec fn tells(self, user: UserData) -> bool {
        &&& self.id == user.id
        &&& self.username@ == user.name
        &&& optional_text(self.email) == user.email
        &&& self.picture@ == user.picture
        &&& self.perms == user.perms
    }
}

impl From<User> for UserAPI {
    fn from(u: User) -> (api: UserAPI) {
        UserAPI { id: u.id, username: u.name, email: u.email, picture: u.picture, perms: u.perms }
    }
}

impl vstd::std_specs::convert::FromSpecImpl<User> for UserAPI {
    open spec fn obeys_from_spec() -> bool {
        true
    }

    open spec fn from_spec(u: User) -> UserAPI {
        UserAPI { id: u.id, username: u.name, email: u.email, picture: u.picture, perms: u.perms }
    }
}

/// What a client sends to register.
#[derive(Debug, PartialEq, Eq)]
pub struct RegisterUserQuery {
    pub user: String,
    pub pass: String,
    pub email: String,
}

/// What a client sends to log in.
#[derive(Debug, PartialEq, Eq)]
pub struct LoginUserQuery {
    pub user: String,
    pub pass: String,
}

impl RegisterUserQuery {
    /// Whether the name is longer than `MIN_NAME` bytes and the password
    /// no shorter than `MIN_PASSWORD` bytes.
    pub open spec fn long_enough(self) -> bool {
        encode_utf8(self.user@).len() > MIN_NAME && encode_utf8(self.pass@).len() >= MIN_PASSWORD
    }

    /// Checks the lengths of the name and the password: `BadRequestData`
    /// where one of them is too short.
    pub fn check_lengths(&self) -> (r: Result<(), APIError>)
        ensures
            match r {
                Ok(_) => self.long_enough(),
                Err(e) => e == APIError::BadRequestData && !self.long_enough(),
            },
    {
        if self.user.as_str().as_bytes().len() <= MIN_NAME || self.pass.as_str().as_bytes().len()
            < MIN_PASSWORD {
            Err(APIError::BadRequestData)
        } else {
            Ok(())
        }
    }
}

/// Whether a registration is refused, and why: a name of three bytes or
/// fewer or a password of fewer than eight is bad request data; a name or
/// an address that some user has is taken.
pub open spec fn register_refusal(db: DatabaseData, query: RegisterUserQuery) -> Option<APIError> {
    if !query.long_enough() {
        Some(APIError::BadRequestData)
    } else if user_known(db.users, query.user@, Some(query.email@)) {
        Some(APIError::UserExists)
    } else {
        None
    }
}

/// Checks a registration before the password is hashed.
pub fn check_register(query: &RegisterUserQuery, db: &Database) -> (r: Result<(), APIError>)
    ensures
        match r {
            Ok(_) => register_refusal(db@, *query) is None,
            Err(e) => register_refusal(db@, *query) == Some(e),
        },
{
    match query.check_lengths() {
        Ok(_) => {},
        Err(e) => {
            return Err(e);
        },
    }
    if User::check_existence(db, query.user.as_str(), Some(query.email.as_str())) {
        return Err(APIError::UserExists);
    }
    Ok(())
}

/// The user that a registration with the password hash `hash` adds.
pub open spec fn registered(db: DatabaseData, query: RegisterUserQuery, hash: Seq<char>) -> UserData {
    UserData {
        id: db.last_user + 1,
        name: query.user@,
        email: Some(query.email@),
        pass: hash,
        picture: DEFAULT_PICTURE@,
        perms: Perms::User,
    }
}

/// Registers a user with the password hash `hash`, and says what a client
/// is told of the new user. Refused as `check_register` refuses, and with
/// `InternalError` where the store refuses; the store is then unchanged.
pub fn register_with_hash(query: &RegisterUserQuery, db: &mut Database, hash: &str) -> (r: Result<
    UserAPI,
    APIError,
>)
    requires
        old(db).wf(),
    ensures
        final(db).wf(),
        match r {
            Ok(api) => {
                let row = registered(old(db)@, *query, hash@);
                &&& register_refusal(old(db)@, *query) is None
                &&& api.tells(row)
                &&& final(db)@ == (DatabaseData {
                    users: old(db)@.users.push(row),
                    last_user: old(db)@.last_user + 1,
                    ..old(db)@
                })
            },
            Err(e) => {
                &&& final(db)@ == old(db)@
                &&& match register_refusal(old(db)@, *query) {
                    Some(why) => e == why,
                    None => e == APIError::InternalError && old(db)@.last_user == i32::MAX,
                }
            },
        },
{
    match check_register(query, db) {
        Ok(_) => {},
        Err(e) => {
            return Err(e);
        },
    }
    let new_user = NewUser {
        name: query.user.as_str(),
        email: Some(query.email.as_str()),
        pass: hash,
        picture: None,
    };
    match new_user.insert_into(db) {
        Ok(user) => Ok(UserAPI::from(user)),
        Err(_) => Err(APIError::InternalError),
    }
}

/// The encoded hash of a password with a salt, where the two can be
/// hashed: what `argon2::hash_encoded` gives with its default settings.
pub uninterp spec fn argon2_hash(password: Seq<u8>, salt: Seq<u8>) -> Option<Seq<char>>;

/// `argon2::hash_encoded` with the default configuration hashes a password
/// with a salt, and refuses what it cannot hash. The hash depends on the
/// password and the salt alone.
#[verifier::external_body]
fn hash_encoded(password: &[u8], salt: &[u8]) -> (r: Option<String>)
    ensures
        match r {
            Some(hash) => argon2_hash(password@, salt@) == Some(hash@),
            None => argon2_hash(password@, salt@) is None,
        },
{
    match argon2::hash_encoded(password, salt, &argon2::Config::default()) {
        Ok(hash) => Some(hash),
        Err(_) => None,
    }
}

/// Whether a password is the one that an encoded hash was made of, where
/// the hash can be read: what `argon2::verify_encoded` gives.
pub uninterp spec fn argon2_matches(encoded: Seq<char>, password: Seq<u8>) -> Option<bool>;

/// `argon2::verify_encoded` says whether a password is the one that an
/// encoded hash was made of, and refuses a hash that it cannot read. The
/// answer depends on the hash and the password alone.
#[verifier::external_body]
fn verify_encoded(encoded: &str, password: &[u8]) -> (r: Option<bool>)
    ensures
        r == argon2_matches(encoded@, password@),
{
    match argon2::verify_encoded(encoded, password) {
        Ok(matches) => Some(matches),
        Err(_) => None,
    }
}

/// The text that stands for bytes in base 64, with the standard alphabet
/// and padding: what `base64::encode_config_buf` writes.
pub uninterp spec fn base64_standard(bytes: Seq<u8>) -> Seq<char>;

/// `base64::encode_config_buf` with `base64::STANDARD` appends to `buf`
/// the text that stands for `bytes` in base 64.
#[verifier::external_body]
fn encode_standard(bytes: &[u8], buf: &mut String)
    ensures
        final(buf)@ == old(buf)@ + base64_standard(bytes@),
{
    base64::encode_config_buf(bytes, base64::STANDARD, buf)
}

/// The hash to keep for a password, made with the salt `salt`.
/// `InternalError` where the two cannot be hashed.
pub fn password_hash(password: &str, salt: &[u8]) -> (r: Result<String, APIError>)
    ensures
        match r {
            Ok(hash) => argon2_hash(encode_utf8(password@), salt@) == Some(hash@),
            Err(e) => e == APIError::InternalError && argon2_hash(encode_utf8(password@), salt@)
                is None,
        },
{
    match hash_encoded(password.as_bytes(), salt) {
        Some(hash) => Ok(hash),
        None => Err(APIError::InternalError),
    }
}

/// Whether `password` is the password of `user`. `InternalError` where
/// the hash kept for the user cannot be read.
pub fn password_matches(user: &User, password: &str) -> (r: Result<bool, APIError>)
    ensures
        match r {
            Ok(matches) => argon2_matches(user.pass@, encode_utf8(password@)) == Some(matches),
            Err(e) => e == APIError::InternalError && argon2_matches(
                user.pass@,
                encode_utf8(password@),
            ) is None,
        },
{
    match verify_encoded(user.pass.as_str(), password.as_bytes()) {
        Some(matches) => Ok(matches),
        None => Err(APIError::InternalError),
    }
}

/// The key of a new session: the namespace of sessions, and the random
/// bytes `token` in base 64 as the token of the session.
pub fn login_key(token: &[u8]) -> (key: String)
    ensures
        key@ == session_key_of(base64_standard(token@)),
{
    let mut key = String::from_str("user:");
    encode_standard(token, &mut key);
    key
}

/// Registers a user, whose password is kept hashed with the salt `salt`,
/// and says what a client is told of the new user. Refused as
/// `check_register` refuses, before anything is hashed, and with
/// `InternalError` where the password cannot be hashed or the store
/// refuses; the store is then unchanged.
pub fn post_register(query: &RegisterUserQuery, db: &mut Database, salt: &[u8]) -> (r: Result<
    UserAPI,
    APIError,
>)
    requires
        old(db).wf(),
    ensures
        final(db).wf(),
        match r {
            Ok(api) => {
                let hash = argon2_hash(encode_utf8(query.pass@), salt@);
                &&& register_refusal(old(db)@, *query) is None
                &&& hash is Some
                &&& api.tells(registered(old(db)@, *query, hash->0))
                &&& final(db)@ == (DatabaseData {
                    users: old(db)@.users.push(registered(old(db)@, *query, hash->0)),
                    last_user: old(db)@.last_user + 1,
                    ..old(db)@
                })
            },
            Err(e) => {
                &&& final(db)@ == old(db)@
                &&& match register_refusal(old(db)@, *query) {
                    Some(why) => e == why,
                    None => e == APIError::InternalError && (argon2_hash(
                        encode_utf8(query.pass@),
                        salt@,
                    ) is None || old(db)@.last_user == i32::MAX),
                }
            },
        },
{
    match check_register(query, db) {
        Ok(_) => {},
        Err(e) => {
            return Err(e);
        },
    }
    let hash: String = match password_hash(query.pass.as_str(), salt) {
        Ok(hash) => hash,
        Err(e) => {
            return Err(e);
        },
    };
    register_with_hash(query, db, hash.as_str())
}

/// The user that a login names, with the stored password hash to check
/// the password against. `BadCredentials` where no user has the name.
pub fn login_user(db: &Database, query: &LoginUserQuery) -> (r: Result<User, APIError>)
    ensures
        match r {
            Ok(user) => user_named(db@.users, query.user@) == Some(user@),
            Err(e) => e == APIError::BadCredentials && user_named(db@.users, query.user@) is None,
        },
{
    match User::select_name(db, query.user.as_str()) {
        Some(user) => Ok(user),
        None => Err(APIError::BadCredentials),
    }
}

/// What a login comes to once the password was checked against the hash:
/// the session of the user, or `BadCredentials`.
pub fn login_session(user: User, password_matches: bool) -> (r: Result<(AuthInfo, UserAPI), APIError>)
    ensures
        match r {
            Ok((info, api)) => {
                &&& password_matches
                &&& info == AuthInfo { uid: user.id, perms: user.perms }
                &&& api.tells(user@)
            },
            Err(e) => e == APIError::BadCredentials && !password_matches,
        },
{
    if !password_matches {
        return Err(APIError::BadCredentials);
    }
    let info = AuthInfo { uid: user.id, perms: user.perms };
    Ok((info, UserAPI::from(user)))
}

/// What a client is told after a login: the token of its session, and the
/// user.
#[derive(Debug, PartialEq, Eq)]
pub struct LoggedIn {
    pub token: String,
    pub user: UserAPI,
}

/// What a login leads to, for the user that the store has under the name
/// and for what the check of the password says.
pub open spec fn login_outcome(found: Option<UserData>, matches: Option<bool>) -> Result<
    UserData,
    APIError,
> {
    match found {
        None => Err(APIError::BadCredentials),
        Some(user) => match matches {
            None => Err(APIError::InternalError),
            Some(false) => Err(APIError::BadCredentials),
            Some(true) => Ok(user),
        },
    }
}

/// Logs a user in: finds the user, checks the password against the hash
/// that is kept, and keeps a session under a key made of the random bytes
/// `token`. The token of the session goes back to the client. Refused with
/// `BadCredentials` for an unknown name or a wrong password, and with
/// `InternalError` where the hash that is kept cannot be read; no session
/// is kept then.
pub fn post_login(db: &Database, auth_db: &mut AuthDb, query: &LoginUserQuery, token: &[u8]) -> (r:
    Result<LoggedIn, APIError>)
    requires
        old(auth_db).wf(),
    ensures
        final(auth_db).wf(),
        match user_named(db@.users, query.user@) {
            None => r is Err && r->Err_0 == APIError::BadCredentials && final(auth_db)@ == old(
                auth_db,
            )@,
            Some(user) => match login_outcome(
                Some(user),
                argon2_matches(user.pass, encode_utf8(query.pass@)),
            ) {
                Err(e) => r is Err && r->Err_0 == e && final(auth_db)@ == old(auth_db)@,
                Ok(_) => {
                    let key = session_key_of(base64_standard(token@));
                    &&& r is Ok
                    &&& r->Ok_0.token@ == base64_standard(token@)
                    &&& r->Ok_0.user.tells(user)
                    &&& final(auth_db)@ == if has_key(old(auth_db)@, key) {
                        old(auth_db)@
                    } else {
                        old(auth_db)@.push(
                            SessionData {
                                key: key,
                                info: AuthInfo { uid: user.id as i32, perms: user.perms },
                            },
                        )
                    }
                },
            },
        },
{
    let user: User = match login_user(db, query) {
        Ok(user) => user,
        Err(e) => {
            return Err(e);
        },
    };
    let matches: bool = match password_matches(&user, query.pass.as_str()) {
        Ok(matches) => matches,
        Err(e) => {
            return Err(e);
        },
    };
    let (info, api) = match login_session(user, matches) {
        Ok(pair) => pair,
        Err(e) => {
            return Err(e);
        },
    };
    let key: String = login_key(token);
    auth_db.remember(key.as_str(), &info);
    let length: usize = key.as_str().unicode_len();
    proof {
        reveal_strlit("user:");
        assert(key@.subrange(5, length as int) =~= base64_standard(token@));
    }
    let text: String = key.as_str().substring_char(5, length).to_owned();
    Ok(LoggedIn { token: text, user: api })
}

/// Logs the user of a request out: ends the session that the
/// `Authorization` header of the request stands for, and no other, and
/// gives the reply. `BadRequestData` for a token that `session_key`
/// refuses.
pub fn delete_logout(db: &mut AuthDb, header: Option<&str>, auth: &Authenticated) -> (r: Result<
    &'static str,
    APIError,
>)
    requires
        old(db).wf(),
    ensures
        final(db).wf(),
        match forgotten(old(db)@, header) {
            Some(left) => r is Ok && r->Ok_0@ == USER_LOGGED_OUT@ && final(db)@ == left,
            None => r is Err && r->Err_0 == APIError::BadRequestData && final(db)@ == old(db)@,
        },
{
    match auth.forget(db, header) {
        Ok(_) => Ok(USER_LOGGED_OUT),
        Err(e) => Err(e),
    }
}

/// What a client is told of the user who asks. `BadRequestData` where the
/// store does not know the user.
pub fn get_self(db: &Database, auth: &AuthInfo) -> (r: Result<UserAPI, APIError>)
    ensures
        match r {
            Ok(api) => user_with_id(db@.users, auth.uid as int) is Some && api.tells(
                user_with_id(db@.users, auth.uid as int)->0,
            ),
            Err(e) => e == APIError::BadRequestData && user_with_id(db@.users, auth.uid as int)
                is None,
        },
{
    match User::select_id(db, auth.uid) {
        Some(user) => Ok(UserAPI::from(user)),
        None => Err(APIError::BadRequestData),
    }
}

/// The reply that says whether the request comes from a logged-in user.
pub fn get_logged_in(auth: &MaybeAuthenticated) -> (body: &'static str)
    ensures
        body@ == if auth.0 is Some {
            LOGGED_IN@
        } else {
            LOGGED_OUT@
        },
{
    if auth.is_authenticated() {
        LOGGED_IN
    } else {
        LOGGED_OUT
    }
}

} // verus!
