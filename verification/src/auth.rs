use crate::database::enums::Perms;
use crate::database::user::User;
use crate::error::APIError;
use vstd::prelude::*;
use vstd::utf8::encode_utf8;

verus! {

/// Who makes a request: the user and the permission level.
#[derive(Debug, Clone, Copy, PartialEq, Eq, Structural)]
pub struct AuthInfo {
    pub uid: i32,
    pub perms: Perms,
}

impl From<User> for AuthInfo {
    fn from(user: User) -> (info: AuthInfo) {
        AuthInfo { uid: user.id, perms: user.perms }
    }
}

impl vstd::std_specs::convert::FromSpecImpl<User> for AuthInfo {
    open spec fn obeys_from_spec() -> bool {
        true
    }

    open spec fn from_spec(user: User) -> AuthInfo {
        AuthInfo { uid: user.id, perms: user.perms }
    }
}

/// The longest session token taken, in bytes.
pub const MAX_TOKEN: usize = 512;

/// The key under which the session store keeps the session of `token`.
pub open spec fn session_key_of(token: Seq<char>) -> Seq<char> {
    "user:"@ + token
}

/// The key of the session that the `Authorization` header names. `None`
/// without a header; `BadRequestData` for a token that is empty or longer
/// than `MAX_TOKEN` bytes in UTF-8.
pub fn session_key(header: Option<&str>) -> (r: Result<Option<String>, APIError>)
    ensures
        match header {
            None => r is Ok && r->Ok_0 is None,
            Some(token) => if token@.len() == 0 || encode_utf8(token@).len() > MAX_TOKEN {
                r is Err && r->Err_0 == APIError::BadRequestData
            } else {
                r is Ok && r->Ok_0 is Some && r->Ok_0->0@ == session_key_of(token@)
            },
        },
{
    match header {
        None => Ok(None),
        Some(token) => {
            if token.is_empty() || token.as_bytes().len() > MAX_TOKEN {
                return Err(APIError::BadRequestData);
            }
            let mut key = String::from_str("user:");
            key.append(token);
            Ok(Some(key))
        },
    }
}

/// The token of a session key: what follows `user:`.
pub fn session_token(key: &str) -> (r: Option<&str>)
    ensures
        match r {
            Some(token) => key@ == session_key_of(token@),
            None => key@.len() < 5 || key@.subrange(0, 5) != "user:"@,
        },
{
    let length: usize = key.unicode_len();
    if length < 5 {
        return None;
    }
    proof {
        reveal_strlit("user:");
    }
    if key.get_char(0) == 'u' && key.get_char(1) == 's' && key.get_char(2) == 'e' && key.get_char(3)
        == 'r' && key.get_char(4) == ':' {
        let token = key.substring_char(5, length);
        assert(key@ =~= "user:"@ + token@);
        Some(token)
    } else {
        assert(key@.subrange(0, 5) != "user:"@) by {
            if key@.subrange(0, 5) == "user:"@ {
                assert(key@.subrange(0, 5)[0] == 'u');
                assert(key@.subrange(0, 5)[1] == 's');
                assert(key@.subrange(0, 5)[2] == 'e');
                assert(key@.subrange(0, 5)[3] == 'r');
                assert(key@.subrange(0, 5)[4] == ':');
            }
        }
        None
    }
}

/// A session: the key it is kept under, and who it belongs to.
#[derive(Debug, PartialEq, Eq)]
pub struct Session {
    pub key: String,
    pub info: AuthInfo,
}

/// A session as mathematical values.
pub ghost struct SessionData {
    pub key: Seq<char>,
    pub info: AuthInfo,
}

impl View for Session {
    type V = SessionData;

    open spec fn view(&self) -> SessionData {
        SessionData { key: self.key@, info: self.info }
    }
}

/// The views of a sequence of sessions, in order.
pub open spec fn session_rows(sessions: Seq<Session>) -> Seq<SessionData> {
    Seq::new(sessions.len(), |k: int| sessions[k]@)
}

/// Whether a session is kept under `key`.
pub open spec fn has_key(sessions: Seq<SessionData>, key: Seq<char>) -> bool {
    exists|k: int| 0 <= k < sessions.len() && (#[trigger] sessions[k]).key == key
}

/// The place of the session kept under `key`, where there is one.
pub open spec fn key_place(sessions: Seq<SessionData>, key: Seq<char>) -> int {
    choose|k: int| 0 <= k < sessions.len() && (#[trigger] sessions[k]).key == key
}

/// No two sessions are kept under one key.
pub open spec fn keys_distinct(sessions: Seq<SessionData>) -> bool {
    forall|i: int, j: int|
        0 <= i < j < sessions.len() ==> (#[trigger] sessions[i]).key != (#[trigger] sessions[j]).key
}

/// The session kept under `key`.
pub open spec fn session_of(sessions: Seq<SessionData>, key: Seq<char>) -> Option<AuthInfo> {
    if has_key(sessions, key) {
        Some(sessions[key_place(sessions, key)].info)
    } else {
        None
    }
}

/// The sessions that are left when the session that an `Authorization`
/// header stands for is ended: all of them without a header, all but the
/// one under the key of the token with one, and `None` for a token that
/// is empty or longer than `MAX_TOKEN` bytes in UTF-8.
pub open spec fn forgotten(sessions: Seq<SessionData>, header: Option<&str>) -> Option<
    Seq<SessionData>,
> {
    match header {
        None => Some(sessions),
        Some(token) => if token@.len() == 0 || encode_utf8(token@).len() > MAX_TOKEN {
            None
        } else if has_key(sessions, session_key_of(token@)) {
            Some(sessions.remove(key_place(sessions, session_key_of(token@))))
        } else {
            Some(sessions)
        },
    }
}

/// With distinct keys a session is found by its key alone.
proof fn lemma_key_place(sessions: Seq<SessionData>, key: Seq<char>, k: int)
    requires
        keys_distinct(sessions),
        0 <= k < sessions.len(),
        sessions[k].key == key,
    ensures
        has_key(sessions, key),
        key_place(sessions, key) == k,
{
    let c = key_place(sessions, key);
    if c < k {
        assert(sessions[c].key != sessions[k].key);
    } else if k < c {
        assert(sessions[k].key != sessions[c].key);
    }
}

/// The session store held in memory: the sessions, each under its key.
#[derive(Debug, PartialEq, Eq)]
pub struct AuthDb {
    pub sessions: Vec<Session>,
}

impl View for AuthDb {
    type V = Seq<SessionData>;

    open spec fn view(&self) -> Seq<SessionData> {
        session_rows(self.sessions@)
    }
}

impl AuthDb {
    /// Whether no two sessions are kept under one key.
    pub open spec fn wf(&self) -> bool {
        keys_distinct(self@)
    }

    /// A store without sessions.
    pub fn new() -> (store: AuthDb)
        ensures
            store@ == Seq::<SessionData>::empty(),
            store.wf(),
    {
        let store = AuthDb { sessions: Vec::new() };
        assert(store@ =~= Seq::<SessionData>::empty());
        store
    }

    /// Whether no two sessions are kept under one key. A store that was
    /// put together by hand is checked with this before it is used.
    pub fn check(&self) -> (ok: bool)
        ensures
            ok == self.wf(),
    {
        let mut k: usize = 0;
        while k < self.sessions.len()
            invariant
                k <= self.sessions@.len(),
                forall|i: int, j: int|
                    0 <= i < j < k ==> (#[trigger] self@[i]).key != (#[trigger] self@[j]).key,
            decreases self.sessions@.len() - k,
        {
            let mut c: usize = 0;
            while c < k
                invariant
                    c <= k < self.sessions@.len(),
                    forall|i: int| 0 <= i < c ==> (#[trigger] self@[i]).key != self@[k as int].key,
                decreases k - c,
            {
                if self.sessions[c].key == self.sessions[k].key {
                    assert(self@[c as int].key == self@[k as int].key);
                    return false;
                }
                c = c + 1;
            }
            k = k + 1;
        }
        true
    }

    /// The place of the session kept under `key`, if there is one.
    fn find(&self, key: &String) -> (r: Option<usize>)
        requires
            self.wf(),
        ensures
            match r {
                Some(k) => k < self@.len() && has_key(self@, key@) && key_place(self@, key@) == k,
                None => !has_key(self@, key@),
            },
    {
        let mut k: usize = 0;
        while k < self.sessions.len()
            invariant
                self.wf(),
                k <= self.sessions@.len(),
                forall|j: int| 0 <= j < k ==> (#[trigger] self@[j]).key != key@,
            decreases self.sessions@.len() - k,
        {
            if self.sessions[k].key == *key {
                proof {
                    lemma_key_place(self@, key@, k as int);
                }
                return Some(k);
            }
            k = k + 1;
        }
        None
    }

    /// Keeps the session of `user` under `key`, unless a session is kept
    /// under that key already. Says whether the session was kept.
    pub fn remember(&mut self, key: &str, user: &AuthInfo) -> (kept: bool)
        requires
            old(self).wf(),
        ensures
            final(self).wf(),
            kept == !has_key(old(self)@, key@),
            final(self)@ == if kept {
                old(self)@.push(SessionData { key: key@, info: *user })
            } else {
                old(self)@
            },
    {
        let owned: String = key.to_owned();
        match self.find(&owned) {
            Some(_) => false,
            None => {
                self.sessions.push(Session { key: owned, info: *user });
                proof {
                    let was = old(self)@;
                    let is = self@;
                    assert(is =~= was.push(SessionData { key: key@, info: *user }));
                    assert forall|i: int, j: int| 0 <= i < j < is.len() implies (#[trigger] is[i]).key
                        != (#[trigger] is[j]).key by {
                        assert(is[i] == was[i]);
                        if j < was.len() {
                            assert(is[j] == was[j]);
                        }
                    }
                }
                true
            },
        }
    }

    /// Who the `Authorization` header of a request stands for: the session
    /// kept under the key of its token. `None` without a header or without
    /// such a session; `BadRequestData` for a token that `session_key`
    /// refuses.
    pub fn verify(&self, header: Option<&str>) -> (r: Result<Option<AuthInfo>, APIError>)
        requires
            self.wf(),
        ensures
            match header {
                None => r is Ok && r->Ok_0 is None,
                Some(token) => if token@.len() == 0 || encode_utf8(token@).len() > MAX_TOKEN {
                    r is Err && r->Err_0 == APIError::BadRequestData
                } else {
                    r is Ok && r->Ok_0 == session_of(self@, session_key_of(token@))
                },
            },
    {
        let key: String = match session_key(header) {
            Ok(Some(key)) => key,
            Ok(None) => {
                return Ok(None);
            },
            Err(e) => {
                return Err(e);
            },
        };
        match self.find(&key) {
            Some(k) => Ok(Some(self.sessions[k].info)),
            None => Ok(None),
        }
    }

    /// Ends the session that the `Authorization` header of a request
    /// stands for, if there is one. `BadRequestData` for a token that
    /// `session_key` refuses.
    pub fn forget(&mut self, header: Option<&str>) -> (r: Result<(), APIError>)
        requires
            old(self).wf(),
        ensures
            final(self).wf(),
            r is Ok <==> forgotten(old(self)@, header) is Some,
            r is Err ==> r->Err_0 == APIError::BadRequestData,
            final(self)@ == match forgotten(old(self)@, header) {
                Some(left) => left,
                None => old(self)@,
            },
            match header {
                Some(token) => r is Ok ==> !has_key(final(self)@, session_key_of(token@)),
                None => true,
            },
    {
        let key: String = match session_key(header) {
            Ok(Some(key)) => key,
            Ok(None) => {
                return Ok(());
            },
            Err(e) => {
                return Err(e);
            },
        };
        match self.find(&key) {
            Some(k) => {
                self.sessions.remove(k);
                proof {
                    let was = old(self)@;
                    let is = self@;
                    assert(is =~= was.remove(k as int));
                    assert forall|i: int, j: int| 0 <= i < j < is.len() implies (#[trigger] is[i]).key
                        != (#[trigger] is[j]).key by {
                        let a = if i < k {
                            i
                        } else {
                            i + 1
                        };
                        let b = if j < k {
                            j
                        } else {
                            j + 1
                        };
                        assert(is[i] == was[a]);
                        assert(is[j] == was[b]);
                    }
                    if has_key(is, key@) {
                        let c = key_place(is, key@);
                        let at = if c < k {
                            c
                        } else {
                            c + 1
                        };
                        assert(is[c] == was[at]);
                        lemma_key_place(was, key@, at);
                    }
                }
                Ok(())
            },
            None => Ok(()),
        }
    }
}

/// A request that comes from a user who is logged in.
#[derive(Debug, Clone, Copy)]
pub struct Authenticated(pub AuthInfo);

impl Authenticated {
    /// Ends the session of the request: the one that its `Authorization`
    /// header stands for, and no other. `BadRequestData` for a token that
    /// `session_key` refuses.
    pub fn forget(&self, db: &mut AuthDb, header: Option<&str>) -> (r: Result<(), APIError>)
        requires
            old(db).wf(),
        ensures
            final(db).wf(),
            r is Ok <==> forgotten(old(db)@, header) is Some,
            r is Err ==> r->Err_0 == APIError::BadRequestData,
            final(db)@ == match forgotten(old(db)@, header) {
                Some(left) => left,
                None => old(db)@,
            },
    {
        db.forget(header)
    }
}

/// A request that may or may not come from a user who is logged in.
#[derive(Debug, Clone, Copy)]
pub struct MaybeAuthenticated(pub Option<AuthInfo>);

impl MaybeAuthenticated {
    pub fn is_authenticated(&self) -> (b: bool)
        ensures
            b == self.0 is Some,
    {
        self.0.is_some()
    }

    /// Who makes the request, where a user is logged in.
    pub fn into_authinfo(self) -> (info: AuthInfo)
        requires
            self.0 is Some,
        ensures
            self.0 == Some(info),
    {
        match self.0 {
            Some(info) => info,
            None => AuthInfo { uid: 0, perms: Perms::Guest },
        }
    }
}

} // verus!
