use crate::database::enums::Perms;
use crate::database::model::{user_known, user_named, user_with_id, UserData};
use crate::database::post::{copy_optional, optional_text};
use crate::database::{Database, DatabaseError};
use vstd::prelude::*;

verus! {

/// The statement behind `User::select_id`, with the identifier as `$1`.
pub const SELECT_ID: &'static str = "SELECT * FROM users WHERE id=$1";

/// The statement behind `User::select_name`, with the name as `$1`.
pub const SELECT_NAME: &'static str = "SELECT * FROM users WHERE name=$1";

/// The statement behind `User::check_existence`, with the name as `$1` and
/// the address as `$2`.
pub const CHECK_EXISTENCE: &'static str = "SELECT id FROM users WHERE name=$1 OR email=$2";

/// The statement behind `NewUser::insert_into`.
pub const INSERT_USER: &'static str =
    "INSERT INTO users (name, email, pass, picture) VALUES($1, $2, $3, $4) RETURNING *";

/// The picture of a user who gives none.
pub const DEFAULT_PICTURE: &'static str = "/s/pfp/default.png";

/// A row of the user table.
#[derive(Debug, PartialEq, Eq)]
pub struct User {
    pub id: i32,
    pub name: String,
    pub email: Option<String>,
    pub pass: String,
    pub picture: String,
    pub perms: Perms,
}

impl View for User {
    type V = UserData;

    open spec fn view(&self) -> UserData {
        UserData {
            id: self.id as int,
            name: self.name@,
            email: optional_text(self.email),
            pass: self.pass@,
            picture: self.picture@,
            perms: self.perms,
        }
    }
}

/// The view of an optional string slice.
pub open spec fn optional_slice(s: Option<&str>) -> Option<Seq<char>> {
    match s {
        Some(t) => Some(t@),
        None => None,
    }
}

impl User {
    /// A copy of the row.
    pub fn duplicate(&self) -> (r: User)
        ensures
            r@ == self@,
    {
        User {
            id: self.id,
            name: self.name.clone(),
            email: copy_optional(&self.email),
            pass: self.pass.clone(),
            picture: self.picture.clone(),
            perms: self.perms,
        }
    }

    /// The user with the identifier `uid`.
    pub fn select_id(db: &Database, uid: i32) -> (r: Option<User>)
        ensures
            match r {
                Some(user) => user_with_id(db@.users, uid as int) == Some(user@),
                None => user_with_id(db@.users, uid as int) is None,
            },
    {
        let mut k: usize = 0;
        assert(db@.users.skip(0) =~= db@.users);
        while k < db.users.len()
            invariant
                k <= db.users@.len(),
                user_with_id(db@.users, uid as int) == user_with_id(
                    db@.users.skip(k as int),
                    uid as int,
                ),
            decreases db.users@.len() - k,
        {
            assert(db@.users.skip(k as int).drop_first() =~= db@.users.skip(k + 1));
            assert(db@.users.skip(k as int)[0] == db.users@[k as int]@);
            if db.users[k].id == uid {
                return Some(db.users[k].duplicate());
            }
            k = k + 1;
        }
        None
    }

    /// The first user with the name `name`.
    pub fn select_name(db: &Database, name: &str) -> (r: Option<User>)
        ensures
            match r {
                Some(user) => user_named(db@.users, name@) == Some(user@),
                None => user_named(db@.users, name@) is None,
            },
    {
        let wanted: String = name.to_owned();
        let mut k: usize = 0;
        assert(db@.users.skip(0) =~= db@.users);
        while k < db.users.len()
            invariant
                k <= db.users@.len(),
                wanted@ == name@,
                user_named(db@.users, name@) == user_named(db@.users.skip(k as int), name@),
            decreases db.users@.len() - k,
        {
            assert(db@.users.skip(k as int).drop_first() =~= db@.users.skip(k + 1));
            assert(db@.users.skip(k as int)[0] == db.users@[k as int]@);
            if db.users[k].name == wanted {
                return Some(db.users[k].duplicate());
            }
            k = k + 1;
        }
        None
    }

    /// Whether some user has the name `name`, or the address `email` where
    /// one is given.
    pub fn check_existence(db: &Database, name: &str, email: Option<&str>) -> (known: bool)
        ensures
            known == user_known(db@.users, name@, optional_slice(email)),
    {
        let wanted: String = name.to_owned();
        let address: Option<String> = match email {
            Some(e) => Some(e.to_owned()),
            None => None,
        };
        let ghost mail: Option<Seq<char>> = optional_slice(email);
        let mut k: usize = 0;
        while k < db.users.len()
            invariant
                k <= db.users@.len(),
                wanted@ == name@,
                mail == optional_slice(email),
                optional_text(address) == mail,
                forall|j: int|
                    0 <= j < k ==> !((#[trigger] db@.users[j]).name == name@ || (mail is Some
                        && db@.users[j].email == mail)),
            decreases db.users@.len() - k,
        {
            let same_name: bool = db.users[k].name == wanted;
            let same_mail: bool = match (&address, &db.users[k].email) {
                (Some(a), Some(b)) => *a == *b,
                _ => false,
            };
            if same_name || same_mail {
                assert(db@.users[k as int].name == name@ || (mail is Some && db@.users[k as int].email
                    == mail));
                return true;
            }
            k = k + 1;
        }
        false
    }
}

/// A user about to register.
#[derive(Debug, PartialEq, Eq)]
pub struct NewUser<'a> {
    pub name: &'a str,
    pub email: Option<&'a str>,
    pub pass: &'a str,
    pub picture: Option<&'a str>,
}

impl<'a> NewUser<'a> {
    /// The row that this user gets with the identifier `id`: an ordinary
    /// user, with the default picture where none is given.
    pub open spec fn row(&self, id: int) -> UserData {
        UserData {
            id: id,
            name: self.name@,
            email: optional_slice(self.email),
            pass: self.pass@,
            picture: match self.picture {
                Some(p) => p@,
                None => DEFAULT_PICTURE@,
            },
            perms: Perms::User,
        }
    }

    /// Stores the user as a new row and gives the row back. Refused with
    /// `OutOfRange` when the identifiers have run out.
    pub fn insert_into(&self, db: &mut Database) -> (r: Result<User, DatabaseError>)
        requires
            old(db).wf(),
        ensures
            final(db).wf(),
            match r {
                Ok(user) => {
                    &&& old(db)@.last_user < i32::MAX
                    &&& user@ == self.row(old(db)@.last_user + 1)
                    &&& final(db)@ == crate::database::model::DatabaseData {
                        users: old(db)@.users.push(user@),
                        last_user: old(db)@.last_user + 1,
                        ..old(db)@
                    }
                },
                Err(e) => {
                    &&& e == DatabaseError::OutOfRange
                    &&& old(db)@.last_user == i32::MAX
                    &&& final(db)@ == old(db)@
                },
            },
    {
        if db.last_user == i32::MAX {
            return Err(DatabaseError::OutOfRange);
        }
        let id: i32 = db.last_user + 1;
        let row = User {
            id,
            name: self.name.to_owned(),
            email: match self.email {
                Some(e) => Some(e.to_owned()),
                None => None,
            },
            pass: self.pass.to_owned(),
            picture: match self.picture {
                Some(p) => p.to_owned(),
                None => DEFAULT_PICTURE.to_owned(),
            },
            perms: Perms::User,
        };
        let user = row.duplicate();
        db.users.push(row);
        db.last_user = id;
        proof {
            let was = old(db)@;
            let is = db@;
            assert(is.users =~= was.users.push(user@));
            assert(is.posts =~= was.posts);
            assert(is.tags =~= was.tags);
            assert forall|i: int| 0 <= i < is.users.len() implies 0 < (#[trigger] is.users[i]).id
                <= is.last_user by {
                if i < was.users.len() {
                    assert(is.users[i] == was.users[i]);
                }
            }
            assert forall|i: int, j: int| 0 <= i < j < is.users.len() implies (
            #[trigger] is.users[i]).id < (#[trigger] is.users[j]).id by {
                assert(is.users[i] == was.users[i]);
                if j < was.users.len() {
                    assert(is.users[j] == was.users[j]);
                }
            }
        }
        Ok(user)
    }
}

} // verus!
