use crate::database::enums::{ImageExtension, Perms, PostSorting, Rating};
use crate::database::model::{
    active_rows, carries_all, distinct, has_post, lemma_place_of, marked, marked_rows, moved,
    may_delete, page_of, perms_of, place_of, placed, precedes, ranking, selects,
};
use crate::database::user::User;
use crate::database::tag::{slices, TagVector};
use crate::database::{row_refs, rows, Database, DatabaseError};
use crate::error::APIError;
use crate::text::{check_tag, decimal, joined, push_decimal, terminated, texts, valid_tag};
use vstd::prelude::*;

verus! {

/// Microseconds since the Unix epoch, in UTC.
pub type Timestamp = i64;

/// The statement behind `Post::select_post`, with the identifier as `$1`.
pub const SELECT_POST: &'static str = "SELECT * FROM posts WHERE id=$1 AND is_deleted='false'";

/// The statement behind `Post::select_is_deleted`.
pub const SELECT_IS_DELETED: &'static str = "SELECT * FROM posts WHERE is_deleted='true'";

/// The statement behind `Post::select_post_random`, where the store draws.
pub const SELECT_POST_RANDOM: &'static str =
    "SELECT * FROM posts WHERE is_deleted='false' ORDER BY RANDOM() LIMIT 1";

/// The statement behind `Post::update_path`, with the path as `$1` and the
/// identifier as `$2`.
pub const UPDATE_PATH: &'static str = "UPDATE posts SET path=$1 WHERE id=$2";

/// The statement behind `Post::update_is_deleted`, with the mark as `$1`
/// and the identifier as `$2`.
pub const UPDATE_IS_DELETED: &'static str = "UPDATE posts SET is_deleted=$1 WHERE id=$2";

/// The statement behind `Post::delete_post_checked`, with the identifier
/// as `$1`. It names the delete mark itself, so that no row without the
/// mark is ever removed, whatever else runs beside it.
pub const DELETE_POST_CHECKED: &'static str = "DELETE FROM posts WHERE id=$1 AND is_deleted = 'true'";

/// The statement behind `NewPost::insert_into`. `$9` is the text of
/// `NewPost::tag_text`, which the store turns into the tag index.
pub const INSERT_POST: &'static str =
    "INSERT INTO posts (filename, path, ext, size, width, height, description, rating, tag_vector, poster) VALUES($1, $2, $3, $4, $5, $6, $7, $8, to_tsvector('tag_parser', $9), $10) RETURNING *";

/// A post with every attribute loaded.
#[derive(Debug, PartialEq, Eq)]
pub struct PostFull {
    pub id: i64,
    pub poster: i32,
    pub tag_vector: TagVector,
    pub create_date: Timestamp,
    pub modified_date: Timestamp,
    pub description: Option<String>,
    pub rating: Rating,
    pub score: i32,
    pub views: i32,
    pub source: Option<String>,
    pub filename: String,
    pub path: String,
    pub ext: ImageExtension,
    pub size: i32,
    pub width: i32,
    pub height: i32,
    pub is_deleted: bool,
}

/// What a post holds, as mathematical values.
pub ghost struct PostData {
    pub id: int,
    pub poster: int,
    pub tags: Seq<Seq<char>>,
    pub create_date: int,
    pub modified_date: int,
    pub description: Option<Seq<char>>,
    pub rating: Rating,
    pub score: int,
    pub views: int,
    pub source: Option<Seq<char>>,
    pub filename: Seq<char>,
    pub path: Seq<char>,
    pub ext: ImageExtension,
    pub size: int,
    pub width: int,
    pub height: int,
    pub is_deleted: bool,
}

/// The view of an optional string.
pub open spec fn optional_text(s: Option<String>) -> Option<Seq<char>> {
    match s {
        Some(t) => Some(t@),
        None => None,
    }
}

impl View for PostFull {
    type V = PostData;

    open spec fn view(&self) -> PostData {
        PostData {
            id: self.id as int,
            poster: self.poster as int,
            tags: self.tag_vector@,
            create_date: self.create_date as int,
            modified_date: self.modified_date as int,
            description: optional_text(self.description),
            rating: self.rating,
            score: self.score as int,
            views: self.views as int,
            source: optional_text(self.source),
            filename: self.filename@,
            path: self.path@,
            ext: self.ext,
            size: self.size as int,
            width: self.width as int,
            height: self.height as int,
            is_deleted: self.is_deleted,
        }
    }
}

/// A copy of an optional string.
pub fn copy_optional(s: &Option<String>) -> (r: Option<String>)
    ensures
        optional_text(r) == optional_text(*s),
{
    match s {
        Some(t) => Some(t.clone()),
        None => None,
    }
}

impl TagVector {
    /// A copy of the tag list.
    pub fn duplicate(&self) -> (r: TagVector)
        ensures
            r@ == self@,
    {
        let mut tags: Vec<String> = Vec::new();
        let mut i: usize = 0;
        while i < self.0.len()
            invariant
                i <= self.0@.len(),
                texts(tags@) == self@.take(i as int),
            decreases self.0@.len() - i,
        {
            let ghost before = texts(tags@);
            tags.push(self.0[i].clone());
            i = i + 1;
            assert(texts(tags@) =~= before.push(self.0@[i - 1]@));
            assert(self@.take(i as int) =~= self@.take(i - 1).push(self.0@[i - 1]@));
        }
        assert(self@.take(i as int) =~= self@);
        TagVector(tags)
    }
}

impl PostFull {
    /// A copy of the post.
    pub fn duplicate(&self) -> (r: PostFull)
        ensures
            r@ == self@,
    {
        PostFull {
            id: self.id,
            poster: self.poster,
            tag_vector: self.tag_vector.duplicate(),
            create_date: self.create_date,
            modified_date: self.modified_date,
            description: copy_optional(&self.description),
            rating: self.rating,
            score: self.score,
            views: self.views,
            source: copy_optional(&self.source),
            filename: self.filename.clone(),
            path: self.path.clone(),
            ext: self.ext,
            size: self.size,
            width: self.width,
            height: self.height,
            is_deleted: self.is_deleted,
        }
    }
}

/// A post, known by its identifier alone or with all its attributes.
#[derive(Debug, PartialEq, Eq)]
pub enum Post {
    Partial(i64),
    Full(PostFull),
}

/// The attributes were asked of a post that is known by its identifier alone.
#[derive(Debug, Clone, Copy, PartialEq, Eq, Structural)]
pub struct NotFull;

impl Post {
    /// The identifier, whichever form the post has.
    pub open spec fn id(self) -> int {
        match self {
            Post::Partial(id) => id as int,
            Post::Full(post) => post.id as int,
        }
    }

    /// The attributes, where they are loaded.
    pub open spec fn data(self) -> Option<PostData> {
        match self {
            Post::Partial(_) => None,
            Post::Full(post) => Some(post@),
        }
    }

    pub fn get_id(&self) -> (id: i64)
        ensures
            id as int == self.id(),
    {
        match self {
            Post::Partial(id) => *id,
            Post::Full(post) => post.id,
        }
    }

    /// The loaded post; `NotFull` for one known by its identifier alone.
    pub fn into_full(self) -> (r: Result<PostFull, NotFull>)
        ensures
            match r {
                Ok(post) => self == Post::Full(post),
                Err(_) => self is Partial,
            },
    {
        match self {
            Post::Full(post) => Ok(post),
            Post::Partial(_) => Err(NotFull),
        }
    }

    /// The loaded post; `NotFull` for one known by its identifier alone.
    pub fn as_full(&self) -> (r: Result<&PostFull, NotFull>)
        ensures
            match r {
                Ok(post) => *self == Post::Full(*post),
                Err(_) => self is Partial,
            },
    {
        match self {
            Post::Full(post) => Ok(post),
            Post::Partial(_) => Err(NotFull),
        }
    }

    /// A post read from a row: loaded when the row holds all its columns,
    /// by identifier when it holds no more than that.
    pub fn deserialise(id: i64, columns: Option<PostFull>) -> (post: Post)
        ensures
            post == match columns {
                Some(full) => Post::Full(full),
                None => Post::Partial(id),
            },
    {
        match columns {
            Some(full) => Post::Full(full),
            None => Post::Partial(id),
        }
    }
}

impl From<i64> for Post {
    fn from(id: i64) -> (post: Post) {
        Post::Partial(id)
    }
}

impl vstd::std_specs::convert::FromSpecImpl<i64> for Post {
    open spec fn obeys_from_spec() -> bool {
        true
    }

    open spec fn from_spec(id: i64) -> Post {
        Post::Partial(id)
    }
}

/// A post about to be stored.
#[derive(Debug, PartialEq, Eq)]
pub struct NewPost<'a> {
    pub filename: &'a str,
    pub ext: ImageExtension,
    pub path: &'a str,
    pub size: i32,
    pub dimensions: (i32, i32),
    pub rating: Rating,
    pub description: &'a str,
    pub tags: &'a [&'a str],
    pub poster: i32,
}

/// What a new post holds, as mathematical values.
pub ghost struct NewPostData {
    pub filename: Seq<char>,
    pub ext: ImageExtension,
    pub path: Seq<char>,
    pub size: int,
    pub dimensions: (int, int),
    pub rating: Rating,
    pub description: Seq<char>,
    pub tags: Seq<Seq<char>>,
    pub poster: int,
}

impl<'a> View for NewPost<'a> {
    type V = NewPostData;

    open spec fn view(&self) -> NewPostData {
        NewPostData {
            filename: self.filename@,
            ext: self.ext,
            path: self.path@,
            size: self.size as int,
            dimensions: (self.dimensions.0 as int, self.dimensions.1 as int),
            rating: self.rating,
            description: self.description@,
            tags: slices(self.tags@),
            poster: self.poster as int,
        }
    }
}

/// A token that begins with `!` asks for posts without its tag.
pub open spec fn is_exclusion(token: Seq<char>) -> bool {
    token.len() > 0 && token[0] == '!'
}

/// The tag that a token names: the token itself, or what follows its `!`.
pub open spec fn token_tag(token: Seq<char>) -> Seq<char> {
    if is_exclusion(token) {
        token.skip(1)
    } else {
        token
    }
}

/// The tags that the tokens ask for, in order.
pub open spec fn included(tokens: Seq<Seq<char>>) -> Seq<Seq<char>>
    decreases tokens.len(),
{
    if tokens.len() == 0 {
        Seq::empty()
    } else if is_exclusion(tokens.last()) {
        included(tokens.drop_last())
    } else {
        included(tokens.drop_last()).push(tokens.last())
    }
}

/// The tags that the tokens rule out, in order.
pub open spec fn excluded(tokens: Seq<Seq<char>>) -> Seq<Seq<char>>
    decreases tokens.len(),
{
    if tokens.len() == 0 {
        Seq::empty()
    } else if is_exclusion(tokens.last()) {
        excluded(tokens.drop_last()).push(tokens.last().skip(1))
    } else {
        excluded(tokens.drop_last())
    }
}

/// Tokens are accepted when the tag of each one is valid.
pub open spec fn valid_tokens(tokens: Seq<Seq<char>>) -> bool {
    forall|i: int| 0 <= i < tokens.len() ==> valid_tag(token_tag(#[trigger] tokens[i]))
}

proof fn lemma_joined_push(parts: Seq<Seq<char>>, part: Seq<char>, sep: char)
    ensures
        joined(parts.push(part), sep) == if parts.len() == 0 {
            part
        } else {
            joined(parts, sep) + seq![sep] + part
        },
{
    assert(parts.push(part).drop_last() =~= parts);
}

/// Splits search tokens into the tags asked for and the tags ruled out. A
/// token whose tag is empty or holds a reserved character is refused with
/// `BadTags`.
pub fn split_tokens(tags: &[&str]) -> (r: Result<(Vec<String>, Vec<String>), APIError>)
    ensures
        match r {
            Ok((wanted, barred)) => {
                &&& valid_tokens(slices(tags@))
                &&& texts(wanted@) == included(slices(tags@))
                &&& texts(barred@) == excluded(slices(tags@))
            },
            Err(e) => e == APIError::BadTags && !valid_tokens(slices(tags@)),
        },
{
    let ghost tokens = slices(tags@);
    let mut wanted: Vec<String> = Vec::new();
    let mut barred: Vec<String> = Vec::new();
    let mut i: usize = 0;
    assert(tokens.take(0) =~= Seq::<Seq<char>>::empty());
    assert(texts(wanted@) =~= Seq::<Seq<char>>::empty());
    while i < tags.len()
        invariant
            tokens == slices(tags@),
            i <= tags@.len(),
            valid_tokens(tokens.take(i as int)),
            texts(wanted@) == included(tokens.take(i as int)),
            texts(barred@) == excluded(tokens.take(i as int)),
        decreases tags@.len() - i,
    {
        let token: &str = tags[i];
        let ghost seen = tokens.take(i as int);
        let ghost now = tokens.take(i + 1);
        let ghost had_wanted = texts(wanted@);
        let ghost had_barred = texts(barred@);
        assert(now.drop_last() =~= seen);
        assert(now.last() == token@);
        let length: usize = token.unicode_len();
        if length > 0 && token.get_char(0) == '!' {
            let tag: &str = token.substring_char(1, length);
            assert(tag@ =~= token@.skip(1));
            if !check_tag(tag) {
                assert(!valid_tag(token_tag(tokens[i as int])));
                return Err(APIError::BadTags);
            }
            barred.push(tag.to_owned());
            assert(texts(barred@) =~= had_barred.push(tag@));
        } else {
            if !check_tag(token) {
                assert(!valid_tag(token_tag(tokens[i as int])));
                return Err(APIError::BadTags);
            }
            wanted.push(token.to_owned());
            assert(texts(wanted@) =~= had_wanted.push(token@));
        }
        assert forall|k: int| 0 <= k < now.len() implies valid_tag(token_tag(#[trigger] now[k])) by {
            if k < i {
                assert(now[k] == seen[k]);
            }
        }
        i = i + 1;
    }
    assert(tokens.take(i as int) =~= tokens);
    Ok((wanted, barred))
}

/// The parts in order, with `sep` between each two.
pub fn join(parts: &Vec<String>, sep: char) -> (r: String)
    ensures
        r@ == joined(texts(parts@), sep),
{
    let mut out = String::new();
    let mut i: usize = 0;
    assert(texts(parts@).take(0) =~= Seq::<Seq<char>>::empty());
    while i < parts.len()
        invariant
            i <= parts@.len(),
            out@ == joined(texts(parts@).take(i as int), sep),
        decreases parts@.len() - i,
    {
        if i > 0 {
            out.push(sep);
        }
        out.append(parts[i].as_str());
        proof {
            lemma_joined_push(texts(parts@).take(i as int), parts@[i as int]@, sep);
            assert(texts(parts@).take(i + 1) =~= texts(parts@).take(i as int).push(
                parts@[i as int]@,
            ));
        }
        i = i + 1;
    }
    assert(texts(parts@).take(i as int) =~= texts(parts@));
    out
}

/// Builds the two search expressions of a query: the tags asked for and the
/// tags ruled out, each side joined with commas. Tokens are refused with
/// `BadTags` as `split_tokens` refuses them.
pub fn ts_query_builder(tags: &[&str]) -> (r: Result<(String, String), APIError>)
    ensures
        match r {
            Ok((wanted, barred)) => {
                &&& valid_tokens(slices(tags@))
                &&& wanted@ == joined(included(slices(tags@)), ',')
                &&& barred@ == joined(excluded(slices(tags@)), ',')
            },
            Err(e) => e == APIError::BadTags && !valid_tokens(slices(tags@)),
        },
{
    match split_tokens(tags) {
        Ok((wanted, barred)) => Ok((join(&wanted, ','), join(&barred, ','))),
        Err(e) => Err(e),
    }
}

/// The condition on the tags of a post, as it stands in the query text.
/// It is empty when nothing is asked of the tags, and ends in `AND` otherwise.
pub open spec fn tag_condition(wanted: bool, barred: bool) -> Seq<char> {
    if wanted && barred {
        "tag_vector @@ plainto_tsquery('tag_parser', $1) AND NOT tag_vector @@ plainto_tsquery('tag_parser', $2) AND "@
    } else if wanted {
        "tag_vector @@ plainto_tsquery('tag_parser', $1) AND "@
    } else if barred {
        "NOT tag_vector @@ plainto_tsquery('tag_parser', $1) AND "@
    } else {
        ""@
    }
}

/// The text of a search: the posts that meet the tag condition and are not
/// deleted, in the given order, `limit` of them from row `page * limit` on.
pub open spec fn search_text(
    wanted: bool,
    barred: bool,
    sorting: PostSorting,
    page: nat,
    limit: nat,
) -> Seq<char> {
    "SELECT * FROM posts WHERE "@ + tag_condition(wanted, barred) + "is_deleted='false' "@
        + sorting.clause() + " OFFSET "@ + decimal(page * limit) + " LIMIT "@ + decimal(limit)
}

/// The search expressions that go with the text, in the order of `$1`, `$2`.
pub open spec fn search_params(wanted: Seq<char>, barred: Seq<char>) -> Seq<Seq<char>> {
    if wanted.len() > 0 && barred.len() > 0 {
        seq![wanted, barred]
    } else if wanted.len() > 0 {
        seq![wanted]
    } else if barred.len() > 0 {
        seq![barred]
    } else {
        Seq::empty()
    }
}

/// A query for the store: its text and the values of its parameters.
#[derive(Debug, PartialEq, Eq)]
pub struct Statement {
    pub text: String,
    pub params: Vec<String>,
}

/// The query that lists one page of the posts that the tokens select.
/// Tokens are refused with `BadTags` as `ts_query_builder` refuses them.
pub fn fulltext_statement(tags: &[&str], page: u32, limit: u32, sorting: PostSorting) -> (r: Result<
    Statement,
    APIError,
>)
    ensures
        match r {
            Ok(statement) => {
                let wanted = joined(included(slices(tags@)), ',');
                let barred = joined(excluded(slices(tags@)), ',');
                &&& valid_tokens(slices(tags@))
                &&& statement.text@ == search_text(
                    wanted.len() > 0,
                    barred.len() > 0,
                    sorting,
                    page as nat,
                    limit as nat,
                )
                &&& texts(statement.params@) == search_params(wanted, barred)
            },
            Err(e) => e == APIError::BadTags && !valid_tokens(slices(tags@)),
        },
{
    let (wanted, barred) = match ts_query_builder(tags) {
        Ok(pair) => pair,
        Err(e) => {
            return Err(e);
        },
    };
    let asks: bool = !wanted.as_str().is_empty();
    let rules_out: bool = !barred.as_str().is_empty();
    let mut text = String::from_str("SELECT * FROM posts WHERE ");
    let mut params: Vec<String> = Vec::new();
    if asks && rules_out {
        text.append(
            "tag_vector @@ plainto_tsquery('tag_parser', $1) AND NOT tag_vector @@ plainto_tsquery('tag_parser', $2) AND ",
        );
        params.push(wanted);
        params.push(barred);
    } else if asks {
        text.append("tag_vector @@ plainto_tsquery('tag_parser', $1) AND ");
        params.push(wanted);
    } else if rules_out {
        text.append("NOT tag_vector @@ plainto_tsquery('tag_parser', $1) AND ");
        params.push(barred);
    } else {
        text.append("");
    }
    text.append("is_deleted='false' ");
    text.append(sorting.to_sql());
    text.append(" OFFSET ");
    assert(page as u64 * limit as u64 <= 0xFFFF_FFFE_0000_0001) by (nonlinear_arith)
        requires
            page <= 0xFFFF_FFFF,
            limit <= 0xFFFF_FFFF,
    ;
    push_decimal(&mut text, page as u64 * limit as u64);
    text.append(" LIMIT ");
    push_decimal(&mut text, limit as u64);
    assert(texts(params@) =~= search_params(
        joined(included(slices(tags@)), ','),
        joined(excluded(slices(tags@)), ','),
    ));
    Ok(Statement { text, params })
}

impl TagVector {
    /// Whether the list holds the tag `name`.
    pub fn holds(&self, name: &String) -> (b: bool)
        ensures
            b == self@.contains(name@),
    {
        let mut k: usize = 0;
        while k < self.0.len()
            invariant
                k <= self.0@.len(),
                forall|j: int| 0 <= j < k ==> self@[j] != name@,
            decreases self.0@.len() - k,
        {
            if self.0[k] == *name {
                assert(self@[k as int] == name@);
                return true;
            }
            k = k + 1;
        }
        false
    }

    /// Whether no tag is listed twice.
    pub fn is_distinct(&self) -> (b: bool)
        ensures
            b == self@.no_duplicates(),
    {
        let mut k: usize = 0;
        while k < self.0.len()
            invariant
                k <= self.0@.len(),
                forall|i: int, j: int| 0 <= i < j < k ==> self@[i] != self@[j],
            decreases self.0@.len() - k,
        {
            let mut c: usize = 0;
            while c < k
                invariant
                    c <= k < self.0@.len(),
                    forall|i: int| 0 <= i < c ==> self@[i] != self@[k as int],
                decreases k - c,
            {
                if self.0[c] == self.0[k] {
                    assert(self@[c as int] == self@[k as int]);
                    return false;
                }
                c = c + 1;
            }
            k = k + 1;
        }
        true
    }

    /// The tags of `tags` without repetitions, the first of equal tags kept.
    pub fn distinct_of(tags: &[&str]) -> (r: TagVector)
        ensures
            r@ == distinct(slices(tags@)),
    {
        let mut kept = TagVector(Vec::new());
        let mut i: usize = 0;
        assert(slices(tags@).take(0) =~= Seq::<Seq<char>>::empty());
        assert(kept@ =~= Seq::<Seq<char>>::empty());
        while i < tags.len()
            invariant
                i <= tags@.len(),
                kept@ == distinct(slices(tags@).take(i as int)),
            decreases tags@.len() - i,
        {
            let tag: String = tags[i].to_owned();
            let ghost before = kept@;
            let ghost now = slices(tags@).take(i + 1);
            assert(now.drop_last() =~= slices(tags@).take(i as int));
            assert(now.last() == tag@);
            if !kept.holds(&tag) {
                kept.0.push(tag);
                assert(kept@ =~= before.push(now.last()));
            }
            i = i + 1;
        }
        assert(slices(tags@).take(i as int) =~= slices(tags@));
        kept
    }
}

/// The place of the row `id` in the table, if there is one.
pub fn find_post(db: &Database, id: i64) -> (r: Option<usize>)
    requires
        db.wf(),
    ensures
        match r {
            Some(k) => {
                &&& k < db@.posts.len()
                &&& db@.posts[k as int].id == id
                &&& has_post(db@.posts, id as int)
                &&& place_of(db@.posts, id as int) == k
            },
            None => !has_post(db@.posts, id as int),
        },
{
    let mut k: usize = 0;
    while k < db.posts.len()
        invariant
            db.wf(),
            k <= db.posts@.len(),
            db@.posts.len() == db.posts@.len(),
            forall|j: int| 0 <= j < k ==> (#[trigger] db@.posts[j]).id != id,
        decreases db.posts@.len() - k,
    {
        if db.posts[k].id == id {
            proof {
                lemma_place_of(db@, id as int, k as int);
            }
            return Some(k);
        }
        k = k + 1;
    }
    None
}

impl Post {
    /// The post `id`, unless it is missing or deleted.
    pub fn select_post(db: &Database, id: i64) -> (r: Option<Post>)
        requires
            db.wf(),
        ensures
            match r {
                Some(post) => {
                    &&& db@.active_post(id as int) is Some
                    &&& post is Full
                    &&& post.data() == db@.active_post(id as int)
                },
                None => db@.active_post(id as int) is None,
            },
    {
        match find_post(db, id) {
            Some(k) => {
                if db.posts[k].is_deleted {
                    None
                } else {
                    Some(Post::Full(db.posts[k].duplicate()))
                }
            },
            None => None,
        }
    }

    /// Every post that carries the delete mark, in table order.
    pub fn select_is_deleted(db: &Database) -> (r: Vec<PostFull>)
        ensures
            rows(r@) == marked_rows(db@.posts),
    {
        let mut found: Vec<PostFull> = Vec::new();
        let mut k: usize = 0;
        assert(db@.posts.take(0) =~= Seq::<PostData>::empty());
        assert(rows(found@) =~= Seq::<PostData>::empty());
        while k < db.posts.len()
            invariant
                k <= db.posts@.len(),
                db@.posts == rows(db.posts@),
                rows(found@) == marked_rows(db@.posts.take(k as int)),
            decreases db.posts@.len() - k,
        {
            let ghost before = rows(found@);
            let ghost now = db@.posts.take(k + 1);
            assert(now.drop_last() =~= db@.posts.take(k as int));
            assert(now.last() == db.posts@[k as int]@);
            if db.posts[k].is_deleted {
                found.push(db.posts[k].duplicate());
                assert(rows(found@) =~= before.push(now.last()));
            }
            k = k + 1;
        }
        assert(db@.posts.take(k as int) =~= db@.posts);
        found
    }

    /// One of the posts without the delete mark: the one that `draw`
    /// picks, counting round the table. `None` where there is no such post.
    pub fn select_post_random(db: &Database, draw: u64) -> (r: Option<Post>)
        ensures
            match r {
                Some(post) => {
                    let active = active_rows(db@.posts);
                    active.len() > 0 && post.data() == Some(active[draw as int % active.len() as int])
                },
                None => active_rows(db@.posts).len() == 0,
            },
    {
        let mut active: Vec<usize> = Vec::new();
        let mut k: usize = 0;
        assert(db@.posts.take(0) =~= Seq::<PostData>::empty());
        while k < db.posts.len()
            invariant
                k <= db.posts@.len(),
                db@.posts == rows(db.posts@),
                active@.len() == active_rows(db@.posts.take(k as int)).len(),
                active@.len() <= k,
                forall|j: int|
                    0 <= j < active@.len() ==> (#[trigger] active@[j]) < db.posts@.len()
                        && db.posts@[active@[j] as int]@ == active_rows(
                        db@.posts.take(k as int),
                    )[j],
            decreases db.posts@.len() - k,
        {
            let ghost now = db@.posts.take(k + 1);
            assert(now.drop_last() =~= db@.posts.take(k as int));
            assert(now.last() == db.posts@[k as int]@);
            if !db.posts[k].is_deleted {
                active.push(k);
            }
            k = k + 1;
        }
        assert(db@.posts.take(k as int) =~= db@.posts);
        if active.len() == 0 {
            None
        } else {
            let pick: usize = (draw % (active.len() as u64)) as usize;
            Some(Post::Full(db.posts[active[pick]].duplicate()))
        }
    }

    /// Sets the stored path of this post, in the table and in `self`.
    pub fn update_path(&mut self, db: &mut Database, new_path: &str)
        requires
            old(db).wf(),
        ensures
            final(db).wf(),
            final(db)@ == old(db)@.with_path(old(self).id(), new_path@),
            final(self).id() == old(self).id(),
            final(self).data() == match old(self).data() {
                Some(data) => Some(PostData { path: new_path@, ..data }),
                None => None,
            },
    {
        let id: i64 = self.get_id();
        match find_post(db, id) {
            Some(k) => {
                let mut row = db.posts[k].duplicate();
                row.path = new_path.to_owned();
                db.posts.set(k, row);
                proof {
                    assert(rows(db.posts@) =~= moved(old(db)@.posts, id as int, new_path@)) by {
                        assert forall|j: int| 0 <= j < db.posts@.len() implies rows(db.posts@)[j]
                            == moved(old(db)@.posts, id as int, new_path@)[j] by {
                            if j != k {
                                lemma_same_id(old(db)@, j, k as int);
                            }
                        }
                    }
                    assert(db@.tags =~= old(db)@.tags);
                    assert(db@.users =~= old(db)@.users);
                }
            },
            None => {
                proof {
                    assert(old(db)@.posts =~= moved(old(db)@.posts, id as int, new_path@));
                }
            },
        }
        match self {
            Post::Partial(_) => {},
            Post::Full(post) => {
                post.path = new_path.to_owned();
            },
        }
    }

    /// Sets or clears the delete mark of this post, in the table and in
    /// `self`. The files of the post are not touched.
    pub fn update_is_deleted(&mut self, db: &mut Database, is_deleted: bool)
        requires
            old(db).wf(),
        ensures
            final(db).wf(),
            final(db)@ == old(db)@.with_mark(old(self).id(), is_deleted),
            final(self).id() == old(self).id(),
            final(self).data() == match old(self).data() {
                Some(data) => Some(PostData { is_deleted: is_deleted, ..data }),
                None => None,
            },
    {
        let id: i64 = self.get_id();
        match find_post(db, id) {
            Some(k) => {
                let mut row = db.posts[k].duplicate();
                row.is_deleted = is_deleted;
                db.posts.set(k, row);
                proof {
                    assert(rows(db.posts@) =~= marked(old(db)@.posts, id as int, is_deleted)) by {
                        assert forall|j: int| 0 <= j < db.posts@.len() implies rows(db.posts@)[j]
                            == marked(old(db)@.posts, id as int, is_deleted)[j] by {
                            if j != k {
                                lemma_same_id(old(db)@, j, k as int);
                            }
                        }
                    }
                    assert(db@.tags =~= old(db)@.tags);
                    assert(db@.users =~= old(db)@.users);
                }
            },
            None => {
                proof {
                    assert(old(db)@.posts =~= marked(old(db)@.posts, id as int, is_deleted));
                }
            },
        }
        match self {
            Post::Partial(_) => {},
            Post::Full(post) => {
                post.is_deleted = is_deleted;
            },
        }
    }

    /// Removes the row of this post for good, but only if it carries the
    /// delete mark. Says whether a row was removed.
    pub fn delete_post_checked(&self, db: &mut Database) -> (removed: bool)
        requires
            old(db).wf(),
        ensures
            final(db).wf(),
            removed == old(db)@.purge_removes(self.id()),
            final(db)@ == old(db)@.purged(self.id()),
    {
        let id: i64 = self.get_id();
        match find_post(db, id) {
            Some(k) => {
                if db.posts[k].is_deleted {
                    db.posts.remove(k);
                    proof {
                        assert(rows(db.posts@) =~= old(db)@.posts.remove(k as int));
                        assert(db@.tags =~= old(db)@.tags);
                        assert(db@.users =~= old(db)@.users);
                    }
                    true
                } else {
                    false
                }
            },
            None => false,
        }
    }
}

/// Two rows of a table in order have different identifiers.
proof fn lemma_same_id(db: crate::database::model::DatabaseData, j: int, k: int)
    requires
        db.wf(),
        0 <= j < db.posts.len(),
        0 <= k < db.posts.len(),
        j != k,
    ensures
        db.posts[j].id != db.posts[k].id,
{
    if j < k {
        assert(db.posts[j].id < db.posts[k].id);
    } else {
        assert(db.posts[k].id < db.posts[j].id);
    }
}

impl<'a> NewPost<'a> {
    /// The text that the store turns into the tag index of the post: each
    /// tag with a comma behind it.
    pub fn tag_text(&self) -> (text: String)
        ensures
            text@ == terminated(self@.tags, ','),
    {
        let mut text = String::new();
        let mut i: usize = 0;
        assert(slices(self.tags@).take(0) =~= Seq::<Seq<char>>::empty());
        while i < self.tags.len()
            invariant
                i <= self.tags@.len(),
                text@ == terminated(slices(self.tags@).take(i as int), ','),
            decreases self.tags@.len() - i,
        {
            text.append(self.tags[i]);
            text.push(',');
            i = i + 1;
            proof {
                let now = slices(self.tags@).take(i as int);
                assert(now.drop_last() =~= slices(self.tags@).take(i - 1));
                assert(now.last() == self.tags@[i - 1]@);
            }
        }
        assert(slices(self.tags@).take(i as int) =~= slices(self.tags@));
        text
    }

    /// Stores the post as a new row, created at the time `now`, and gives
    /// the row back. The store assigns the identifier: one more than the
    /// last. Refused with `OutOfRange` when the identifiers have run out.
    pub fn insert_into(&self, db: &mut Database, now: Timestamp) -> (r: Result<
        PostFull,
        DatabaseError,
    >)
        requires
            old(db).wf(),
        ensures
            final(db).wf(),
            match r {
                Ok(post) => {
                    &&& old(db)@.last_post < i64::MAX
                    &&& post@ == old(db)@.fresh_post(self@, now as int)
                    &&& final(db)@ == old(db)@.inserted(self@, now as int)
                },
                Err(e) => {
                    &&& e == DatabaseError::OutOfRange
                    &&& old(db)@.last_post == i64::MAX
                    &&& final(db)@ == old(db)@
                },
            },
    {
        if db.last_post == i64::MAX {
            return Err(DatabaseError::OutOfRange);
        }
        let id: i64 = db.last_post + 1;
        let row = PostFull {
            id,
            poster: self.poster,
            tag_vector: TagVector::distinct_of(self.tags),
            create_date: now,
            modified_date: now,
            description: Some(self.description.to_owned()),
            rating: self.rating,
            score: 0,
            views: 0,
            source: None,
            filename: self.filename.to_owned(),
            path: self.path.to_owned(),
            ext: self.ext,
            size: self.size,
            width: self.dimensions.0,
            height: self.dimensions.1,
            is_deleted: false,
        };
        let post = row.duplicate();
        proof {
            crate::database::model::lemma_distinct(slices(self.tags@));
        }
        db.posts.push(row);
        db.last_post = id;
        proof {
            let fresh = old(db)@.fresh_post(self@, now as int);
            assert(rows(db.posts@) =~= old(db)@.posts.push(fresh));
            assert(db@.tags =~= old(db)@.tags);
            assert(db@.users =~= old(db)@.users);
            let was = old(db)@;
            let is = db@;
            assert forall|i: int| 0 <= i < is.posts.len() implies 0 < (#[trigger] is.posts[i]).id
                <= is.last_post && is.posts[i].tags.no_duplicates() by {
                if i < was.posts.len() {
                    assert(is.posts[i] == was.posts[i]);
                }
            }
            assert forall|i: int, j: int| 0 <= i < j < is.posts.len() implies (
            #[trigger] is.posts[i]).id < (#[trigger] is.posts[j]).id by {
                assert(is.posts[i] == was.posts[i]);
                if j < was.posts.len() {
                    assert(is.posts[j] == was.posts[j]);
                }
            }
        }
        Ok(post)
    }
}

impl TagVector {
    /// Whether the list holds every tag of `asked`.
    pub fn holds_all(&self, asked: &Vec<String>) -> (b: bool)
        ensures
            b == carries_all(self@, texts(asked@)),
    {
        let mut k: usize = 0;
        while k < asked.len()
            invariant
                k <= asked@.len(),
                forall|j: int| 0 <= j < k ==> self@.contains(#[trigger] texts(asked@)[j]),
            decreases asked@.len() - k,
        {
            if !self.holds(&asked[k]) {
                assert(!self@.contains(texts(asked@)[k as int]));
                return false;
            }
            k = k + 1;
        }
        true
    }
}

impl PostFull {
    /// Whether a search for the tags `wanted` without the tags `barred`
    /// lists this post.
    pub fn selected_by(&self, wanted: &Vec<String>, barred: &Vec<String>) -> (b: bool)
        ensures
            b == selects(self@, texts(wanted@), texts(barred@)),
    {
        !self.is_deleted && self.tag_vector.holds_all(wanted) && (barred.len() == 0
            || !self.tag_vector.holds_all(barred))
    }

    /// Whether the order `sorting` lists this post before `other`.
    pub fn listed_before(&self, other: &PostFull, sorting: PostSorting) -> (b: bool)
        ensures
            b == precedes(self@, other@, sorting),
    {
        match sorting {
            PostSorting::DateAscending => self.create_date < other.create_date || (
            self.create_date == other.create_date && self.id < other.id),
            PostSorting::DateDescending => self.create_date > other.create_date || (
            self.create_date == other.create_date && self.id > other.id),
            PostSorting::VoteAscending => self.score < other.score || (self.score == other.score
                && self.id < other.id),
            PostSorting::VoteDescending => self.score > other.score || (self.score == other.score
                && self.id > other.id),
        }
    }
}

/// A post is put into an ordered list in front of the first one that it
/// is listed before.
proof fn lemma_placed(list: Seq<PostData>, post: PostData, sorting: PostSorting, k: int)
    requires
        0 <= k <= list.len(),
        forall|j: int| 0 <= j < k ==> !precedes(post, #[trigger] list[j], sorting),
        k == list.len() || precedes(post, list[k], sorting),
    ensures
        placed(list, post, sorting) == list.insert(k, post),
    decreases list.len(),
{
    if list.len() == 0 {
        assert(list.insert(0, post) =~= seq![post]);
    } else if k == 0 {
        assert(list.insert(0, post) =~= seq![post] + list);
    } else {
        let rest = list.drop_first();
        assert(!precedes(post, list[0], sorting));
        assert forall|j: int| 0 <= j < k - 1 implies !precedes(post, #[trigger] rest[j], sorting) by {
            assert(rest[j] == list[j + 1]);
        }
        lemma_placed(rest, post, sorting, k - 1);
        assert(list.insert(k, post) =~= seq![list[0]] + rest.insert(k - 1, post));
    }
}

impl Post {
    /// One page of the posts that the tokens select: those without the
    /// delete mark that carry every tag asked for and do not carry all the
    /// tags ruled out, in the order `sorting`, `limit` of them from row
    /// `page * limit` on. Tokens are refused with `BadTags` as
    /// `split_tokens` refuses them.
    pub fn select_fulltext_tags(
        db: &Database,
        tags: &[&str],
        page: u32,
        limit: u32,
        sorting: PostSorting,
    ) -> (r: Result<Vec<PostFull>, APIError>)
        ensures
            match r {
                Ok(posts) => {
                    &&& valid_tokens(slices(tags@))
                    &&& rows(posts@) == page_of(
                        ranking(
                            db@.posts,
                            included(slices(tags@)),
                            excluded(slices(tags@)),
                            sorting,
                        ),
                        page as nat,
                        limit as nat,
                    )
                },
                Err(e) => e == APIError::BadTags && !valid_tokens(slices(tags@)),
            },
    {
        let (wanted, barred) = match split_tokens(tags) {
            Ok(pair) => pair,
            Err(e) => {
                return Err(e);
            },
        };
        let mut list: Vec<&PostFull> = Vec::new();
        let mut i: usize = 0;
        assert(db@.posts.take(0) =~= Seq::<PostData>::empty());
        assert(row_refs(list@) =~= Seq::<PostData>::empty());
        while i < db.posts.len()
            invariant
                i <= db.posts@.len(),
                db@.posts == rows(db.posts@),
                list@.len() <= i,
                row_refs(list@) == ranking(
                    db@.posts.take(i as int),
                    texts(wanted@),
                    texts(barred@),
                    sorting,
                ),
            decreases db.posts@.len() - i,
        {
            let post: &PostFull = &db.posts[i];
            let ghost now = db@.posts.take(i + 1);
            let ghost before = row_refs(list@);
            assert(now.drop_last() =~= db@.posts.take(i as int));
            assert(now.last() == post@);
            if post.selected_by(&wanted, &barred) {
                let mut k: usize = 0;
                while k < list.len() && !post.listed_before(list[k], sorting)
                    invariant
                        k <= list@.len(),
                        before == row_refs(list@),
                        forall|j: int| 0 <= j < k ==> !precedes(post@, #[trigger] before[j], sorting),
                    decreases list@.len() - k,
                {
                    k = k + 1;
                }
                proof {
                    lemma_placed(before, post@, sorting, k as int);
                }
                list.insert(k, post);
                assert(row_refs(list@) =~= before.insert(k as int, post@));
            }
            i = i + 1;
        }
        assert(db@.posts.take(i as int) =~= db@.posts);
        let total: usize = list.len();
        assert(page as u64 * limit as u64 <= 0xFFFF_FFFE_0000_0001) by (nonlinear_arith)
            requires
                page <= 0xFFFF_FFFF,
                limit <= 0xFFFF_FFFF,
        ;
        let offset: u64 = page as u64 * limit as u64;
        let from: usize = if offset <= total as u64 {
            offset as usize
        } else {
            total
        };
        let to: usize = if limit as u64 <= (total - from) as u64 {
            from + limit as usize
        } else {
            total
        };
        let mut posts: Vec<PostFull> = Vec::new();
        let mut j: usize = from;
        assert(rows(posts@) =~= row_refs(list@).subrange(from as int, from as int));
        while j < to
            invariant
                from <= j <= to <= list@.len(),
                rows(posts@) == row_refs(list@).subrange(from as int, j as int),
            decreases to - j,
        {
            let ghost before = rows(posts@);
            posts.push(list[j].duplicate());
            j = j + 1;
            assert(rows(posts@) =~= before.push(list@[j - 1]@));
            assert(row_refs(list@).subrange(from as int, j as int) =~= row_refs(list@).subrange(
                from as int,
                j - 1,
            ).push(list@[j - 1]@));
        }
        Ok(posts)
    }
}

/// Whether `user`, with the permission level `perms` where the store knows
/// the user, may delete a post of `poster`: the poster may, and so may a
/// moderator or an administrator.
pub fn can_delete(poster: i32, user: i32, perms: Option<Perms>) -> (allowed: bool)
    ensures
        allowed == may_delete(poster as int, user as int, perms),
{
    poster == user || match perms {
        Some(level) => level.staff(),
        None => false,
    }
}

impl Post {
    /// Looks up the post `id` for a delete that `user` asks for, and says
    /// whether `user` may delete it. `None` where the post is missing or
    /// deleted, whoever asks.
    pub fn select_can_delete(db: &Database, id: i64, user: i32) -> (r: Option<(bool, Post)>)
        requires
            db.wf(),
        ensures
            match r {
                Some((allowed, post)) => {
                    &&& db@.active_post(id as int) is Some
                    &&& post.data() == db@.active_post(id as int)
                    &&& allowed == may_delete(
                        db@.active_post(id as int)->0.poster,
                        user as int,
                        perms_of(db@.users, user as int),
                    )
                },
                None => db@.active_post(id as int) is None,
            },
    {
        let post = Post::select_post(db, id);
        let perms: Option<Perms> = match User::select_id(db, user) {
            Some(row) => Some(row.perms),
            None => None,
        };
        match post {
            Some(Post::Full(full)) => {
                let allowed = can_delete(full.poster, user, perms);
                Some((allowed, Post::Full(full)))
            },
            _ => None,
        }
    }
}

} // verus!
