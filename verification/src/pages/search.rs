use crate::database::enums::PostSorting;
use crate::database::model::{active_rows, page_of, ranking, DatabaseData};
use crate::database::post::{
    excluded, fulltext_statement, included, search_params, search_text, valid_tokens, Post,
    PostData, PostFull, Statement,
};
use crate::database::tag::slices;
use crate::database::{rows, Database};
use crate::error::APIError;
use crate::text::{joined, texts, trim, trimmed};
use vstd::prelude::*;

verus! {

/// The reply for a search that lists no post.
pub const NO_POSTS_FOUND: &'static str = "{\"error\":\"no posts found\"}";

/// The most tags that one search may name.
pub const MAX_TAGS: usize = 10;

/// The most posts that one page may hold.
pub const MAX_LIMIT: u32 = 50;

/// The tags of a search that gives none: the empty JSON array.
pub fn default_tags() -> (tags: String)
    ensures
        tags@ == "[]"@,
{
    "[]".to_owned()
}

/// The page of a search that gives none: the first.
pub fn default_page() -> (page: u32)
    ensures
        page == 0,
{
    0
}

/// The page size of a search that gives none.
pub fn default_limit() -> (limit: u32)
    ensures
        limit == 20,
{
    20
}

/// The order of a search that gives none: newest first.
pub fn default_sort() -> (sort: PostSorting)
    ensures
        sort == PostSorting::DateDescending,
{
    PostSorting::DateDescending
}

/// The query of a search: the tags as a JSON array of tokens, the page,
/// the page size and the order.
#[derive(Debug, PartialEq, Eq)]
pub struct SearchPostQuery {
    pub tags: String,
    pub page: u32,
    pub limit: u32,
    pub sort: PostSorting,
}

impl SearchPostQuery {
    /// The query with the default in place of each value that is not given.
    pub fn new(
        tags: Option<String>,
        page: Option<u32>,
        limit: Option<u32>,
        sort: Option<PostSorting>,
    ) -> (query: SearchPostQuery)
        ensures
            query.tags@ == match tags {
                Some(t) => t@,
                None => "[]"@,
            },
            query.page == match page {
                Some(p) => p,
                None => 0,
            },
            query.limit == match limit {
                Some(l) => l,
                None => 20,
            },
            query.sort == match sort {
                Some(s) => s,
                None => PostSorting::DateDescending,
            },
    {
        SearchPostQuery {
            tags: match tags {
                Some(t) => t,
                None => default_tags(),
            },
            page: match page {
                Some(p) => p,
                None => default_page(),
            },
            limit: match limit {
                Some(l) => l,
                None => default_limit(),
            },
            sort: match sort {
                Some(s) => s,
                None => default_sort(),
            },
        }
    }
}

/// The strings of `text` read as a JSON array of strings without escape
/// sequences; `None` where `text` is no such array.
pub uninterp spec fn json_strings(text: Seq<char>) -> Option<Seq<Seq<char>>>;

/// `serde_json::from_str` at the type `Vec<&str>` reads `text` as a JSON
/// array of strings that borrow from `text`. What it reads depends on
/// `text` alone.
#[verifier::external_body]
fn parse_tags(text: &str) -> (r: Option<Vec<String>>)
    ensures
        match r {
            Some(tags) => json_strings(text@) == Some(texts(tags@)),
            None => json_strings(text@) is None,
        },
{
    match serde_json::from_str::<Vec<&str>>(text) {
        Ok(tags) => Some(tags.into_iter().map(|tag| tag.to_owned()).collect()),
        Err(_) => None,
    }
}

/// The tokens of a search: each one without the white space at its ends,
/// and those that are nothing but white space left out.
pub open spec fn search_tokens(raw: Seq<Seq<char>>) -> Seq<Seq<char>>
    decreases raw.len(),
{
    if raw.len() == 0 {
        Seq::empty()
    } else if trimmed(raw.last()).len() == 0 {
        search_tokens(raw.drop_last())
    } else {
        search_tokens(raw.drop_last()).push(trimmed(raw.last()))
    }
}

/// Why a search for the tokens `raw` is refused, if it is: for more than
/// `MAX_TAGS` tokens, for a page of more than `MAX_LIMIT` posts, or for a
/// token whose tag is not valid, in this order.
pub open spec fn search_refusal(raw: Seq<Seq<char>>, limit: nat) -> Option<APIError> {
    let tokens = search_tokens(raw);
    if tokens.len() > MAX_TAGS {
        Some(APIError::BadTags)
    } else if limit > MAX_LIMIT {
        Some(APIError::PageSize)
    } else if !valid_tokens(tokens) {
        Some(APIError::BadTags)
    } else {
        None
    }
}

/// What a search for the tokens `raw` leads to: the page of posts, or the
/// reason why the search is refused.
pub open spec fn search_outcome(
    db: DatabaseData,
    raw: Seq<Seq<char>>,
    page: nat,
    limit: nat,
    sort: PostSorting,
) -> Result<Seq<PostData>, APIError> {
    let tokens = search_tokens(raw);
    match search_refusal(raw, limit) {
        Some(e) => Err(e),
        None => Ok(
            page_of(ranking(db.posts, included(tokens), excluded(tokens), sort), page, limit),
        ),
    }
}

/// Whether `r` is the outcome `outcome`.
pub open spec fn is_outcome(r: Result<Vec<PostFull>, APIError>, outcome: Result<
    Seq<PostData>,
    APIError,
>) -> bool {
    match r {
        Ok(posts) => outcome == Ok::<Seq<PostData>, APIError>(rows(posts@)),
        Err(e) => outcome == Err::<Seq<PostData>, APIError>(e),
    }
}

/// The tokens of a search: each of `raw` without the white space at its
/// ends, and those that are nothing but white space left out.
pub fn tokens_of<'a>(raw: &'a Vec<String>) -> (tokens: Vec<&'a str>)
    ensures
        slices(tokens@) == search_tokens(texts(raw@)),
{
    let mut tokens: Vec<&'a str> = Vec::new();
    let mut i: usize = 0;
    assert(texts(raw@).take(0) =~= Seq::<Seq<char>>::empty());
    assert(slices(tokens@) =~= Seq::<Seq<char>>::empty());
    while i < raw.len()
        invariant
            i <= raw@.len(),
            slices(tokens@) == search_tokens(texts(raw@).take(i as int)),
        decreases raw@.len() - i,
    {
        let ghost before = slices(tokens@);
        let ghost now = texts(raw@).take(i + 1);
        assert(now.drop_last() =~= texts(raw@).take(i as int));
        assert(now.last() == raw@[i as int]@);
        let token: &'a str = trim(raw[i].as_str());
        if !token.is_empty() {
            tokens.push(token);
            assert(slices(tokens@) =~= before.push(token@));
        }
        i = i + 1;
    }
    assert(texts(raw@).take(i as int) =~= texts(raw@));
    tokens
}

/// One page of the posts that the tokens `raw` select. Tokens are trimmed
/// and empty ones left out first. Refused with `BadTags` for more than
/// `MAX_TAGS` tokens or a token that `split_tokens` refuses, and with
/// `PageSize` for a page of more than `MAX_LIMIT` posts.
pub fn search(db: &Database, raw: &Vec<String>, page: u32, limit: u32, sort: PostSorting) -> (r:
    Result<Vec<PostFull>, APIError>)
    ensures
        is_outcome(r, search_outcome(db@, texts(raw@), page as nat, limit as nat, sort)),
{
    let tokens: Vec<&str> = tokens_of(raw);
    if tokens.len() > MAX_TAGS {
        return Err(APIError::BadTags);
    }
    if limit > MAX_LIMIT {
        return Err(APIError::PageSize);
    }
    Post::select_fulltext_tags(db, tokens.as_slice(), page, limit, sort)
}

/// Whether `r` is the statement of a search for the tokens `raw`, or the
/// reason why the search is refused.
pub open spec fn is_statement(
    r: Result<Statement, APIError>,
    raw: Seq<Seq<char>>,
    page: nat,
    limit: nat,
    sort: PostSorting,
) -> bool {
    match r {
        Ok(statement) => {
            let wanted = joined(included(search_tokens(raw)), ',');
            let barred = joined(excluded(search_tokens(raw)), ',');
            &&& search_refusal(raw, limit) is None
            &&& statement.text@ == search_text(wanted.len() > 0, barred.len() > 0, sort, page, limit)
            &&& texts(statement.params@) == search_params(wanted, barred)
        },
        Err(e) => search_refusal(raw, limit) == Some(e),
    }
}

/// The statement that lists one page of the posts that the tokens `raw`
/// select, for a store that is asked in SQL. Refused as `search` refuses.
pub fn statement_for(raw: &Vec<String>, page: u32, limit: u32, sort: PostSorting) -> (r: Result<
    Statement,
    APIError,
>)
    ensures
        is_statement(r, texts(raw@), page as nat, limit as nat, sort),
{
    let tokens: Vec<&str> = tokens_of(raw);
    if tokens.len() > MAX_TAGS {
        return Err(APIError::BadTags);
    }
    if limit > MAX_LIMIT {
        return Err(APIError::PageSize);
    }
    fulltext_statement(tokens.as_slice(), page, limit, sort)
}

/// The statement that lists one page of the posts that the query selects.
/// Refused with `BadRequestData` where the tags of the query are no JSON
/// array of strings, and as `search` refuses.
pub fn search_statement(query: &SearchPostQuery) -> (r: Result<Statement, APIError>)
    ensures
        match json_strings(query.tags@) {
            Some(raw) => is_statement(
                r,
                raw,
                query.page as nat,
                query.limit as nat,
                query.sort,
            ),
            None => r is Err && r->Err_0 == APIError::BadRequestData,
        },
{
    match parse_tags(query.tags.as_str()) {
        Some(raw) => statement_for(&raw, query.page, query.limit, query.sort),
        None => Err(APIError::BadRequestData),
    }
}

/// One page of the posts that the query selects. Refused with
/// `BadRequestData` where the tags of the query are no JSON array of
/// strings, and as `search` refuses.
pub fn get_search(query: &SearchPostQuery, db: &Database) -> (r: Result<Vec<PostFull>, APIError>)
    ensures
        match json_strings(query.tags@) {
            Some(raw) => is_outcome(
                r,
                search_outcome(db@, raw, query.page as nat, query.limit as nat, query.sort),
            ),
            None => r is Err && r->Err_0 == APIError::BadRequestData,
        },
{
    match parse_tags(query.tags.as_str()) {
        Some(raw) => search(db, &raw, query.page, query.limit, query.sort),
        None => Err(APIError::BadRequestData),
    }
}

/// One of the posts that are not deleted: the one that `draw` picks,
/// counting round the table. `None` where there is no such post.
pub fn get_random_post(db: &Database, draw: u64) -> (r: Option<PostFull>)
    ensures
        match r {
            Some(post) => {
                let active = active_rows(db@.posts);
                active.len() > 0 && post@ == active[draw as int % active.len() as int]
            },
            None => active_rows(db@.posts).len() == 0,
        },
{
    match Post::select_post_random(db, draw) {
        Some(Post::Full(post)) => Some(post),
        _ => None,
    }
}

} // verus!
