use crate::database::model::{has_tag, tag_place};
use crate::database::tag::Tag;
use crate::database::Database;
use vstd::prelude::*;

verus! {

/// The reply for a tag that has no counter.
pub const TAG_NOT_FOUND: &'static str = "{\"error\":\"tag not found\"}";

/// The query of a request for one tag.
#[derive(Debug, PartialEq, Eq)]
pub struct TagInfoQuery {
    pub name: String,
}

/// The counter row of the tag that the query names.
pub fn get_info(query: &TagInfoQuery, db: &Database) -> (r: Option<Tag>)
    requires
        db.wf(),
    ensures
        match r {
            Some(tag) => has_tag(db@.tags, query.name@) && tag@ == db@.tags[tag_place(
                db@.tags,
                query.name@,
            )],
            None => !has_tag(db@.tags, query.name@),
        },
{
    Tag::select_tag_name(db, query.name.as_str())
}

} // verus!
