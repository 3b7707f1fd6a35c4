use crate::database::model::{
    has_tag, lemma_bumped_wf, lemma_tag_place, named_rows, tag_place, DatabaseData, TagData,
};
use crate::database::{tag_rows, Database, DatabaseError};
use crate::text::{all_free_of, lemma_pieces_of_terminated, pieces, terminated, texts};
use byteorder::{BigEndian, ByteOrder};
use bytes::BytesMut;
use vstd::prelude::*;
use vstd::utf8::{decode_utf8, encode_utf8, valid_utf8};

verus! {

/// The statement behind `Tag::select_tag_name`, with the name as `$1`.
pub const SELECT_TAG_NAME: &'static str = "SELECT * FROM tags WHERE name = $1";

/// The statement behind `Tag::insert_empty`, with the name as `$1` and the
/// type as `$2`.
pub const INSERT_EMPTY: &'static str = "INSERT INTO tags (name, type) VALUES ($1, $2)";

/// The statement that `Tag::update_tag_count` runs once for each tag, with
/// the name as `$1`: one statement that adds the counter or counts it up,
/// so that two uploads at once cannot lose a count.
pub const UPDATE_TAG_COUNT: &'static str =
    "INSERT INTO tags (name, count) VALUES ($1, 1) ON CONFLICT (name) DO UPDATE SET count = tags.count+1";

/// The statement behind `Tag::update_decrease_counts`, with the names as
/// `$1`.
pub const UPDATE_DECREASE_COUNTS: &'static str =
    "UPDATE tags SET count = count-1 WHERE name = ANY($1)";

/// A row of the tag counter table: how many active posts carry the tag.
#[derive(Debug, PartialEq, Eq)]
pub struct Tag {
    pub id: i64,
    pub name: String,
    pub count: i64,
    pub ty: i16,
}

impl View for Tag {
    type V = TagData;

    open spec fn view(&self) -> TagData {
        TagData { id: self.id as int, name: self.name@, count: self.count as int, ty: self.ty as int }
    }
}

impl Tag {
    /// A copy of the row.
    pub fn duplicate(&self) -> (r: Tag)
        ensures
            r@ == self@,
    {
        Tag { id: self.id, name: self.name.clone(), count: self.count, ty: self.ty }
    }

    /// The place of the counter row named `name`, if there is one.
    pub fn find(tags: &Vec<Tag>, name: &String) -> (r: Option<usize>)
        ensures
            match r {
                Some(k) => {
                    &&& k < tags@.len()
                    &&& tags@[k as int].name@ == name@
                    &&& forall|j: int| 0 <= j < k ==> (#[trigger] tag_rows(tags@)[j]).name != name@
                },
                None => !has_tag(tag_rows(tags@), name@),
            },
    {
        let mut k: usize = 0;
        while k < tags.len()
            invariant
                k <= tags@.len(),
                forall|j: int| 0 <= j < k ==> (#[trigger] tag_rows(tags@)[j]).name != name@,
            decreases tags@.len() - k,
        {
            if tags[k].name == *name {
                return Some(k);
            }
            k = k + 1;
        }
        None
    }

    /// The counter row of the tag `name`, for display.
    pub fn select_tag_name(db: &Database, name: &str) -> (r: Option<Tag>)
        requires
            db.wf(),
        ensures
            match r {
                Some(tag) => has_tag(db@.tags, name@) && tag@ == db@.tags[tag_place(
                    db@.tags,
                    name@,
                )],
                None => !has_tag(db@.tags, name@),
            },
    {
        let wanted: String = name.to_owned();
        match Tag::find(&db.tags, &wanted) {
            Some(k) => {
                proof {
                    lemma_tag_place(db@, name@, k as int);
                }
                Some(db.tags[k].duplicate())
            },
            None => None,
        }
    }

    /// Adds a counter row for `tag` with the count 0 and the type `ty`.
    /// Refused with `Conflict` where the tag has a row, and with
    /// `OutOfRange` when the identifiers have run out.
    pub fn insert_empty(db: &mut Database, tag: &str, ty: i16) -> (r: Result<(), DatabaseError>)
        requires
            old(db).wf(),
        ensures
            final(db).wf(),
            match r {
                Ok(_) => {
                    &&& !has_tag(old(db)@.tags, tag@)
                    &&& old(db)@.last_tag < i64::MAX
                    &&& final(db)@ == DatabaseData {
                        tags: old(db)@.tags.push(
                            TagData {
                                id: old(db)@.last_tag + 1,
                                name: tag@,
                                count: 0,
                                ty: ty as int,
                            },
                        ),
                        last_tag: old(db)@.last_tag + 1,
                        ..old(db)@
                    }
                },
                Err(e) => {
                    &&& final(db)@ == old(db)@
                    &&& e == if has_tag(old(db)@.tags, tag@) {
                        DatabaseError::Conflict
                    } else {
                        DatabaseError::OutOfRange
                    }
                    &&& has_tag(old(db)@.tags, tag@) || old(db)@.last_tag == i64::MAX
                },
            },
    {
        let name: String = tag.to_owned();
        match Tag::find(&db.tags, &name) {
            Some(k) => {
                assert(tag_rows(db.tags@)[k as int].name == tag@);
                Err(DatabaseError::Conflict)
            },
            None => {
                if db.last_tag == i64::MAX {
                    return Err(DatabaseError::OutOfRange);
                }
                let id: i64 = db.last_tag + 1;
                db.tags.push(Tag { id, name, count: 0, ty });
                db.last_tag = id;
                proof {
                    let was = old(db)@;
                    let is = db@;
                    assert(is.tags =~= was.tags.push(
                        TagData { id: was.last_tag + 1, name: tag@, count: 0, ty: ty as int },
                    ));
                    assert(is.posts =~= was.posts);
                    assert(is.users =~= was.users);
                    assert forall|i: int, j: int| 0 <= i < j < is.tags.len() implies (
                    #[trigger] is.tags[i]).name != (#[trigger] is.tags[j]).name by {
                        assert(is.tags[i] == was.tags[i]);
                        if j < was.tags.len() {
                            assert(is.tags[j] == was.tags[j]);
                        }
                    }
                    assert forall|i: int| 0 <= i < is.tags.len() implies 0 < (
                    #[trigger] is.tags[i]).id <= is.last_tag by {
                        if i < was.tags.len() {
                            assert(is.tags[i] == was.tags[i]);
                        }
                    }
                }
                Ok(())
            },
        }
    }

    /// Counts each of `tags` up by one, once for each time it is listed; a
    /// tag without a counter gets one with the count 1. Says how many rows
    /// were written. Refused with `OutOfRange`, and nothing changed, when a
    /// count or an identifier would leave its range.
    pub fn update_tag_count(db: &mut Database, tags: &[&str]) -> (r: Result<u64, DatabaseError>)
        requires
            old(db).wf(),
        ensures
            final(db).wf(),
            match r {
                Ok(written) => {
                    &&& old(db)@.count_up_fits(slices(tags@))
                    &&& written == tags@.len()
                    &&& final(db)@ == old(db)@.counted_up(slices(tags@))
                },
                Err(e) => {
                    &&& e == DatabaseError::OutOfRange
                    &&& !old(db)@.count_up_fits(slices(tags@))
                    &&& final(db)@ == old(db)@
                },
            },
    {
        let ghost names = slices(tags@);
        let mut scratch: Vec<Tag> = Vec::new();
        let mut c: usize = 0;
        while c < db.tags.len()
            invariant
                c <= db.tags@.len(),
                tag_rows(scratch@) == tag_rows(db.tags@).take(c as int),
            decreases db.tags@.len() - c,
        {
            let ghost before = tag_rows(scratch@);
            scratch.push(db.tags[c].duplicate());
            c = c + 1;
            assert(tag_rows(scratch@) =~= before.push(db.tags@[c - 1]@));
            assert(tag_rows(db.tags@).take(c as int) =~= tag_rows(db.tags@).take(c - 1).push(
                db.tags@[c - 1]@,
            ));
        }
        assert(tag_rows(db.tags@).take(c as int) =~= tag_rows(db.tags@));
        let mut last: i64 = db.last_tag;
        let mut i: usize = 0;
        assert(names.take(0) =~= Seq::<Seq<char>>::empty());
        while i < tags.len()
            invariant
                names == slices(tags@),
                i <= tags@.len(),
                old(db).wf(),
                db == old(db),
                old(db)@.count_up_fits(names.take(i as int)),
                old(db)@.counted_up(names.take(i as int)) == (DatabaseData {
                    tags: tag_rows(scratch@),
                    last_tag: last as int,
                    ..old(db)@
                }),
                old(db)@.counted_up(names.take(i as int)).wf(),
            decreases tags@.len() - i,
        {
            let name: String = tags[i].to_owned();
            let ghost at = old(db)@.counted_up(names.take(i as int));
            let ghost now = names.take(i + 1);
            assert(now.drop_last() =~= names.take(i as int));
            assert(now.last() == name@);
            proof {
                lemma_bumped_wf(at, name@);
                lemma_count_up_prefix(old(db)@, names, i + 1);
            }
            match Tag::find(&scratch, &name) {
                Some(k) => {
                    proof {
                        lemma_tag_place(at, name@, k as int);
                    }
                    if scratch[k].count == i64::MAX {
                        return Err(DatabaseError::OutOfRange);
                    }
                    let mut row = scratch[k].duplicate();
                    row.count = row.count + 1;
                    scratch.set(k, row);
                    assert(tag_rows(scratch@) =~= at.bumped(name@).tags);
                },
                None => {
                    if last == i64::MAX {
                        return Err(DatabaseError::OutOfRange);
                    }
                    last = last + 1;
                    scratch.push(Tag { id: last, name, count: 1, ty: 0 });
                    assert(tag_rows(scratch@) =~= at.bumped(name@).tags);
                },
            }
            i = i + 1;
        }
        assert(names.take(i as int) =~= names);
        db.tags = scratch;
        db.last_tag = last;
        Ok(tags.len() as u64)
    }

    /// Counts every tag among `tags` down by one. A count may go below
    /// zero. Says how many rows were written. Refused with `OutOfRange`,
    /// and nothing changed, when a count would leave its range.
    pub fn update_decrease_counts(db: &mut Database, tags: &[String]) -> (r: Result<
        u64,
        DatabaseError,
    >)
        requires
            old(db).wf(),
        ensures
            final(db).wf(),
            match r {
                Ok(written) => {
                    &&& old(db)@.count_down_fits(texts(tags@))
                    &&& written == named_rows(old(db)@.tags, texts(tags@))
                    &&& final(db)@ == old(db)@.counted_down(texts(tags@))
                },
                Err(e) => {
                    &&& e == DatabaseError::OutOfRange
                    &&& !old(db)@.count_down_fits(texts(tags@))
                    &&& final(db)@ == old(db)@
                },
            },
    {
        let ghost names = texts(tags@);
        let mut c: usize = 0;
        while c < db.tags.len()
            invariant
                db == old(db),
                db.wf(),
                names == texts(tags@),
                c <= db.tags@.len(),
                forall|k: int|
                    0 <= k < c && names.contains((#[trigger] db@.tags[k]).name) ==> db@.tags[k].count
                        > i64::MIN,
            decreases db.tags@.len() - c,
        {
            if db.tags[c].count == i64::MIN && listed(tags, &db.tags[c].name) {
                assert(names.contains(db@.tags[c as int].name));
                return Err(DatabaseError::OutOfRange);
            }
            c = c + 1;
        }
        let mut written: u64 = 0;
        let mut k: usize = 0;
        assert(old(db)@.tags.take(0) =~= Seq::<TagData>::empty());
        while k < db.tags.len()
            invariant
                names == texts(tags@),
                old(db).wf(),
                old(db)@.count_down_fits(names),
                k <= db.tags@.len(),
                db.tags@.len() == old(db).tags@.len(),
                db.posts == old(db).posts,
                db.users == old(db).users,
                db.last_post == old(db).last_post,
                db.last_tag == old(db).last_tag,
                db.last_user == old(db).last_user,
                written == named_rows(old(db)@.tags.take(k as int), names),
                written <= k,
                forall|j: int|
                    0 <= j < k ==> (#[trigger] db@.tags[j]) == old(db)@.counted_down(names).tags[j],
                forall|j: int| k <= j < db.tags@.len() ==> (#[trigger] db@.tags[j]) == old(db)@.tags[j],
            decreases db.tags@.len() - k,
        {
            let ghost now = old(db)@.tags.take(k + 1);
            let ghost before = db@.tags;
            assert(now.drop_last() =~= old(db)@.tags.take(k as int));
            assert(now.last() == old(db)@.tags[k as int]);
            assert(before[k as int] == old(db)@.tags[k as int]);
            if listed(tags, &db.tags[k].name) {
                let mut row = db.tags[k].duplicate();
                row.count = row.count - 1;
                db.tags.set(k, row);
                written = written + 1;
            }
            proof {
                let down = old(db)@.counted_down(names).tags;
                assert(db@.tags[k as int] == down[k as int]);
                assert forall|j: int| 0 <= j < k implies (#[trigger] db@.tags[j]) == down[j] by {
                    assert(db@.tags[j] == before[j]);
                }
                assert forall|j: int| k + 1 <= j < db.tags@.len() implies (#[trigger] db@.tags[j])
                    == old(db)@.tags[j] by {
                    assert(db@.tags[j] == before[j]);
                }
            }
            k = k + 1;
        }
        proof {
            assert(old(db)@.tags.take(k as int) =~= old(db)@.tags);
            let was = old(db)@;
            let is = db@;
            assert(is.tags =~= was.counted_down(names).tags);
            assert forall|i: int, j: int| 0 <= i < j < is.tags.len() implies (
            #[trigger] is.tags[i]).name != (#[trigger] is.tags[j]).name by {
                assert(is.tags[i].name == was.tags[i].name);
                assert(is.tags[j].name == was.tags[j].name);
            }
            assert forall|i: int| 0 <= i < is.tags.len() implies 0 < (#[trigger] is.tags[i]).id
                <= is.last_tag by {
                assert(is.tags[i].id == was.tags[i].id);
            }
        }
        Ok(written)
    }
}

/// Whether `name` is one of `names`.
pub fn listed(names: &[String], name: &String) -> (b: bool)
    ensures
        b == texts(names@).contains(name@),
{
    let mut k: usize = 0;
    while k < names.len()
        invariant
            k <= names@.len(),
            forall|j: int| 0 <= j < k ==> texts(names@)[j] != name@,
        decreases names@.len() - k,
    {
        if names[k] == *name {
            assert(texts(names@)[k as int] == name@);
            return true;
        }
        k = k + 1;
    }
    false
}

/// Counting up a list of names counts up each shorter list first.
proof fn lemma_count_up_prefix(db: DatabaseData, names: Seq<Seq<char>>, n: int)
    requires
        0 <= n <= names.len(),
    ensures
        !db.count_up_fits(names.take(n)) ==> !db.count_up_fits(names),
    decreases names.len() - n,
{
    if n < names.len() {
        lemma_count_up_prefix(db, names, n + 1);
        assert(names.take(n + 1).drop_last() =~= names.take(n));
    } else {
        assert(names.take(n) =~= names);
    }
}

/// Why a packed tag index could not be read.
#[derive(Debug, Clone, Copy, PartialEq, Eq, Structural)]
pub enum DecodeError {
    /// The buffer ends before the structure it declares.
    Truncated,
    /// A lexeme is not valid UTF-8.
    InvalidUtf8,
}

/// The number that the first two bytes of `b` spell, most significant first.
pub open spec fn be_u16(b: Seq<u8>) -> int
    recommends
        b.len() >= 2,
{
    b[0] as int * 256 + b[1] as int
}

/// The number that the first four bytes of `b` spell, most significant first.
pub open spec fn be_u32(b: Seq<u8>) -> int
    recommends
        b.len() >= 4,
{
    ((b[0] as int * 256 + b[1] as int) * 256 + b[2] as int) * 256 + b[3] as int
}

/// `byteorder::BigEndian::read_u16` reads the first two bytes of `buf` as a
/// big-endian number. It panics on a shorter buffer, which `requires` rules out.
#[verifier::external_body]
fn read_u16(buf: &[u8]) -> (n: u16)
    requires
        buf@.len() >= 2,
    ensures
        n as int == be_u16(buf@),
{
    BigEndian::read_u16(buf)
}

/// `byteorder::BigEndian::read_u32` reads the first four bytes of `buf` as a
/// big-endian number. It panics on a shorter buffer, which `requires` rules out.
#[verifier::external_body]
fn read_u32(buf: &[u8]) -> (n: u32)
    requires
        buf@.len() >= 4,
    ensures
        n as int == be_u32(buf@),
{
    BigEndian::read_u32(buf)
}

/// `std::str::from_utf8` accepts exactly the byte strings that are valid
/// UTF-8 and returns them as text.
#[verifier::external_body]
fn str_from_utf8(bytes: &[u8]) -> (r: Option<&str>)
    ensures
        r is Some <==> valid_utf8(bytes@),
        r is Some ==> r->0@ == decode_utf8(bytes@),
{
    match std::str::from_utf8(bytes) {
        Ok(s) => Some(s),
        Err(_) => None,
    }
}

/// The views of a sequence of string slices, in order.
pub open spec fn slices(v: Seq<&str>) -> Seq<Seq<char>> {
    Seq::new(v.len(), |i: int| v[i]@)
}

/// The offset of the first zero byte at or after `from`; the length of `b`
/// if there is none.
pub open spec fn nul_from(b: Seq<u8>, from: int) -> int
    decreases b.len() - from,
{
    if from < 0 || from >= b.len() {
        b.len() as int
    } else if b[from] == 0 {
        from
    } else {
        nul_from(b, from + 1)
    }
}

/// `lexemes` put in front of what a later part of the buffer decodes to.
pub open spec fn after(lexemes: Seq<Seq<char>>, rest: Result<Seq<Seq<char>>, DecodeError>) -> Result<
    Seq<Seq<char>>,
    DecodeError,
> {
    match rest {
        Ok(more) => Ok(lexemes + more),
        Err(e) => Err(e),
    }
}

/// What `count` entries starting at offset `at` decode to. An entry is a
/// lexeme in UTF-8 closed by a zero byte, a big-endian 16-bit number of
/// positions, and two bytes for each position, which are passed over.
pub open spec fn decode_entries(b: Seq<u8>, at: int, count: nat) -> Result<
    Seq<Seq<char>>,
    DecodeError,
>
    decreases count,
{
    if count == 0 {
        Ok(Seq::empty())
    } else {
        let end = nul_from(b, at);
        if end >= b.len() {
            Err(DecodeError::Truncated)
        } else if !valid_utf8(b.subrange(at, end)) {
            Err(DecodeError::InvalidUtf8)
        } else if end + 3 > b.len() {
            Err(DecodeError::Truncated)
        } else {
            let next = end + 3 + 2 * be_u16(b.subrange(end + 1, end + 3));
            if next > b.len() {
                Err(DecodeError::Truncated)
            } else {
                after(
                    seq![decode_utf8(b.subrange(at, end))],
                    decode_entries(b, next, (count - 1) as nat),
                )
            }
        }
    }
}

/// What a packed tag index decodes to: a big-endian 32-bit number of
/// entries, then the entries. Bytes behind the last entry are ignored.
pub open spec fn decode_tsvector(b: Seq<u8>) -> Result<Seq<Seq<char>>, DecodeError> {
    if b.len() < 4 {
        Err(DecodeError::Truncated)
    } else {
        decode_entries(b, 4, be_u32(b) as nat)
    }
}

/// Putting lexemes in front is associative.
proof fn lemma_after_after(
    a: Seq<Seq<char>>,
    b: Seq<Seq<char>>,
    rest: Result<Seq<Seq<char>>, DecodeError>,
)
    ensures
        after(a, after(b, rest)) == after(a + b, rest),
{
    match rest {
        Ok(more) => {
            assert(a + (b + more) =~= (a + b) + more);
        },
        Err(_) => {},
    }
}

/// Reads the lexemes of a packed tag index, in the order they are stored.
pub fn tsvector_from_sql<'a>(raw: &'a [u8]) -> (r: Result<Vec<&'a str>, DecodeError>)
    ensures
        match r {
            Ok(tags) => decode_tsvector(raw@) == Ok::<Seq<Seq<char>>, DecodeError>(slices(tags@)),
            Err(e) => decode_tsvector(raw@) == Err::<Seq<Seq<char>>, DecodeError>(e),
        },
{
    let len: usize = raw.len();
    if len < 4 {
        return Err(DecodeError::Truncated);
    }
    let expected: u32 = read_u32(raw);
    let mut tags: Vec<&'a str> = Vec::new();
    let mut i: usize = 4;
    let mut read: u32 = 0;
    assert(slices(tags@) =~= Seq::<Seq<char>>::empty());
    proof {
        lemma_after_after(
            Seq::empty(),
            Seq::empty(),
            decode_entries(raw@, 4, expected as nat),
        );
        assert(Seq::<Seq<char>>::empty() + Seq::<Seq<char>>::empty() =~= Seq::<
            Seq<char>,
        >::empty());
    }
    while read < expected
        invariant
            len == raw@.len(),
            4 <= i <= len,
            read <= expected,
            read == tags@.len(),
            decode_tsvector(raw@) == after(
                slices(tags@),
                decode_entries(raw@, i as int, (expected - read) as nat),
            ),
        decreases expected - read,
    {
        let mut j: usize = i;
        while j < len && raw[j] != 0
            invariant
                len == raw@.len(),
                i <= j <= len,
                nul_from(raw@, i as int) == nul_from(raw@, j as int),
            decreases len - j,
        {
            j = j + 1;
        }
        if j >= len {
            return Err(DecodeError::Truncated);
        }
        let lexeme = match str_from_utf8(&raw[i..j]) {
            Some(s) => s,
            None => {
                return Err(DecodeError::InvalidUtf8);
            },
        };
        if len - j < 3 {
            return Err(DecodeError::Truncated);
        }
        let positions: u16 = read_u16(&raw[j + 1..j + 3]);
        let skipped: usize = 2 * (positions as usize);
        if len - (j + 3) < skipped {
            return Err(DecodeError::Truncated);
        }
        let ghost before = slices(tags@);
        let ghost start = i as int;
        tags.push(lexeme);
        i = j + 3 + skipped;
        read = read + 1;
        proof {
            assert(slices(tags@) =~= before + seq![lexeme@]);
            lemma_after_after(
                before,
                seq![lexeme@],
                decode_entries(raw@, i as int, (expected - read) as nat),
            );
        }
    }
    assert(slices(tags@) + Seq::<Seq<char>>::empty() =~= slices(tags@));
    Ok(tags)
}

/// The tags of a post, as the full-text index of the store lists them.
#[derive(Debug, PartialEq, Eq)]
pub struct TagVector(pub Vec<String>);

impl View for TagVector {
    type V = Seq<Seq<char>>;

    open spec fn view(&self) -> Seq<Seq<char>> {
        texts(self.0@)
    }
}

/// The text that stands for a tag list on the way to the store, which
/// turns it into an index: each tag with a comma behind it.
pub open spec fn tag_text(tags: Seq<Seq<char>>) -> Seq<char> {
    terminated(tags, ',')
}

/// The UTF-8 encoding of two texts in a row is that of the first and then
/// that of the second.
pub proof fn lemma_encode_concat(a: Seq<char>, b: Seq<char>)
    ensures
        encode_utf8(a + b) == encode_utf8(a) + encode_utf8(b),
    decreases a.len(),
{
    if a.len() == 0 {
        assert(a + b =~= b);
        assert(encode_utf8(a) + encode_utf8(b) =~= encode_utf8(b));
    } else {
        lemma_encode_concat(a.drop_first(), b);
        assert((a + b).drop_first() =~= a.drop_first() + b);
        assert(encode_utf8(a + b) =~= encode_utf8(a) + encode_utf8(b));
    }
}

/// The comma is one byte in UTF-8.
proof fn lemma_encode_comma()
    ensures
        encode_utf8(seq![',']) == seq![44u8],
{
    let s = ',' as u32;
    let text = seq![','];
    assert(s == 44);
    assert((44u32 & 0x7F) as u8 == 44u8) by (bit_vector);
    assert(vstd::utf8::encode_scalar(s) =~= seq![44u8]);
    assert(text[0] == ',');
    assert(text.drop_first() =~= Seq::<char>::empty());
    assert(encode_utf8(text.drop_first()) =~= Seq::<u8>::empty());
    assert(encode_utf8(text) == vstd::utf8::encode_scalar(text[0] as u32) + encode_utf8(
        text.drop_first(),
    ));
    assert(encode_utf8(text) =~= seq![44u8]);
}

/// `bytes::BytesMut`: a buffer of bytes that grows as bytes are put into
/// it. Nothing is said of what is inside but through `written`.
#[verifier::external_type_specification]
#[verifier::external_body]
pub struct ExBytesMut(BytesMut);

/// The bytes that a buffer holds.
pub uninterp spec fn written(buf: BytesMut) -> Seq<u8>;

/// `bytes::BufMut::put_slice` on a `BytesMut` appends `src` to the buffer,
/// which grows as needed.
#[verifier::external_body]
fn put_slice(buf: &mut BytesMut, src: &[u8])
    ensures
        written(*final(buf)) == written(*old(buf)) + src@,
{
    bytes::BufMut::put_slice(buf, src)
}

impl TagVector {
    /// Reads a tag list from the packed index of the store.
    pub fn from_sql(raw: &[u8]) -> (r: Result<TagVector, DecodeError>)
        ensures
            match r {
                Ok(tags) => decode_tsvector(raw@) == Ok::<Seq<Seq<char>>, DecodeError>(tags@),
                Err(e) => decode_tsvector(raw@) == Err::<Seq<Seq<char>>, DecodeError>(e),
            },
    {
        match tsvector_from_sql(raw) {
            Ok(lexemes) => {
                let mut tags: Vec<String> = Vec::new();
                let mut i: usize = 0;
                while i < lexemes.len()
                    invariant
                        i <= lexemes@.len(),
                        texts(tags@) == slices(lexemes@).take(i as int),
                    decreases lexemes@.len() - i,
                {
                    let ghost before = texts(tags@);
                    tags.push(lexemes[i].to_owned());
                    i = i + 1;
                    assert(texts(tags@) =~= before.push(lexemes@[i - 1]@));
                    assert(slices(lexemes@).take(i as int) =~= slices(lexemes@).take(i - 1).push(
                        lexemes@[i - 1]@,
                    ));
                }
                assert(slices(lexemes@).take(i as int) =~= slices(lexemes@));
                Ok(TagVector(tags))
            },
            Err(e) => Err(e),
        }
    }

    /// Writes the tag list to `w` as the text that the store takes it in
    /// as, in UTF-8.
    pub fn to_sql(&self, w: &mut BytesMut)
        ensures
            written(*final(w)) == written(*old(w)) + encode_utf8(tag_text(self@)),
    {
        let mut i: usize = 0;
        assert(self@.take(0) =~= Seq::<Seq<char>>::empty());
        assert(encode_utf8(tag_text(self@.take(0))) =~= Seq::<u8>::empty());
        while i < self.0.len()
            invariant
                i <= self.0@.len(),
                written(*w) == written(*old(w)) + encode_utf8(tag_text(self@.take(i as int))),
            decreases self.0@.len() - i,
        {
            put_slice(w, self.0[i].as_str().as_bytes());
            let comma: [u8; 1] = [44u8];
            put_slice(w, comma.as_slice());
            i = i + 1;
            proof {
                let had = self@.take(i - 1);
                let now = self@.take(i as int);
                let tag = self.0@[i - 1]@;
                assert(now.drop_last() =~= had);
                assert(now.last() == tag);
                assert(comma@ =~= seq![44u8]);
                lemma_encode_comma();
                lemma_encode_concat(tag_text(had) + tag, seq![',']);
                lemma_encode_concat(tag_text(had), tag);
                assert(written(*w) =~= written(*old(w)) + encode_utf8(tag_text(now)));
            }
        }
        assert(self@.take(i as int) =~= self@);
    }
}

/// The two bytes that spell `n`, most significant first.
pub open spec fn u16_bytes(n: int) -> Seq<u8> {
    seq![(n / 256) as u8, (n % 256) as u8]
}

/// The four bytes that spell `n`, most significant first.
pub open spec fn u32_bytes(n: int) -> Seq<u8> {
    seq![
        (n / 256 / 256 / 256) as u8,
        (n / 256 / 256 % 256) as u8,
        (n / 256 % 256) as u8,
        (n % 256) as u8,
    ]
}

/// The bytes of the positions of an entry: two for each.
pub open spec fn position_bytes(positions: Seq<u16>) -> Seq<u8>
    decreases positions.len(),
{
    if positions.len() == 0 {
        Seq::empty()
    } else {
        u16_bytes(positions[0] as int) + position_bytes(positions.drop_first())
    }
}

/// An entry of a packed index: a lexeme and the positions it stands at.
pub type Entry = (Seq<char>, Seq<u16>);

/// The bytes of one entry: the lexeme in UTF-8, a zero byte, the number
/// of positions, and the positions.
pub open spec fn packed_entry(entry: Entry) -> Seq<u8> {
    encode_utf8(entry.0) + seq![0u8] + u16_bytes(entry.1.len() as int) + position_bytes(entry.1)
}

/// The bytes of the entries, one after the other.
pub open spec fn packed_entries(entries: Seq<Entry>) -> Seq<u8>
    decreases entries.len(),
{
    if entries.len() == 0 {
        Seq::empty()
    } else {
        packed_entry(entries[0]) + packed_entries(entries.drop_first())
    }
}

/// The packed index that holds the entries: their number, then the
/// entries.
pub open spec fn packed(entries: Seq<Entry>) -> Seq<u8> {
    u32_bytes(entries.len() as int) + packed_entries(entries)
}

/// The lexemes of the entries, in order.
pub open spec fn lexemes(entries: Seq<Entry>) -> Seq<Seq<char>> {
    Seq::new(entries.len(), |k: int| entries[k].0)
}

/// Whether the entries can be packed: their number and the number of
/// positions of each fit their fields, and no lexeme holds the character
/// that closes a lexeme.
pub open spec fn packable(entries: Seq<Entry>) -> bool {
    &&& entries.len() <= u32::MAX
    &&& forall|k: int|
        0 <= k < entries.len() ==> (#[trigger] entries[k]).1.len() <= u16::MAX && no_nul(
            entries[k].0,
        )
}

/// Whether `text` is free of the character with the code 0.
pub open spec fn no_nul(text: Seq<char>) -> bool {
    forall|i: int| 0 <= i < text.len() ==> #[trigger] text[i] != '\0'
}

/// The UTF-8 encoding of a character other than the one with the code 0
/// holds no zero byte.
proof fn lemma_scalar_no_zero(c: char)
    requires
        c != '\0',
    ensures
        forall|j: int|
            0 <= j < vstd::utf8::encode_scalar(c as u32).len() ==> #[trigger] vstd::utf8::encode_scalar(
                c as u32,
            )[j] != 0,
{
    let s = c as u32;
    vstd::utf8::char_is_scalar(c);
    assert(s != 0);
    if s <= 0x7F {
        assert((s & 0x7F) as u8 != 0) by (bit_vector)
            requires
                1 <= s <= 0x7F,
        ;
    }
    assert(0xC0u8 | ((s >> 6) & 0x1F) as u8 != 0) by (bit_vector);
    assert(0xE0u8 | ((s >> 12) & 0x0F) as u8 != 0) by (bit_vector);
    assert(0xF0u8 | ((s >> 18) & 0x7) as u8 != 0) by (bit_vector);
    assert(0x80u8 | (s & 0x3F) as u8 != 0) by (bit_vector);
    assert(0x80u8 | ((s >> 6) & 0x3F) as u8 != 0) by (bit_vector);
    assert(0x80u8 | ((s >> 12) & 0x3F) as u8 != 0) by (bit_vector);
}

/// The UTF-8 encoding of a text without the character with the code 0
/// holds no zero byte.
proof fn lemma_encode_no_zero(text: Seq<char>)
    requires
        no_nul(text),
    ensures
        forall|j: int| 0 <= j < encode_utf8(text).len() ==> #[trigger] encode_utf8(text)[j] != 0,
    decreases text.len(),
{
    if text.len() > 0 {
        let head = vstd::utf8::encode_scalar(text[0] as u32);
        let rest = text.drop_first();
        assert(no_nul(rest)) by {
            assert forall|i: int| 0 <= i < rest.len() implies #[trigger] rest[i] != '\0' by {
                assert(rest[i] == text[i + 1]);
            }
        }
        lemma_scalar_no_zero(text[0]);
        lemma_encode_no_zero(rest);
        assert forall|j: int| 0 <= j < encode_utf8(text).len() implies #[trigger] encode_utf8(
            text,
        )[j] != 0 by {
            if j < head.len() {
                assert(encode_utf8(text)[j] == head[j]);
            } else {
                assert(encode_utf8(text)[j] == encode_utf8(rest)[j - head.len()]);
            }
        }
    }
}

/// The first zero byte behind a stretch without one is found at its end.
proof fn lemma_nul_from(b: Seq<u8>, from: int, end: int)
    requires
        0 <= from <= end < b.len(),
        forall|i: int| from <= i < end ==> #[trigger] b[i] != 0,
        b[end] == 0,
    ensures
        nul_from(b, from) == end,
    decreases end - from,
{
    if from < end {
        lemma_nul_from(b, from + 1, end);
    }
}

/// The positions of an entry take two bytes each.
proof fn lemma_position_bytes(positions: Seq<u16>)
    ensures
        position_bytes(positions).len() == 2 * positions.len(),
    decreases positions.len(),
{
    if positions.len() > 0 {
        lemma_position_bytes(positions.drop_first());
    }
}

/// Entries that stand in a buffer decode to their lexemes, whatever
/// stands in front of them and behind them.
proof fn lemma_decode_entries(front: Seq<u8>, entries: Seq<Entry>, back: Seq<u8>)
    requires
        packable(entries),
    ensures
        decode_entries(
            front + packed_entries(entries) + back,
            front.len() as int,
            entries.len(),
        ) == Ok::<Seq<Seq<char>>, DecodeError>(lexemes(entries)),
    decreases entries.len(),
{
    let b = front + packed_entries(entries) + back;
    let at = front.len() as int;
    if entries.len() == 0 {
        assert(lexemes(entries) =~= Seq::<Seq<char>>::empty());
    } else {
        let entry = entries[0];
        let rest = entries.drop_first();
        let text = encode_utf8(entry.0);
        let end = at + text.len();
        let count = entry.1.len() as int;
        assert(packable(rest)) by {
            assert forall|k: int| 0 <= k < rest.len() implies (#[trigger] rest[k]).1.len()
                <= u16::MAX && no_nul(rest[k].0) by {
                assert(rest[k] == entries[k + 1]);
            }
        }
        lemma_position_bytes(entry.1);
        lemma_encode_no_zero(entry.0);
        let one = packed_entry(entry);
        assert(one.len() == text.len() + 3 + 2 * count);
        assert forall|i: int| at <= i < end implies #[trigger] b[i] != 0 by {
            assert(b[i] == text[i - at]);
        }
        assert(b[end] == 0);
        lemma_nul_from(b, at, end);
        assert(b.subrange(at, end) =~= text);
        vstd::utf8::encode_utf8_valid_utf8(entry.0);
        vstd::utf8::encode_utf8_decode_utf8(entry.0);
        assert(b.subrange(end + 1, end + 3) =~= u16_bytes(count));
        assert(be_u16(u16_bytes(count)) == count);
        let next = end + 3 + 2 * count;
        assert(next == at + one.len());
        assert(b =~= (front + one) + packed_entries(rest) + back);
        lemma_decode_entries(front + one, rest, back);
        assert(seq![entry.0] + lexemes(rest) =~= lexemes(entries));
    }
}

/// Reading is the inverse of packing: a packed index decodes to the
/// lexemes of its entries, in their order, whatever their positions and
/// whatever follows the last entry.
pub proof fn law_decode_packed(entries: Seq<Entry>, back: Seq<u8>)
    requires
        packable(entries),
    ensures
        decode_tsvector(packed(entries) + back) == Ok::<Seq<Seq<char>>, DecodeError>(
            lexemes(entries),
        ),
{
    let n = entries.len() as int;
    let head = u32_bytes(n);
    let b = packed(entries) + back;
    assert(be_u32(head) == n);
    assert(be_u32(b) == n) by {
        assert(b[0] == head[0]);
        assert(b[1] == head[1]);
        assert(b[2] == head[2]);
        assert(b[3] == head[3]);
    }
    assert(b =~= head + packed_entries(entries) + back);
    lemma_decode_entries(head, entries, back);
}

/// What the store is sent of the tags of a post comes back from it, as a
/// set: take tags that hold no comma, and an index with one entry or more
/// for each piece that the commas cut their text into and for nothing
/// else, in any order and with any positions. The index decodes to the
/// tags.
pub proof fn law_round_trip(tags: Seq<Seq<char>>, entries: Seq<Entry>)
    requires
        all_free_of(tags, ','),
        packable(entries),
        lexemes(entries).to_set() == pieces(tag_text(tags), ',').to_set(),
    ensures
        decode_tsvector(packed(entries)) is Ok,
        decode_tsvector(packed(entries))->Ok_0.to_set() == tags.to_set(),
{
    lemma_pieces_of_terminated(tags, ',');
    law_decode_packed(entries, Seq::empty());
    assert(packed(entries) + Seq::<u8>::empty() =~= packed(entries));
}

} // verus!
