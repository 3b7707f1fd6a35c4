use vstd::prelude::*;

verus! {

/// What a user may do.
#[derive(Debug, Clone, Copy, PartialEq, Eq, Structural)]
pub enum Perms {
    Guest,
    User,
    Moderator,
    Admin,
}

impl Perms {
    /// Moderators and administrators may act on other users' posts.
    pub open spec fn is_staff(self) -> bool {
        self == Perms::Moderator || self == Perms::Admin
    }

    /// Whether this level is moderator or administrator.
    pub fn staff(&self) -> (b: bool)
        ensures
            b == self.is_staff(),
    {
        match self {
            Perms::Moderator => true,
            Perms::Admin => true,
            _ => false,
        }
    }
}

/// Content rating of a post.
#[derive(Debug, Clone, Copy, PartialEq, Eq, Structural)]
pub enum Rating {
    Safe,
    Sketchy,
    Explicit,
}

impl Default for Rating {
    fn default() -> (r: Rating)
        ensures
            r == Rating::Sketchy,
    {
        Rating::Sketchy
    }
}

/// The image formats a post may be stored in.
#[derive(Debug, Clone, Copy, PartialEq, Eq, Structural)]
pub enum ImageExtension {
    Bmp,
    Gif,
    Jpg,
    Png,
    Tiff,
    Webp,
}

/// The four orders in which a search can list posts.
#[derive(Debug, Clone, Copy, PartialEq, Eq, Structural)]
pub enum PostSorting {
    DateAscending,
    DateDescending,
    VoteAscending,
    VoteDescending,
}

impl PostSorting {
    /// The `ORDER BY` clause of this order. Each order ends on the
    /// identifier, so no two posts ever compare equal.
    pub open spec fn clause(self) -> Seq<char> {
        match self {
            PostSorting::DateAscending => "ORDER BY create_date ASC, id ASC"@,
            PostSorting::DateDescending => "ORDER BY create_date DESC, id DESC"@,
            PostSorting::VoteAscending => "ORDER BY score ASC, id ASC"@,
            PostSorting::VoteDescending => "ORDER BY score DESC, id DESC"@,
        }
    }

    /// Whether this order lists smaller keys first.
    pub open spec fn ascending(self) -> bool {
        self == PostSorting::DateAscending || self == PostSorting::VoteAscending
    }

    /// Whether this order goes by creation date (else by score).
    pub open spec fn by_date(self) -> bool {
        self == PostSorting::DateAscending || self == PostSorting::DateDescending
    }

    pub fn to_sql(&self) -> (s: &'static str)
        ensures
            s@ == self.clause(),
    {
        match self {
            PostSorting::DateAscending => "ORDER BY create_date ASC, id ASC",
            PostSorting::DateDescending => "ORDER BY create_date DESC, id DESC",
            PostSorting::VoteAscending => "ORDER BY score ASC, id ASC",
            PostSorting::VoteDescending => "ORDER BY score DESC, id DESC",
        }
    }
}

} // verus!
