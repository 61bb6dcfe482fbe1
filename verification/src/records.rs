//! The rows the store holds and the value objects the operations take
//! and return.
//!
//! Timestamps are plain milliseconds supplied by the caller; identifiers
//! are the store's own ascending integers.

use vstd::prelude::*;

verus! {

/// A blog post row.
pub struct PostRecord {
    pub id: i32,
    pub title: String,
    pub slug: String,
    pub content_md: String,
    pub summary: String,
    pub published: bool,
    pub created_at: u64,
    pub updated_at: u64,
}

impl Clone for PostRecord {
    fn clone(&self) -> (r: Self)
        ensures
            r == *self,
    {
        PostRecord {
            id: self.id,
            title: self.title.clone(),
            slug: self.slug.clone(),
            content_md: self.content_md.clone(),
            summary: self.summary.clone(),
            published: self.published,
            created_at: self.created_at,
            updated_at: self.updated_at,
        }
    }
}

/// A tag row; its name and slug are unique across all tags.
pub struct TagRecord {
    pub id: i32,
    pub name: String,
    pub slug: String,
    pub created_at: u64,
}

impl Clone for TagRecord {
    fn clone(&self) -> (r: Self)
        ensures
            r == *self,
    {
        TagRecord {
            id: self.id,
            name: self.name.clone(),
            slug: self.slug.clone(),
            created_at: self.created_at,
        }
    }
}

/// A post-tag association row; it has no identity beyond the pair.
#[derive(Clone, Copy, PartialEq, Eq, Structural)]
pub struct PostTagRecord {
    pub post_id: i32,
    pub tag_id: i32,
}

/// The moderation state of a comment.
#[derive(Clone, Copy, PartialEq, Eq, Structural, Debug)]
pub enum CommentStatus {
    Pending,
    Approved,
    Rejected,
}

/// The status a textual status value names, if any: only the three
/// moderation states are legal.
pub open spec fn spec_parse_status(s: Seq<char>) -> Option<CommentStatus> {
    if s == "pending"@ {
        Some(CommentStatus::Pending)
    } else if s == "approved"@ {
        Some(CommentStatus::Approved)
    } else if s == "rejected"@ {
        Some(CommentStatus::Rejected)
    } else {
        None
    }
}

/// The textual form of a moderation state.
pub open spec fn spec_status_str(s: CommentStatus) -> Seq<char> {
    match s {
        CommentStatus::Pending => "pending"@,
        CommentStatus::Approved => "approved"@,
        CommentStatus::Rejected => "rejected"@,
    }
}

impl CommentStatus {
    /// Parses a caller-supplied status value; anything but the three
    /// known states is rejected.
    pub fn parse(s: &str) -> (r: Option<CommentStatus>)
        ensures
            r == spec_parse_status(s@),
    {
        if crate::text::str_eq(s, "pending") {
            Some(CommentStatus::Pending)
        } else if crate::text::str_eq(s, "approved") {
            Some(CommentStatus::Approved)
        } else if crate::text::str_eq(s, "rejected") {
            Some(CommentStatus::Rejected)
        } else {
            None
        }
    }

    /// The textual form this status is stored and transmitted as.
    pub fn as_str(&self) -> (r: &'static str)
        ensures
            r@ == spec_status_str(*self),
    {
        match self {
            CommentStatus::Pending => "pending",
            CommentStatus::Approved => "approved",
            CommentStatus::Rejected => "rejected",
        }
    }
}

/// A comment row, owned by a post and cascading with it.
pub struct CommentRecord {
    pub id: i32,
    pub post_id: i32,
    pub nickname: String,
    pub email: String,
    pub content: String,
    pub status: CommentStatus,
    pub created_at: u64,
}

impl Clone for CommentRecord {
    fn clone(&self) -> (r: Self)
        ensures
            r == *self,
    {
        CommentRecord {
            id: self.id,
            post_id: self.post_id,
            nickname: self.nickname.clone(),
            email: self.email.clone(),
            content: self.content.clone(),
            status: self.status,
            created_at: self.created_at,
        }
    }
}

/// A blogroll link row.
pub struct LinkRecord {
    pub id: i32,
    pub name: String,
    pub url: String,
    pub description: Option<String>,
    pub created_at: u64,
    pub updated_at: u64,
}

impl Clone for LinkRecord {
    fn clone(&self) -> (r: Self)
        ensures
            r == *self,
    {
        LinkRecord {
            id: self.id,
            name: self.name.clone(),
            url: self.url.clone(),
            description: match &self.description {
                Some(d) => Some(d.clone()),
                None => None,
            },
            created_at: self.created_at,
            updated_at: self.updated_at,
        }
    }
}

/// A post together with its resolved tags, in the order the write
/// supplied them.
pub struct PostWithTags {
    pub post: PostRecord,
    pub tags: Vec<TagRecord>,
}

/// The values a post creation supplies.
pub struct CreatePostDto {
    pub title: String,
    pub content_md: String,
    pub tags: Vec<String>,
    pub published: bool,
}

/// A post patch; absent fields leave the stored value untouched.
pub struct UpdatePostDto {
    pub title: Option<String>,
    pub content_md: Option<String>,
    pub tags: Option<Vec<String>>,
    pub published: Option<bool>,
}

/// The values a comment creation supplies.
pub struct CreateCommentDto {
    pub post_id: i32,
    pub nickname: String,
    pub email: String,
    pub content: String,
}

/// A requested comment-status transition, still unparsed.
pub struct UpdateCommentStatusDto {
    pub status: String,
}

/// The values a link creation supplies.
pub struct CreateLinkDto {
    pub name: String,
    pub url: String,
    pub description: Option<String>,
}

/// A link patch; the description always replaces the stored one.
pub struct UpdateLinkDto {
    pub name: Option<String>,
    pub url: Option<String>,
    pub description: Option<String>,
}

} // verus!
