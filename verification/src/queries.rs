//! The plain values the request layer hands in and gets back, with the
//! small arithmetic the handlers perform: paging defaults and the total
//! page count.

use vstd::prelude::*;
use vstd::string::StringExecFns;
use crate::records::{CommentRecord, CreateCommentDto, LinkRecord, PostWithTags, TagRecord};

verus! {

/// The number of pages `total` rows make at `limit` rows per page.
pub open spec fn spec_total_pages(total: int, limit: int) -> int {
    (total + (limit - 1)) / limit
}

/// Computes the page count a listing response reports.
pub fn total_pages(total: u64, limit: u64) -> (r: u64)
    requires
        limit >= 1,
        total + limit - 1 <= u64::MAX,
    ensures
        r == spec_total_pages(total as int, limit as int),
{
    (total + (limit - 1)) / limit
}

/// Paging query parameters; absent values fall back to the first page of
/// ten rows.
pub struct PostQuery {
    pub page: Option<u64>,
    pub limit: Option<u64>,
}

impl PostQuery {
    /// The page requested, defaulting to the first.
    pub fn effective_page(&self) -> (r: u64)
        ensures
            r == (match self.page {
                Some(p) => p,
                None => 1u64,
            }),
    {
        match self.page {
            Some(p) => p,
            None => 1,
        }
    }

    /// The page size requested, defaulting to ten.
    pub fn effective_limit(&self) -> (r: u64)
        ensures
            r == (match self.limit {
                Some(l) => l,
                None => 10u64,
            }),
    {
        match self.limit {
            Some(l) => l,
            None => 10,
        }
    }
}

/// A page of posts with the paging bookkeeping the index response
/// carries.
pub struct PostsResponse {
    pub posts: Vec<PostWithTags>,
    pub total: u64,
    pub page: u64,
    pub limit: u64,
    pub total_pages: u64,
}

impl PostsResponse {
    /// Assembles the response around a fetched page.
    pub fn new(posts: Vec<PostWithTags>, total: u64, page: u64, limit: u64) -> (r: PostsResponse)
        requires
            limit >= 1,
            total + limit - 1 <= u64::MAX,
        ensures
            r.posts == posts,
            r.total == total,
            r.page == page,
            r.limit == limit,
            r.total_pages == spec_total_pages(total as int, limit as int),
    {
        let tp = total_pages(total, limit);
        PostsResponse { posts, total, page, limit, total_pages: tp }
    }
}

/// Comment listing query parameters: paging plus an optional status
/// filter.
pub struct CommentQuery {
    pub page: Option<u64>,
    pub limit: Option<u64>,
    pub status: Option<String>,
}

impl CommentQuery {
    /// The page requested, defaulting to the first.
    pub fn effective_page(&self) -> (r: u64)
        ensures
            r == (match self.page {
                Some(p) => p,
                None => 1u64,
            }),
    {
        match self.page {
            Some(p) => p,
            None => 1,
        }
    }

    /// The page size requested, defaulting to ten.
    pub fn effective_limit(&self) -> (r: u64)
        ensures
            r == (match self.limit {
                Some(l) => l,
                None => 10u64,
            }),
    {
        match self.limit {
            Some(l) => l,
            None => 10,
        }
    }
}

/// A new comment as the wire hands it in; the nickname is optional.
pub struct CreateCommentRequest {
    pub nickname: Option<String>,
    pub email: String,
    pub content: String,
}

impl CreateCommentRequest {
    /// Shapes the request into the store's comment values, defaulting an
    /// absent nickname to the anonymous token.
    pub fn into_dto(self, post_id: i32) -> (r: CreateCommentDto)
        ensures
            r.post_id == post_id,
            r.email@ == self.email@,
            r.content@ == self.content@,
            r.nickname@ == (match self.nickname {
                Some(n) => n@,
                None => "\u{533f}\u{540d}"@,
            }),
    {
        let nickname = match self.nickname {
            Some(n) => n,
            None => String::from_str("\u{533f}\u{540d}"),
        };
        CreateCommentDto { post_id, nickname, email: self.email, content: self.content }
    }
}

/// A requested comment-status transition as the wire hands it in.
pub struct UpdateCommentStatusRequest {
    pub status: String,
}

/// A page of comments with its paging bookkeeping.
pub struct CommentsResponse {
    pub comments: Vec<CommentRecord>,
    pub total: u64,
    pub page: u64,
    pub limit: u64,
    pub total_pages: u64,
}

impl CommentsResponse {
    /// Assembles the response around a fetched page.
    pub fn new(comments: Vec<CommentRecord>, total: u64, page: u64, limit: u64) -> (r:
        CommentsResponse)
        requires
            limit >= 1,
            total + limit - 1 <= u64::MAX,
        ensures
            r.comments == comments,
            r.total == total,
            r.page == page,
            r.limit == limit,
            r.total_pages == spec_total_pages(total as int, limit as int),
    {
        let tp = total_pages(total, limit);
        CommentsResponse { comments, total, page, limit, total_pages: tp }
    }
}

/// Link listing query parameters.
pub struct LinkQuery {
    pub page: Option<u64>,
    pub limit: Option<u64>,
}

/// A new link as the wire hands it in.
pub struct CreateLinkRequest {
    pub name: String,
    pub url: String,
    pub description: Option<String>,
}

/// A link patch as the wire hands it in.
pub struct UpdateLinkRequest {
    pub name: Option<String>,
    pub url: Option<String>,
    pub description: Option<String>,
}

/// A page of links with its paging bookkeeping.
pub struct LinksResponse {
    pub links: Vec<LinkRecord>,
    pub total: u64,
    pub page: u64,
    pub limit: u64,
    pub total_pages: u64,
}

/// Tag post-listing query parameters.
pub struct TagQuery {
    pub page: Option<u64>,
    pub limit: Option<u64>,
}

/// A new tag as the wire hands it in.
pub struct CreateTagRequest {
    pub name: String,
}

/// One tag's posts with its paging bookkeeping.
pub struct TagPostsResponse {
    pub tag: TagRecord,
    pub posts: Vec<PostWithTags>,
    pub total: u64,
    pub page: u64,
    pub limit: u64,
    pub total_pages: u64,
}

/// A search request: the query text.
pub struct SearchQuery {
    pub q: String,
}

/// Search results with the echoed query and hit count.
pub struct SearchResponse {
    pub posts: Vec<PostWithTags>,
    pub query: String,
    pub count: usize,
}

} // verus!
