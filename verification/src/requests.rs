//! The bodies and queries that the endpoints accept, as plain values.

use vstd::prelude::*;
use crate::user::UserId;

verus! {

/// The body of a summary request: the text to summarise.
#[derive(Clone, Debug)]
pub struct SummaryRequest {
    pub content: String,
}

/// The body of a chat request. `user_id` is the textual form of the
/// principal's identifier.
#[derive(Clone, Debug)]
pub struct ChatRequest {
    pub user_id: String,
    pub article_url: String,
    pub message: String,
}

impl ChatRequest {
    /// The principal that the request names, where `user_id` spells an
    /// identifier.
    pub fn principal(&self) -> (id: Option<UserId>)
        ensures
            id == UserId::parsed(self.user_id@),
    {
        UserId::parse(self.user_id.as_str())
    }
}

/// The body of a request that creates a comment on an element of a page.
#[derive(Clone, Debug)]
pub struct CreateCommentRequest {
    pub url: String,
    pub selector: String,
    pub origin: Option<String>,
    pub content: String,
}

/// The query of a request that lists the comments on a page.
#[derive(Clone, Debug)]
pub struct ListCommentsQuery {
    pub url: String,
    pub page: Option<i32>,
    pub limit: Option<i32>,
}

impl ListCommentsQuery {
    /// The number of comments to skip: `page`, or none where it is absent.
    pub fn offset(&self) -> (n: i32)
        ensures
            n == match self.page {
                Some(page) => page,
                None => 0i32,
            },
    {
        match self.page {
            Some(page) => page,
            None => 0,
        }
    }

    /// The number of comments to return at most: `limit`, or a hundred where
    /// it is absent.
    pub fn window(&self) -> (n: i32)
        ensures
            n == match self.limit {
                Some(limit) => limit,
                None => 100i32,
            },
    {
        match self.limit {
            Some(limit) => limit,
            None => 100,
        }
    }
}

} // verus!
