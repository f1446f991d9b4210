use vstd::prelude::*;
use crate::flow::CsmlBot;

verus! {

/// The body of a request that stores a new bot version.
#[derive(Debug)]
pub struct CreateRequest {
    pub bot: CsmlBot,
}

#[derive(Debug)]
pub struct GetBotPath {
    pub bot_id: String,
}

#[derive(Debug)]
pub struct GetBotVersionsQuery {
    pub limit: Option<i64>,
    pub last_key: Option<String>,
}

#[derive(Debug)]
pub struct BotVersionPath {
    pub bot_id: String,
    pub version_id: String,
}

/// Versions listed per page when the query sets no limit.
pub const DEFAULT_PAGE_SIZE: i64 = 20;

impl GetBotVersionsQuery {
    /// How many versions a page lists.
    pub fn page_size(&self) -> (r: i64)
        ensures
            r == match self.limit {
                Some(n) => n,
                None => DEFAULT_PAGE_SIZE,
            },
    {
        match self.limit {
            Some(n) => n,
            None => DEFAULT_PAGE_SIZE,
        }
    }
}

} // verus!
