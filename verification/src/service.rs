//! The requests that the MCP tools take, and the query filters each one stands for.
use vstd::prelude::*;
use crate::db::{LogsFilters, SearchFilters, SessionFilters};

verus! {

/// Arguments of the `list_logs` tool.
pub struct ListLogsRequest {
    pub session_id: Option<String>,
    pub branch: Option<String>,
    pub since: Option<String>,
    pub until: Option<String>,
    pub limit: Option<u32>,
    pub offset: Option<u32>,
}

/// Arguments of the `search_logs` tool.
pub struct SearchLogsRequest {
    pub pattern: String,
    pub branch: Option<String>,
    pub session_id: Option<String>,
    pub since: Option<String>,
    pub until: Option<String>,
    pub limit: Option<u32>,
}

/// Arguments of the `list_sessions` tool.
pub struct ListSessionsRequest {
    pub branch: Option<String>,
    pub commit: Option<String>,
    pub since: Option<String>,
    pub limit: Option<u32>,
}

/// Arguments of the `session_stats` tool.
pub struct SessionStatsRequest {
    pub session_id: Option<String>,
}

/// How many log lines `list_logs` returns when no limit is given.
pub const DEFAULT_LOGS_LIMIT: u32 = 50;

/// How many matches `search_logs` returns when no limit is given.
pub const DEFAULT_SEARCH_LIMIT: u32 = 100;

/// How many sessions `list_sessions` returns when no limit is given.
pub const DEFAULT_SESSIONS_LIMIT: u32 = 20;

/// An optional number, or a default.
pub open spec fn or_default(v: Option<u32>, d: u32) -> u32 {
    match v {
        Some(x) => x,
        None => d,
    }
}

fn value_or(v: Option<u32>, d: u32) -> (r: u32)
    ensures
        r == or_default(v, d),
{
    match v {
        Some(x) => x,
        None => d,
    }
}

impl ListLogsRequest {
    /// The filters of the request: the same conditions, 50 lines and no offset by default.
    pub fn into_filters(self) -> (f: LogsFilters)
        ensures
            f.session_id == self.session_id,
            f.branch == self.branch,
            f.since == self.since,
            f.until == self.until,
            f.limit == or_default(self.limit, DEFAULT_LOGS_LIMIT),
            f.offset == or_default(self.offset, 0),
    {
        LogsFilters {
            session_id: self.session_id,
            branch: self.branch,
            since: self.since,
            until: self.until,
            limit: value_or(self.limit, DEFAULT_LOGS_LIMIT),
            offset: value_or(self.offset, 0),
        }
    }
}

impl SearchLogsRequest {
    /// The pattern and filters of the request: the same conditions, 100 matches by default.
    pub fn into_filters(self) -> (r: (String, SearchFilters))
        ensures
            r.0 == self.pattern,
            r.1.branch == self.branch,
            r.1.session_id == self.session_id,
            r.1.since == self.since,
            r.1.until == self.until,
            r.1.limit == or_default(self.limit, DEFAULT_SEARCH_LIMIT),
    {
        (
            self.pattern,
            SearchFilters {
                branch: self.branch,
                session_id: self.session_id,
                since: self.since,
                until: self.until,
                limit: value_or(self.limit, DEFAULT_SEARCH_LIMIT),
            },
        )
    }
}

impl ListSessionsRequest {
    /// The filters of the request: the same conditions, 20 sessions by default.
    pub fn into_filters(self) -> (f: SessionFilters)
        ensures
            f.branch == self.branch,
            f.commit == self.commit,
            f.since == self.since,
            f.limit == or_default(self.limit, DEFAULT_SESSIONS_LIMIT),
    {
        SessionFilters {
            branch: self.branch,
            commit: self.commit,
            since: self.since,
            limit: value_or(self.limit, DEFAULT_SESSIONS_LIMIT),
        }
    }
}

} // verus!
