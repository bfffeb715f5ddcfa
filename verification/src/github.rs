//! The data the remote service hands back, modelled as plain values, and the
//! decisions of the client that talks to it.
//!
//! The transport itself is outside the library; whoever performs the calls
//! converts the fetched records into these types (timestamps as unix
//! seconds) and drives the page loop with `pagination_step`.

use crate::timestamp::ts_in_range;
use vstd::prelude::*;

verus! {

/// An organization as the service lists it.
#[derive(Debug, Clone)]
pub struct OrgInfo {
    pub login: String,
    pub description: Option<String>,
}

pub struct OrgInfoV {
    pub login: Seq<char>,
    pub description: Option<Seq<char>>,
}

impl View for OrgInfo {
    type V = OrgInfoV;

    open spec fn view(&self) -> OrgInfoV {
        OrgInfoV {
            login: self.login@,
            description: match self.description {
                Some(d) => Some(d@),
                None => None,
            },
        }
    }
}

/// The identity the service reports for a valid credential.
#[derive(Debug, Clone)]
pub struct AuthenticatedUser {
    pub login: String,
    pub name: Option<String>,
}

/// The rate-limit report of the service's core bucket.
#[derive(Debug, Clone)]
pub struct RateLimit {
    pub resources: RateLimitResources,
}

#[derive(Debug, Clone)]
pub struct RateLimitResources {
    pub core: RateLimitResource,
}

#[derive(Debug, Clone)]
pub struct RateLimitResource {
    pub limit: u64,
    pub remaining: u64,
    pub reset: i64,
}

/// A repository as fetched: what the summaries read of it.
#[derive(Debug, Clone)]
pub struct RepoRecord {
    pub name: String,
    pub language: Option<String>,
    pub stars: u32,
    pub forks: u32,
    pub open_issues: u32,
    pub archived: bool,
    /// Unix seconds of the last push; absent when never pushed.
    pub pushed_at: Option<i64>,
}

pub struct RepoRecordV {
    pub name: Seq<char>,
    pub language: Option<Seq<char>>,
    pub stars: u32,
    pub forks: u32,
    pub open_issues: u32,
    pub archived: bool,
    pub pushed_at: Option<i64>,
}

impl View for RepoRecord {
    type V = RepoRecordV;

    open spec fn view(&self) -> RepoRecordV {
        RepoRecordV {
            name: self.name@,
            language: match self.language {
                Some(l) => Some(l@),
                None => None,
            },
            stars: self.stars,
            forks: self.forks,
            open_issues: self.open_issues,
            archived: self.archived,
            pushed_at: self.pushed_at,
        }
    }
}

pub open spec fn repo_rec_in_range(r: RepoRecordV) -> bool {
    match r.pushed_at {
        Some(ts) => ts_in_range(ts),
        None => true,
    }
}

/// An open issue as fetched.
#[derive(Debug, Clone)]
pub struct IssueRecord {
    pub number: u64,
    pub title: String,
    pub author: String,
    pub labels: Vec<String>,
    /// Unix seconds of the last update.
    pub updated_at: i64,
    /// Whether the payload marked the issue as also being a pull request.
    pub is_pull_request: bool,
}

pub struct IssueRecordV {
    pub number: u64,
    pub title: Seq<char>,
    pub author: Seq<char>,
    pub labels: Seq<Seq<char>>,
    pub updated_at: i64,
    pub is_pull_request: bool,
}

impl View for IssueRecord {
    type V = IssueRecordV;

    open spec fn view(&self) -> IssueRecordV {
        IssueRecordV {
            number: self.number,
            title: self.title@,
            author: self.author@,
            labels: self.labels@.map_values(|l: String| l@),
            updated_at: self.updated_at,
            is_pull_request: self.is_pull_request,
        }
    }
}

pub open spec fn issue_rec_in_range(i: IssueRecordV) -> bool {
    ts_in_range(i.updated_at)
}

/// The page loop's decision after one page has been fetched: stop on an
/// empty page or when the service signals no further page, else ask for the
/// next page number.
pub fn pagination_step(page: u32, item_count: usize, has_next: bool) -> (r: Option<u32>)
    requires
        page < u32::MAX,
    ensures
        r == (if item_count == 0 || !has_next {
            None::<u32>
        } else {
            Some((page + 1) as u32)
        }),
{
    if item_count == 0 || !has_next {
        None
    } else {
        Some(page + 1)
    }
}

/// Whether the remaining budget of the core bucket calls for a warning.
pub fn needs_rate_limit_warning(rl: &RateLimit) -> (r: bool)
    ensures
        r == (rl.resources.core.remaining < 100),
{
    rl.resources.core.remaining < 100
}

} // verus!
