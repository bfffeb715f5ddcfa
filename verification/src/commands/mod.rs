//! The aggregation pipeline of each command.
//!
//! Every command resolves a set of organizations, receives per-organization
//! fetch outcomes, and folds the successful ones into a summary while
//! turning each failed one into a warning instead of aborting. The fetches
//! themselves happen outside the library; the functions here state exactly
//! what summary and what warnings a given set of outcomes yields.

pub mod issues;
pub mod orgs;
pub mod overview;
pub mod repos;
pub mod stale;
pub mod stats;

use crate::config::Config;
use crate::github::OrgInfo;
use crate::github::RepoRecord;
use crate::github::RepoRecordV;
use crate::seq_util::seq_view;
use crate::text::concat3;
use vstd::prelude::*;

verus! {

/// The outcome of listing one organization's repositories: the records, or
/// the message of the failure.
pub struct OrgReposFetch {
    pub org: String,
    pub outcome: Result<Vec<RepoRecord>, String>,
}

pub struct OrgReposFetchV {
    pub org: Seq<char>,
    pub outcome: Result<Seq<RepoRecordV>, Seq<char>>,
}

impl View for OrgReposFetch {
    type V = OrgReposFetchV;

    open spec fn view(&self) -> OrgReposFetchV {
        OrgReposFetchV {
            org: self.org@,
            outcome: match self.outcome {
                Ok(rs) => Ok(seq_view(rs@)),
                Err(e) => Err(e@),
            },
        }
    }
}

/// Every pushed-at timestamp among the successful outcomes is in range.
pub open spec fn fetches_in_range(fs: Seq<OrgReposFetchV>) -> bool {
    forall|i: int|
        0 <= i < fs.len() ==> match #[trigger] fs[i].outcome {
            Ok(rs) => forall|j: int|
                0 <= j < rs.len() ==> crate::github::repo_rec_in_range(#[trigger] rs[j]),
            Err(_) => true,
        }
}

/// Which organizations a command works on: an explicit request wins, then a
/// non-empty configured default list; with neither, the caller must look the
/// organizations up remotely.
pub fn resolve_orgs(org_flag: &Option<String>, config: &Config) -> (r: Option<Vec<String>>)
    ensures
        ({
            match *org_flag {
                Some(o) => r matches Some(v) && v@ == seq![o],
                None => match config.defaults.orgs {
                    Some(os) => if os@.len() > 0 {
                        r matches Some(v) && v@ == os@
                    } else {
                        r is None
                    },
                    None => r is None,
                },
            }
        }),
{
    if let Some(o) = org_flag {
        let mut v: Vec<String> = Vec::new();
        v.push(o.clone());
        proof {
            assert(v@ =~= seq![*o]);
        }
        return Some(v);
    }
    if let Some(os) = &config.defaults.orgs {
        if os.len() > 0 {
            let copy = os.clone();
            proof {
                assert(copy@ =~= os@);
            }
            return Some(copy);
        }
    }
    None
}

/// The login names of the fetched organizations, in order.
pub fn org_logins(orgs: Vec<OrgInfo>) -> (r: Vec<String>)
    ensures
        r@ == orgs@.map_values(|o: OrgInfo| o.login),
{
    let mut rest = orgs;
    let ghost all: Seq<OrgInfo> = rest@;
    let mut r: Vec<String> = Vec::new();
    while rest.len() > 0
        invariant
            rest@ == all.skip(all.len() - rest@.len()),
            rest@.len() <= all.len(),
            r@ == all.take(all.len() - rest@.len()).map_values(|o: OrgInfo| o.login),
        decreases rest@.len(),
    {
        let ghost done: int = all.len() - rest@.len();
        let o = rest.remove(0);
        proof {
            assert(o == all[done]);
            assert(rest@ =~= all.skip(done + 1));
        }
        r.push(o.login);
        proof {
            assert(r@ =~= all.take(done + 1).map_values(|o: OrgInfo| o.login));
        }
    }
    proof {
        assert(all.take(all.len() as int) =~= all);
    }
    r
}

/// Whether an issue listing is worth a call for this repository: skipped
/// when archived or without open issues.
pub fn wants_issue_fetch(repo: &RepoRecord) -> (r: bool)
    ensures
        r == (!repo.archived && repo.open_issues > 0),
{
    !repo.archived && repo.open_issues > 0
}

/// The warning recorded when listing an organization's repositories fails.
pub open spec fn spec_repo_fetch_warning(org: Seq<char>, err: Seq<char>) -> Seq<char> {
    "Failed to fetch repos for "@ + org + ": "@ + err
}

pub(crate) fn repo_fetch_warning(org: &str, err: &str) -> (r: String)
    ensures
        r@ == spec_repo_fetch_warning(org@, err@),
{
    let head = concat3("Failed to fetch repos for ", org, ": ");
    let r = concat3(head.as_str(), err, "");
    proof {
        reveal_strlit("");
        assert(""@ =~= Seq::<char>::empty());
        assert(r@ =~= spec_repo_fetch_warning(org@, err@));
    }
    r
}

/// The warnings a set of per-organization outcomes yields: one per failure,
/// in fetch order, each naming the organization and the error.
pub open spec fn spec_fetch_warnings(fs: Seq<OrgReposFetchV>) -> Seq<Seq<char>>
    decreases fs.len(),
{
    if fs.len() == 0 {
        Seq::empty()
    } else {
        spec_fetch_warnings(fs.drop_last()) + (match fs.last().outcome {
            Ok(_) => Seq::empty(),
            Err(e) => seq![spec_repo_fetch_warning(fs.last().org, e)],
        })
    }
}

/// Collects the warnings of the failed outcomes, in order.
pub fn fetch_warnings(fetches: &Vec<OrgReposFetch>) -> (r: Vec<String>)
    ensures
        seq_view(r@) == spec_fetch_warnings(seq_view(fetches@)),
{
    let ghost fsv: Seq<OrgReposFetchV> = seq_view(fetches@);
    let mut r: Vec<String> = Vec::new();
    let mut i: usize = 0;
    while i < fetches.len()
        invariant
            i <= fetches@.len(),
            fsv == seq_view(fetches@),
            fsv.len() == fetches@.len(),
            seq_view(r@) == spec_fetch_warnings(fsv.take(i as int)),
        decreases fetches@.len() - i,
    {
        proof {
            assert(fsv.take(i + 1).drop_last() =~= fsv.take(i as int));
            assert(fsv.take(i + 1).last() == fsv[i as int]);
            assert(fsv[i as int] == fetches@[i as int]@);
        }
        match &fetches[i].outcome {
            Ok(_) => {
                proof {
                    assert(seq_view(r@) =~= spec_fetch_warnings(fsv.take(i + 1)));
                }
            },
            Err(e) => {
                let w = repo_fetch_warning(fetches[i].org.as_str(), e.as_str());
                r.push(w);
                proof {
                    assert(seq_view(r@) =~= spec_fetch_warnings(fsv.take(i + 1)));
                }
            },
        }
        i = i + 1;
    }
    proof {
        assert(fsv.take(fsv.len() as int) =~= fsv);
    }
    r
}

} // verus!
