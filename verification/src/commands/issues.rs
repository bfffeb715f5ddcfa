//! The `issues` command: every open issue of every non-archived repository
//! with open issues, pull requests excluded, in fetch order.

use crate::github::IssueRecordV;
use crate::seq_util::lemma_filter_sources;
use crate::seq_util::seq_view;
use crate::text::concat3;
use crate::timestamp::date_str_of;
use crate::timestamp::format_date;
use crate::timestamp::ts_in_range;
use vstd::prelude::*;
use vstd::string::StringExecFns;

verus! {

/// One row of the `issues` listing.
#[derive(Debug)]
pub struct IssueSummary {
    pub org: String,
    pub repo: String,
    pub number: u64,
    pub title: String,
    pub author: String,
    pub labels: String,
    pub updated: String,
}

pub struct IssueSummaryV {
    pub org: Seq<char>,
    pub repo: Seq<char>,
    pub number: u64,
    pub title: Seq<char>,
    pub author: Seq<char>,
    pub labels: Seq<char>,
    pub updated: Seq<char>,
}

impl View for IssueSummary {
    type V = IssueSummaryV;

    open spec fn view(&self) -> IssueSummaryV {
        IssueSummaryV {
            org: self.org@,
            repo: self.repo@,
            number: self.number,
            title: self.title@,
            author: self.author@,
            labels: self.labels@,
            updated: self.updated@,
        }
    }
}

/// The outcome of listing one repository's open issues.
pub struct RepoIssuesFetch {
    pub repo: String,
    pub outcome: Result<Vec<crate::github::IssueRecord>, String>,
}

pub struct RepoIssuesFetchV {
    pub repo: Seq<char>,
    pub outcome: Result<Seq<IssueRecordV>, Seq<char>>,
}

impl View for RepoIssuesFetch {
    type V = RepoIssuesFetchV;

    open spec fn view(&self) -> RepoIssuesFetchV {
        RepoIssuesFetchV {
            repo: self.repo@,
            outcome: match self.outcome {
                Ok(is) => Ok(seq_view(is@)),
                Err(e) => Err(e@),
            },
        }
    }
}

/// One organization's part of the run: its repositories' issue listings, or
/// the failure of listing its repositories at all.
pub struct OrgIssuesFetch {
    pub org: String,
    pub outcome: Result<Vec<RepoIssuesFetch>, String>,
}

pub struct OrgIssuesFetchV {
    pub org: Seq<char>,
    pub outcome: Result<Seq<RepoIssuesFetchV>, Seq<char>>,
}

impl View for OrgIssuesFetch {
    type V = OrgIssuesFetchV;

    open spec fn view(&self) -> OrgIssuesFetchV {
        OrgIssuesFetchV {
            org: self.org@,
            outcome: match self.outcome {
                Ok(rs) => Ok(seq_view(rs@)),
                Err(e) => Err(e@),
            },
        }
    }
}

pub open spec fn issue_fetches_in_range(fs: Seq<OrgIssuesFetchV>) -> bool {
    forall|i: int|
        0 <= i < fs.len() ==> match #[trigger] fs[i].outcome {
            Ok(rfs) => forall|m: int|
                0 <= m < rfs.len() ==> match #[trigger] rfs[m].outcome {
                    Ok(is) => forall|t: int|
                        0 <= t < is.len() ==> ts_in_range((#[trigger] is[t]).updated_at),
                    Err(_) => true,
                },
            Err(_) => true,
        }
}

/// The label column: the label names joined by comma and space, or a dash
/// when there are none.
pub open spec fn spec_joined(ls: Seq<Seq<char>>) -> Seq<char>
    decreases ls.len(),
{
    if ls.len() <= 1 {
        if ls.len() == 0 {
            Seq::empty()
        } else {
            ls[0]
        }
    } else {
        spec_joined(ls.drop_last()) + ", "@ + ls.last()
    }
}

pub open spec fn spec_label_column(ls: Seq<Seq<char>>) -> Seq<char> {
    if ls.len() == 0 {
        "-"@
    } else {
        spec_joined(ls)
    }
}

pub fn join_labels(labels: &Vec<String>) -> (r: String)
    ensures
        r@ == spec_label_column(labels@.map_values(|l: String| l@)),
{
    let ghost lsv: Seq<Seq<char>> = labels@.map_values(|l: String| l@);
    if labels.len() == 0 {
        return String::from_str("-");
    }
    let mut r = labels[0].clone();
    proof {
        assert(lsv.take(1) =~= seq![lsv[0]]);
        assert(spec_joined(lsv.take(1)) == lsv[0]);
    }
    let mut k: usize = 1;
    while k < labels.len()
        invariant
            1 <= k <= labels@.len(),
            lsv == labels@.map_values(|l: String| l@),
            lsv.len() == labels@.len(),
            r@ == spec_joined(lsv.take(k as int)),
        decreases labels@.len() - k,
    {
        r.append(", ");
        r.append(labels[k].as_str());
        proof {
            assert(lsv.take(k + 1).drop_last() =~= lsv.take(k as int));
            assert(lsv.take(k + 1).last() == lsv[k as int]);
            assert(lsv[k as int] == labels@[k as int]@);
        }
        k = k + 1;
    }
    proof {
        assert(lsv.take(lsv.len() as int) =~= lsv);
    }
    r
}

/// The row of one issue.
pub open spec fn spec_issue_row(org: Seq<char>, repo: Seq<char>, iv: IssueRecordV) -> IssueSummaryV {
    IssueSummaryV {
        org: org,
        repo: repo,
        number: iv.number,
        title: iv.title,
        author: iv.author,
        labels: spec_label_column(iv.labels),
        updated: date_str_of(iv.updated_at as int),
    }
}

/// The issues that reach the listing: those not marked as pull requests.
pub open spec fn kept_issues(issues: Seq<IssueRecordV>) -> Seq<IssueRecordV> {
    issues.filter(|iv: IssueRecordV| !iv.is_pull_request)
}

pub open spec fn spec_repo_issue_rows(
    org: Seq<char>,
    repo: Seq<char>,
    issues: Seq<IssueRecordV>,
) -> Seq<IssueSummaryV> {
    kept_issues(issues).map_values(|iv: IssueRecordV| spec_issue_row(org, repo, iv))
}

pub open spec fn spec_org_issue_rows(org: Seq<char>, rfs: Seq<RepoIssuesFetchV>) -> Seq<
    IssueSummaryV,
>
    decreases rfs.len(),
{
    if rfs.len() == 0 {
        Seq::empty()
    } else {
        spec_org_issue_rows(org, rfs.drop_last()) + (match rfs.last().outcome {
            Ok(is) => spec_repo_issue_rows(org, rfs.last().repo, is),
            Err(_) => Seq::empty(),
        })
    }
}

pub open spec fn spec_issue_rows(fs: Seq<OrgIssuesFetchV>) -> Seq<IssueSummaryV>
    decreases fs.len(),
{
    if fs.len() == 0 {
        Seq::empty()
    } else {
        spec_issue_rows(fs.drop_last()) + (match fs.last().outcome {
            Ok(rfs) => spec_org_issue_rows(fs.last().org, rfs),
            Err(_) => Seq::empty(),
        })
    }
}

/// The warning recorded when listing one repository's issues fails.
pub open spec fn spec_issue_fetch_warning(
    org: Seq<char>,
    repo: Seq<char>,
    err: Seq<char>,
) -> Seq<char> {
    "Failed to fetch issues for "@ + org + "/"@ + repo + ": "@ + err
}

pub open spec fn spec_org_issue_warnings(org: Seq<char>, rfs: Seq<RepoIssuesFetchV>) -> Seq<
    Seq<char>,
>
    decreases rfs.len(),
{
    if rfs.len() == 0 {
        Seq::empty()
    } else {
        spec_org_issue_warnings(org, rfs.drop_last()) + (match rfs.last().outcome {
            Ok(_) => Seq::empty(),
            Err(e) => seq![spec_issue_fetch_warning(org, rfs.last().repo, e)],
        })
    }
}

pub open spec fn spec_issue_warnings(fs: Seq<OrgIssuesFetchV>) -> Seq<Seq<char>>
    decreases fs.len(),
{
    if fs.len() == 0 {
        Seq::empty()
    } else {
        spec_issue_warnings(fs.drop_last()) + (match fs.last().outcome {
            Ok(rfs) => spec_org_issue_warnings(fs.last().org, rfs),
            Err(e) => seq![crate::commands::spec_repo_fetch_warning(fs.last().org, e)],
        })
    }
}

fn issue_fetch_warning(org: &str, repo: &str, err: &str) -> (r: String)
    ensures
        r@ == spec_issue_fetch_warning(org@, repo@, err@),
{
    let head = concat3("Failed to fetch issues for ", org, "/");
    let tail = concat3(repo, ": ", err);
    let r = head.concat(tail.as_str());
    proof {
        assert(r@ =~= spec_issue_fetch_warning(org@, repo@, err@));
    }
    r
}

/// A sequence whose issues all pass a filter is unchanged by it.
proof fn lemma_filter_all<T>(s: Seq<T>, pred: spec_fn(T) -> bool)
    requires
        forall|i: int| 0 <= i < s.len() ==> pred(#[trigger] s[i]),
    ensures
        s.filter(pred) == s,
    decreases s.len(),
{
    reveal(Seq::filter);
    if s.len() > 0 {
        lemma_filter_all(s.drop_last(), pred);
        assert(s.drop_last().push(s.last()) =~= s);
    }
}

proof fn lemma_filter_idempotent<T>(s: Seq<T>, pred: spec_fn(T) -> bool)
    ensures
        s.filter(pred).filter(pred) == s.filter(pred),
{
    lemma_filter_sources(s, pred);
    lemma_filter_all(s.filter(pred), pred);
}

/// An issue marked as a pull request never reaches the listing: the rows of
/// a repository depend only on its issues that are not pull requests.
pub proof fn lemma_rows_ignore_pull_requests(
    org: Seq<char>,
    repo: Seq<char>,
    issues: Seq<IssueRecordV>,
)
    ensures
        spec_repo_issue_rows(org, repo, issues) == spec_repo_issue_rows(
            org,
            repo,
            issues.filter(|iv: IssueRecordV| !iv.is_pull_request),
        ),
{
    lemma_filter_idempotent(issues, |iv: IssueRecordV| !iv.is_pull_request);
}

/// The whole `issues` command on a set of fetch outcomes: the rows of every
/// issue that is not a pull request, and one warning per failed listing,
/// organization or repository, in fetch order.
pub fn issues_command(fetches: &Vec<OrgIssuesFetch>) -> (r: (Vec<IssueSummary>, Vec<String>))
    requires
        issue_fetches_in_range(seq_view(fetches@)),
    ensures
        seq_view(r.0@) == spec_issue_rows(seq_view(fetches@)),
        seq_view(r.1@) == spec_issue_warnings(seq_view(fetches@)),
{
    let ghost fsv: Seq<OrgIssuesFetchV> = seq_view(fetches@);
    let mut rows: Vec<IssueSummary> = Vec::new();
    let mut warns: Vec<String> = Vec::new();
    let mut i: usize = 0;
    while i < fetches.len()
        invariant
            i <= fetches@.len(),
            fsv == seq_view(fetches@),
            fsv.len() == fetches@.len(),
            issue_fetches_in_range(fsv),
            seq_view(rows@) == spec_issue_rows(fsv.take(i as int)),
            seq_view(warns@) == spec_issue_warnings(fsv.take(i as int)),
        decreases fetches@.len() - i,
    {
        proof {
            assert(fsv.take(i + 1).drop_last() =~= fsv.take(i as int));
            assert(fsv.take(i + 1).last() == fsv[i as int]);
            assert(fsv[i as int] == fetches@[i as int]@);
        }
        let org_str = fetches[i].org.as_str();
        let ghost orgv: Seq<char> = fetches@[i as int].org@;
        match &fetches[i].outcome {
            Ok(repo_fetches) => {
                let ghost rfsv: Seq<RepoIssuesFetchV> = seq_view(repo_fetches@);
                let ghost rows_base: Seq<IssueSummaryV> = seq_view(rows@);
                let ghost warns_base: Seq<Seq<char>> = seq_view(warns@);
                proof {
                    assert(fsv[i as int].outcome == Ok::<Seq<RepoIssuesFetchV>, Seq<char>>(rfsv));
                    assert forall|m: int| 0 <= m < rfsv.len() implies (match #[trigger] rfsv[m].outcome {
                        Ok(is) => forall|t: int|
                            0 <= t < is.len() ==> ts_in_range((#[trigger] is[t]).updated_at),
                        Err(_) => true,
                    }) by {
                        assert(fsv[i as int].outcome matches Ok(rfs) && rfs == rfsv);
                    }
                }
                let mut m: usize = 0;
                while m < repo_fetches.len()
                    invariant
                        m <= repo_fetches@.len(),
                        rfsv == seq_view(repo_fetches@),
                        rfsv.len() == repo_fetches@.len(),
                        org_str@ == orgv,
                        forall|l: int|
                            0 <= l < rfsv.len() ==> (match #[trigger] rfsv[l].outcome {
                                Ok(is) => forall|t: int|
                                    0 <= t < is.len() ==> ts_in_range(
                                        (#[trigger] is[t]).updated_at,
                                    ),
                                Err(_) => true,
                            }),
                        seq_view(rows@) == rows_base + spec_org_issue_rows(
                            orgv,
                            rfsv.take(m as int),
                        ),
                        seq_view(warns@) == warns_base + spec_org_issue_warnings(
                            orgv,
                            rfsv.take(m as int),
                        ),
                    decreases repo_fetches@.len() - m,
                {
                    proof {
                        assert(rfsv.take(m + 1).drop_last() =~= rfsv.take(m as int));
                        assert(rfsv.take(m + 1).last() == rfsv[m as int]);
                        assert(rfsv[m as int] == repo_fetches@[m as int]@);
                    }
                    let repo_str = repo_fetches[m].repo.as_str();
                    let ghost repov: Seq<char> = repo_fetches@[m as int].repo@;
                    match &repo_fetches[m].outcome {
                        Ok(issues) => {
                            let ghost isv: Seq<IssueRecordV> = seq_view(issues@);
                            let ghost inner_base: Seq<IssueSummaryV> = seq_view(rows@);
                            proof {
                                assert(rfsv[m as int].outcome == Ok::<
                                    Seq<IssueRecordV>,
                                    Seq<char>,
                                >(isv));
                                assert forall|t: int| 0 <= t < isv.len() implies ts_in_range(
                                    (#[trigger] isv[t]).updated_at,
                                ) by {
                                    assert(rfsv[m as int].outcome matches Ok(is) && is == isv);
                                }
                                assert(isv.take(0).filter(
                                    |iv: IssueRecordV| !iv.is_pull_request,
                                ) =~= Seq::<IssueRecordV>::empty());
                            }
                            let mut t: usize = 0;
                            while t < issues.len()
                                invariant
                                    t <= issues@.len(),
                                    isv == seq_view(issues@),
                                    isv.len() == issues@.len(),
                                    org_str@ == orgv,
                                    repo_str@ == repov,
                                    forall|l: int|
                                        0 <= l < isv.len() ==> ts_in_range(
                                            (#[trigger] isv[l]).updated_at,
                                        ),
                                    seq_view(rows@) == inner_base + spec_repo_issue_rows(
                                        orgv,
                                        repov,
                                        isv.take(t as int),
                                    ),
                                decreases issues@.len() - t,
                            {
                                proof {
                                    assert(isv[t as int] == issues@[t as int]@);
                                    reveal(Seq::filter);
                                    assert(isv.take(t + 1).drop_last() =~= isv.take(t as int));
                                    assert(isv.take(t + 1).last() == isv[t as int]);
                                }
                                let issue = &issues[t];
                                if !issue.is_pull_request {
                                    let labels = join_labels(&issue.labels);
                                    let row = IssueSummary {
                                        org: String::from_str(org_str),
                                        repo: String::from_str(repo_str),
                                        number: issue.number,
                                        title: issue.title.clone(),
                                        author: issue.author.clone(),
                                        labels,
                                        updated: format_date(issue.updated_at),
                                    };
                                    proof {
                                        assert(row@ == spec_issue_row(
                                            orgv,
                                            repov,
                                            isv[t as int],
                                        ));
                                    }
                                    let ghost rows_prev: Seq<IssueSummary> = rows@;
                                    let ghost rowv: IssueSummaryV = row@;
                                    rows.push(row);
                                    proof {
                                        assert(rows@ == rows_prev.push(rows@.last()));
                                        assert(rows@.last()@ == rowv);
                                        assert(seq_view(rows@) =~= seq_view(rows_prev).push(
                                            rowv,
                                        ));
                                        assert(kept_issues(isv.take(t + 1)) =~= kept_issues(
                                            isv.take(t as int),
                                        ).push(isv[t as int]));
                                        assert(spec_repo_issue_rows(orgv, repov, isv.take(t + 1))
                                            =~= spec_repo_issue_rows(
                                            orgv,
                                            repov,
                                            isv.take(t as int),
                                        ).push(rowv));
                                        assert(seq_view(rows@) =~= inner_base
                                            + spec_repo_issue_rows(
                                            orgv,
                                            repov,
                                            isv.take(t + 1),
                                        ));
                                    }
                                } else {
                                    proof {
                                        reveal(Seq::filter);
                                        assert(isv[t as int].is_pull_request);
                                        assert(kept_issues(isv.take(t + 1)) =~= kept_issues(
                                            isv.take(t as int),
                                        ));
                                        assert(seq_view(rows@) =~= inner_base
                                            + spec_repo_issue_rows(
                                            orgv,
                                            repov,
                                            isv.take(t + 1),
                                        ));
                                    }
                                }
                                t = t + 1;
                            }
                            proof {
                                assert(isv.take(isv.len() as int) =~= isv);
                                assert(rfsv.take(m + 1).drop_last() =~= rfsv.take(m as int));
                                assert(rfsv.take(m + 1).last() == rfsv[m as int]);
                                assert(seq_view(rows@) =~= rows_base + spec_org_issue_rows(
                                    orgv,
                                    rfsv.take(m + 1),
                                ));
                                assert(rfsv[m as int].outcome is Ok);
                                let w1 = spec_org_issue_warnings(orgv, rfsv.take(m + 1));
                                assert(w1 == spec_org_issue_warnings(orgv, rfsv.take(m as int)));
                                assert(seq_view(warns@) =~= warns_base + w1);
                            }
                        },
                        Err(e) => {
                            let w = issue_fetch_warning(org_str, repo_str, e.as_str());
                            let ghost wv: Seq<char> = w@;
                            let ghost warns_prev: Seq<String> = warns@;
                            warns.push(w);
                            proof {
                                assert(warns@ == warns_prev.push(warns@.last()));
                                assert(warns@.last()@ == wv);
                                assert(seq_view(warns@) =~= seq_view(warns_prev).push(wv));
                                assert(rfsv[m as int].outcome matches Err(ee) && ee == e@);
                                assert(wv == spec_issue_fetch_warning(
                                    orgv,
                                    rfsv[m as int].repo,
                                    e@,
                                ));
                                assert(spec_org_issue_warnings(orgv, rfsv.take(m + 1))
                                    =~= spec_org_issue_warnings(orgv, rfsv.take(m as int)).push(
                                    wv,
                                ));
                                assert(seq_view(warns@) =~= warns_base + spec_org_issue_warnings(
                                    orgv,
                                    rfsv.take(m + 1),
                                ));
                                assert(seq_view(rows@) =~= rows_base + spec_org_issue_rows(
                                    orgv,
                                    rfsv.take(m + 1),
                                ));
                            }
                        },
                    }
                    m = m + 1;
                }
                proof {
                    assert(rfsv.take(rfsv.len() as int) =~= rfsv);
                    assert(seq_view(rows@) =~= spec_issue_rows(fsv.take(i + 1)));
                    assert(seq_view(warns@) =~= spec_issue_warnings(fsv.take(i + 1)));
                }
            },
            Err(e) => {
                let w = crate::commands::repo_fetch_warning(org_str, e.as_str());
                let ghost warns_prev: Seq<String> = warns@;
                warns.push(w);
                proof {
                    assert(warns@ == warns_prev.push(warns@.last()));
                    assert(seq_view(warns@) =~= spec_issue_warnings(fsv.take(i + 1)));
                    assert(seq_view(rows@) =~= spec_issue_rows(fsv.take(i + 1)));
                }
            },
        }
        i = i + 1;
    }
    proof {
        assert(fsv.take(fsv.len() as int) =~= fsv);
    }
    (rows, warns)
}

} // verus!
