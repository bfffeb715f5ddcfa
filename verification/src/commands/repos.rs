//! The `repos` command: flatten every fetched repository into a summary row
//! and sort by the requested key.

use crate::commands::spec_fetch_warnings;
use crate::commands::fetch_warnings;
use crate::commands::fetches_in_range;
use crate::commands::OrgReposFetch;
use crate::commands::OrgReposFetchV;
use crate::github::repo_rec_in_range;
use crate::github::RepoRecord;
use crate::github::RepoRecordV;
use crate::ordering::lemma_stable_sort_by_map;
use crate::ordering::stable_sort_by;
use crate::ordering::sort_with;
use crate::ordering::total_preorder;
use crate::seq_util::seq_view;
use crate::text::lemma_lex_leq_total;
use crate::text::lemma_lex_leq_trans;
use crate::text::lex_leq;
use crate::text::lower_of;
use crate::text::lowercase;
use crate::text::str_eq;
use crate::text::str_lex_leq;
use crate::timestamp::date_str_of;
use crate::timestamp::days_between;
use crate::timestamp::format_date;
use crate::timestamp::spec_days_between;
use crate::timestamp::ts_in_range;
use vstd::prelude::*;
use vstd::string::StringExecFns;

verus! {

/// One row of the `repos` listing.
#[derive(Debug)]
pub struct RepoSummary {
    pub org: String,
    pub name: String,
    pub language: String,
    pub stars: u32,
    pub forks: u32,
    pub open_issues: u32,
    pub last_push: String,
    pub status: String,
}

pub struct RepoSummaryV {
    pub org: Seq<char>,
    pub name: Seq<char>,
    pub language: Seq<char>,
    pub stars: u32,
    pub forks: u32,
    pub open_issues: u32,
    pub last_push: Seq<char>,
    pub status: Seq<char>,
}

impl View for RepoSummary {
    type V = RepoSummaryV;

    open spec fn view(&self) -> RepoSummaryV {
        RepoSummaryV {
            org: self.org@,
            name: self.name@,
            language: self.language@,
            stars: self.stars,
            forks: self.forks,
            open_issues: self.open_issues,
            last_push: self.last_push@,
            status: self.status@,
        }
    }
}

/// The sort keys the command accepts; anything unrecognized falls back to
/// activity.
#[derive(Clone, Copy, Debug, PartialEq, Eq, Structural)]
pub enum SortKey {
    Stars,
    Name,
    Staleness,
    Activity,
}

pub open spec fn sort_key_of(s: Seq<char>) -> SortKey {
    if s == "stars"@ {
        SortKey::Stars
    } else if s == "name"@ {
        SortKey::Name
    } else if s == "staleness"@ {
        SortKey::Staleness
    } else {
        SortKey::Activity
    }
}

pub fn parse_sort_key(s: &str) -> (k: SortKey)
    ensures
        k == sort_key_of(s@),
{
    if str_eq(s, "stars") {
        SortKey::Stars
    } else if str_eq(s, "name") {
        SortKey::Name
    } else if str_eq(s, "staleness") {
        SortKey::Staleness
    } else {
        SortKey::Activity
    }
}

/// The order of each key over summary rows: stars descending, name
/// case-insensitively ascending, staleness by the date string ascending,
/// activity by the date string descending.
pub open spec fn repo_leq_v(k: SortKey) -> spec_fn(RepoSummaryV, RepoSummaryV) -> bool {
    match k {
        SortKey::Stars => |a: RepoSummaryV, b: RepoSummaryV| b.stars <= a.stars,
        SortKey::Name => |a: RepoSummaryV, b: RepoSummaryV|
            lex_leq(lower_of(a.name), lower_of(b.name)),
        SortKey::Staleness => |a: RepoSummaryV, b: RepoSummaryV|
            lex_leq(a.last_push, b.last_push),
        SortKey::Activity => |a: RepoSummaryV, b: RepoSummaryV|
            lex_leq(b.last_push, a.last_push),
    }
}

/// The same order over the summary values a vector holds.
pub open spec fn repo_leq(k: SortKey) -> spec_fn(RepoSummary, RepoSummary) -> bool {
    |a: RepoSummary, b: RepoSummary| repo_leq_v(k)(a@, b@)
}

/// Each sort key yields a total, transitive order, so `stable_sort_by`'s
/// laws apply to every `repos` sort: the output is sorted, a permutation of
/// the input, and keeps the input's order among rows that compare equal.
pub proof fn lemma_repo_order_total(k: SortKey)
    ensures
        total_preorder(repo_leq_v(k)),
        total_preorder(repo_leq(k)),
{
    broadcast use lemma_lex_leq_total;
    broadcast use lemma_lex_leq_trans;

}

/// The summary of one fetched repository, as of `now`.
pub open spec fn spec_repo_summary(org: Seq<char>, r: RepoRecordV, now: i64) -> RepoSummaryV {
    RepoSummaryV {
        org: org,
        name: r.name,
        language: match r.language {
            Some(l) => l,
            None => "-"@,
        },
        stars: r.stars,
        forks: r.forks,
        open_issues: r.open_issues,
        last_push: match r.pushed_at {
            Some(ts) => date_str_of(ts as int),
            None => "never"@,
        },
        status: if r.archived {
            "archived"@
        } else if (match r.pushed_at {
            Some(ts) => spec_days_between(now, ts),
            None => 999int,
        }) > 365 {
            "stale"@
        } else {
            "active"@
        },
    }
}

impl RepoSummary {
    /// Builds the summary row of one repository: derives the language
    /// column, the formatted last-push date and the archived/stale/active
    /// status.
    pub fn from_repo(org: &str, repo: &RepoRecord, now: i64) -> (r: RepoSummary)
        requires
            repo_rec_in_range(repo@),
            ts_in_range(now),
        ensures
            r@ == spec_repo_summary(org@, repo@, now),
    {
        let language = match &repo.language {
            Some(l) => l.clone(),
            None => String::from_str("-"),
        };
        let last_push = match repo.pushed_at {
            Some(ts) => format_date(ts),
            None => String::from_str("never"),
        };
        let days: i64 = match repo.pushed_at {
            Some(ts) => days_between(now, ts),
            None => 999,
        };
        let status = if repo.archived {
            String::from_str("archived")
        } else if days > 365 {
            String::from_str("stale")
        } else {
            String::from_str("active")
        };
        RepoSummary {
            org: String::from_str(org),
            name: repo.name.clone(),
            language,
            stars: repo.stars,
            forks: repo.forks,
            open_issues: repo.open_issues,
            last_push,
            status,
        }
    }
}

/// The rows of one organization's records, in fetch order.
pub open spec fn spec_row_map(org: Seq<char>, rs: Seq<RepoRecordV>, now: i64) -> Seq<
    RepoSummaryV,
> {
    rs.map_values(|rv: RepoRecordV| spec_repo_summary(org, rv, now))
}

/// The rows of every successful fetch, in fetch order, before sorting.
pub open spec fn spec_org_rows(f: OrgReposFetchV, now: i64) -> Seq<RepoSummaryV> {
    match f.outcome {
        Ok(rs) => spec_row_map(f.org, rs, now),
        Err(_) => Seq::empty(),
    }
}

pub open spec fn spec_repo_rows(fs: Seq<OrgReposFetchV>, now: i64) -> Seq<RepoSummaryV>
    decreases fs.len(),
{
    if fs.len() == 0 {
        Seq::empty()
    } else {
        spec_repo_rows(fs.drop_last(), now) + spec_org_rows(fs.last(), now)
    }
}

/// Sorts the rows by the requested key, stably.
pub fn sort_repos(repos: &mut Vec<RepoSummary>, sort: &str)
    ensures
        final(repos)@ == stable_sort_by(old(repos)@, repo_leq(sort_key_of(sort@))),
{
    let k = parse_sort_key(sort);
    match k {
        SortKey::Stars => {
            sort_with(
                repos,
                (|a: &RepoSummary, b: &RepoSummary| -> (r: bool)
                    ensures
                        r == repo_leq(SortKey::Stars)(*a, *b),
                    {
                        b.stars <= a.stars
                    }),
                Ghost(repo_leq(SortKey::Stars)),
            );
        },
        SortKey::Name => {
            sort_with(
                repos,
                (|a: &RepoSummary, b: &RepoSummary| -> (r: bool)
                    ensures
                        r == repo_leq(SortKey::Name)(*a, *b),
                    {
                        let la = lowercase(a.name.as_str());
                        let lb = lowercase(b.name.as_str());
                        str_lex_leq(la.as_str(), lb.as_str())
                    }),
                Ghost(repo_leq(SortKey::Name)),
            );
        },
        SortKey::Staleness => {
            sort_with(
                repos,
                (|a: &RepoSummary, b: &RepoSummary| -> (r: bool)
                    ensures
                        r == repo_leq(SortKey::Staleness)(*a, *b),
                    {
                        str_lex_leq(a.last_push.as_str(), b.last_push.as_str())
                    }),
                Ghost(repo_leq(SortKey::Staleness)),
            );
        },
        SortKey::Activity => {
            sort_with(
                repos,
                (|a: &RepoSummary, b: &RepoSummary| -> (r: bool)
                    ensures
                        r == repo_leq(SortKey::Activity)(*a, *b),
                    {
                        str_lex_leq(b.last_push.as_str(), a.last_push.as_str())
                    }),
                Ghost(repo_leq(SortKey::Activity)),
            );
        },
    }
}

/// The whole `repos` command on a set of fetch outcomes: the sorted rows of
/// every successful fetch, and one warning per failed one.
pub fn repos_command(fetches: &Vec<OrgReposFetch>, sort: &str, now: i64) -> (r: (
    Vec<RepoSummary>,
    Vec<String>,
))
    requires
        fetches_in_range(seq_view(fetches@)),
        ts_in_range(now),
    ensures
        seq_view(r.0@) == stable_sort_by(
            spec_repo_rows(seq_view(fetches@), now),
            repo_leq_v(sort_key_of(sort@)),
        ),
        seq_view(r.1@) == spec_fetch_warnings(seq_view(fetches@)),
{
    let warns = fetch_warnings(fetches);
    let ghost fsv: Seq<OrgReposFetchV> = seq_view(fetches@);
    let mut flat: Vec<RepoSummary> = Vec::new();
    let mut i: usize = 0;
    while i < fetches.len()
        invariant
            i <= fetches@.len(),
            fsv == seq_view(fetches@),
            fsv.len() == fetches@.len(),
            fetches_in_range(fsv),
            ts_in_range(now),
            seq_view(flat@) == spec_repo_rows(fsv.take(i as int), now),
        decreases fetches@.len() - i,
    {
        proof {
            assert(fsv.take(i + 1).drop_last() =~= fsv.take(i as int));
            assert(fsv.take(i + 1).last() == fsv[i as int]);
            assert(fsv[i as int] == fetches@[i as int]@);
        }
        match &fetches[i].outcome {
            Ok(repos) => {
                let ghost rsv: Seq<RepoRecordV> = seq_view(repos@);
                let ghost orgv: Seq<char> = fetches@[i as int].org@;
                let ghost base: Seq<RepoSummaryV> = seq_view(flat@);
                proof {
                    assert(fsv[i as int].outcome == Ok::<Seq<RepoRecordV>, Seq<char>>(rsv));
                    assert forall|l: int| 0 <= l < rsv.len() implies repo_rec_in_range(
                        #[trigger] rsv[l],
                    ) by {
                        assert(fsv[i as int].outcome matches Ok(rs) && rs == rsv);
                    }
                }
                let org_str = fetches[i].org.as_str();
                let mut j: usize = 0;
                while j < repos.len()
                    invariant
                        j <= repos@.len(),
                        rsv == seq_view(repos@),
                        rsv.len() == repos@.len(),
                        ts_in_range(now),
                        org_str@ == orgv,
                        forall|l: int| 0 <= l < rsv.len() ==> repo_rec_in_range(#[trigger] rsv[l]),
                        seq_view(flat@) == base + spec_row_map(orgv, rsv.take(j as int), now),
                    decreases repos@.len() - j,
                {
                    proof {
                        assert(rsv[j as int] == repos@[j as int]@);
                        assert(repo_rec_in_range(rsv[j as int]));
                    }
                    let row = RepoSummary::from_repo(org_str, &repos[j], now);
                    proof {
                        assert(row@ == spec_repo_summary(orgv, rsv[j as int], now));
                    }
                    let ghost flat_prev: Seq<RepoSummary> = flat@;
                    flat.push(row);
                    proof {
                        assert(flat@ == flat_prev.push(row));
                        assert(seq_view(flat@) =~= seq_view(flat_prev).push(row@));
                        assert(spec_row_map(orgv, rsv.take(j + 1), now) =~= spec_row_map(
                            orgv,
                            rsv.take(j as int),
                            now,
                        ).push(spec_repo_summary(orgv, rsv[j as int], now)));
                        assert(seq_view(flat@) =~= base + spec_row_map(
                            orgv,
                            rsv.take(j + 1),
                            now,
                        ));
                    }
                    j = j + 1;
                }
                proof {
                    assert(rsv.take(rsv.len() as int) =~= rsv);
                    assert(spec_org_rows(fsv[i as int], now) == spec_row_map(orgv, rsv, now));
                    assert(seq_view(flat@) =~= spec_repo_rows(fsv.take(i + 1), now));
                }
            },
            Err(_) => {
                proof {
                    assert(spec_org_rows(fsv[i as int], now) =~= Seq::<RepoSummaryV>::empty());
                    assert(seq_view(flat@) =~= spec_repo_rows(fsv.take(i + 1), now));
                }
            },
        }
        i = i + 1;
    }
    proof {
        assert(fsv.take(fsv.len() as int) =~= fsv);
    }
    let ghost flat0: Seq<RepoSummary> = flat@;
    sort_repos(&mut flat, sort);
    proof {
        let k = sort_key_of(sort@);
        lemma_stable_sort_by_map(flat0, |t: RepoSummary| t@, repo_leq(k), repo_leq_v(k));
        assert(seq_view(flat0) == flat0.map_values(|t: RepoSummary| t@));
    }
    (flat, warns)
}

} // verus!
