//! The `overview` command: one dashboard over every organization — totals,
//! the top languages, the most recently active and most stale repositories,
//! and the latest open issues.

use crate::commands::spec_repo_fetch_warning;
use crate::commands::repo_fetch_warning;
use crate::commands::stale::spec_days_stale;
use crate::commands::stats::count_language;
use crate::commands::stats::lang_leq_v;
use crate::commands::stats::lemma_histogram_total;
use crate::commands::stats::lemma_stats_prefix_bounds;
use crate::commands::stats::spec_histogram;
use crate::commands::stats::spec_lang_of;
use crate::commands::stats::spec_langs;
use crate::commands::stats::spec_sum_counts;
use crate::commands::stats::spec_sum_forks;
use crate::commands::stats::spec_sum_issues;
use crate::commands::stats::spec_sum_stars;
use crate::commands::stats::LanguageCount;
use crate::commands::stats::LanguageCountV;
use crate::github::repo_rec_in_range;
use crate::github::IssueRecordV;
use crate::github::RepoRecord;
use crate::github::RepoRecordV;
use crate::ordering::lemma_stable_sort_by_map;
use crate::ordering::sort_with;
use crate::ordering::stable_sort_by;
use crate::ordering::total_preorder;
use crate::seq_util::lemma_filter_split;
use crate::seq_util::lemma_take_up_to_saturated;
use crate::seq_util::seq_view;
use crate::seq_util::take_up_to;
use crate::text::lemma_lex_leq_total;
use crate::text::lemma_lex_leq_trans;
use crate::text::lex_leq;
use crate::text::str_lex_leq;
use crate::timestamp::date_str_of;
use crate::timestamp::days_between;
use crate::timestamp::format_date;
use crate::timestamp::ts_in_range;
use vstd::prelude::*;
use vstd::string::StringExecFns;

verus! {

/// The dashboard.
#[derive(Debug)]
pub struct OverviewData {
    pub total_repos: usize,
    pub total_stars: u32,
    pub total_forks: u32,
    pub total_open_issues: u32,
    pub top_languages: Vec<LangEntry>,
    pub recently_active: Vec<RepoEntry>,
    pub stale_repos: Vec<RepoEntry>,
    pub recent_issues: Vec<IssueEntry>,
}

#[derive(Debug)]
pub struct LangEntry {
    pub language: String,
    pub count: usize,
}

pub struct LangEntryV {
    pub language: Seq<char>,
    pub count: nat,
}

impl View for LangEntry {
    type V = LangEntryV;

    open spec fn view(&self) -> LangEntryV {
        LangEntryV { language: self.language@, count: self.count as nat }
    }
}

#[derive(Debug)]
pub struct RepoEntry {
    pub org: String,
    pub name: String,
    pub stars: u32,
    pub last_push: String,
    pub days_since_push: i64,
}

pub struct RepoEntryV {
    pub org: Seq<char>,
    pub name: Seq<char>,
    pub stars: u32,
    pub last_push: Seq<char>,
    pub days_since_push: i64,
}

impl View for RepoEntry {
    type V = RepoEntryV;

    open spec fn view(&self) -> RepoEntryV {
        RepoEntryV {
            org: self.org@,
            name: self.name@,
            stars: self.stars,
            last_push: self.last_push@,
            days_since_push: self.days_since_push,
        }
    }
}

#[derive(Debug)]
pub struct IssueEntry {
    pub org: String,
    pub repo: String,
    pub number: u64,
    pub title: String,
    pub updated: String,
}

pub struct IssueEntryV {
    pub org: Seq<char>,
    pub repo: Seq<char>,
    pub number: u64,
    pub title: Seq<char>,
    pub updated: Seq<char>,
}

impl View for IssueEntry {
    type V = IssueEntryV;

    open spec fn view(&self) -> IssueEntryV {
        IssueEntryV {
            org: self.org@,
            repo: self.repo@,
            number: self.number,
            title: self.title@,
            updated: self.updated@,
        }
    }
}

/// A fetched repository together with its latest open issues, when they
/// were fetched; `None` when the listing was skipped or failed, which the
/// overview silently tolerates.
pub struct RepoWithIssues {
    pub repo: RepoRecord,
    pub issues: Option<Vec<crate::github::IssueRecord>>,
}

pub struct RepoWithIssuesV {
    pub repo: RepoRecordV,
    pub issues: Option<Seq<IssueRecordV>>,
}

impl View for RepoWithIssues {
    type V = RepoWithIssuesV;

    open spec fn view(&self) -> RepoWithIssuesV {
        RepoWithIssuesV {
            repo: self.repo@,
            issues: match self.issues {
                Some(is) => Some(seq_view(is@)),
                None => None,
            },
        }
    }
}

/// The outcome of one organization's fetch for the overview.
pub struct OrgOverviewFetch {
    pub org: String,
    pub outcome: Result<Vec<RepoWithIssues>, String>,
}

pub struct OrgOverviewFetchV {
    pub org: Seq<char>,
    pub outcome: Result<Seq<RepoWithIssuesV>, Seq<char>>,
}

impl View for OrgOverviewFetch {
    type V = OrgOverviewFetchV;

    open spec fn view(&self) -> OrgOverviewFetchV {
        OrgOverviewFetchV {
            org: self.org@,
            outcome: match self.outcome {
                Ok(rs) => Ok(seq_view(rs@)),
                Err(e) => Err(e@),
            },
        }
    }
}

pub open spec fn overview_in_range(fs: Seq<OrgOverviewFetchV>) -> bool {
    forall|i: int|
        0 <= i < fs.len() ==> match #[trigger] fs[i].outcome {
            Ok(rs) => forall|m: int|
                0 <= m < rs.len() ==> repo_rec_in_range((#[trigger] rs[m]).repo) && match rs[m].issues {
                    Some(is) => forall|t: int|
                        0 <= t < is.len() ==> ts_in_range((#[trigger] is[t]).updated_at),
                    None => true,
                },
            Err(_) => true,
        }
}

/// Every fetched repository, tagged with its organization, in fetch order.
pub open spec fn overview_pairs(fs: Seq<OrgOverviewFetchV>) -> Seq<(Seq<char>, RepoRecordV)>
    decreases fs.len(),
{
    if fs.len() == 0 {
        Seq::empty()
    } else {
        overview_pairs(fs.drop_last()) + (match fs.last().outcome {
            Ok(rs) => rs.map_values(|x: RepoWithIssuesV| (fs.last().org, x.repo)),
            Err(_) => Seq::empty(),
        })
    }
}

/// The activity row of one repository.
pub open spec fn spec_repo_entry(org: Seq<char>, rv: RepoRecordV, now: i64) -> RepoEntryV {
    RepoEntryV {
        org: org,
        name: rv.name,
        stars: rv.stars,
        last_push: match rv.pushed_at {
            Some(ts) => date_str_of(ts as int),
            None => "never"@,
        },
        days_since_push: spec_days_stale(rv, now) as i64,
    }
}

pub open spec fn spec_overview_entries(fs: Seq<OrgOverviewFetchV>, now: i64) -> Seq<RepoEntryV> {
    overview_pairs(fs).map_values(|p: (Seq<char>, RepoRecordV)| spec_repo_entry(p.0, p.1, now))
}

/// Most recently pushed first is the reverse of this order.
pub open spec fn entry_leq_v() -> spec_fn(RepoEntryV, RepoEntryV) -> bool {
    |a: RepoEntryV, b: RepoEntryV| a.days_since_push <= b.days_since_push
}

pub open spec fn entry_leq() -> spec_fn(RepoEntry, RepoEntry) -> bool {
    |a: RepoEntry, b: RepoEntry| entry_leq_v()(a@, b@)
}

pub open spec fn active_pred(days: u64) -> spec_fn(RepoEntryV) -> bool {
    |r: RepoEntryV| (r.days_since_push as int) < days as int
}

pub open spec fn stale_pred(days: u64) -> spec_fn(RepoEntryV) -> bool {
    |r: RepoEntryV| (r.days_since_push as int) >= days as int
}

/// The issue entries one repository contributes: its first three fetched
/// issues, pull requests then excluded.
pub open spec fn kept_recent(is: Seq<IssueRecordV>) -> Seq<IssueRecordV> {
    take_up_to(is, 3).filter(|iv: IssueRecordV| !iv.is_pull_request)
}

pub open spec fn spec_issue_entry(org: Seq<char>, repo: Seq<char>, iv: IssueRecordV) -> IssueEntryV {
    IssueEntryV {
        org: org,
        repo: repo,
        number: iv.number,
        title: iv.title,
        updated: date_str_of(iv.updated_at as int),
    }
}

pub open spec fn spec_repo_recent(org: Seq<char>, x: RepoWithIssuesV) -> Seq<IssueEntryV> {
    match x.issues {
        Some(is) => kept_recent(is).map_values(
            |iv: IssueRecordV| spec_issue_entry(org, x.repo.name, iv),
        ),
        None => Seq::empty(),
    }
}

pub open spec fn spec_org_recent(org: Seq<char>, rs: Seq<RepoWithIssuesV>) -> Seq<IssueEntryV>
    decreases rs.len(),
{
    if rs.len() == 0 {
        Seq::empty()
    } else {
        spec_org_recent(org, rs.drop_last()) + spec_repo_recent(org, rs.last())
    }
}

pub open spec fn spec_collected_issues(fs: Seq<OrgOverviewFetchV>) -> Seq<IssueEntryV>
    decreases fs.len(),
{
    if fs.len() == 0 {
        Seq::empty()
    } else {
        spec_collected_issues(fs.drop_last()) + (match fs.last().outcome {
            Ok(rs) => spec_org_recent(fs.last().org, rs),
            Err(_) => Seq::empty(),
        })
    }
}

/// Most recently updated first, by the fixed-width date string.
pub open spec fn issue_desc_leq_v() -> spec_fn(IssueEntryV, IssueEntryV) -> bool {
    |a: IssueEntryV, b: IssueEntryV| lex_leq(b.updated, a.updated)
}

pub open spec fn issue_desc_leq() -> spec_fn(IssueEntry, IssueEntry) -> bool {
    |a: IssueEntry, b: IssueEntry| issue_desc_leq_v()(a@, b@)
}

/// The language buckets as dashboard entries.
pub open spec fn lang_entries(h: Seq<LanguageCountV>) -> Seq<LangEntryV> {
    h.map_values(|e: LanguageCountV| LangEntryV { language: e.language, count: e.count })
}

pub open spec fn spec_overview_warnings(fs: Seq<OrgOverviewFetchV>) -> Seq<Seq<char>>
    decreases fs.len(),
{
    if fs.len() == 0 {
        Seq::empty()
    } else {
        spec_overview_warnings(fs.drop_last()) + (match fs.last().outcome {
            Ok(_) => Seq::empty(),
            Err(e) => seq![spec_repo_fetch_warning(fs.last().org, e)],
        })
    }
}

/// The orders of the overview are total and transitive, so the sorting laws
/// apply to its activity list and its issue list.
pub proof fn lemma_overview_orders_total()
    ensures
        total_preorder(entry_leq_v()),
        total_preorder(entry_leq()),
        total_preorder(issue_desc_leq_v()),
        total_preorder(issue_desc_leq()),
{
    broadcast use lemma_lex_leq_total;
    broadcast use lemma_lex_leq_trans;

}

/// The whole `overview` command on a set of fetch outcomes.
pub fn overview_command(fetches: &Vec<OrgOverviewFetch>, days: u64, now: i64) -> (r: (
    OverviewData,
    Vec<String>,
))
    requires
        overview_in_range(seq_view(fetches@)),
        ts_in_range(now),
        days <= i64::MAX as u64,
        overview_pairs(seq_view(fetches@)).len() < usize::MAX,
        spec_sum_stars(overview_pairs(seq_view(fetches@))) <= u32::MAX,
        spec_sum_forks(overview_pairs(seq_view(fetches@))) <= u32::MAX,
        spec_sum_issues(overview_pairs(seq_view(fetches@))) <= u32::MAX,
    ensures
        ({
            let ps = overview_pairs(seq_view(fetches@));
            let sorted = stable_sort_by(spec_overview_entries(seq_view(fetches@), now), entry_leq_v());
            &&& r.0.total_repos as int == ps.len()
            &&& r.0.total_stars as int == spec_sum_stars(ps)
            &&& r.0.total_forks as int == spec_sum_forks(ps)
            &&& r.0.total_open_issues as int == spec_sum_issues(ps)
            &&& seq_view(r.0.top_languages@) == lang_entries(
                take_up_to(
                    stable_sort_by(
                        spec_histogram(spec_langs(ps)),
                        |a: LanguageCountV, b: LanguageCountV| lang_leq_v(a, b),
                    ),
                    5,
                ),
            )
            &&& seq_view(r.0.recently_active@) == take_up_to(sorted.filter(active_pred(days)), 10)
            &&& seq_view(r.0.stale_repos@) == take_up_to(
                sorted.reverse().filter(stale_pred(days)),
                10,
            )
            &&& seq_view(r.0.recent_issues@) == take_up_to(
                stable_sort_by(spec_collected_issues(seq_view(fetches@)), issue_desc_leq_v()),
                10,
            )
        }),
        seq_view(r.1@) == spec_overview_warnings(seq_view(fetches@)),
{
    let ghost fsv: Seq<OrgOverviewFetchV> = seq_view(fetches@);
    let ghost all_ps: Seq<(Seq<char>, RepoRecordV)> = overview_pairs(fsv);

    let mut warns: Vec<String> = Vec::new();
    let mut total_repos: usize = 0;
    let mut total_stars: u32 = 0;
    let mut total_forks: u32 = 0;
    let mut total_open_issues: u32 = 0;
    let mut hist: Vec<LanguageCount> = Vec::new();
    let mut entries: Vec<RepoEntry> = Vec::new();
    let mut collected: Vec<IssueEntry> = Vec::new();

    let mut i: usize = 0;
    while i < fetches.len()
        invariant
            i <= fetches@.len(),
            fsv == seq_view(fetches@),
            fsv.len() == fetches@.len(),
            overview_in_range(fsv),
            ts_in_range(now),
            all_ps == overview_pairs(fsv),
            all_ps.len() < usize::MAX,
            spec_sum_stars(all_ps) <= u32::MAX,
            spec_sum_forks(all_ps) <= u32::MAX,
            spec_sum_issues(all_ps) <= u32::MAX,
            total_repos as int == overview_pairs(fsv.take(i as int)).len(),
            total_stars as int == spec_sum_stars(overview_pairs(fsv.take(i as int))),
            total_forks as int == spec_sum_forks(overview_pairs(fsv.take(i as int))),
            total_open_issues as int == spec_sum_issues(overview_pairs(fsv.take(i as int))),
            seq_view(hist@) == spec_histogram(spec_langs(overview_pairs(fsv.take(i as int)))),
            seq_view(entries@) == spec_overview_entries(fsv.take(i as int), now),
            seq_view(collected@) == spec_collected_issues(fsv.take(i as int)),
            seq_view(warns@) == spec_overview_warnings(fsv.take(i as int)),
        decreases fetches@.len() - i,
    {
        proof {
            assert(fsv.take(i + 1).drop_last() =~= fsv.take(i as int));
            assert(fsv.take(i + 1).last() == fsv[i as int]);
            assert(fsv[i as int] == fetches@[i as int]@);
        }
        let org_str = fetches[i].org.as_str();
        let ghost orgv: Seq<char> = fetches@[i as int].org@;
        match &fetches[i].outcome {
            Ok(repo_items) => {
                let ghost rsv: Seq<RepoWithIssuesV> = seq_view(repo_items@);
                let ghost base: Seq<(Seq<char>, RepoRecordV)> = overview_pairs(fsv.take(i as int));
                let ghost org_pairs = rsv.map_values(|x: RepoWithIssuesV| (orgv, x.repo));
                let ghost entries_base: Seq<RepoEntryV> = seq_view(entries@);
                let ghost coll_base: Seq<IssueEntryV> = seq_view(collected@);
                proof {
                    assert(fsv[i as int].outcome == Ok::<Seq<RepoWithIssuesV>, Seq<char>>(rsv));
                    assert forall|m: int| 0 <= m < rsv.len() implies repo_rec_in_range(
                        (#[trigger] rsv[m]).repo,
                    ) && (match rsv[m].issues {
                        Some(is) => forall|t: int|
                            0 <= t < is.len() ==> ts_in_range((#[trigger] is[t]).updated_at),
                        None => true,
                    }) by {
                        assert(fsv[i as int].outcome matches Ok(rs) && rs == rsv);
                    }
                    assert(overview_pairs(fsv.take(i + 1)) == base + org_pairs);
                    assert(fsv =~= fsv.take(i + 1) + fsv.skip(i + 1));
                    lemma_overview_pairs_concat(fsv.take(i + 1), fsv.skip(i + 1));
                }
                let mut j: usize = 0;
                while j < repo_items.len()
                    invariant
                        j <= repo_items@.len(),
                        rsv == seq_view(repo_items@),
                        rsv.len() == repo_items@.len(),
                        org_str@ == orgv,
                        ts_in_range(now),
                        org_pairs == rsv.map_values(|x: RepoWithIssuesV| (orgv, x.repo)),
                        all_ps.len() < usize::MAX,
                        spec_sum_stars(all_ps) <= u32::MAX,
                        spec_sum_forks(all_ps) <= u32::MAX,
                        spec_sum_issues(all_ps) <= u32::MAX,
                        forall|m: int| 0 <= m < rsv.len() ==> repo_rec_in_range(
                            (#[trigger] rsv[m]).repo,
                        ) && (match rsv[m].issues {
                            Some(is) => forall|t: int|
                                0 <= t < is.len() ==> ts_in_range((#[trigger] is[t]).updated_at),
                            None => true,
                        }),
                        ({
                            let cur = base + org_pairs.take(j as int);
                            &&& total_repos as int == cur.len()
                            &&& total_stars as int == spec_sum_stars(cur)
                            &&& total_forks as int == spec_sum_forks(cur)
                            &&& total_open_issues as int == spec_sum_issues(cur)
                            &&& seq_view(hist@) == spec_histogram(spec_langs(cur))
                            &&& seq_view(entries@) == entries_base + org_pairs.take(
                                j as int,
                            ).map_values(
                                |p: (Seq<char>, RepoRecordV)| spec_repo_entry(p.0, p.1, now),
                            )
                        }),
                        seq_view(collected@) == coll_base + spec_org_recent(
                            orgv,
                            rsv.take(j as int),
                        ),
                        exists|rest: Seq<(Seq<char>, RepoRecordV)>|
                            all_ps == #[trigger] ((base + org_pairs) + rest),
                    decreases repo_items@.len() - j,
                {
                    let ghost cur = base + org_pairs.take(j as int);
                    let ghost cur1 = base + org_pairs.take(j + 1);
                    let ghost pair = (orgv, rsv[j as int].repo);
                    proof {
                        assert(rsv[j as int] == repo_items@[j as int]@);
                        assert(org_pairs[j as int] == pair);
                        assert(cur1 =~= cur.push(pair));
                        let rest = choose|rest: Seq<(Seq<char>, RepoRecordV)>|
                            all_ps == ((base + org_pairs) + rest);
                        assert(base + org_pairs =~= cur1 + org_pairs.skip(j + 1));
                        assert(all_ps =~= cur1 + (org_pairs.skip(j + 1) + rest));
                        lemma_stats_prefix_bounds(cur1, org_pairs.skip(j + 1) + rest, all_ps);
                        crate::commands::stats::lemma_fold_step(cur, pair);
                    }
                    let item = &repo_items[j];
                    let repo = &item.repo;
                    total_repos = total_repos + 1;
                    total_stars = total_stars + repo.stars;
                    total_forks = total_forks + repo.forks;
                    total_open_issues = total_open_issues + repo.open_issues;
                    proof {
                        lemma_histogram_total(spec_langs(cur));
                        assert(spec_langs(cur).len() == cur.len());
                        assert(spec_sum_counts(seq_view(hist@)) < usize::MAX);
                        assert(spec_langs(cur1) =~= spec_langs(cur).push(spec_lang_of(pair.1)));
                        assert(spec_langs(cur1).drop_last() =~= spec_langs(cur));
                        assert(spec_langs(cur1).last() == spec_lang_of(pair.1));
                    }
                    match &repo.language {
                        Some(l) => {
                            proof {
                                assert(l@ == spec_lang_of(pair.1));
                            }
                            count_language(&mut hist, l.as_str());
                        },
                        None => {
                            count_language(&mut hist, "Unknown");
                        },
                    }
                    proof {
                        assert(seq_view(hist@) == spec_histogram(spec_langs(cur1)));
                    }
                    let days_since: i64 = match repo.pushed_at {
                        Some(ts) => days_between(now, ts),
                        None => 99999,
                    };
                    let entry = RepoEntry {
                        org: String::from_str(org_str),
                        name: repo.name.clone(),
                        stars: repo.stars,
                        last_push: match repo.pushed_at {
                            Some(ts) => format_date(ts),
                            None => String::from_str("never"),
                        },
                        days_since_push: days_since,
                    };
                    let ghost entryv: RepoEntryV = entry@;
                    let ghost entries_prev: Seq<RepoEntry> = entries@;
                    entries.push(entry);
                    proof {
                        assert(entryv == spec_repo_entry(pair.0, pair.1, now));
                        assert(entries@ == entries_prev.push(entries@.last()));
                        assert(entries@.last()@ == entryv);
                        assert(seq_view(entries@) =~= seq_view(entries_prev).push(entryv));
                        let entry_of = |p: (Seq<char>, RepoRecordV)| spec_repo_entry(
                            p.0,
                            p.1,
                            now,
                        );
                        assert(org_pairs.take(j + 1).map_values(entry_of) =~= org_pairs.take(
                            j as int,
                        ).map_values(entry_of).push(entryv));
                        assert(seq_view(entries@) =~= entries_base + org_pairs.take(
                            j + 1,
                        ).map_values(entry_of));
                    }
                    let ghost inner_coll_base: Seq<IssueEntryV> = seq_view(collected@);
                    match &item.issues {
                        Some(issues) => {
                            let ghost isv: Seq<IssueRecordV> = seq_view(issues@);
                            let ghost keep: Seq<IssueRecordV> = take_up_to(isv, 3);
                            proof {
                                assert(rsv[j as int].issues == Some(isv));
                                assert forall|t: int| 0 <= t < isv.len() implies ts_in_range(
                                    (#[trigger] isv[t]).updated_at,
                                ) by {
                                    assert(rsv[j as int].issues matches Some(is2) && is2 == isv);
                                }
                                assert(keep.take(0).filter(
                                    |iv: IssueRecordV| !iv.is_pull_request,
                                ) =~= Seq::<IssueRecordV>::empty());
                            }
                            let limit: usize = if issues.len() < 3 {
                                issues.len()
                            } else {
                                3
                            };
                            proof {
                                assert(keep.len() == limit);
                                assert(forall|t: int| 0 <= t < keep.len() ==> keep[t] == isv[t]);
                            }
                            let mut t: usize = 0;
                            while t < limit
                                invariant
                                    t <= limit,
                                    limit <= issues@.len(),
                                    isv == seq_view(issues@),
                                    isv.len() == issues@.len(),
                                    org_str@ == orgv,
                                    j < repo_items@.len(),
                                    rsv.len() == repo_items@.len(),
                                    *item == repo_items@[j as int],
                                    rsv[j as int] == repo_items@[j as int]@,
                                    keep == take_up_to(isv, 3),
                                    keep.len() == limit,
                                    forall|l: int| 0 <= l < keep.len() ==> keep[l] == isv[l],
                                    forall|l: int|
                                        0 <= l < isv.len() ==> ts_in_range(
                                            (#[trigger] isv[l]).updated_at,
                                        ),
                                    rsv[j as int].repo.name == repo_items@[j as int].repo.name@,
                                    seq_view(collected@) == inner_coll_base + keep.take(
                                        t as int,
                                    ).filter(|iv: IssueRecordV| !iv.is_pull_request).map_values(
                                        |iv: IssueRecordV| spec_issue_entry(
                                            orgv,
                                            rsv[j as int].repo.name,
                                            iv,
                                        ),
                                    ),
                                decreases limit - t,
                            {
                                proof {
                                    assert(isv[t as int] == issues@[t as int]@);
                                    reveal(Seq::filter);
                                    assert(keep.take(t + 1).drop_last() =~= keep.take(t as int));
                                    assert(keep.take(t + 1).last() == keep[t as int]);
                                }
                                let issue = &issues[t];
                                if !issue.is_pull_request {
                                    let ientry = IssueEntry {
                                        org: String::from_str(org_str),
                                        repo: item.repo.name.clone(),
                                        number: issue.number,
                                        title: issue.title.clone(),
                                        updated: format_date(issue.updated_at),
                                    };
                                    let ghost ientryv: IssueEntryV = ientry@;
                                    let ghost coll_prev: Seq<IssueEntry> = collected@;
                                    collected.push(ientry);
                                    proof {
                                        assert(ientryv == spec_issue_entry(
                                            orgv,
                                            rsv[j as int].repo.name,
                                            isv[t as int],
                                        ));
                                        assert(collected@ == coll_prev.push(collected@.last()));
                                        assert(collected@.last()@ == ientryv);
                                        assert(seq_view(collected@) =~= seq_view(coll_prev).push(
                                            ientryv,
                                        ));
                                        let pred = |iv: IssueRecordV| !iv.is_pull_request;
                                        let mk = |iv: IssueRecordV| spec_issue_entry(
                                            orgv,
                                            rsv[j as int].repo.name,
                                            iv,
                                        );
                                        assert(keep.take(t + 1).filter(pred) =~= keep.take(
                                            t as int,
                                        ).filter(pred).push(keep[t as int]));
                                        assert(keep.take(t + 1).filter(pred).map_values(mk)
                                            =~= keep.take(t as int).filter(pred).map_values(
                                            mk,
                                        ).push(ientryv));
                                        assert(seq_view(collected@) =~= inner_coll_base
                                            + keep.take(t + 1).filter(pred).map_values(mk));
                                    }
                                } else {
                                    proof {
                                        let pred = |iv: IssueRecordV| !iv.is_pull_request;
                                        let mk = |iv: IssueRecordV| spec_issue_entry(
                                            orgv,
                                            rsv[j as int].repo.name,
                                            iv,
                                        );
                                        assert(keep.take(t + 1).filter(pred) =~= keep.take(
                                            t as int,
                                        ).filter(pred));
                                        assert(seq_view(collected@) =~= inner_coll_base
                                            + keep.take(t + 1).filter(pred).map_values(mk));
                                    }
                                }
                                t = t + 1;
                            }
                            proof {
                                assert(keep.take(keep.len() as int) =~= keep);
                                assert(spec_repo_recent(orgv, rsv[j as int]) == kept_recent(
                                    isv,
                                ).map_values(
                                    |iv: IssueRecordV| spec_issue_entry(
                                        orgv,
                                        rsv[j as int].repo.name,
                                        iv,
                                    ),
                                ));
                                assert(seq_view(collected@) =~= inner_coll_base + spec_repo_recent(
                                    orgv,
                                    rsv[j as int],
                                ));
                            }
                        },
                        None => {
                            proof {
                                assert(rsv[j as int].issues is None);
                                assert(spec_repo_recent(orgv, rsv[j as int]) =~= Seq::<
                                    IssueEntryV,
                                >::empty());
                                assert(seq_view(collected@) =~= inner_coll_base + spec_repo_recent(
                                    orgv,
                                    rsv[j as int],
                                ));
                            }
                        },
                    }
                    proof {
                        assert(rsv.take(j + 1).drop_last() =~= rsv.take(j as int));
                        assert(rsv.take(j + 1).last() == rsv[j as int]);
                        assert(seq_view(collected@) =~= coll_base + spec_org_recent(
                            orgv,
                            rsv.take(j + 1),
                        ));
                    }
                    j = j + 1;
                }
                proof {
                    assert(org_pairs.take(org_pairs.len() as int) =~= org_pairs);
                    assert(rsv.take(rsv.len() as int) =~= rsv);
                    let entry_of = |p: (Seq<char>, RepoRecordV)| spec_repo_entry(p.0, p.1, now);
                    assert(spec_overview_entries(fsv.take(i + 1), now) =~= entries_base
                        + org_pairs.map_values(entry_of));
                    assert(seq_view(collected@) =~= spec_collected_issues(fsv.take(i + 1)));
                    assert(seq_view(warns@) =~= spec_overview_warnings(fsv.take(i + 1)));
                }
            },
            Err(e) => {
                let w = repo_fetch_warning(org_str, e.as_str());
                let ghost wv: Seq<char> = w@;
                let ghost warns_prev: Seq<String> = warns@;
                warns.push(w);
                proof {
                    assert(warns@ == warns_prev.push(warns@.last()));
                    assert(warns@.last()@ == wv);
                    assert(seq_view(warns@) =~= seq_view(warns_prev).push(wv));
                    assert(seq_view(warns@) =~= spec_overview_warnings(fsv.take(i + 1)));
                    assert(overview_pairs(fsv.take(i + 1)) =~= overview_pairs(fsv.take(i as int)));
                    assert(seq_view(entries@) =~= spec_overview_entries(fsv.take(i + 1), now));
                    assert(seq_view(collected@) =~= spec_collected_issues(fsv.take(i + 1)));
                }
            },
        }
        i = i + 1;
    }
    proof {
        assert(fsv.take(fsv.len() as int) =~= fsv);
    }

    // Sort the activity list, most recent first at the front of the order.
    let ghost entries0: Seq<RepoEntry> = entries@;
    sort_with(
        &mut entries,
        (|a: &RepoEntry, b: &RepoEntry| -> (r: bool)
            ensures
                r == entry_leq()(*a, *b),
            {
                a.days_since_push <= b.days_since_push
            }),
        Ghost(entry_leq()),
    );
    proof {
        lemma_stable_sort_by_map(entries0, |t: RepoEntry| t@, entry_leq(), entry_leq_v());
        assert(seq_view(entries0) == entries0.map_values(|t: RepoEntry| t@));
    }
    let ghost sortedv: Seq<RepoEntryV> = seq_view(entries@);

    // The ten most recently active repositories under the threshold.
    let mut recently_active: Vec<RepoEntry> = Vec::new();
    let threshold: i64 = days as i64;
    let mut idx: usize = 0;
    while idx < entries.len() && recently_active.len() < 10
        invariant
            idx <= entries@.len(),
            sortedv == seq_view(entries@),
            sortedv.len() == entries@.len(),
            threshold == days as i64,
            days <= i64::MAX as u64,
            recently_active@.len() <= 10,
            seq_view(recently_active@) == sortedv.take(idx as int).filter(active_pred(days)),
        decreases entries@.len() - idx,
    {
        proof {
            reveal(Seq::filter);
            assert(sortedv.take(idx + 1).drop_last() =~= sortedv.take(idx as int));
            assert(sortedv.take(idx + 1).last() == sortedv[idx as int]);
            assert(sortedv[idx as int] == entries@[idx as int]@);
        }
        let r0 = &entries[idx];
        if r0.days_since_push < threshold {
            let copy = RepoEntry {
                org: r0.org.clone(),
                name: r0.name.clone(),
                stars: r0.stars,
                last_push: r0.last_push.clone(),
                days_since_push: r0.days_since_push,
            };
            let ghost copyv: RepoEntryV = copy@;
            let ghost ra_prev: Seq<RepoEntry> = recently_active@;
            recently_active.push(copy);
            proof {
                reveal(Seq::filter);
                assert(copyv == sortedv[idx as int]);
                assert(active_pred(days)(sortedv[idx as int]));
                assert(recently_active@ == ra_prev.push(recently_active@.last()));
                assert(recently_active@.last()@ == copyv);
                assert(seq_view(recently_active@) =~= seq_view(ra_prev).push(copyv));
                assert(sortedv.take(idx + 1).filter(active_pred(days)) =~= sortedv.take(
                    idx as int,
                ).filter(active_pred(days)).push(copyv));
                assert(seq_view(recently_active@) =~= sortedv.take(idx + 1).filter(
                    active_pred(days),
                ));
            }
        } else {
            proof {
                reveal(Seq::filter);
                assert(!active_pred(days)(sortedv[idx as int]));
                assert(sortedv.take(idx + 1).filter(active_pred(days)) =~= sortedv.take(
                    idx as int,
                ).filter(active_pred(days)));
                assert(seq_view(recently_active@) =~= sortedv.take(idx + 1).filter(
                    active_pred(days),
                ));
            }
        }
        idx = idx + 1;
    }
    proof {
        lemma_filter_split(sortedv, active_pred(days), idx as int);
        if idx < sortedv.len() {
            assert(recently_active@.len() == 10);
            lemma_take_up_to_saturated(
                sortedv.take(idx as int).filter(active_pred(days)),
                sortedv.skip(idx as int).filter(active_pred(days)),
                10,
            );
            assert(seq_view(recently_active@) =~= take_up_to(
                sortedv.filter(active_pred(days)),
                10,
            ));
        } else {
            assert(sortedv.take(idx as int) =~= sortedv);
            assert(seq_view(recently_active@) =~= take_up_to(
                sortedv.filter(active_pred(days)),
                10,
            ));
        }
    }

    // The ten most stale repositories at or past the threshold, most stale
    // first: read from the tail of the activity order.
    let ghost revv: Seq<RepoEntryV> = sortedv.reverse();
    let mut stale_repos: Vec<RepoEntry> = Vec::new();
    let mut k: usize = 0;
    while k < entries.len() && stale_repos.len() < 10
        invariant
            k <= entries@.len(),
            sortedv == seq_view(entries@),
            sortedv.len() == entries@.len(),
            revv == sortedv.reverse(),
            revv.len() == sortedv.len(),
            threshold == days as i64,
            days <= i64::MAX as u64,
            stale_repos@.len() <= 10,
            seq_view(stale_repos@) == revv.take(k as int).filter(stale_pred(days)),
        decreases entries@.len() - k,
    {
        proof {
            reveal(Seq::filter);
            assert(revv.take(k + 1).drop_last() =~= revv.take(k as int));
            assert(revv.take(k + 1).last() == revv[k as int]);
            assert(revv[k as int] == sortedv[sortedv.len() - 1 - k as int]);
            assert(sortedv[sortedv.len() - 1 - k as int] == entries@[entries@.len() - 1
                - k as int]@);
        }
        let pos = entries.len() - 1 - k;
        let r0 = &entries[pos];
        if r0.days_since_push >= threshold {
            let copy = RepoEntry {
                org: r0.org.clone(),
                name: r0.name.clone(),
                stars: r0.stars,
                last_push: r0.last_push.clone(),
                days_since_push: r0.days_since_push,
            };
            let ghost copyv: RepoEntryV = copy@;
            let ghost st_prev: Seq<RepoEntry> = stale_repos@;
            stale_repos.push(copy);
            proof {
                reveal(Seq::filter);
                assert(copyv == revv[k as int]);
                assert(stale_pred(days)(revv[k as int]));
                assert(stale_repos@ == st_prev.push(stale_repos@.last()));
                assert(stale_repos@.last()@ == copyv);
                assert(seq_view(stale_repos@) =~= seq_view(st_prev).push(copyv));
                assert(revv.take(k + 1).filter(stale_pred(days)) =~= revv.take(k as int).filter(
                    stale_pred(days),
                ).push(copyv));
                assert(seq_view(stale_repos@) =~= revv.take(k + 1).filter(stale_pred(days)));
            }
        } else {
            proof {
                reveal(Seq::filter);
                assert(!stale_pred(days)(revv[k as int]));
                assert(revv.take(k + 1).filter(stale_pred(days)) =~= revv.take(k as int).filter(
                    stale_pred(days),
                ));
                assert(seq_view(stale_repos@) =~= revv.take(k + 1).filter(stale_pred(days)));
            }
        }
        k = k + 1;
    }
    proof {
        lemma_filter_split(revv, stale_pred(days), k as int);
        if k < revv.len() {
            assert(stale_repos@.len() == 10);
            lemma_take_up_to_saturated(
                revv.take(k as int).filter(stale_pred(days)),
                revv.skip(k as int).filter(stale_pred(days)),
                10,
            );
            assert(seq_view(stale_repos@) =~= take_up_to(revv.filter(stale_pred(days)), 10));
        } else {
            assert(revv.take(k as int) =~= revv);
            assert(seq_view(stale_repos@) =~= take_up_to(revv.filter(stale_pred(days)), 10));
        }
    }

    // The ten most recently updated issues.
    let ghost collected0: Seq<IssueEntry> = collected@;
    sort_with(
        &mut collected,
        (|a: &IssueEntry, b: &IssueEntry| -> (r: bool)
            ensures
                r == issue_desc_leq()(*a, *b),
            {
                str_lex_leq(b.updated.as_str(), a.updated.as_str())
            }),
        Ghost(issue_desc_leq()),
    );
    proof {
        lemma_stable_sort_by_map(collected0, |t: IssueEntry| t@, issue_desc_leq(), issue_desc_leq_v());
        assert(seq_view(collected0) == collected0.map_values(|t: IssueEntry| t@));
    }
    let ghost coll_sorted: Seq<IssueEntry> = collected@;
    collected.truncate(10);
    proof {
        if coll_sorted.len() > 10 {
            assert(collected@ == coll_sorted.take(10));
        }
        assert(seq_view(collected@) =~= take_up_to(seq_view(coll_sorted), 10));
    }

    // The five most common languages.
    let ghost hist0: Seq<LanguageCount> = hist@;
    sort_with(
        &mut hist,
        (|a: &LanguageCount, b: &LanguageCount| -> (r: bool)
            ensures
                r == crate::commands::stats::lang_leq(*a, *b),
            {
                b.count <= a.count
            }),
        Ghost(|a: LanguageCount, b: LanguageCount| crate::commands::stats::lang_leq(a, b)),
    );
    proof {
        lemma_stable_sort_by_map(
            hist0,
            |t: LanguageCount| t@,
            |a: LanguageCount, b: LanguageCount| crate::commands::stats::lang_leq(a, b),
            |a: LanguageCountV, b: LanguageCountV| lang_leq_v(a, b),
        );
        assert(seq_view(hist0) == hist0.map_values(|t: LanguageCount| t@));
    }
    let ghost hist_sorted: Seq<LanguageCount> = hist@;
    hist.truncate(5);
    proof {
        if hist_sorted.len() > 5 {
            assert(hist@ == hist_sorted.take(5));
        }
        assert(seq_view(hist@) =~= take_up_to(seq_view(hist_sorted), 5));
    }
    let mut top_languages: Vec<LangEntry> = Vec::new();
    let ghost top_src: Seq<LanguageCountV> = seq_view(hist@);
    let mut q: usize = 0;
    while q < hist.len()
        invariant
            q <= hist@.len(),
            top_src == seq_view(hist@),
            top_src.len() == hist@.len(),
            seq_view(top_languages@) == lang_entries(top_src.take(q as int)),
        decreases hist@.len() - q,
    {
        let e = &hist[q];
        let le = LangEntry { language: e.language.clone(), count: e.count };
        let ghost lev: LangEntryV = le@;
        let ghost tl_prev: Seq<LangEntry> = top_languages@;
        top_languages.push(le);
        proof {
            assert(top_src[q as int] == hist@[q as int]@);
            assert(lev == LangEntryV {
                language: top_src[q as int].language,
                count: top_src[q as int].count,
            });
            assert(top_languages@ == tl_prev.push(top_languages@.last()));
            assert(top_languages@.last()@ == lev);
            assert(seq_view(top_languages@) =~= seq_view(tl_prev).push(lev));
            assert(lang_entries(top_src.take(q + 1)) =~= lang_entries(top_src.take(q as int)).push(
                lev,
            ));
        }
        q = q + 1;
    }
    proof {
        assert(top_src.take(top_src.len() as int) =~= top_src);
    }

    let data = OverviewData {
        total_repos,
        total_stars,
        total_forks,
        total_open_issues,
        top_languages,
        recently_active,
        stale_repos,
        recent_issues: collected,
    };
    (data, warns)
}

/// Concatenating runs of outcomes concatenates their repositories.
proof fn lemma_overview_pairs_concat(a: Seq<OrgOverviewFetchV>, b: Seq<OrgOverviewFetchV>)
    ensures
        overview_pairs(a + b) == overview_pairs(a) + overview_pairs(b),
    decreases b.len(),
{
    if b.len() == 0 {
        assert(a + b =~= a);
        assert(overview_pairs(a) + overview_pairs(b) =~= overview_pairs(a));
    } else {
        lemma_overview_pairs_concat(a, b.drop_last());
        assert((a + b).drop_last() =~= a + b.drop_last());
        assert((a + b).last() == b.last());
        assert(overview_pairs(a + b) =~= overview_pairs(a) + overview_pairs(b));
    }
}

} // verus!
