//! The `stale` command: the non-archived repositories whose last push lies
//! at least a threshold of days in the past, most stale first.

use crate::commands::fetch_warnings;
use crate::commands::fetches_in_range;
use crate::commands::spec_fetch_warnings;
use crate::commands::OrgReposFetch;
use crate::commands::OrgReposFetchV;
use crate::github::repo_rec_in_range;
use crate::github::RepoRecordV;
use crate::ordering::lemma_stable_sort_by_map;
use crate::ordering::sort_with;
use crate::ordering::stable_sort_by;
use crate::ordering::total_preorder;
use crate::seq_util::lemma_filter_sources;
use crate::seq_util::seq_view;
use crate::timestamp::date_str_of;
use crate::timestamp::days_between;
use crate::timestamp::format_date;
use crate::timestamp::spec_days_between;
use crate::timestamp::ts_in_range;
use vstd::prelude::*;
use vstd::string::StringExecFns;

verus! {

/// One row of the `stale` listing.
#[derive(Debug)]
pub struct StaleRepo {
    pub org: String,
    pub name: String,
    pub last_push: String,
    pub days_stale: i64,
    pub stars: u32,
    pub language: String,
}

pub struct StaleRepoV {
    pub org: Seq<char>,
    pub name: Seq<char>,
    pub last_push: Seq<char>,
    pub days_stale: i64,
    pub stars: u32,
    pub language: Seq<char>,
}

impl View for StaleRepo {
    type V = StaleRepoV;

    open spec fn view(&self) -> StaleRepoV {
        StaleRepoV {
            org: self.org@,
            name: self.name@,
            last_push: self.last_push@,
            days_stale: self.days_stale,
            stars: self.stars,
            language: self.language@,
        }
    }
}

/// Days since the last push, with a large sentinel for repositories never
/// pushed.
pub open spec fn spec_days_stale(r: RepoRecordV, now: i64) -> int {
    match r.pushed_at {
        Some(ts) => spec_days_between(now, ts),
        None => 99999int,
    }
}

/// Whether the repository belongs in the listing: not archived, and at or
/// past the threshold.
pub open spec fn spec_is_stale(r: RepoRecordV, now: i64, threshold: i64) -> bool {
    !r.archived && spec_days_stale(r, now) >= threshold
}

pub open spec fn spec_stale_entry(org: Seq<char>, r: RepoRecordV, now: i64) -> StaleRepoV {
    StaleRepoV {
        org: org,
        name: r.name,
        last_push: match r.pushed_at {
            Some(ts) => date_str_of(ts as int),
            None => "never"@,
        },
        days_stale: spec_days_stale(r, now) as i64,
        stars: r.stars,
        language: match r.language {
            Some(l) => l,
            None => "-"@,
        },
    }
}

/// The stale rows of one organization's records, in fetch order.
pub open spec fn spec_org_stale(
    org: Seq<char>,
    rs: Seq<RepoRecordV>,
    now: i64,
    threshold: i64,
) -> Seq<StaleRepoV> {
    rs.filter(|rv: RepoRecordV| spec_is_stale(rv, now, threshold)).map_values(
        |rv: RepoRecordV| spec_stale_entry(org, rv, now),
    )
}

pub open spec fn spec_stale_rows(
    fs: Seq<OrgReposFetchV>,
    now: i64,
    threshold: i64,
) -> Seq<StaleRepoV>
    decreases fs.len(),
{
    if fs.len() == 0 {
        Seq::empty()
    } else {
        spec_stale_rows(fs.drop_last(), now, threshold) + (match fs.last().outcome {
            Ok(rs) => spec_org_stale(fs.last().org, rs, now, threshold),
            Err(_) => Seq::empty(),
        })
    }
}

/// Most stale first.
pub open spec fn stale_leq_v(a: StaleRepoV, b: StaleRepoV) -> bool {
    b.days_stale <= a.days_stale
}

pub open spec fn stale_leq(a: StaleRepo, b: StaleRepo) -> bool {
    stale_leq_v(a@, b@)
}

/// The days-stale order is total and transitive, so the sorting laws apply.
pub proof fn lemma_stale_order_total()
    ensures
        total_preorder(|a: StaleRepoV, b: StaleRepoV| stale_leq_v(a, b)),
        total_preorder(|a: StaleRepo, b: StaleRepo| stale_leq(a, b)),
{
}

/// A repository stands in the stale listing exactly when it is not archived
/// and its days-stale count reaches the threshold; each listed row is the
/// entry of such a repository.
pub proof fn lemma_stale_inclusion(
    org: Seq<char>,
    rs: Seq<RepoRecordV>,
    now: i64,
    threshold: i64,
)
    ensures
        forall|rv: RepoRecordV|
            #[trigger] rs.contains(rv) && spec_is_stale(rv, now, threshold) ==> spec_org_stale(
                org,
                rs,
                now,
                threshold,
            ).contains(spec_stale_entry(org, rv, now)),
        forall|j: int|
            0 <= j < spec_org_stale(org, rs, now, threshold).len() ==> ({
                let rv = rs.filter(|rv: RepoRecordV| spec_is_stale(rv, now, threshold))[j];
                rs.contains(rv) && spec_is_stale(rv, now, threshold) && #[trigger] spec_org_stale(
                    org,
                    rs,
                    now,
                    threshold,
                )[j] == spec_stale_entry(org, rv, now)
            }),
{
    let pred = |rv: RepoRecordV| spec_is_stale(rv, now, threshold);
    let entry = |rv: RepoRecordV| spec_stale_entry(org, rv, now);
    let kept = rs.filter(pred);
    let out = spec_org_stale(org, rs, now, threshold);
    lemma_filter_sources(rs, pred);
    assert forall|rv: RepoRecordV|
        #[trigger] rs.contains(rv) && spec_is_stale(rv, now, threshold) implies out.contains(
        entry(rv),
    ) by {
        let l = choose|l: int| 0 <= l < rs.len() && rs[l] == rv;
        Seq::lemma_filter_contains(rs, pred, l);
        let k = choose|k: int| 0 <= k < kept.len() && kept[k] == rv;
        assert(out[k] == entry(rv));
    }
    assert forall|j: int| 0 <= j < spec_org_stale(org, rs, now, threshold).len() implies ({
        let rv = rs.filter(|rv: RepoRecordV| spec_is_stale(rv, now, threshold))[j];
        rs.contains(rv) && spec_is_stale(rv, now, threshold) && #[trigger] spec_org_stale(
            org,
            rs,
            now,
            threshold,
        )[j] == spec_stale_entry(org, rv, now)
    }) by {
        let rv = kept[j];
        assert(rs.contains(rv) && pred(rv));
        assert(spec_org_stale(org, rs, now, threshold)[j] == spec_stale_entry(org, rv, now));
    }
}

/// The whole `stale` command on a set of fetch outcomes: every non-archived
/// repository at or past the threshold, most stale first, and one warning
/// per failed fetch.
pub fn stale_command(fetches: &Vec<OrgReposFetch>, days: u64, now: i64) -> (r: (
    Vec<StaleRepo>,
    Vec<String>,
))
    requires
        fetches_in_range(seq_view(fetches@)),
        ts_in_range(now),
        days <= i64::MAX as u64,
    ensures
        seq_view(r.0@) == stable_sort_by(
            spec_stale_rows(seq_view(fetches@), now, days as i64),
            |a: StaleRepoV, b: StaleRepoV| stale_leq_v(a, b),
        ),
        seq_view(r.1@) == spec_fetch_warnings(seq_view(fetches@)),
{
    let warns = fetch_warnings(fetches);
    let threshold: i64 = days as i64;
    let ghost fsv: Seq<OrgReposFetchV> = seq_view(fetches@);
    let mut rows: Vec<StaleRepo> = Vec::new();
    let mut i: usize = 0;
    while i < fetches.len()
        invariant
            i <= fetches@.len(),
            fsv == seq_view(fetches@),
            fsv.len() == fetches@.len(),
            fetches_in_range(fsv),
            ts_in_range(now),
            threshold == days as i64,
            seq_view(rows@) == spec_stale_rows(fsv.take(i as int), now, threshold),
        decreases fetches@.len() - i,
    {
        proof {
            assert(fsv.take(i + 1).drop_last() =~= fsv.take(i as int));
            assert(fsv.take(i + 1).last() == fsv[i as int]);
            assert(fsv[i as int] == fetches@[i as int]@);
        }
        match &fetches[i].outcome {
            Ok(repos) => {
                let ghost rsv: Seq<RepoRecordV> = seq_view(repos@);
                let ghost orgv: Seq<char> = fetches@[i as int].org@;
                let ghost base: Seq<StaleRepoV> = seq_view(rows@);
                proof {
                    assert(fsv[i as int].outcome == Ok::<Seq<RepoRecordV>, Seq<char>>(rsv));
                    assert forall|l: int| 0 <= l < rsv.len() implies repo_rec_in_range(
                        #[trigger] rsv[l],
                    ) by {
                        assert(fsv[i as int].outcome matches Ok(rs) && rs == rsv);
                    }
                    assert(rsv.take(0).filter(
                        |rv: RepoRecordV| spec_is_stale(rv, now, threshold),
                    ) =~= Seq::<RepoRecordV>::empty());
                }
                let org_str = fetches[i].org.as_str();
                let mut j: usize = 0;
                while j < repos.len()
                    invariant
                        j <= repos@.len(),
                        rsv == seq_view(repos@),
                        rsv.len() == repos@.len(),
                        ts_in_range(now),
                        org_str@ == orgv,
                        forall|l: int| 0 <= l < rsv.len() ==> repo_rec_in_range(#[trigger] rsv[l]),
                        seq_view(rows@) == base + spec_org_stale(
                            orgv,
                            rsv.take(j as int),
                            now,
                            threshold,
                        ),
                    decreases repos@.len() - j,
                {
                    proof {
                        assert(rsv[j as int] == repos@[j as int]@);
                        assert(repo_rec_in_range(rsv[j as int]));
                        reveal(Seq::filter);
                        assert(rsv.take(j + 1).drop_last() =~= rsv.take(j as int));
                        assert(rsv.take(j + 1).last() == rsv[j as int]);
                    }
                    let repo = &repos[j];
                    if !repo.archived {
                        let days_since: i64 = match repo.pushed_at {
                            Some(ts) => days_between(now, ts),
                            None => 99999,
                        };
                        if days_since >= threshold {
                            let entry = StaleRepo {
                                org: String::from_str(org_str),
                                name: repo.name.clone(),
                                last_push: match repo.pushed_at {
                                    Some(ts) => format_date(ts),
                                    None => String::from_str("never"),
                                },
                                days_stale: days_since,
                                stars: repo.stars,
                                language: match &repo.language {
                                    Some(l) => l.clone(),
                                    None => String::from_str("-"),
                                },
                            };
                            proof {
                                assert(entry@ == spec_stale_entry(orgv, rsv[j as int], now));
                            }
                            let ghost rows_prev: Seq<StaleRepo> = rows@;
                            rows.push(entry);
                            proof {
                                assert(rows@ == rows_prev.push(entry));
                                assert(seq_view(rows@) =~= seq_view(rows_prev).push(entry@));
                                assert(spec_is_stale(rsv[j as int], now, threshold));
                                assert(seq_view(rows@) =~= base + spec_org_stale(
                                    orgv,
                                    rsv.take(j + 1),
                                    now,
                                    threshold,
                                ));
                            }
                        } else {
                            proof {
                                assert(!spec_is_stale(rsv[j as int], now, threshold));
                                assert(seq_view(rows@) =~= base + spec_org_stale(
                                    orgv,
                                    rsv.take(j + 1),
                                    now,
                                    threshold,
                                ));
                            }
                        }
                    } else {
                        proof {
                            assert(!spec_is_stale(rsv[j as int], now, threshold));
                            assert(seq_view(rows@) =~= base + spec_org_stale(
                                orgv,
                                rsv.take(j + 1),
                                now,
                                threshold,
                            ));
                        }
                    }
                    j = j + 1;
                }
                proof {
                    assert(rsv.take(rsv.len() as int) =~= rsv);
                    assert(seq_view(rows@) =~= spec_stale_rows(fsv.take(i + 1), now, threshold));
                }
            },
            Err(_) => {
                proof {
                    assert(seq_view(rows@) =~= spec_stale_rows(fsv.take(i + 1), now, threshold));
                }
            },
        }
        i = i + 1;
    }
    proof {
        assert(fsv.take(fsv.len() as int) =~= fsv);
    }
    let ghost rows0: Seq<StaleRepo> = rows@;
    sort_with(
        &mut rows,
        (|a: &StaleRepo, b: &StaleRepo| -> (r: bool)
            ensures
                r == stale_leq(*a, *b),
            {
                b.days_stale <= a.days_stale
            }),
        Ghost(|a: StaleRepo, b: StaleRepo| stale_leq(a, b)),
    );
    proof {
        lemma_stable_sort_by_map(
            rows0,
            |t: StaleRepo| t@,
            |a: StaleRepo, b: StaleRepo| stale_leq(a, b),
            |a: StaleRepoV, b: StaleRepoV| stale_leq_v(a, b),
        );
        assert(seq_view(rows0) == rows0.map_values(|t: StaleRepo| t@));
    }
    (rows, warns)
}

} // verus!
