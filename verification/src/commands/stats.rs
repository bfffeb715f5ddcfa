//! The `stats` command: totals, the language histogram, and the single most
//! starred and most forked repositories.

use crate::commands::fetch_warnings;
use crate::commands::spec_fetch_warnings;
use crate::commands::OrgReposFetch;
use crate::commands::OrgReposFetchV;
use crate::github::RepoRecordV;
use crate::ordering::insert_sorted;
use crate::ordering::lemma_stable_sort_by_map;
use crate::ordering::sort_with;
use crate::ordering::stable_sort_by;
use crate::ordering::total_preorder;
use crate::seq_util::opt_view;
use crate::seq_util::seq_view;
use crate::text::str_eq;
use vstd::prelude::*;
use vstd::string::StringExecFns;

verus! {

/// The aggregate over every fetched repository.
#[derive(Debug)]
pub struct OrgStats {
    pub total_repos: usize,
    pub total_stars: u32,
    pub total_forks: u32,
    pub total_open_issues: u32,
    pub languages: Vec<LanguageCount>,
    pub most_starred: Option<RepoRef>,
    pub most_forked: Option<RepoRef>,
}

#[derive(Debug)]
pub struct LanguageCount {
    pub language: String,
    pub count: usize,
}

pub struct LanguageCountV {
    pub language: Seq<char>,
    pub count: nat,
}

impl View for LanguageCount {
    type V = LanguageCountV;

    open spec fn view(&self) -> LanguageCountV {
        LanguageCountV { language: self.language@, count: self.count as nat }
    }
}

#[derive(Debug, Clone)]
pub struct RepoRef {
    pub org: String,
    pub name: String,
    pub count: u32,
}

pub struct RepoRefV {
    pub org: Seq<char>,
    pub name: Seq<char>,
    pub count: u32,
}

impl View for RepoRef {
    type V = RepoRefV;

    open spec fn view(&self) -> RepoRefV {
        RepoRefV { org: self.org@, name: self.name@, count: self.count }
    }
}

/// Every fetched repository of every successful outcome, tagged with its
/// organization, in fetch order.
pub open spec fn spec_org_repo_pairs(fs: Seq<OrgReposFetchV>) -> Seq<(Seq<char>, RepoRecordV)>
    decreases fs.len(),
{
    if fs.len() == 0 {
        Seq::empty()
    } else {
        spec_org_repo_pairs(fs.drop_last()) + (match fs.last().outcome {
            Ok(rs) => rs.map_values(|rv: RepoRecordV| (fs.last().org, rv)),
            Err(_) => Seq::empty(),
        })
    }
}

pub proof fn lemma_pairs_concat(a: Seq<OrgReposFetchV>, b: Seq<OrgReposFetchV>)
    ensures
        spec_org_repo_pairs(a + b) == spec_org_repo_pairs(a) + spec_org_repo_pairs(b),
    decreases b.len(),
{
    if b.len() == 0 {
        assert(a + b =~= a);
        assert(spec_org_repo_pairs(a) + spec_org_repo_pairs(b) =~= spec_org_repo_pairs(a));
    } else {
        lemma_pairs_concat(a, b.drop_last());
        assert((a + b).drop_last() =~= a + b.drop_last());
        assert((a + b).last() == b.last());
        assert(spec_org_repo_pairs(a + b) =~= spec_org_repo_pairs(a) + spec_org_repo_pairs(b));
    }
}

pub open spec fn sum_ints(s: Seq<int>) -> int
    decreases s.len(),
{
    if s.len() == 0 {
        0
    } else {
        sum_ints(s.drop_last()) + s.last()
    }
}

pub proof fn lemma_sum_ints_concat(a: Seq<int>, b: Seq<int>)
    ensures
        sum_ints(a + b) == sum_ints(a) + sum_ints(b),
    decreases b.len(),
{
    if b.len() == 0 {
        assert(a + b =~= a);
    } else {
        lemma_sum_ints_concat(a, b.drop_last());
        assert((a + b).drop_last() =~= a + b.drop_last());
    }
}

pub proof fn lemma_sum_ints_nonneg(s: Seq<int>)
    requires
        forall|i: int| 0 <= i < s.len() ==> #[trigger] s[i] >= 0,
    ensures
        sum_ints(s) >= 0,
    decreases s.len(),
{
    if s.len() > 0 {
        lemma_sum_ints_nonneg(s.drop_last());
    }
}

pub open spec fn stars_of(ps: Seq<(Seq<char>, RepoRecordV)>) -> Seq<int> {
    ps.map_values(|p: (Seq<char>, RepoRecordV)| p.1.stars as int)
}

pub open spec fn forks_of(ps: Seq<(Seq<char>, RepoRecordV)>) -> Seq<int> {
    ps.map_values(|p: (Seq<char>, RepoRecordV)| p.1.forks as int)
}

pub open spec fn issues_of(ps: Seq<(Seq<char>, RepoRecordV)>) -> Seq<int> {
    ps.map_values(|p: (Seq<char>, RepoRecordV)| p.1.open_issues as int)
}

pub open spec fn spec_sum_stars(ps: Seq<(Seq<char>, RepoRecordV)>) -> int {
    sum_ints(stars_of(ps))
}

pub open spec fn spec_sum_forks(ps: Seq<(Seq<char>, RepoRecordV)>) -> int {
    sum_ints(forks_of(ps))
}

pub open spec fn spec_sum_issues(ps: Seq<(Seq<char>, RepoRecordV)>) -> int {
    sum_ints(issues_of(ps))
}

/// The histogram bucket a repository counts toward.
pub open spec fn spec_lang_of(r: RepoRecordV) -> Seq<char> {
    match r.language {
        Some(l) => l,
        None => "Unknown"@,
    }
}

pub open spec fn spec_langs(ps: Seq<(Seq<char>, RepoRecordV)>) -> Seq<Seq<char>> {
    ps.map_values(|p: (Seq<char>, RepoRecordV)| spec_lang_of(p.1))
}

/// The index of a language in the histogram, or -1 when absent.
pub open spec fn spec_find_lang(h: Seq<LanguageCountV>, l: Seq<char>) -> int
    decreases h.len(),
{
    if h.len() == 0 {
        -1
    } else if h[0].language == l {
        0
    } else {
        let r = spec_find_lang(h.skip(1), l);
        if r < 0 {
            -1
        } else {
            r + 1
        }
    }
}

/// One more repository of language `l`: bump its bucket, or open one.
pub open spec fn spec_bump(h: Seq<LanguageCountV>, l: Seq<char>) -> Seq<LanguageCountV> {
    let i = spec_find_lang(h, l);
    if i >= 0 {
        h.update(i, LanguageCountV { language: h[i].language, count: h[i].count + 1 })
    } else {
        h.push(LanguageCountV { language: l, count: 1nat })
    }
}

/// The language histogram of a run of repositories, buckets in
/// first-encounter order.
pub open spec fn spec_histogram(ls: Seq<Seq<char>>) -> Seq<LanguageCountV>
    decreases ls.len(),
{
    if ls.len() == 0 {
        Seq::empty()
    } else {
        spec_bump(spec_histogram(ls.drop_last()), ls.last())
    }
}

pub open spec fn counts_of(h: Seq<LanguageCountV>) -> Seq<int> {
    h.map_values(|e: LanguageCountV| e.count as int)
}

pub open spec fn spec_sum_counts(h: Seq<LanguageCountV>) -> int {
    sum_ints(counts_of(h))
}

proof fn lemma_find_lang_in_bounds(h: Seq<LanguageCountV>, l: Seq<char>)
    ensures
        spec_find_lang(h, l) < h.len(),
        spec_find_lang(h, l) >= 0 ==> h[spec_find_lang(h, l)].language == l,
    decreases h.len(),
{
    if h.len() > 0 && h[0].language != l {
        lemma_find_lang_in_bounds(h.skip(1), l);
    }
}

proof fn lemma_sum_counts_update(h: Seq<LanguageCountV>, i: int, v: LanguageCountV)
    requires
        0 <= i < h.len(),
    ensures
        spec_sum_counts(h.update(i, v)) == spec_sum_counts(h) - h[i].count + v.count,
    decreases h.len(),
{
    if i == h.len() - 1 {
        assert(h.update(i, v).drop_last() =~= h.drop_last());
        assert(counts_of(h.update(i, v)).drop_last() =~= counts_of(h.drop_last()));
        assert(counts_of(h).drop_last() =~= counts_of(h.drop_last()));
        assert(counts_of(h.update(i, v)).last() == v.count as int);
        assert(counts_of(h).last() == h[i].count as int);
    } else {
        lemma_sum_counts_update(h.drop_last(), i, v);
        assert(h.update(i, v).drop_last() =~= h.drop_last().update(i, v));
        assert(counts_of(h.update(i, v)).drop_last() =~= counts_of(h.drop_last().update(i, v)));
        assert(counts_of(h).drop_last() =~= counts_of(h.drop_last()));
        assert(counts_of(h.update(i, v)).last() == counts_of(h).last());
    }
}

/// Every bucket's count is bounded by the histogram's total.
pub proof fn lemma_count_le_sum(h: Seq<LanguageCountV>, i: int)
    requires
        0 <= i < h.len(),
    ensures
        h[i].count <= spec_sum_counts(h),
    decreases h.len(),
{
    assert(forall|k: int| 0 <= k < counts_of(h).len() ==> #[trigger] counts_of(h)[k] >= 0);
    if i == h.len() - 1 {
        lemma_sum_ints_nonneg(counts_of(h).drop_last());
        assert(counts_of(h).last() == h[i].count as int);
    } else {
        lemma_count_le_sum(h.drop_last(), i);
        assert(counts_of(h.drop_last()) =~= counts_of(h).drop_last());
        assert(counts_of(h).last() >= 0);
    }
}

proof fn lemma_bump_total(h: Seq<LanguageCountV>, l: Seq<char>)
    ensures
        spec_sum_counts(spec_bump(h, l)) == spec_sum_counts(h) + 1,
{
    let i = spec_find_lang(h, l);
    lemma_find_lang_in_bounds(h, l);
    if i >= 0 {
        lemma_sum_counts_update(h, i, LanguageCountV { language: h[i].language, count: h[i].count + 1 });
    } else {
        let out = h.push(LanguageCountV { language: l, count: 1nat });
        assert(out.drop_last() =~= h);
        assert(counts_of(out).drop_last() =~= counts_of(h));
        assert(counts_of(out).last() == 1int);
    }
}

/// The histogram counts every repository once: its total is the number of
/// repositories counted.
pub proof fn lemma_histogram_total(ls: Seq<Seq<char>>)
    ensures
        spec_sum_counts(spec_histogram(ls)) == ls.len(),
    decreases ls.len(),
{
    if ls.len() > 0 {
        lemma_histogram_total(ls.drop_last());
        lemma_bump_total(spec_histogram(ls.drop_last()), ls.last());
    }
}

/// The language histogram a command reports — the buckets sorted with the
/// higher count first — still counts every repository exactly once: its
/// counts add up to the number of repositories.
pub proof fn lemma_language_totals(ps: Seq<(Seq<char>, RepoRecordV)>)
    ensures
        spec_sum_counts(
            stable_sort_by(
                spec_histogram(spec_langs(ps)),
                |a: LanguageCountV, b: LanguageCountV| lang_leq_v(a, b),
            ),
        ) == ps.len(),
{
    lemma_histogram_total(spec_langs(ps));
    lemma_sum_counts_sorted(
        spec_histogram(spec_langs(ps)),
        |a: LanguageCountV, b: LanguageCountV| lang_leq_v(a, b),
    );
}

/// Buckets with the higher count first.
pub open spec fn lang_leq_v(a: LanguageCountV, b: LanguageCountV) -> bool {
    b.count <= a.count
}

pub open spec fn lang_leq(a: LanguageCount, b: LanguageCount) -> bool {
    lang_leq_v(a@, b@)
}

pub proof fn lemma_lang_order_total()
    ensures
        total_preorder(|a: LanguageCountV, b: LanguageCountV| lang_leq_v(a, b)),
        total_preorder(|a: LanguageCount, b: LanguageCount| lang_leq(a, b)),
{
}

proof fn lemma_sum_counts_insert_sorted(
    h: Seq<LanguageCountV>,
    e: LanguageCountV,
    leq: spec_fn(LanguageCountV, LanguageCountV) -> bool,
)
    ensures
        spec_sum_counts(insert_sorted(h, e, leq)) == spec_sum_counts(h) + e.count,
    decreases h.len(),
{
    if h.len() == 0 {
        reveal_with_fuel(sum_ints, 3);
        assert(insert_sorted(h, e, leq) == seq![e]);
        assert(counts_of(seq![e]).drop_last() =~= Seq::<int>::empty());
        assert(counts_of(seq![e]).last() == e.count as int);
    } else if leq(h.last(), e) {
        assert(counts_of(h.push(e)).drop_last() =~= counts_of(h));
        assert(counts_of(h.push(e)).last() == e.count as int);
    } else {
        lemma_sum_counts_insert_sorted(h.drop_last(), e, leq);
        let inner = insert_sorted(h.drop_last(), e, leq);
        assert(counts_of(inner.push(h.last())).drop_last() =~= counts_of(inner));
        assert(counts_of(inner.push(h.last())).last() == h.last().count as int);
        assert(counts_of(h).drop_last() =~= counts_of(h.drop_last()));
        assert(counts_of(h).last() == h.last().count as int);
    }
}

/// Sorting the histogram does not change its total.
pub proof fn lemma_sum_counts_sorted(
    h: Seq<LanguageCountV>,
    leq: spec_fn(LanguageCountV, LanguageCountV) -> bool,
)
    ensures
        spec_sum_counts(stable_sort_by(h, leq)) == spec_sum_counts(h),
    decreases h.len(),
{
    if h.len() > 0 {
        lemma_sum_counts_sorted(h.drop_last(), leq);
        lemma_sum_counts_insert_sorted(stable_sort_by(h.drop_last(), leq), h.last(), leq);
        assert(counts_of(h).drop_last() =~= counts_of(h.drop_last()));
        assert(counts_of(h).last() == h.last().count as int);
    }
}

/// Counts one more repository of the given language.
pub fn count_language(hist: &mut Vec<LanguageCount>, lang: &str)
    requires
        spec_sum_counts(seq_view(old(hist)@)) < usize::MAX,
    ensures
        seq_view(final(hist)@) == spec_bump(seq_view(old(hist)@), lang@),
{
    let ghost h0: Seq<LanguageCountV> = seq_view(hist@);
    let n = hist.len();
    let mut j: usize = 0;
    let mut found: usize = n;
    while j < n
        invariant
            j <= n,
            n == hist@.len(),
            h0 == seq_view(hist@),
            h0.len() == hist@.len(),
            found == n || (found < j && h0[found as int].language == lang@ && forall|k: int|
                0 <= k < found ==> #[trigger] h0[k].language != lang@),
            found == n ==> forall|k: int| 0 <= k < j ==> #[trigger] h0[k].language != lang@,
        decreases n - j,
    {
        proof {
            assert(h0[j as int] == hist@[j as int]@);
        }
        if found == n && str_eq(hist[j].language.as_str(), lang) {
            found = j;
        }
        j = j + 1;
    }
    if found < n {
        proof {
            lemma_find_lang_at(h0, lang@, found as int);
            lemma_count_le_sum(h0, found as int);
        }
        let c = hist[found].count;
        let name = hist[found].language.clone();
        hist[found] = LanguageCount { language: name, count: c + 1 };
        proof {
            assert(hist@[found as int]@ == LanguageCountV {
                language: h0[found as int].language,
                count: h0[found as int].count + 1,
            });
            assert(seq_view(hist@) =~= spec_bump(h0, lang@));
        }
    } else {
        proof {
            lemma_find_lang_none(h0, lang@);
        }
        let ghost hist_prev: Seq<LanguageCount> = hist@;
        hist.push(LanguageCount { language: String::from_str(lang), count: 1 });
        proof {
            assert(hist@ == hist_prev.push(hist@.last()));
            assert(seq_view(hist@) =~= spec_bump(h0, lang@));
        }
    }
}

proof fn lemma_find_lang_at(h: Seq<LanguageCountV>, l: Seq<char>, j: int)
    requires
        0 <= j < h.len(),
        forall|k: int| 0 <= k < j ==> #[trigger] h[k].language != l,
        h[j].language == l,
    ensures
        spec_find_lang(h, l) == j,
    decreases j,
{
    if j > 0 {
        lemma_find_lang_at(h.skip(1), l, j - 1);
    }
}

proof fn lemma_find_lang_none(h: Seq<LanguageCountV>, l: Seq<char>)
    requires
        forall|k: int| 0 <= k < h.len() ==> #[trigger] h[k].language != l,
    ensures
        spec_find_lang(h, l) == -1,
    decreases h.len(),
{
    if h.len() > 0 {
        lemma_find_lang_none(h.skip(1), l);
    }
}

/// The most starred repository after a run of repositories: strictly more
/// stars replace the holder, so the first encountered wins ties, and zero
/// stars never place.
pub open spec fn spec_most_starred(ps: Seq<(Seq<char>, RepoRecordV)>) -> Option<RepoRefV>
    decreases ps.len(),
{
    if ps.len() == 0 {
        None
    } else {
        let cur = spec_most_starred(ps.drop_last());
        let p = ps.last();
        if p.1.stars > 0 && (cur is None || p.1.stars > cur->0.count) {
            Some(RepoRefV { org: p.0, name: p.1.name, count: p.1.stars })
        } else {
            cur
        }
    }
}

/// The most forked repository, by the same rule.
pub open spec fn spec_most_forked(ps: Seq<(Seq<char>, RepoRecordV)>) -> Option<RepoRefV>
    decreases ps.len(),
{
    if ps.len() == 0 {
        None
    } else {
        let cur = spec_most_forked(ps.drop_last());
        let p = ps.last();
        if p.1.forks > 0 && (cur is None || p.1.forks > cur->0.count) {
            Some(RepoRefV { org: p.0, name: p.1.name, count: p.1.forks })
        } else {
            cur
        }
    }
}

/// The whole `stats` command on a set of fetch outcomes.
pub fn stats_command(fetches: &Vec<OrgReposFetch>) -> (r: (OrgStats, Vec<String>))
    requires
        spec_org_repo_pairs(seq_view(fetches@)).len() < usize::MAX,
        spec_sum_stars(spec_org_repo_pairs(seq_view(fetches@))) <= u32::MAX,
        spec_sum_forks(spec_org_repo_pairs(seq_view(fetches@))) <= u32::MAX,
        spec_sum_issues(spec_org_repo_pairs(seq_view(fetches@))) <= u32::MAX,
    ensures
        ({
            let ps = spec_org_repo_pairs(seq_view(fetches@));
            &&& r.0.total_repos as int == ps.len()
            &&& r.0.total_stars as int == spec_sum_stars(ps)
            &&& r.0.total_forks as int == spec_sum_forks(ps)
            &&& r.0.total_open_issues as int == spec_sum_issues(ps)
            &&& seq_view(r.0.languages@) == stable_sort_by(
                spec_histogram(spec_langs(ps)),
                |a: LanguageCountV, b: LanguageCountV| lang_leq_v(a, b),
            )
            &&& opt_view(r.0.most_starred) == spec_most_starred(ps)
            &&& opt_view(r.0.most_forked) == spec_most_forked(ps)
        }),
        seq_view(r.1@) == spec_fetch_warnings(seq_view(fetches@)),
{
    let warns = fetch_warnings(fetches);
    let ghost fsv: Seq<OrgReposFetchV> = seq_view(fetches@);
    let ghost all_ps: Seq<(Seq<char>, RepoRecordV)> = spec_org_repo_pairs(fsv);

    let mut total_repos: usize = 0;
    let mut total_stars: u32 = 0;
    let mut total_forks: u32 = 0;
    let mut total_open_issues: u32 = 0;
    let mut hist: Vec<LanguageCount> = Vec::new();
    let mut most_starred: Option<RepoRef> = None;
    let mut most_forked: Option<RepoRef> = None;

    let mut i: usize = 0;
    while i < fetches.len()
        invariant
            i <= fetches@.len(),
            fsv == seq_view(fetches@),
            fsv.len() == fetches@.len(),
            all_ps == spec_org_repo_pairs(fsv),
            all_ps.len() < usize::MAX,
            spec_sum_stars(all_ps) <= u32::MAX,
            spec_sum_forks(all_ps) <= u32::MAX,
            spec_sum_issues(all_ps) <= u32::MAX,
            total_repos as int == spec_org_repo_pairs(fsv.take(i as int)).len(),
            total_stars as int == spec_sum_stars(spec_org_repo_pairs(fsv.take(i as int))),
            total_forks as int == spec_sum_forks(spec_org_repo_pairs(fsv.take(i as int))),
            total_open_issues as int == spec_sum_issues(spec_org_repo_pairs(fsv.take(i as int))),
            seq_view(hist@) == spec_histogram(
                spec_langs(spec_org_repo_pairs(fsv.take(i as int))),
            ),
            opt_view(most_starred) == spec_most_starred(spec_org_repo_pairs(fsv.take(i as int))),
            opt_view(most_forked) == spec_most_forked(spec_org_repo_pairs(fsv.take(i as int))),
        decreases fetches@.len() - i,
    {
        proof {
            assert(fsv.take(i + 1).drop_last() =~= fsv.take(i as int));
            assert(fsv.take(i + 1).last() == fsv[i as int]);
            assert(fsv[i as int] == fetches@[i as int]@);
        }
        match &fetches[i].outcome {
            Ok(repos) => {
                let ghost rsv: Seq<RepoRecordV> = seq_view(repos@);
                let ghost orgv: Seq<char> = fetches@[i as int].org@;
                let ghost base: Seq<(Seq<char>, RepoRecordV)> = spec_org_repo_pairs(
                    fsv.take(i as int),
                );
                let ghost org_pairs = rsv.map_values(|rv: RepoRecordV| (orgv, rv));
                proof {
                    assert(fsv[i as int].outcome == Ok::<Seq<RepoRecordV>, Seq<char>>(rsv));
                    assert(spec_org_repo_pairs(fsv.take(i + 1)) == base + org_pairs);
                    // The whole run decomposes around this organization, so
                    // every prefix sum stays within the stated bounds.
                    assert(fsv =~= fsv.take(i + 1) + fsv.skip(i + 1));
                    lemma_pairs_concat(fsv.take(i + 1), fsv.skip(i + 1));
                }
                let org_str = fetches[i].org.as_str();
                let mut j: usize = 0;
                while j < repos.len()
                    invariant
                        j <= repos@.len(),
                        rsv == seq_view(repos@),
                        rsv.len() == repos@.len(),
                        org_str@ == orgv,
                        org_pairs == rsv.map_values(|rv: RepoRecordV| (orgv, rv)),
                        all_ps == spec_org_repo_pairs(fsv),
                        all_ps.len() < usize::MAX,
                        spec_sum_stars(all_ps) <= u32::MAX,
                        spec_sum_forks(all_ps) <= u32::MAX,
                        spec_sum_issues(all_ps) <= u32::MAX,
                        ({
                            let cur = base + org_pairs.take(j as int);
                            &&& total_repos as int == cur.len()
                            &&& total_stars as int == spec_sum_stars(cur)
                            &&& total_forks as int == spec_sum_forks(cur)
                            &&& total_open_issues as int == spec_sum_issues(cur)
                            &&& seq_view(hist@) == spec_histogram(spec_langs(cur))
                            &&& opt_view(most_starred) == spec_most_starred(cur)
                            &&& opt_view(most_forked) == spec_most_forked(cur)
                        }),
                        exists|rest: Seq<(Seq<char>, RepoRecordV)>|
                            all_ps == #[trigger] ((base + org_pairs) + rest),
                    decreases repos@.len() - j,
                {
                    let ghost cur = base + org_pairs.take(j as int);
                    let ghost cur1 = base + org_pairs.take(j + 1);
                    let ghost pair = (orgv, rsv[j as int]);
                    proof {
                        assert(rsv[j as int] == repos@[j as int]@);
                        assert(org_pairs[j as int] == pair);
                        assert(cur1 =~= cur.push(pair));
                        let rest = choose|rest: Seq<(Seq<char>, RepoRecordV)>|
                            all_ps == ((base + org_pairs) + rest);
                        assert(base + org_pairs =~= cur1 + org_pairs.skip(j + 1));
                        assert(all_ps =~= cur1 + (org_pairs.skip(j + 1) + rest));
                        lemma_stats_prefix_bounds(cur1, org_pairs.skip(j + 1) + rest, all_ps);
                        lemma_fold_step(cur, pair);
                    }
                    let repo = &repos[j];
                    total_repos = total_repos + 1;
                    total_stars = total_stars + repo.stars;
                    total_forks = total_forks + repo.forks;
                    total_open_issues = total_open_issues + repo.open_issues;
                    proof {
                        lemma_histogram_total(spec_langs(cur));
                        assert(spec_langs(cur).len() == cur.len());
                        assert(spec_sum_counts(seq_view(hist@)) < usize::MAX);
                    }
                    proof {
                        assert(spec_langs(cur1) =~= spec_langs(cur).push(spec_lang_of(
                            rsv[j as int],
                        )));
                        assert(spec_langs(cur1).drop_last() =~= spec_langs(cur));
                        assert(spec_langs(cur1).last() == spec_lang_of(rsv[j as int]));
                        assert(spec_langs(cur1).len() == cur1.len());
                    }
                    match &repo.language {
                        Some(l) => {
                            proof {
                                assert(l@ == spec_lang_of(rsv[j as int]));
                            }
                            count_language(&mut hist, l.as_str());
                            proof {
                                assert(seq_view(hist@) == spec_bump(
                                    spec_histogram(spec_langs(cur)),
                                    spec_lang_of(rsv[j as int]),
                                ));
                            }
                        },
                        None => {
                            proof {
                                assert("Unknown"@ == spec_lang_of(rsv[j as int]));
                            }
                            count_language(&mut hist, "Unknown");
                            proof {
                                assert(seq_view(hist@) == spec_bump(
                                    spec_histogram(spec_langs(cur)),
                                    spec_lang_of(rsv[j as int]),
                                ));
                            }
                        },
                    }
                    proof {
                        assert(seq_view(hist@) == spec_histogram(spec_langs(cur1)));
                    }
                    let replace_starred = repo.stars > 0 && (match &most_starred {
                        Some(r) => repo.stars > r.count,
                        None => true,
                    });
                    if replace_starred {
                        most_starred = Some(
                            RepoRef {
                                org: String::from_str(org_str),
                                name: repo.name.clone(),
                                count: repo.stars,
                            },
                        );
                    }
                    let replace_forked = repo.forks > 0 && (match &most_forked {
                        Some(r) => repo.forks > r.count,
                        None => true,
                    });
                    if replace_forked {
                        most_forked = Some(
                            RepoRef {
                                org: String::from_str(org_str),
                                name: repo.name.clone(),
                                count: repo.forks,
                            },
                        );
                    }
                    proof {
                        assert(opt_view(most_starred) == spec_most_starred(cur1));
                        assert(opt_view(most_forked) == spec_most_forked(cur1));
                    }
                    j = j + 1;
                }
                proof {
                    assert(org_pairs.take(org_pairs.len() as int) =~= org_pairs);
                }
            },
            Err(_) => {
                proof {
                    assert(spec_org_repo_pairs(fsv.take(i + 1)) =~= spec_org_repo_pairs(
                        fsv.take(i as int),
                    ));
                }
            },
        }
        i = i + 1;
    }
    proof {
        assert(fsv.take(fsv.len() as int) =~= fsv);
    }
    let ghost hist0: Seq<LanguageCount> = hist@;
    sort_with(
        &mut hist,
        (|a: &LanguageCount, b: &LanguageCount| -> (r: bool)
            ensures
                r == lang_leq(*a, *b),
            {
                b.count <= a.count
            }),
        Ghost(|a: LanguageCount, b: LanguageCount| lang_leq(a, b)),
    );
    proof {
        lemma_stable_sort_by_map(
            hist0,
            |t: LanguageCount| t@,
            |a: LanguageCount, b: LanguageCount| lang_leq(a, b),
            |a: LanguageCountV, b: LanguageCountV| lang_leq_v(a, b),
        );
        assert(seq_view(hist0) == hist0.map_values(|t: LanguageCount| t@));
    }
    let stats = OrgStats {
        total_repos,
        total_stars,
        total_forks,
        total_open_issues,
        languages: hist,
        most_starred,
        most_forked,
    };
    (stats, warns)
}

/// One fold step: what one more repository does to every running total.
pub(crate) proof fn lemma_fold_step(cur: Seq<(Seq<char>, RepoRecordV)>, pair: (Seq<char>, RepoRecordV))
    ensures
        spec_sum_stars(cur.push(pair)) == spec_sum_stars(cur) + pair.1.stars,
        spec_sum_forks(cur.push(pair)) == spec_sum_forks(cur) + pair.1.forks,
        spec_sum_issues(cur.push(pair)) == spec_sum_issues(cur) + pair.1.open_issues,
        spec_most_starred(cur.push(pair)) == (if pair.1.stars > 0 && (spec_most_starred(cur)
            is None || pair.1.stars > spec_most_starred(cur)->0.count) {
            Some(RepoRefV { org: pair.0, name: pair.1.name, count: pair.1.stars })
        } else {
            spec_most_starred(cur)
        }),
        spec_most_forked(cur.push(pair)) == (if pair.1.forks > 0 && (spec_most_forked(cur)
            is None || pair.1.forks > spec_most_forked(cur)->0.count) {
            Some(RepoRefV { org: pair.0, name: pair.1.name, count: pair.1.forks })
        } else {
            spec_most_forked(cur)
        }),
{
    let out = cur.push(pair);
    assert(out.drop_last() =~= cur);
    assert(stars_of(out).drop_last() =~= stars_of(cur));
    assert(forks_of(out).drop_last() =~= forks_of(cur));
    assert(issues_of(out).drop_last() =~= issues_of(cur));
    assert(stars_of(out).last() == pair.1.stars as int);
    assert(forks_of(out).last() == pair.1.forks as int);
    assert(issues_of(out).last() == pair.1.open_issues as int);
}

/// A prefix of the run keeps every total within the whole run's bounds.
pub(crate) proof fn lemma_stats_prefix_bounds(
    a: Seq<(Seq<char>, RepoRecordV)>,
    b: Seq<(Seq<char>, RepoRecordV)>,
    whole: Seq<(Seq<char>, RepoRecordV)>,
)
    requires
        whole == a + b,
    ensures
        a.len() <= whole.len(),
        spec_sum_stars(a) <= spec_sum_stars(whole),
        spec_sum_forks(a) <= spec_sum_forks(whole),
        spec_sum_issues(a) <= spec_sum_issues(whole),
        spec_sum_stars(a) >= 0,
        spec_sum_forks(a) >= 0,
        spec_sum_issues(a) >= 0,
{
    assert(stars_of(whole) =~= stars_of(a) + stars_of(b));
    assert(forks_of(whole) =~= forks_of(a) + forks_of(b));
    assert(issues_of(whole) =~= issues_of(a) + issues_of(b));
    lemma_sum_ints_concat(stars_of(a), stars_of(b));
    lemma_sum_ints_concat(forks_of(a), forks_of(b));
    lemma_sum_ints_concat(issues_of(a), issues_of(b));
    lemma_sum_ints_nonneg(stars_of(a));
    lemma_sum_ints_nonneg(forks_of(a));
    lemma_sum_ints_nonneg(issues_of(a));
    lemma_sum_ints_nonneg(stars_of(b));
    lemma_sum_ints_nonneg(forks_of(b));
    lemma_sum_ints_nonneg(issues_of(b));
}

} // verus!
