use gitorg::commands::repos::sort_repos;
use gitorg::commands::repos::RepoSummary;
use gitorg::commands::OrgReposFetch;
use gitorg::github::RepoRecord;

fn make_repo(name: &str, stars: u32, last_push: &str) -> RepoSummary {
    RepoSummary {
        org: "test-org".to_string(),
        name: name.to_string(),
        language: "Rust".to_string(),
        stars,
        forks: 0,
        open_issues: 0,
        last_push: last_push.to_string(),
        status: "active".to_string(),
    }
}

#[test]
fn sort_by_stars_descending() {
    let mut repos = vec![
        make_repo("low", 5, "2024-01-01"),
        make_repo("high", 100, "2024-01-01"),
        make_repo("mid", 50, "2024-01-01"),
    ];
    sort_repos(&mut repos, "stars");
    assert_eq!(repos[0].name, "high");
    assert_eq!(repos[1].name, "mid");
    assert_eq!(repos[2].name, "low");
}

#[test]
fn sort_by_name_case_insensitive() {
    let mut repos = vec![
        make_repo("Zebra", 0, "2024-01-01"),
        make_repo("alpha", 0, "2024-01-01"),
        make_repo("Beta", 0, "2024-01-01"),
    ];
    sort_repos(&mut repos, "name");
    assert_eq!(repos[0].name, "alpha");
    assert_eq!(repos[1].name, "Beta");
    assert_eq!(repos[2].name, "Zebra");
}

#[test]
fn sort_by_activity_most_recent_first() {
    let mut repos = vec![
        make_repo("old", 0, "2023-01-01"),
        make_repo("new", 0, "2024-06-01"),
        make_repo("mid", 0, "2024-01-01"),
    ];
    sort_repos(&mut repos, "activity");
    assert_eq!(repos[0].name, "new");
    assert_eq!(repos[1].name, "mid");
    assert_eq!(repos[2].name, "old");
}

#[test]
fn sort_by_staleness_oldest_first() {
    let mut repos = vec![
        make_repo("new", 0, "2024-06-01"),
        make_repo("old", 0, "2023-01-01"),
        make_repo("mid", 0, "2024-01-01"),
    ];
    sort_repos(&mut repos, "staleness");
    assert_eq!(repos[0].name, "old");
    assert_eq!(repos[1].name, "mid");
    assert_eq!(repos[2].name, "new");
}

#[test]
fn sorting_is_stable_on_equal_keys() {
    let mut repos = vec![
        make_repo("first", 7, "2024-01-01"),
        make_repo("second", 7, "2024-01-01"),
        make_repo("third", 7, "2024-01-01"),
    ];
    sort_repos(&mut repos, "stars");
    assert_eq!(repos[0].name, "first");
    assert_eq!(repos[1].name, "second");
    assert_eq!(repos[2].name, "third");
}

fn make_record(name: &str, pushed_at: Option<i64>, archived: bool) -> RepoRecord {
    RepoRecord {
        name: name.to_string(),
        language: Some("Rust".to_string()),
        stars: 1,
        forks: 2,
        open_issues: 3,
        archived,
        pushed_at,
    }
}

const JAN_1_2024: i64 = 1704067200;

#[test]
fn from_repo_formats_the_push_date() {
    let rec = make_record("r", Some(JAN_1_2024), false);
    let row = RepoSummary::from_repo("o", &rec, JAN_1_2024 + 86400 * 10);
    assert_eq!(row.last_push, "2024-01-01");
    assert_eq!(row.status, "active");
    assert_eq!(row.org, "o");
    assert_eq!(row.language, "Rust");
}

#[test]
fn from_repo_status_rules() {
    let now = JAN_1_2024;
    let stale = make_record("s", Some(now - 86400 * 366), false);
    assert_eq!(RepoSummary::from_repo("o", &stale, now).status, "stale");
    let active = make_record("a", Some(now - 86400 * 365), false);
    assert_eq!(RepoSummary::from_repo("o", &active, now).status, "active");
    let archived = make_record("x", Some(now), true);
    assert_eq!(RepoSummary::from_repo("o", &archived, now).status, "archived");
    let never = RepoRecord { language: None, ..make_record("n", None, false) };
    let row = RepoSummary::from_repo("o", &never, now);
    assert_eq!(row.last_push, "never");
    assert_eq!(row.status, "stale");
    assert_eq!(row.language, "-");
}

#[test]
fn repos_command_tolerates_a_failed_org() {
    let now = JAN_1_2024;
    let fetches = vec![
        OrgReposFetch {
            org: "alpha".to_string(),
            outcome: Ok(vec![make_record("a1", Some(now), false)]),
        },
        OrgReposFetch { org: "beta".to_string(), outcome: Err("boom".to_string()) },
        OrgReposFetch {
            org: "gamma".to_string(),
            outcome: Ok(vec![make_record("c1", Some(now), false)]),
        },
    ];
    let (rows, warnings) = gitorg::commands::repos::repos_command(&fetches, "name", now);
    assert_eq!(rows.len(), 2);
    assert_eq!(rows[0].name, "a1");
    assert_eq!(rows[1].name, "c1");
    assert_eq!(warnings.len(), 1);
    assert_eq!(warnings[0], "Failed to fetch repos for beta: boom");
}

#[test]
fn repeated_runs_give_identical_rows() {
    let now = JAN_1_2024;
    let build = || {
        vec![OrgReposFetch {
            org: "alpha".to_string(),
            outcome: Ok(vec![
                make_record("zz", Some(now - 86400), false),
                make_record("aa", Some(now), false),
            ]),
        }]
    };
    let first = gitorg::commands::repos::repos_command(&build(), "activity", now);
    let second = gitorg::commands::repos::repos_command(&build(), "activity", now);
    assert_eq!(format!("{:?}", first), format!("{:?}", second));
    assert_eq!(first.0[0].name, "aa");
}
