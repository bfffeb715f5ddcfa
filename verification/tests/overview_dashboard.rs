use gitorg::commands::overview::overview_command;
use gitorg::commands::overview::OrgOverviewFetch;
use gitorg::commands::overview::RepoWithIssues;
use gitorg::github::IssueRecord;
use gitorg::github::RepoRecord;

const DAY: i64 = 86400;
const JAN_1_2024: i64 = 1704067200;

fn repo(name: &str, language: Option<&str>, stars: u32, pushed_days_ago: i64) -> RepoRecord {
    RepoRecord {
        name: name.to_string(),
        language: language.map(|l| l.to_string()),
        stars,
        forks: 1,
        open_issues: 1,
        archived: false,
        pushed_at: Some(JAN_1_2024 - pushed_days_ago * DAY),
    }
}

fn issue(number: u64, days_ago: i64, is_pr: bool) -> IssueRecord {
    IssueRecord {
        number,
        title: format!("issue {number}"),
        author: "a".to_string(),
        labels: vec![],
        updated_at: JAN_1_2024 - days_ago * DAY,
        is_pull_request: is_pr,
    }
}

#[test]
fn overview_totals_lists_and_limits() {
    let now = JAN_1_2024;
    let fetches = vec![OrgOverviewFetch {
        org: "org".to_string(),
        outcome: Ok(vec![
            RepoWithIssues {
                repo: repo("fresh", Some("Rust"), 10, 1),
                issues: Some(vec![
                    issue(1, 3, false),
                    issue(2, 1, true),
                    issue(3, 2, false),
                    issue(4, 0, false),
                ]),
            },
            RepoWithIssues { repo: repo("old", Some("Go"), 5, 400), issues: None },
            RepoWithIssues { repo: repo("mid", Some("Rust"), 7, 30), issues: None },
        ]),
    }];
    let (data, warnings) = overview_command(&fetches, 90, now);
    assert!(warnings.is_empty());
    assert_eq!(data.total_repos, 3);
    assert_eq!(data.total_stars, 22);
    assert_eq!(data.total_forks, 3);
    assert_eq!(data.total_open_issues, 3);
    // Top languages, most common first.
    assert_eq!(data.top_languages[0].language, "Rust");
    assert_eq!(data.top_languages[0].count, 2);
    // Recently active: under the threshold, most recent first.
    let active: Vec<&str> = data.recently_active.iter().map(|r| r.name.as_str()).collect();
    assert_eq!(active, vec!["fresh", "mid"]);
    // Stale: at or past the threshold, most stale first.
    let stale: Vec<&str> = data.stale_repos.iter().map(|r| r.name.as_str()).collect();
    assert_eq!(stale, vec!["old"]);
    assert_eq!(data.stale_repos[0].days_since_push, 400);
    // Recent issues: only the first three fetched are considered, the pull
    // request among them is dropped, and the rest sort by date descending.
    let numbers: Vec<u64> = data.recent_issues.iter().map(|i| i.number).collect();
    assert_eq!(numbers, vec![3, 1]);
    assert_eq!(data.recent_issues[0].updated, "2023-12-30");
}

#[test]
fn overview_keeps_going_past_a_failed_org() {
    let now = JAN_1_2024;
    let fetches = vec![
        OrgOverviewFetch { org: "down".to_string(), outcome: Err("x".to_string()) },
        OrgOverviewFetch {
            org: "up".to_string(),
            outcome: Ok(vec![RepoWithIssues { repo: repo("r", None, 1, 1), issues: None }]),
        },
    ];
    let (data, warnings) = overview_command(&fetches, 90, now);
    assert_eq!(data.total_repos, 1);
    assert_eq!(warnings, vec!["Failed to fetch repos for down: x".to_string()]);
}

#[test]
fn overview_caps_each_list_at_ten() {
    let now = JAN_1_2024;
    let mut items = Vec::new();
    for n in 0..12 {
        items.push(RepoWithIssues { repo: repo(&format!("r{n}"), None, 0, n), issues: None });
    }
    let fetches = vec![OrgOverviewFetch { org: "org".to_string(), outcome: Ok(items) }];
    let (data, _) = overview_command(&fetches, 100, now);
    assert_eq!(data.recently_active.len(), 10);
    assert_eq!(data.recently_active[0].name, "r0");
    assert!(data.stale_repos.is_empty());
}
