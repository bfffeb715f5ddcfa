use gitorg::commands::stale::stale_command;
use gitorg::commands::stale::StaleRepo;
use gitorg::commands::OrgReposFetch;
use gitorg::github::RepoRecord;

#[test]
fn stale_filtering_by_threshold() {
    let repos = vec![
        StaleRepo {
            org: "org".into(),
            name: "very-stale".into(),
            last_push: "2020-01-01".into(),
            days_stale: 1500,
            stars: 0,
            language: "Rust".into(),
        },
        StaleRepo {
            org: "org".into(),
            name: "barely-stale".into(),
            last_push: "2024-01-01".into(),
            days_stale: 100,
            stars: 5,
            language: "Go".into(),
        },
    ];

    // Both are stale at threshold 90
    let filtered: Vec<&StaleRepo> = repos.iter().filter(|r| r.days_stale >= 90).collect();
    assert_eq!(filtered.len(), 2);

    // Only one at threshold 200
    let filtered: Vec<&StaleRepo> = repos.iter().filter(|r| r.days_stale >= 200).collect();
    assert_eq!(filtered.len(), 1);
    assert_eq!(filtered[0].name, "very-stale");
}

#[test]
fn stale_sorting_most_stale_first() {
    let mut repos = vec![
        StaleRepo {
            org: "org".into(),
            name: "less-stale".into(),
            last_push: "2024-01-01".into(),
            days_stale: 100,
            stars: 0,
            language: "-".into(),
        },
        StaleRepo {
            org: "org".into(),
            name: "more-stale".into(),
            last_push: "2020-01-01".into(),
            days_stale: 1500,
            stars: 0,
            language: "-".into(),
        },
    ];

    repos.sort_by(|a, b| b.days_stale.cmp(&a.days_stale));
    assert_eq!(repos[0].name, "more-stale");
    assert_eq!(repos[1].name, "less-stale");
}

const DAY: i64 = 86400;
const JAN_1_2024: i64 = 1704067200;

fn record(name: &str, pushed_at: Option<i64>, archived: bool) -> RepoRecord {
    RepoRecord {
        name: name.to_string(),
        language: None,
        stars: 0,
        forks: 0,
        open_issues: 0,
        archived,
        pushed_at,
    }
}

#[test]
fn stale_command_filters_and_sorts() {
    let now = JAN_1_2024;
    let fetches = vec![OrgReposFetch {
        org: "org".to_string(),
        outcome: Ok(vec![
            record("barely-stale", Some(now - 100 * DAY), false),
            record("very-stale", Some(now - 1500 * DAY), false),
            record("fresh", Some(now - DAY), false),
            record("archived-old", Some(now - 1500 * DAY), true),
            record("never-pushed", None, false),
        ]),
    }];
    let (rows, warnings) = stale_command(&fetches, 200, now);
    assert!(warnings.is_empty());
    // The archived one is excluded; the never-pushed one carries the large
    // sentinel and sorts first.
    assert_eq!(rows.len(), 2);
    assert_eq!(rows[0].name, "never-pushed");
    assert_eq!(rows[0].days_stale, 99999);
    assert_eq!(rows[0].last_push, "never");
    assert_eq!(rows[1].name, "very-stale");
    assert_eq!(rows[1].days_stale, 1500);
}

#[test]
fn stale_command_warns_per_failed_org() {
    let now = JAN_1_2024;
    let fetches = vec![
        OrgReposFetch { org: "good".to_string(), outcome: Ok(vec![]) },
        OrgReposFetch { org: "bad".to_string(), outcome: Err("nope".to_string()) },
    ];
    let (rows, warnings) = stale_command(&fetches, 90, now);
    assert!(rows.is_empty());
    assert_eq!(warnings, vec!["Failed to fetch repos for bad: nope".to_string()]);
}
