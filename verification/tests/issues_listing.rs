use gitorg::commands::issues::issues_command;
use gitorg::commands::issues::join_labels;
use gitorg::commands::issues::OrgIssuesFetch;
use gitorg::commands::issues::RepoIssuesFetch;
use gitorg::github::IssueRecord;

const JAN_1_2024: i64 = 1704067200;

fn issue(number: u64, title: &str, is_pr: bool) -> IssueRecord {
    IssueRecord {
        number,
        title: title.to_string(),
        author: "someone".to_string(),
        labels: vec!["bug".to_string(), "help wanted".to_string()],
        updated_at: JAN_1_2024,
        is_pull_request: is_pr,
    }
}

#[test]
fn pull_requests_never_reach_the_listing() {
    let fetches = vec![OrgIssuesFetch {
        org: "org".to_string(),
        outcome: Ok(vec![RepoIssuesFetch {
            repo: "repo".to_string(),
            outcome: Ok(vec![
                issue(1, "real issue", false),
                issue(2, "a pull request", true),
                issue(3, "another issue", false),
            ]),
        }]),
    }];
    let (rows, warnings) = issues_command(&fetches);
    assert!(warnings.is_empty());
    assert_eq!(rows.len(), 2);
    assert_eq!(rows[0].number, 1);
    assert_eq!(rows[1].number, 3);
    assert!(rows.iter().all(|r| r.title != "a pull request"));
}

#[test]
fn issue_rows_carry_labels_and_date() {
    let fetches = vec![OrgIssuesFetch {
        org: "org".to_string(),
        outcome: Ok(vec![RepoIssuesFetch {
            repo: "repo".to_string(),
            outcome: Ok(vec![issue(7, "t", false)]),
        }]),
    }];
    let (rows, _) = issues_command(&fetches);
    assert_eq!(rows[0].labels, "bug, help wanted");
    assert_eq!(rows[0].updated, "2024-01-01");
    assert_eq!(rows[0].author, "someone");
    assert_eq!(rows[0].org, "org");
    assert_eq!(rows[0].repo, "repo");
}

#[test]
fn empty_labels_show_a_dash() {
    assert_eq!(join_labels(&Vec::new()), "-");
    assert_eq!(join_labels(&vec!["only".to_string()]), "only");
}

#[test]
fn issue_warnings_name_org_and_repo() {
    let fetches = vec![
        OrgIssuesFetch { org: "broken".to_string(), outcome: Err("dns".to_string()) },
        OrgIssuesFetch {
            org: "org".to_string(),
            outcome: Ok(vec![
                RepoIssuesFetch { repo: "bad".to_string(), outcome: Err("403".to_string()) },
                RepoIssuesFetch {
                    repo: "good".to_string(),
                    outcome: Ok(vec![issue(1, "x", false)]),
                },
            ]),
        },
    ];
    let (rows, warnings) = issues_command(&fetches);
    assert_eq!(rows.len(), 1);
    assert_eq!(
        warnings,
        vec![
            "Failed to fetch repos for broken: dns".to_string(),
            "Failed to fetch issues for org/bad: 403".to_string(),
        ],
    );
}
