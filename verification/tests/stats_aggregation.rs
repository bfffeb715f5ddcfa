use gitorg::commands::stats::count_language;
use gitorg::commands::stats::stats_command;
use gitorg::commands::stats::LanguageCount;
use gitorg::commands::OrgReposFetch;
use gitorg::github::RepoRecord;
use std::collections::HashMap;

#[test]
fn language_sorting_by_count_descending() {
    let mut langs = vec![
        LanguageCount {
            language: "Go".into(),
            count: 3,
        },
        LanguageCount {
            language: "Rust".into(),
            count: 10,
        },
        LanguageCount {
            language: "Python".into(),
            count: 7,
        },
    ];
    langs.sort_by(|a, b| b.count.cmp(&a.count));
    assert_eq!(langs[0].language, "Rust");
    assert_eq!(langs[1].language, "Python");
    assert_eq!(langs[2].language, "Go");
}

#[test]
fn language_aggregation() {
    let mut lang_map: HashMap<String, usize> = HashMap::new();
    let languages = ["Rust", "Go", "Rust", "Python", "Rust", "Go"];
    for lang in languages {
        *lang_map.entry(lang.to_string()).or_insert(0) += 1;
    }
    assert_eq!(lang_map["Rust"], 3);
    assert_eq!(lang_map["Go"], 2);
    assert_eq!(lang_map["Python"], 1);
}

#[test]
fn counting_languages_keeps_first_encounter_order() {
    let mut hist: Vec<LanguageCount> = Vec::new();
    for lang in ["Rust", "Go", "Rust", "Python", "Rust", "Go"] {
        count_language(&mut hist, lang);
    }
    assert_eq!(hist.len(), 3);
    assert_eq!(hist[0].language, "Rust");
    assert_eq!(hist[0].count, 3);
    assert_eq!(hist[1].language, "Go");
    assert_eq!(hist[1].count, 2);
    assert_eq!(hist[2].language, "Python");
    assert_eq!(hist[2].count, 1);
}

fn record(name: &str, language: Option<&str>, stars: u32, forks: u32, issues: u32) -> RepoRecord {
    RepoRecord {
        name: name.to_string(),
        language: language.map(|l| l.to_string()),
        stars,
        forks,
        open_issues: issues,
        archived: false,
        pushed_at: None,
    }
}

#[test]
fn stats_command_totals_and_champions() {
    let fetches = vec![
        OrgReposFetch {
            org: "one".to_string(),
            outcome: Ok(vec![
                record("a", Some("Rust"), 50, 2, 1),
                record("b", Some("Go"), 100, 9, 2),
            ]),
        },
        OrgReposFetch {
            org: "two".to_string(),
            outcome: Ok(vec![
                record("c", Some("Rust"), 100, 1, 3),
                record("d", None, 0, 0, 4),
            ]),
        },
    ];
    let (stats, warnings) = stats_command(&fetches);
    assert!(warnings.is_empty());
    assert_eq!(stats.total_repos, 4);
    assert_eq!(stats.total_stars, 250);
    assert_eq!(stats.total_forks, 12);
    assert_eq!(stats.total_open_issues, 10);
    // Histogram: counts add up to the repository count, sorted descending.
    let total: usize = stats.languages.iter().map(|l| l.count).sum();
    assert_eq!(total, 4);
    assert_eq!(stats.languages[0].language, "Rust");
    assert_eq!(stats.languages[0].count, 2);
    // First encountered wins the stars tie; zero never places.
    let starred = stats.most_starred.unwrap();
    assert_eq!(starred.name, "b");
    assert_eq!(starred.count, 100);
    let forked = stats.most_forked.unwrap();
    assert_eq!(forked.name, "b");
    assert_eq!(forked.count, 9);
}

#[test]
fn stats_command_zero_counts_give_no_champion() {
    let fetches = vec![OrgReposFetch {
        org: "one".to_string(),
        outcome: Ok(vec![record("a", None, 0, 0, 0)]),
    }];
    let (stats, _) = stats_command(&fetches);
    assert!(stats.most_starred.is_none());
    assert!(stats.most_forked.is_none());
    assert_eq!(stats.languages[0].language, "Unknown");
}

#[test]
fn stats_command_reports_partial_failure() {
    let fetches = vec![
        OrgReposFetch { org: "a".to_string(), outcome: Ok(vec![record("r", None, 1, 1, 1)]) },
        OrgReposFetch { org: "b".to_string(), outcome: Err("down".to_string()) },
        OrgReposFetch { org: "c".to_string(), outcome: Ok(vec![record("s", None, 2, 2, 2)]) },
    ];
    let (stats, warnings) = stats_command(&fetches);
    assert_eq!(stats.total_repos, 2);
    assert_eq!(stats.total_stars, 3);
    assert_eq!(warnings, vec!["Failed to fetch repos for b: down".to_string()]);
}
