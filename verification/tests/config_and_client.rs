use gitorg::commands::orgs::build_org_summaries;
use gitorg::commands::resolve_orgs;
use gitorg::config::AuthConfig;
use gitorg::config::Config;
use gitorg::config::DefaultsConfig;
use gitorg::error::GitorgError;
use gitorg::github::needs_rate_limit_warning;
use gitorg::github::pagination_step;
use gitorg::github::OrgInfo;
use gitorg::github::RateLimit;
use gitorg::github::RateLimitResource;
use gitorg::github::RateLimitResources;

#[test]
fn config_default_has_no_token() {
    let config = Config::default();
    assert!(config.token().is_err());
}

#[test]
fn config_token_accessor() {
    let config = Config {
        auth: AuthConfig {
            token: Some("ghp_abc".to_string()),
        },
        defaults: DefaultsConfig::default(),
    };
    assert_eq!(config.token().unwrap(), "ghp_abc");
}

#[test]
fn missing_token_reports_not_authenticated() {
    let config = Config::default();
    let err = config.token().unwrap_err();
    assert!(matches!(err, GitorgError::NotAuthenticated));
    assert_eq!(err.message(), "Not authenticated. Run `gitorg auth` first.");
}

#[test]
fn error_messages_carry_their_detail() {
    assert_eq!(
        GitorgError::GitHub("rate".to_string()).message(),
        "GitHub API error: rate"
    );
    assert_eq!(
        GitorgError::Config("bad file".to_string()).message(),
        "Configuration error: bad file"
    );
    assert_eq!(
        GitorgError::RateLimited("12:00".to_string()).message(),
        "Rate limited. Resets at 12:00. Please wait and retry."
    );
    assert_eq!(
        GitorgError::OrgNotFound("x".to_string()).message(),
        "Organization not found: x"
    );
    assert_eq!(
        GitorgError::Io("gone".to_string()).message(),
        "I/O error: gone"
    );
    assert_eq!(
        GitorgError::TomlDeserialize("eof".to_string()).message(),
        "TOML deserialization error: eof"
    );
    assert_eq!(
        GitorgError::TomlSerialize("depth".to_string()).message(),
        "TOML serialization error: depth"
    );
}

#[test]
fn explicit_org_beats_configured_defaults() {
    let config = Config {
        auth: AuthConfig::default(),
        defaults: DefaultsConfig { orgs: Some(vec!["configured".to_string()]) },
    };
    let picked = resolve_orgs(&Some("explicit".to_string()), &config);
    assert_eq!(picked, Some(vec!["explicit".to_string()]));
}

#[test]
fn configured_defaults_beat_remote_lookup() {
    let config = Config {
        auth: AuthConfig::default(),
        defaults: DefaultsConfig { orgs: Some(vec!["a".to_string(), "b".to_string()]) },
    };
    let picked = resolve_orgs(&None, &config);
    assert_eq!(picked, Some(vec!["a".to_string(), "b".to_string()]));
}

#[test]
fn without_flag_or_defaults_the_remote_is_asked() {
    let empty = Config {
        auth: AuthConfig::default(),
        defaults: DefaultsConfig { orgs: Some(vec![]) },
    };
    assert_eq!(resolve_orgs(&None, &empty), None);
    assert_eq!(resolve_orgs(&None, &Config::default()), None);
}

#[test]
fn pagination_stops_on_empty_or_final_page() {
    assert_eq!(pagination_step(1, 0, true), None);
    assert_eq!(pagination_step(1, 100, false), None);
    assert_eq!(pagination_step(1, 100, true), Some(2));
    assert_eq!(pagination_step(7, 1, true), Some(8));
}

#[test]
fn rate_limit_warning_threshold() {
    let rl = |remaining: u64| RateLimit {
        resources: RateLimitResources {
            core: RateLimitResource { limit: 5000, remaining, reset: 0 },
        },
    };
    assert!(needs_rate_limit_warning(&rl(99)));
    assert!(!needs_rate_limit_warning(&rl(100)));
}

#[test]
fn org_rows_carry_description_and_url() {
    let orgs = vec![
        OrgInfo { login: "alpha".to_string(), description: Some("first".to_string()) },
        OrgInfo { login: "beta".to_string(), description: None },
    ];
    let rows = build_org_summaries(&orgs);
    assert_eq!(rows.len(), 2);
    assert_eq!(rows[0].name, "alpha");
    assert_eq!(rows[0].description, "first");
    assert_eq!(rows[0].url, "https://github.com/alpha");
    assert_eq!(rows[1].description, "");
    assert_eq!(rows[1].url, "https://github.com/beta");
}
