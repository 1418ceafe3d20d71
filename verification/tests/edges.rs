//! Configuration, cookies, authentication and trigger decisions on
//! concrete values.

use obs_sync::auth::{basic_auth_value, created_line, resolve_key_path, signature_header, u64_to_string};
use obs_sync::client::find_realm;
use obs_sync::codes::{PackageCode, RepositoryCode};
use obs_sync::cookies::{
    cookie_attributes, cookie_line, cookie_url, find_expires, is_jar_header, rejoin_attributes,
};
use obs_sync::buildresult::{ResultList, RepositoryResult, StatusCount, Summary};
use obs_sync::codes::BuildArch;
use obs_sync::oscrc::{
    ConfigSection, CredentialsManagers, Oscrc, PasswordSource, parse_header_lines, parse_u64,
};
use obs_sync::summary::ProjectSummary;
use obs_sync::trigger::{checks_allow, get_project_status, is_ready, post_project_status, should_trigger};
#[test]
fn basic_auth_encodes_credentials() {
    assert_eq!(
        basic_auth_value("Aladdin", "open sesame"),
        "Basic QWxhZGRpbjpvcGVuIHNlc2FtZQ=="
    );
}

#[test]
fn numbers_and_signature_headers_format() {
    assert_eq!(u64_to_string(0), "0");
    assert_eq!(u64_to_string(1700000000), "1700000000");
    assert_eq!(created_line(7), "(created): 7");
    assert_eq!(
        signature_header("alice", 7, "c2ln"),
        "Signature keyId=\"alice\",algorithm=\"ssh\",headers=\"(created)\",created=7,signature=\"c2ln\""
    );
}

#[test]
fn ssh_key_names_resolve_under_the_ssh_directory() {
    assert_eq!(resolve_key_path("/etc/key"), "/etc/key");
    assert_eq!(resolve_key_path("~/mykey"), "~/mykey");
    assert_eq!(resolve_key_path("id_ed25519"), "~/.ssh/id_ed25519");
}

#[test]
fn realm_is_extracted_from_a_challenge() {
    assert_eq!(
        find_realm("Basic realm=\"Use your SUSE developer account\", charset=\"UTF-8\"", "Basic")
            .as_deref(),
        Some("Use your SUSE developer account")
    );
    assert!(find_realm("Bearer realm=\"x\"", "Basic").is_none());
    assert!(find_realm("Basic charset=\"UTF-8\"", "Basic").is_none());
}

#[test]
fn numbers_parse_within_their_bounds() {
    assert_eq!(parse_u64("42"), Some(42));
    assert_eq!(parse_u64("0"), Some(0));
    assert_eq!(parse_u64(""), None);
    assert_eq!(parse_u64("4x2"), None);
    assert_eq!(parse_u64("12345678901234567890123"), None);
}

#[test]
fn header_blocks_split_into_pairs() {
    let pairs = parse_header_lines("Accept: text/xml\nno colon line\nX-Extra:1");
    assert_eq!(pairs.len(), 2);
    assert_eq!(pairs[0].0, "Accept");
    assert_eq!(pairs[0].1, " text/xml");
    assert_eq!(pairs[1].0, "X-Extra");
    assert_eq!(pairs[1].1, "1");
}

fn host_section(name: &str, entries: &[(&str, &str)]) -> ConfigSection {
    ConfigSection {
        name: name.to_string(),
        entries: entries.iter().map(|(k, v)| (k.to_string(), v.to_string())).collect(),
    }
}

#[test]
fn configuration_is_built_from_sections() {
    let general = vec![
        ("apiurl".to_string(), "https://API.example.org".to_string()),
        ("http_retries".to_string(), "5".to_string()),
        ("sshkey".to_string(), "id_ed25519".to_string()),
    ];
    let sections = vec![host_section(
        "https://API.example.org",
        &[("user", "alice"), ("password", "SECRET-REDACTED")],
    )];
    let cfg = Oscrc::from_config(&general, &sections, "/tmp/jar".to_string()).unwrap();
    assert_eq!(cfg.apiurl, "https://api.example.org/");
    assert_eq!(cfg.http_retries, 5);
    assert_eq!(cfg.sshkey.as_deref(), Some("id_ed25519"));
    assert_eq!(cfg.cookiejar, "/tmp/jar");
    assert_eq!(cfg.hosts_options.len(), 1);
    assert_eq!(cfg.hosts_options[0].0, "https://api.example.org/");
    assert_eq!(cfg.hosts_options[0].1.username, "alice");
    assert_eq!(
        cfg.hosts_options[0].1.credential_class,
        CredentialsManagers::Plaintext
    );
}

#[test]
fn configuration_defaults_apply() {
    let cfg = Oscrc::from_config(&Vec::new(), &Vec::new(), "/state/jar".to_string()).unwrap();
    assert_eq!(cfg.apiurl, "https://api.opensuse.org/");
    assert_eq!(cfg.http_retries, 3);
    assert_eq!(cfg.cookiejar, "/state/jar");
    assert!(cfg.sshkey.is_none());
    assert!(cfg.hosts_options.is_empty());
}

#[test]
fn configuration_without_user_is_refused() {
    let sections = vec![host_section("https://api.example.org", &[("password", "x")])];
    assert!(Oscrc::from_config(&Vec::new(), &sections, String::new()).is_err());
}

#[test]
fn configuration_with_bad_retries_is_refused() {
    let general = vec![("http_retries".to_string(), "many".to_string())];
    assert!(Oscrc::from_config(&general, &Vec::new(), String::new()).is_err());
}

#[test]
fn configuration_with_bad_url_is_refused() {
    let sections = vec![host_section("not a url", &[("user", "alice")])];
    assert!(Oscrc::from_config(&Vec::new(), &sections, String::new()).is_err());
}

#[test]
fn credentials_manager_classes_parse() {
    assert_eq!(
        CredentialsManagers::from("osc.credentials.TransientCredentialsManager".to_string()),
        CredentialsManagers::Transient
    );
    assert_eq!(
        CredentialsManagers::from(
            "osc.credentials.KeyringCredentialsManager:keyring.backends.kwallet.DBusKeyring"
                .to_string()
        ),
        CredentialsManagers::Kwallet
    );
    assert_eq!(CredentialsManagers::from("".to_string()), CredentialsManagers::Plaintext);
}

#[test]
fn password_provider_follows_the_backend() {
    let general = Vec::new();
    let sections = vec![
        host_section("https://a.example.org", &[("user", "u"), ("password", "pw")]),
        host_section(
            "https://b.example.org",
            &[
                ("user", "u"),
                (
                    "credentials_mgr_class",
                    "osc.credentials.KeyringCredentialsManager:keyring.backends.kwallet.DBusKeyring",
                ),
            ],
        ),
        host_section(
            "https://c.example.org",
            &[("user", "u"), ("credentials_mgr_class", "osc.credentials.TransientCredentialsManager")],
        ),
    ];
    let cfg = Oscrc::from_config(&general, &sections, String::new()).unwrap();
    match cfg.get_password_provider("https://a.example.org/") {
        Some(PasswordSource::Plain(p)) => assert_eq!(p, "pw"),
        _ => panic!("expected the plain password"),
    }
    assert!(matches!(
        cfg.get_password_provider("https://b.example.org/"),
        Some(PasswordSource::Kwallet)
    ));
    assert!(matches!(
        cfg.get_password_provider("https://c.example.org/"),
        Some(PasswordSource::Ask)
    ));
    assert!(cfg.get_password_provider("https://unknown.example.org/").is_none());
}

#[test]
fn aliases_resolve_to_endpoints() {
    let sections = vec![host_section("https://api.example.org", &[("user", "alice")])];
    let mut cfg = Oscrc::from_config(&Vec::new(), &sections, String::new()).unwrap();
    assert_eq!(
        cfg.apiurl_from_alias("https://api.example.org").as_deref(),
        Some("https://api.example.org/")
    );
    assert!(cfg.apiurl_from_alias("https://other.example.org").is_none());
    cfg.hosts_options[0].1.aliases.push("work".to_string());
    assert_eq!(cfg.apiurl_from_alias("work").as_deref(), Some("https://api.example.org/"));
    assert!(cfg.apiurl_from_alias("home").is_none());
}

#[test]
fn cookie_jar_lines_are_recognised() {
    assert!(is_jar_header("#LWP-Cookies-2.0"));
    assert!(!is_jar_header("# comment"));
    assert_eq!(
        cookie_line("Set-Cookie3: sid=1; path=\"/\"").as_deref(),
        Some("sid=1; path=\"/\"")
    );
    assert!(cookie_line("sid=1").is_none());
}

#[test]
fn cookie_attributes_parse_and_rejoin() {
    let attrs = cookie_attributes("sid=\"abc\"; path=\"/\"; secure; expires=\"2024-01-02 03:04:05\"");
    assert_eq!(attrs.len(), 4);
    assert_eq!(attrs[0].key, "sid");
    assert_eq!(attrs[0].value.as_deref(), Some("abc"));
    assert_eq!(attrs[2].key, "secure");
    assert!(attrs[2].value.is_none());
    assert_eq!(
        rejoin_attributes(&attrs),
        "sid=abc;path=/;secure;expires=2024-01-02 03:04:05"
    );
    assert_eq!(find_expires(&attrs).as_deref(), Some("2024-01-02T03:04:05"));
    let no_expiry = cookie_attributes("sid=1; path=\"/\"");
    assert!(find_expires(&no_expiry).is_none());
}

#[test]
fn cookie_urls_follow_the_secure_flag() {
    let domain = "example.org".to_string();
    let path = "/api".to_string();
    assert_eq!(
        cookie_url(Some(true), Some(&domain), Some(&path)).unwrap(),
        "https://example.org/api"
    );
    assert_eq!(cookie_url(None, Some(&domain), None).unwrap(), "http://example.org/");
    assert!(cookie_url(Some(true), None, None).is_err());
}

fn ready_summary() -> ProjectSummary {
    let list = ResultList {
        result: vec![RepositoryResult {
            repository: "standard".to_string(),
            arch: BuildArch::X86_64,
            code: RepositoryCode::Published,
            summary: Some(Summary {
                statuscount: vec![StatusCount { code: PackageCode::Succeeded, count: 3 }],
            }),
            status: Vec::new(),
            binarylist: Vec::new(),
        }],
    };
    ProjectSummary::try_from(&list).unwrap()
}

#[test]
fn trigger_fires_only_for_watched_ready_projects() {
    let summary = ready_summary();
    assert!(is_ready(&summary));
    let watched = vec!["proj".to_string()];
    assert!(should_trigger(&watched, "proj", &summary));
    assert!(!should_trigger(&watched, "other", &summary));
}

#[test]
fn prow_checks_must_all_be_clear() {
    assert!(checks_allow(&Vec::new()));
    assert!(checks_allow(&vec![true, true]));
    assert!(!checks_allow(&vec![true, false]));
}

#[test]
fn web_statuses_follow_the_decision_table() {
    assert_eq!(get_project_status(false, false), 404);
    assert_eq!(get_project_status(true, false), 500);
    assert_eq!(get_project_status(true, true), 200);
    assert_eq!(post_project_status(false, false, false, false), 404);
    assert_eq!(post_project_status(true, false, false, false), 500);
    assert_eq!(post_project_status(true, true, false, false), 409);
    assert_eq!(post_project_status(true, true, true, true), 202);
    assert_eq!(post_project_status(true, true, true, false), 500);
}
