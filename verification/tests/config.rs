use std::collections::HashMap;

use directories::ProjectDirs;
use polaris::config::{default_root, ApiKeySource, Config};

fn read(values: &[(&str, &str)]) -> Result<Config, String> {
    let values: HashMap<String, String> = values
        .iter()
        .map(|(key, value)| (key.to_string(), value.to_string()))
        .collect();
    Config::from_reader(
        |key: &str| values.get(key).cloned(),
        Some("/default".into()),
        None,
    )
    .map_err(|error| error.text())
}

#[test]
fn root_override_is_respected() {
    let values = HashMap::from([("TICK_ROOT".to_string(), "/tmp/tick-root".to_string())]);
    let config =
        Config::from_reader(|key: &str| values.get(key).cloned(), None, None).expect("config");
    assert_eq!(config.root, "/tmp/tick-root");
}

#[test]
fn default_root_matches_directories_crate() {
    let dir = |name: &str| {
        ProjectDirs::from("", "", name)
            .expect("project dirs")
            .data_local_dir()
            .to_str()
            .expect("text")
            .to_string()
    };
    let expected = dir("tick");
    assert_eq!(
        default_root(Some(dir("polaris")), false, Some(dir("tick")), true).expect("default root"),
        expected
    );
}

#[test]
fn default_root_prefers_the_new_name() {
    let new = Some("/data/polaris".to_string());
    let old = Some("/data/tick".to_string());
    assert_eq!(default_root(new.clone(), true, old.clone(), true).unwrap(), "/data/polaris");
    assert_eq!(default_root(new.clone(), false, old.clone(), false).unwrap(), "/data/polaris");
    assert_eq!(default_root(new, false, old, true).unwrap(), "/data/tick");
    assert_eq!(
        default_root(None, false, None, false).unwrap_err().text(),
        "unable to determine platform data directory"
    );
}

#[test]
fn settings_have_defaults() {
    let config = read(&[]).expect("config");
    assert_eq!(config.base_url, "https://api.polaris.supply");
    assert_eq!(config.api_key, None);
    assert_eq!(config.api_key_source, None);
    assert_eq!(config.root, "/default");
    assert_eq!(config.concurrency, 4);
    assert_eq!(config.timeout_secs, 60);
}

#[test]
fn new_names_go_before_old_names() {
    let config = read(&[
        ("POLARIS_BASE_URL", " https://example.test// "),
        ("POLARIS_ROOT", "/new"),
        ("TICK_ROOT", "/old"),
        ("POLARIS_CONCURRENCY", " +8 "),
        ("TICK_CONCURRENCY", "2"),
        ("TICK_TIMEOUT_SECS", "30"),
    ])
    .expect("config");
    assert_eq!(config.base_url, "https://example.test");
    assert_eq!(config.root, "/new");
    assert_eq!(config.concurrency, 8);
    assert_eq!(config.timeout_secs, 30);
    assert_eq!(read(&[("POLARIS_ROOT", "  "), ("TICK_ROOT", "/old")]).unwrap().root, "/old");
    assert_eq!(
        read(&[("POLARIS_BASE_URL", " / ")]).unwrap().base_url,
        "https://api.polaris.supply"
    );
}

#[test]
fn numbers_must_be_positive() {
    assert_eq!(
        read(&[("POLARIS_CONCURRENCY", "0")]).unwrap_err(),
        "POLARIS_CONCURRENCY must be greater than zero"
    );
    assert_eq!(
        read(&[("TICK_CONCURRENCY", "many")]).unwrap_err(),
        "failed to parse TICK_CONCURRENCY"
    );
    assert_eq!(
        read(&[("POLARIS_TIMEOUT_SECS", "18446744073709551616")]).unwrap_err(),
        "failed to parse POLARIS_TIMEOUT_SECS"
    );
    assert_eq!(
        read(&[("POLARIS_TIMEOUT_SECS", "18446744073709551615")]).unwrap().timeout_secs,
        u64::MAX
    );
    assert_eq!(
        read(&[("TICK_TIMEOUT_SECS", "-1")]).unwrap_err(),
        "failed to parse TICK_TIMEOUT_SECS"
    );
}

#[test]
fn environment_key_goes_before_stored_key() {
    let with = |env: Option<&str>, stored: Option<&str>| {
        let env = env.map(str::to_string);
        Config::from_reader(
            |key: &str| if key == "POLARIS_API_KEY" { env.clone() } else { None },
            Some("/r".into()),
            stored.map(str::to_string),
        )
        .expect("config")
    };
    let config = with(Some(" pk_env "), Some("pk_stored"));
    assert_eq!(config.api_key.as_deref(), Some("pk_env"));
    assert_eq!(config.api_key_source, Some(ApiKeySource::Environment));
    let config = with(Some("  "), Some("pk_stored"));
    assert_eq!(config.api_key.as_deref(), Some("pk_stored"));
    assert_eq!(config.api_key_source, Some(ApiKeySource::CredentialStore));
    assert_eq!(with(None, None).api_key_source, None);
}

#[test]
fn a_root_is_needed() {
    assert_eq!(
        Config::from_reader(|_: &str| None, None, None).unwrap_err().text(),
        "unable to determine platform data directory"
    );
}
