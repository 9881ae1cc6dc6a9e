use config_drift::env::parse_env;
use config_drift::index::{build_index, SourceFile};
use config_drift::reconcile::reconcile;
use config_drift::resolve::resolve_output;
use config_drift::snapshot::SnapshotValue;
use config_drift::string_map::StringMap;

const ENV: &str = "DB_HOST=localhost
DB_PORT=3306
REDIS_PASSWORD=null";

const DATABASE_CONFIG: &str = "<?php
return [
    'default' => env('DB_CONNECTION', 'mysql'),
    'connections' => [
        'mysql' => [
            'host' => env('DB_HOST', '127.0.0.1'),
            'port' => env('DB_PORT', '3306'),
        ],
        'redis' => [
            'password' => env('REDIS_PASSWORD', null),
        ],
    ],
];";

/// What the evaluator writes for a snapshot whose host and port are not those
/// of the environment file.
const CACHE_WITH_DIFFERENCES: &str = r#"{"database":{"default":"mysql","connections":{"mysql":{"host":"127.0.0.1","port":"3307"},"redis":{"default":{"password":null},"cache":{"password":null}}}}}"#;

/// What the evaluator writes for a snapshot that agrees with the environment
/// file.
const CACHE_WITHOUT_DIFFERENCES: &str = r#"{"database":{"default":"mysql","connections":{"mysql":{"host":"localhost","port":"3306"},"redis":{"password":"null"}}}}"#;

fn load_test_data(cache: &str) -> (StringMap, StringMap, SnapshotValue) {
    let env_vars = parse_env(ENV);
    let env_key_to_section = build_index(&vec![SourceFile {
        name: "database.php".to_string(),
        content: DATABASE_CONFIG.to_string(),
    }]);
    let config_json = resolve_output(true, cache.as_bytes()).unwrap();
    (env_vars, env_key_to_section, config_json)
}

#[test]
fn with_cache_differences() {
    let (env_vars, env_key_to_section, config_json) = load_test_data(CACHE_WITH_DIFFERENCES);

    let mut found_diff = false;
    for i in 0..env_vars.len() {
        let (env_key, env_val) = env_vars.entry_at(i).unwrap();
        if let Some(section) = env_key_to_section.get(env_key) {
            if let Some(section_val) = config_json.section(section) {
                let section_str = section_val.render();
                if !section_str.contains(env_val.as_str()) {
                    found_diff = true;
                }
            }
        }
    }

    assert!(found_diff, "Expected to find differences between .env and config cache");
}

#[test]
fn no_cache_differences() {
    let (env_vars, env_key_to_section, config_json) = load_test_data(CACHE_WITHOUT_DIFFERENCES);

    let mut found_diff = false;
    for i in 0..env_vars.len() {
        let (env_key, env_val) = env_vars.entry_at(i).unwrap();
        if let Some(section) = env_key_to_section.get(env_key) {
            if let Some(section_val) = config_json.section(section) {
                let section_str = section_val.render();
                if !section_str.contains(env_val.as_str()) {
                    found_diff = true;
                    break;
                }
            }
        }
    }

    assert!(!found_diff, "Expected no differences between .env and config cache");
}

#[test]
fn whole_run_with_differences() {
    let (env_vars, env_key_to_section, config_json) = load_test_data(CACHE_WITH_DIFFERENCES);
    let report = reconcile(&env_vars, &env_key_to_section, &config_json);
    assert_eq!(report.lines, vec!["[DIFF] DB_HOST", "[DIFF] DB_PORT"]);
    assert!(report.found_difference);
}

#[test]
fn whole_run_without_differences() {
    let (env_vars, env_key_to_section, config_json) = load_test_data(CACHE_WITHOUT_DIFFERENCES);
    let report = reconcile(&env_vars, &env_key_to_section, &config_json);
    assert_eq!(report.lines, vec!["No differences found between .env and config cache."]);
    assert!(!report.found_difference);
}
