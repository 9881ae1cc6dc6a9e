use config_drift::index::{
    build_index, call_site_at, index_source, scan_keys, section_name, SourceFile,
};
use config_drift::string_map::StringMap;

fn chars(s: &str) -> Vec<char> {
    s.chars().collect()
}

fn keys_of(text: &str) -> Vec<String> {
    scan_keys(&chars(text))
}

fn file(name: &str, content: &str) -> SourceFile {
    SourceFile { name: name.to_string(), content: content.to_string() }
}

fn entries(map: &StringMap) -> Vec<(String, String)> {
    let mut all = Vec::new();
    while let Some((key, value)) = map.entry_at(all.len()) {
        all.push((key.clone(), value.clone()));
    }
    all
}

fn pair(key: &str, value: &str) -> (String, String) {
    (key.to_string(), value.to_string())
}

const DATABASE: &str = "<?php
return [
    'default' => env('DB_CONNECTION', 'mysql'),
    'connections' => [
        'mysql' => [
            'host' => env('DB_HOST', '127.0.0.1'),
            'port' => env('DB_PORT', '3306'),
        ],
        'redis' => [
            'password' => env('REDIS_PASSWORD', null),
        ],
    ],
];";

#[test]
fn section_is_the_file_name_without_its_extension() {
    assert_eq!(section_name("database.php"), Some("database".to_string()));
    assert_eq!(section_name("app.config.php"), Some("app.config".to_string()));
    assert_eq!(section_name("..php"), Some(".".to_string()));
}

#[test]
fn other_files_define_no_section() {
    assert_eq!(section_name("notes.txt"), None);
    assert_eq!(section_name("database.PHP"), None);
    assert_eq!(section_name("database.php.bak"), None);
    assert_eq!(section_name("database.php5"), None);
    assert_eq!(section_name("database."), None);
    assert_eq!(section_name(".php"), None);
    assert_eq!(section_name("php"), None);
    assert_eq!(section_name(""), None);
}

#[test]
fn call_sites_of_a_source_are_found_in_order() {
    assert_eq!(keys_of(DATABASE), vec!["DB_CONNECTION", "DB_HOST", "DB_PORT", "REDIS_PASSWORD"]);
}

#[test]
fn call_site_forms() {
    assert_eq!(keys_of("env('A')"), vec!["A"]);
    assert_eq!(keys_of("env(\"A\")"), vec!["A"]);
    assert_eq!(keys_of("env(  'A_1'  ,  false  )"), vec!["A_1"]);
    assert_eq!(keys_of("env(\n\t'A'\n)"), vec!["A"]);
    assert_eq!(keys_of("env('A\")"), vec!["A"]);
    assert_eq!(keys_of("getenv('A')"), vec!["A"]);
    assert_eq!(keys_of("env('A' anything but a bracket)"), vec!["A"]);
    assert_eq!(keys_of("x env('A'), env('B'); env('A')"), vec!["A", "B", "A"]);
}

#[test]
fn texts_without_call_sites() {
    let none: Vec<String> = Vec::new();
    assert_eq!(keys_of(""), none);
    assert_eq!(keys_of("env"), none);
    assert_eq!(keys_of("env('a')"), none);
    assert_eq!(keys_of("env('')"), none);
    assert_eq!(keys_of("env(A)"), none);
    assert_eq!(keys_of("env('A'"), none);
    assert_eq!(keys_of("env ('A')"), none);
    assert_eq!(keys_of("ENV('A')"), none);
    assert_eq!(keys_of("env('A-B')"), none);
    assert_eq!(keys_of("env('A )"), none);
    assert_eq!(keys_of("config('A')"), none);
}

#[test]
fn call_site_inside_another_ones_arguments_is_not_seen() {
    assert_eq!(keys_of("env('A', env('B', 1)) env('C')"), vec!["A", "C"]);
    assert_eq!(keys_of("env('A', f(1), env('B'))"), vec!["A", "B"]);
}

#[test]
fn call_site_ends_after_the_first_closing_bracket() {
    let text = chars("  env('KEY', 'x') tail)");
    assert_eq!(call_site_at(&text, 2), Some(("KEY".to_string(), 17)));
    assert_eq!(call_site_at(&text, 0), None);
    assert_eq!(call_site_at(&text, 3), None);
    assert_eq!(call_site_at(&text, 22), None);
    assert_eq!(call_site_at(&text, 23), None);
    assert_eq!(call_site_at(&text, 1000), None);
}

#[test]
fn first_section_to_read_a_key_owns_it() {
    let files = vec![
        file("database.php", "env('DB_HOST') env('SHARED')"),
        file("cache.php", "env('SHARED', 1) env('CACHE_DRIVER') env('DB_HOST')"),
    ];
    let index = build_index(&files);
    assert_eq!(
        entries(&index),
        vec![
            pair("DB_HOST", "database"),
            pair("SHARED", "database"),
            pair("CACHE_DRIVER", "cache"),
        ]
    );
    let reversed = vec![
        file("cache.php", "env('SHARED', 1) env('CACHE_DRIVER') env('DB_HOST')"),
        file("database.php", "env('DB_HOST') env('SHARED')"),
    ];
    let index = build_index(&reversed);
    assert_eq!(index.get("SHARED"), Some(&"cache".to_string()));
    assert_eq!(index.get("DB_HOST"), Some(&"cache".to_string()));
}

#[test]
fn files_that_are_no_sources_are_passed_over() {
    let files = vec![
        file("README.md", "env('FROM_README')"),
        file(".php", "env('FROM_HIDDEN')"),
        file("app.php", "env('APP_NAME')"),
    ];
    let index = build_index(&files);
    assert_eq!(entries(&index), vec![pair("APP_NAME", "app")]);
    assert_eq!(build_index(&Vec::new()).len(), 0);
}

#[test]
fn scanning_a_source_keeps_what_the_index_holds() {
    let mut index = StringMap::new();
    index.insert("DB_HOST".to_string(), "earlier".to_string());
    index_source(&mut index, "database", DATABASE);
    assert_eq!(
        entries(&index),
        vec![
            pair("DB_HOST", "earlier"),
            pair("DB_CONNECTION", "database"),
            pair("DB_PORT", "database"),
            pair("REDIS_PASSWORD", "database"),
        ]
    );
}
