//! Classification and name-transform behaviour of the convention registry.

use gotospec::Error;
use gotospec::config::{Config, LanguageConfig};

fn ruby_lib_only() -> Config {
    Config {
        language_configs: vec![(
            "rb".to_string(),
            LanguageConfig {
                primary_source_dirs: vec!["lib".to_string()],
                test_file_matcher: String::new(),
                test_file_suffix: String::new(),
                test_folder: String::new(),
                omit_source_dir_from_test_dir: false,
                test_file_extension: None,
                source_file_extension: None,
            },
        )],
    }
}

#[test]
fn test_is_test() {
    let config = Config::default();
    let test_files = ["api_spec.rb".to_string(), "db_spec.rb".to_string()];

    for file in test_files {
        assert!(config.is_test(&file).unwrap());
    }

    let target_files = ["api.rb".to_string(), "db.rb".to_string()];

    for file in target_files {
        assert_eq!(config.is_test(&file).unwrap(), false);
    }
}

#[test]
fn test_strip_primary_source_dirs_from_path() {
    let config = ruby_lib_only();

    let result = config.strip_primary_source_dirs_from_path(
        &"lib/bob/header_spec.rb".to_string(),
        &"rb".to_string(),
    );
    assert_eq!(result, "bob/header_spec.rb");
}

#[test]
fn strip_leaves_unmatched_path_unchanged() {
    let config = ruby_lib_only();

    let result = config.strip_primary_source_dirs_from_path(
        &"api/header.rb".to_string(),
        &"rb".to_string(),
    );
    assert_eq!(result, "api/header.rb");
}

#[test]
fn target_to_test_name_appends_suffix() {
    let config = Config::default();
    let name = config
        .target_to_test_name(&"/dev/backend/lib/api/header.rb".to_string())
        .unwrap();
    assert_eq!(name, "header_spec.rb");
}

#[test]
fn test_to_target_name_strips_suffix() {
    let config = Config::default();
    let name = config
        .test_to_target_name(&"/dev/backend/spec/api/header_spec.rb".to_string())
        .unwrap();
    assert_eq!(name, "header.rb");
}

#[test]
fn round_trip_recovers_source_name() {
    let config = Config::default();
    let test_name = config.target_to_test_name(&"header.rb".to_string()).unwrap();
    assert_eq!(test_name, "header_spec.rb");
    let back = config.test_to_target_name(&test_name).unwrap();
    assert_eq!(back, "header.rb");
}

#[test]
fn round_trip_with_distinct_extensions() {
    let config = Config::default();
    let test_name = config.target_to_test_name(&"lib/parser.ex".to_string()).unwrap();
    assert_eq!(test_name, "parser_test.exs");
    let back = config.test_to_target_name(&test_name).unwrap();
    assert_eq!(back, "parser.ex");
}

#[test]
fn generated_test_name_classifies_as_test() {
    let config = Config::default();
    let test_name = config.target_to_test_name(&"api.rb".to_string()).unwrap();
    assert!(config.is_test(&test_name).unwrap());
    let exs_name = config.target_to_test_name(&"runner.ex".to_string()).unwrap();
    assert!(config.is_test(&exs_name).unwrap());
}

#[test]
fn resolve_falls_back_to_test_file_extension() {
    let config = Config::default();
    let lc = config.find_language_config("exs").unwrap();
    assert_eq!(lc.test_folder, "test");
    assert_eq!(lc.test_file_suffix, "_test");
}

#[test]
fn resolve_unknown_extension_fails() {
    let config = Config::default();
    assert!(config.find_language_config("py").is_none());
}

#[test]
fn transforms_report_unknown_language() {
    let config = Config::default();
    assert_eq!(
        config.target_to_test_name(&"main.py".to_string()),
        Err(Error::UnknownLanguage)
    );
    assert_eq!(
        config.is_test(&"main.py".to_string()),
        Err(Error::UnknownLanguage)
    );
}

#[test]
fn transforms_report_invalid_path() {
    let config = Config::default();
    assert_eq!(
        config.target_to_test_name(&"README".to_string()),
        Err(Error::InvalidPath)
    );
    assert_eq!(
        config.test_to_target_name(&"README".to_string()),
        Err(Error::InvalidPath)
    );
}

#[test]
fn reverse_transform_rejects_plain_source_name() {
    let config = Config::default();
    assert_eq!(
        config.test_to_target_name(&"header.rb".to_string()),
        Err(Error::NotATestName)
    );
}

#[test]
fn duplicate_keys_resolve_to_first_entry() {
    let mut first = ruby_lib_only().language_configs.remove(0).1;
    first.test_folder = "spec".to_string();
    let mut second = first.clone();
    second.test_folder = "test".to_string();
    let config = Config {
        language_configs: vec![("rb".to_string(), first), ("rb".to_string(), second)],
    };
    assert_eq!(config.find_language_config("rb").unwrap().test_folder, "spec");
}

#[test]
fn primary_source_dirs_defaults_to_implicit_root() {
    let config = Config {
        language_configs: vec![(
            "rb".to_string(),
            LanguageConfig {
                primary_source_dirs: vec![],
                test_file_matcher: "_spec.rb".to_string(),
                test_file_suffix: "_spec".to_string(),
                test_folder: "spec".to_string(),
                omit_source_dir_from_test_dir: false,
                test_file_extension: None,
                source_file_extension: None,
            },
        )],
    };
    assert_eq!(
        config.primary_source_dirs(&"rb".to_string()),
        vec!["".to_string()]
    );
}
