//! Candidate generation across conventions, directions and edge cases.

use gotospec::Error;
use gotospec::config::{Config, LanguageConfig};
use gotospec::find_candidates;
use gotospec::finder::Finder;

struct Case {
    config: Config,
    file: &'static str,
    expected: Vec<&'static str>,
}

fn ruby_config(dirs: Vec<&str>) -> LanguageConfig {
    LanguageConfig {
        primary_source_dirs: dirs.iter().map(|d| d.to_string()).collect(),
        test_file_matcher: "_spec.rb".to_string(),
        test_file_suffix: "_spec".to_string(),
        test_folder: "spec".to_string(),
        omit_source_dir_from_test_dir: false,
        test_file_extension: None,
        source_file_extension: None,
    }
}

fn one_language(lc: LanguageConfig) -> Config {
    Config { language_configs: vec![("rb".to_string(), lc)] }
}

#[test]
fn test_find_spec() {
    let work_dir = "/dev/backend".to_string();
    let ruby_lib_config = ruby_config(vec!["lib"]);
    let ruby_empty_source_config = ruby_config(vec![]);
    let tests = [
        Case {
            config: Config::default(),
            file: "/dev/backend/lib/api/header.rb",
            expected: vec![
                "/dev/backend/spec/app/api/header_spec.rb",
                "/dev/backend/spec/lib/api/header_spec.rb",
            ],
        },
        Case {
            config: Config::default(),
            file: "/dev/backend/api/header.rb",
            expected: vec![
                "/dev/backend/spec/app/api/header_spec.rb",
                "/dev/backend/spec/lib/api/header_spec.rb",
            ],
        },
        Case {
            config: Config::default(),
            file: "/dev/backend/app/api/header.rb",
            expected: vec![
                "/dev/backend/spec/app/api/header_spec.rb",
                "/dev/backend/spec/lib/api/header_spec.rb",
            ],
        },
        Case {
            config: Config::default(),
            file: "/dev/backend/spec/api/header_spec.rb",
            expected: vec![
                "/dev/backend/app/api/header.rb",
                "/dev/backend/lib/api/header.rb",
            ],
        },
        Case {
            config: one_language(ruby_lib_config.clone()),
            file: "/dev/backend/lib/header.rb",
            expected: vec!["/dev/backend/spec/lib/header_spec.rb"],
        },
        Case {
            config: one_language(ruby_lib_config.clone()),
            file: "/dev/backend/spec/lib/header_spec.rb",
            expected: vec!["/dev/backend/lib/header.rb"],
        },
        Case {
            config: one_language(ruby_empty_source_config.clone()),
            file: "/dev/backend/header.rb",
            expected: vec!["/dev/backend/spec/header_spec.rb"],
        },
        Case {
            config: one_language(ruby_empty_source_config.clone()),
            file: "/dev/backend/spec/header_spec.rb",
            expected: vec!["/dev/backend/header.rb"],
        },
    ];

    for (i, test) in tests.iter().enumerate() {
        let finder = Finder {
            file: test.file.to_string(),
            work_dir: work_dir.clone(),
            config: test.config.clone(),
        };
        let got = finder.find_test_or_target().unwrap();
        let expected: Vec<String> = test.expected.iter().map(|s| s.to_string()).collect();
        assert_eq!(got, expected, "Test number {} failed", i);
    }
}

#[test]
fn duplicate_roots_deduplicate_candidates() {
    let finder = Finder {
        file: "/dev/backend/header.rb".to_string(),
        work_dir: "/dev/backend".to_string(),
        config: one_language(ruby_config(vec!["lib", "lib"])),
    };
    let got = finder.find_test_or_target().unwrap();
    assert_eq!(got, vec!["/dev/backend/spec/lib/header_spec.rb".to_string()]);
}

#[test]
fn omitted_root_is_not_mirrored_under_test_folder() {
    let finder = Finder {
        file: "/dev/backend/lib/parser.ex".to_string(),
        work_dir: "/dev/backend".to_string(),
        config: Config::default(),
    };
    let got = finder.find_test_or_target().unwrap();
    assert_eq!(got, vec!["/dev/backend/test/parser_test.exs".to_string()]);
}

#[test]
fn distinct_test_extension_reverses_to_source() {
    let finder = Finder {
        file: "/dev/backend/test/parser_test.exs".to_string(),
        work_dir: "/dev/backend".to_string(),
        config: Config::default(),
    };
    let got = finder.find_test_or_target().unwrap();
    assert_eq!(got, vec!["/dev/backend/lib/parser.ex".to_string()]);
}

#[test]
fn file_outside_project_root_is_invalid() {
    let finder = Finder {
        file: "/elsewhere/lib/api/header.rb".to_string(),
        work_dir: "/dev/backend".to_string(),
        config: Config::default(),
    };
    assert_eq!(finder.find_test_or_target(), Err(Error::InvalidPath));
}

#[test]
fn test_file_outside_test_folder_is_rejected() {
    let finder = Finder {
        file: "/dev/backend/lib/api/header_spec.rb".to_string(),
        work_dir: "/dev/backend".to_string(),
        config: Config::default(),
    };
    assert_eq!(finder.find_test_or_target(), Err(Error::NotInTestFolder));
}

#[test]
fn unknown_extension_yields_empty_list() {
    let finder = Finder {
        file: "/dev/backend/lib/api/header.xyz".to_string(),
        work_dir: "/dev/backend".to_string(),
        config: Config::default(),
    };
    assert_eq!(find_candidates(&finder).unwrap(), Vec::<String>::new());
}

#[test]
fn extensionless_file_yields_empty_list() {
    let finder = Finder {
        file: "/dev/backend/README".to_string(),
        work_dir: "/dev/backend".to_string(),
        config: Config::default(),
    };
    assert_eq!(find_candidates(&finder).unwrap(), Vec::<String>::new());
}

#[test]
fn recognized_file_passes_through_boundary() {
    let finder = Finder {
        file: "/dev/backend/lib/api/header.rb".to_string(),
        work_dir: "/dev/backend".to_string(),
        config: Config::default(),
    };
    let got = find_candidates(&finder).unwrap();
    assert_eq!(
        got,
        vec![
            "/dev/backend/spec/app/api/header_spec.rb".to_string(),
            "/dev/backend/spec/lib/api/header_spec.rb".to_string(),
        ]
    );
}

#[test]
fn relative_file_path_strips_root_and_name() {
    let finder = Finder {
        file: "/dev/backend/lib/api/header.rb".to_string(),
        work_dir: "/dev/backend".to_string(),
        config: Config::default(),
    };
    assert_eq!(finder.relative_file_path().unwrap(), "lib/api");
}
