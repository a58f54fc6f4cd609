//! The tiered selection policy, driven by existence flags the caller
//! supplies.

use gotospec::filter::Filter;

struct CallCase {
    input: Vec<&'static str>,
    file_exists: Vec<bool>,
    parent_exists: Vec<bool>,
    result: Vec<&'static str>,
}

fn filter_of(paths: &[&str]) -> Filter {
    Filter { paths: paths.iter().map(|p| p.to_string()).collect() }
}

#[test]
fn test_call() {
    let tests = [
        CallCase {
            input: vec![
                "./tests/fixtures/api/header.rb",
                "./tests/fixtures/db/config.rb",
                "./tests/fixtures/api/missing.rb",
            ],
            file_exists: vec![true, true, false],
            parent_exists: vec![true, true, true],
            result: vec![
                "./tests/fixtures/api/header.rb",
                "./tests/fixtures/db/config.rb",
            ],
        },
        CallCase {
            input: vec![
                "./tests/fixtures/api/missing.rb",
                "./tests/fixtures/db/missing.rb",
                "./tests/fixtures/missing/file.rb",
            ],
            file_exists: vec![false, false, false],
            parent_exists: vec![true, true, false],
            result: vec![
                "./tests/fixtures/api/missing.rb",
                "./tests/fixtures/db/missing.rb",
            ],
        },
        CallCase {
            input: vec![
                "./tests/fixtures/api/missing.rb",
                "./tests/fixtures/db/missing.rb",
            ],
            file_exists: vec![false, false],
            parent_exists: vec![true, true],
            result: vec![
                "./tests/fixtures/api/missing.rb",
                "./tests/fixtures/db/missing.rb",
            ],
        },
    ];

    for test in tests {
        let filter = Filter {
            paths: test.input.iter().map(|p| p.to_string()).collect(),
        };
        let got = filter.call(&test.file_exists, &test.parent_exists);
        let expected: Vec<String> = test.result.iter().map(|p| p.to_string()).collect();
        assert_eq!(got, expected);
    }
}

#[test]
fn single_existing_file_wins() {
    let filter = filter_of(&[
        "/dev/backend/spec/app/api/header_spec.rb",
        "/dev/backend/spec/lib/api/header_spec.rb",
    ]);
    let got = filter.call(&vec![true, false], &vec![true, true]);
    assert_eq!(got, vec!["/dev/backend/spec/app/api/header_spec.rb".to_string()]);
}

#[test]
fn existing_parent_directory_breaks_tie() {
    let filter = filter_of(&[
        "/dev/backend/spec/app/api/header_spec.rb",
        "/dev/backend/spec/lib/api/header_spec.rb",
    ]);
    let got = filter.call(&vec![false, false], &vec![true, false]);
    assert_eq!(got, vec!["/dev/backend/spec/app/api/header_spec.rb".to_string()]);
}

#[test]
fn nothing_on_disk_returns_candidates_unchanged() {
    let filter = filter_of(&["/a/b/one.rb", "/a/c/two.rb"]);
    let got = filter.call(&vec![false, false], &vec![false, false]);
    assert_eq!(got, vec!["/a/b/one.rb".to_string(), "/a/c/two.rb".to_string()]);
}

#[test]
fn existing_files_keeps_flagged_paths_in_order() {
    let filter = filter_of(&["/x/a.rb", "/x/b.rb", "/x/c.rb"]);
    let got = filter.existing_files(&vec![true, false, true]);
    assert_eq!(got, vec!["/x/a.rb".to_string(), "/x/c.rb".to_string()]);
}

#[test]
fn existing_dirs_keeps_flagged_paths_in_order() {
    let filter = filter_of(&["/x/a.rb", "/y/b.rb", "/z/c.rb"]);
    let got = filter.existing_dirs(&vec![false, true, true]);
    assert_eq!(got, vec!["/y/b.rb".to_string(), "/z/c.rb".to_string()]);
}
