//! Candidate generation: given a file, a project root and a convention set,
//! enumerate every structurally plausible counterpart path, one per declared
//! source root, in declaration order, deduplicated.

use vstd::prelude::*;

use itertools::Itertools;

use crate::Error;
use crate::config::{
    Config, LanguageConfig, defaulted_roots, file_convention, matcher_accepts, strip_all_of,
    target_name_of, test_name_of,
};
use crate::order::{dedup_first, lemma_dedup_first_singleton};
use crate::paths::{
    dir_of, ends_with, has_extension, join_of, name_of, split_dir_name, split_stem_extension,
    stem_of, strip_one_of, strip_path_prefix, strip_prefix_of, join_path,
};

verus! {

/// A single resolution request: the file, the project root it lies under,
/// and the active convention set.
pub struct Finder {
    pub file: String,
    pub work_dir: String,
    pub config: Config,
}

/// The candidate test path mirrored under one source root: project root,
/// test folder, the root (unless the convention omits it), the relative
/// directory with all known roots stripped, and the test file name.
pub open spec fn test_candidate_of(
    lc: LanguageConfig,
    work_dir: Seq<char>,
    rel_dir: Seq<char>,
    test_name: Seq<char>,
    root: Seq<char>,
) -> Seq<char> {
    let stripped = strip_all_of(lc.primary_source_dirs.deep_view(), rel_dir);
    if lc.omit_source_dir_from_test_dir {
        join_of(join_of(join_of(work_dir, lc.test_folder@), stripped), test_name)
    } else {
        join_of(join_of(join_of(join_of(work_dir, lc.test_folder@), root), stripped), test_name)
    }
}

/// All candidate test paths of a source file, one per root, in declared
/// order, before deduplication.
pub open spec fn test_candidates_of(
    lc: LanguageConfig,
    work_dir: Seq<char>,
    rel_dir: Seq<char>,
    name: Seq<char>,
) -> Seq<Seq<char>> {
    defaulted_roots(lc).map_values(
        |root: Seq<char>| test_candidate_of(lc, work_dir, rel_dir, test_name_of(lc, name), root),
    )
}

/// The candidate source path for one root: project root, the root, the
/// in-test-folder directory with that one root stripped best-effort, and the
/// source file name.
pub open spec fn target_candidate_of(
    work_dir: Seq<char>,
    rel_in_test: Seq<char>,
    target_name: Seq<char>,
    root: Seq<char>,
) -> Seq<char> {
    join_of(join_of(join_of(work_dir, root), strip_one_of(rel_in_test, root)), target_name)
}

/// All candidate source paths of a test file, one per root, in declared
/// order, before deduplication.
pub open spec fn target_candidates_of(
    lc: LanguageConfig,
    work_dir: Seq<char>,
    rel_dir: Seq<char>,
    name: Seq<char>,
) -> Seq<Seq<char>>
    recommends
        strip_prefix_of(rel_dir, lc.test_folder@) is Some,
{
    let rel_in_test = strip_prefix_of(rel_dir, lc.test_folder@)->0;
    defaulted_roots(lc).map_values(
        |root: Seq<char>| target_candidate_of(work_dir, rel_in_test, target_name_of(lc, name), root),
    )
}

/// What finding the test of a source file returns: an error on malformed
/// input, else the ordered, deduplicated candidate list.
pub open spec fn find_test_spec(c: Config, file: Seq<char>, work_dir: Seq<char>) -> Result<
    Seq<Seq<char>>,
    Error,
> {
    if strip_prefix_of(file, work_dir) is None || !has_extension(name_of(file)) {
        Err(Error::InvalidPath)
    } else if file_convention(c, file) is None {
        Err(Error::UnknownLanguage)
    } else {
        let lc = file_convention(c, file)->0;
        let rel_dir = dir_of(strip_prefix_of(file, work_dir)->0);
        Ok(dedup_first(test_candidates_of(lc, work_dir, rel_dir, name_of(file))))
    }
}

/// What finding the source of a test file returns: an error on malformed
/// input, a name without the suffix or a file outside the test folder, else
/// the ordered, deduplicated candidate list.
pub open spec fn find_target_spec(c: Config, file: Seq<char>, work_dir: Seq<char>) -> Result<
    Seq<Seq<char>>,
    Error,
> {
    if strip_prefix_of(file, work_dir) is None || !has_extension(name_of(file)) {
        Err(Error::InvalidPath)
    } else if file_convention(c, file) is None {
        Err(Error::UnknownLanguage)
    } else if !ends_with(stem_of(name_of(file)), file_convention(c, file)->0.test_file_suffix@) {
        Err(Error::NotATestName)
    } else if strip_prefix_of(
        dir_of(strip_prefix_of(file, work_dir)->0),
        file_convention(c, file)->0.test_folder@,
    ) is None {
        Err(Error::NotInTestFolder)
    } else {
        let lc = file_convention(c, file)->0;
        let rel_dir = dir_of(strip_prefix_of(file, work_dir)->0);
        Ok(dedup_first(target_candidates_of(lc, work_dir, rel_dir, name_of(file))))
    }
}

/// What locating the counterpart of a file returns: classification by the
/// convention's matcher decides the direction; a file the matcher accepts is
/// reversed to its source, any other is carried to its test.
pub open spec fn locate_spec(c: Config, file: Seq<char>, work_dir: Seq<char>) -> Result<
    Seq<Seq<char>>,
    Error,
> {
    if !has_extension(name_of(file)) {
        Err(Error::InvalidPath)
    } else if file_convention(c, file) is None {
        Err(Error::UnknownLanguage)
    } else if matcher_accepts(file_convention(c, file)->0.test_file_matcher@, name_of(file)) {
        find_target_spec(c, file, work_dir)
    } else {
        find_test_spec(c, file, work_dir)
    }
}

/// Whether the executable result agrees with a result over sequences: the
/// same error, or a path list whose element views are the given sequences.
pub open spec fn result_agrees(r: Result<Vec<String>, Error>, s: Result<Seq<Seq<char>>, Error>) -> bool {
    match s {
        Ok(paths) => r is Ok && r->Ok_0.deep_view() == paths,
        Err(e) => r == Err::<Vec<String>, Error>(e),
    }
}

/// Relies on `itertools::Itertools::unique`: it yields the elements in their
/// input order, keeps the first occurrence of each and drops later
/// duplicates.
#[verifier::external_body]
fn unique_paths(paths: Vec<String>) -> (r: Vec<String>)
    ensures
        r.deep_view() == dedup_first(paths.deep_view()),
{
    paths.into_iter().unique().collect()
}

impl Finder {
    /// The file's directory relative to the project root; the file must lie
    /// under it.
    pub fn relative_file_path(&self) -> (r: Result<String, Error>)
        ensures
            r is Ok <==> strip_prefix_of(self.file@, self.work_dir@) is Some,
            r is Ok ==> r->Ok_0@ == dir_of(strip_prefix_of(self.file@, self.work_dir@)->0),
            r is Err ==> r == Err::<String, Error>(Error::InvalidPath),
    {
        let rel = match strip_path_prefix(self.file.as_str(), self.work_dir.as_str()) {
            Some(rel) => rel,
            None => {
                return Err(Error::InvalidPath);
            },
        };
        let (rel_dir, _name) = split_dir_name(rel.as_str());
        Ok(rel_dir)
    }

    /// The candidate test paths of the source file, one per declared root,
    /// in declaration order, deduplicated; exactly one candidate when the
    /// convention declares no roots.
    #[verifier::loop_isolation(false)]
    pub fn find_test(&self) -> (r: Result<Vec<String>, Error>)
        ensures
            result_agrees(r, find_test_spec(self.config, self.file@, self.work_dir@)),
            r is Ok && file_convention(self.config, self.file@)->0.primary_source_dirs@.len()
                == 0 ==> r->Ok_0@.len() == 1,
    {
        let rel_dir = match self.relative_file_path() {
            Ok(d) => d,
            Err(e) => {
                return Err(e);
            },
        };
        let (_dir, name) = split_dir_name(self.file.as_str());
        let (_stem, ext_opt) = split_stem_extension(name.as_str());
        let ext = match ext_opt {
            Some(e) => e,
            None => {
                return Err(Error::InvalidPath);
            },
        };
        let lc = match self.config.find_language_config(ext.as_str()) {
            Some(lc) => lc,
            None => {
                return Err(Error::UnknownLanguage);
            },
        };
        let ghost lcg: LanguageConfig = file_convention(self.config, self.file@)->0;
        let test_name = match self.config.target_to_test_name(&self.file) {
            Ok(n) => n,
            Err(e) => {
                return Err(e);
            },
        };
        let stripped = self.config.strip_primary_source_dirs_from_path(&rel_dir, &ext);
        let roots = self.config.primary_source_dirs(&ext);
        let base = join_path(self.work_dir.as_str(), lc.test_folder.as_str());
        let n = roots.len();
        let mut cands: Vec<String> = Vec::new();
        let mut i: usize = 0;
        while i < n
            invariant
                i <= n,
                cands@.len() == i as int,
                forall|j: int| 0 <= j < i ==> cands@[j]@ == test_candidate_of(
                    lcg,
                    self.work_dir@,
                    dir_of(strip_prefix_of(self.file@, self.work_dir@)->0),
                    test_name@,
                    roots.deep_view()[j],
                ),
            decreases n - i,
        {
            let mut cand = if lc.omit_source_dir_from_test_dir {
                base.clone()
            } else {
                join_path(base.as_str(), roots[i].as_str())
            };
            cand = join_path(cand.as_str(), stripped.as_str());
            cand = join_path(cand.as_str(), test_name.as_str());
            cands.push(cand);
            i = i + 1;
        }
        proof {
            assert(cands.deep_view() =~= test_candidates_of(
                lcg,
                self.work_dir@,
                dir_of(strip_prefix_of(self.file@, self.work_dir@)->0),
                name_of(self.file@),
            ));
            if lcg.primary_source_dirs@.len() == 0 {
                lemma_dedup_first_singleton(cands.deep_view());
            }
        }
        Ok(unique_paths(cands))
    }

    /// The candidate source paths of the test file, one per declared root,
    /// in declaration order, deduplicated; exactly one candidate when the
    /// convention declares no roots.
    #[verifier::loop_isolation(false)]
    pub fn find_target(&self) -> (r: Result<Vec<String>, Error>)
        ensures
            result_agrees(r, find_target_spec(self.config, self.file@, self.work_dir@)),
            r is Ok && file_convention(self.config, self.file@)->0.primary_source_dirs@.len()
                == 0 ==> r->Ok_0@.len() == 1,
    {
        let rel_dir = match self.relative_file_path() {
            Ok(d) => d,
            Err(e) => {
                return Err(e);
            },
        };
        let (_dir, name) = split_dir_name(self.file.as_str());
        let (_stem, ext_opt) = split_stem_extension(name.as_str());
        let ext = match ext_opt {
            Some(e) => e,
            None => {
                return Err(Error::InvalidPath);
            },
        };
        let lc = match self.config.find_language_config(ext.as_str()) {
            Some(lc) => lc,
            None => {
                return Err(Error::UnknownLanguage);
            },
        };
        let ghost lcg: LanguageConfig = file_convention(self.config, self.file@)->0;
        let target_name = match self.config.test_to_target_name(&self.file) {
            Ok(n) => n,
            Err(e) => {
                return Err(e);
            },
        };
        let rel_in_test = match strip_path_prefix(rel_dir.as_str(), lc.test_folder.as_str()) {
            Some(r) => r,
            None => {
                return Err(Error::NotInTestFolder);
            },
        };
        let roots = self.config.primary_source_dirs(&ext);
        let n = roots.len();
        let mut cands: Vec<String> = Vec::new();
        let mut i: usize = 0;
        while i < n
            invariant
                i <= n,
                cands@.len() == i as int,
                forall|j: int| 0 <= j < i ==> cands@[j]@ == target_candidate_of(
                    self.work_dir@,
                    rel_in_test@,
                    target_name@,
                    roots.deep_view()[j],
                ),
            decreases n - i,
        {
            let mut cand = join_path(self.work_dir.as_str(), roots[i].as_str());
            let stripped_one = match strip_path_prefix(rel_in_test.as_str(), roots[i].as_str()) {
                Some(s) => s,
                None => rel_in_test.clone(),
            };
            cand = join_path(cand.as_str(), stripped_one.as_str());
            cand = join_path(cand.as_str(), target_name.as_str());
            cands.push(cand);
            i = i + 1;
        }
        proof {
            assert(cands.deep_view() =~= target_candidates_of(
                lcg,
                self.work_dir@,
                dir_of(strip_prefix_of(self.file@, self.work_dir@)->0),
                name_of(self.file@),
            ));
            if lcg.primary_source_dirs@.len() == 0 {
                lemma_dedup_first_singleton(cands.deep_view());
            }
        }
        Ok(unique_paths(cands))
    }

    /// Locate the counterpart of the file: reverse a test file to its source
    /// candidates, carry any other file to its test candidates.
    pub fn find_test_or_target(&self) -> (r: Result<Vec<String>, Error>)
        ensures
            result_agrees(r, locate_spec(self.config, self.file@, self.work_dir@)),
    {
        match self.config.is_test(&self.file) {
            Ok(true) => self.find_target(),
            Ok(false) => self.find_test(),
            Err(e) => Err(e),
        }
    }
}

} // verus!
