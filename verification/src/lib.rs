//! Convention-driven navigation between a source file and its test file.
//!
//! Given a file path, a project root and a set of per-language conventions,
//! the library classifies the file as test or source, generates the plausible
//! counterpart paths (one per declared source root, in declaration order,
//! deduplicated) and narrows them with a tiered filesystem-existence policy.
//! The filesystem itself is never touched here: existence information is
//! handed in by the caller.

use vstd::prelude::*;

pub mod config;
pub mod filter;
pub mod finder;
pub mod order;
pub mod paths;

use crate::config::{Config, file_convention};
use crate::finder::{Finder, locate_spec, result_agrees};
use crate::paths::{split_dir_name, split_stem_extension};

verus! {

/// A failure while resolving a single request.
#[derive(Clone, Copy, Debug, PartialEq, Eq, Structural)]
pub enum Error {
    /// The file's extension is covered by no registered convention.
    UnknownLanguage,
    /// The file lacks a name, stem or extension, or does not lie under the
    /// given project root.
    InvalidPath,
    /// A reverse transform was asked of a file whose name does not carry the
    /// configured test suffix.
    NotATestName,
    /// A reverse transform was asked of a file outside the configured test
    /// folder.
    NotInTestFolder,
}

/// What a whole request returns: an empty list for a file with no extension
/// or an extension no convention covers — nothing to suggest is a valid,
/// silent outcome — and otherwise what locating the counterpart decides.
pub open spec fn request_spec(c: Config, file: Seq<char>, work_dir: Seq<char>) -> Result<
    Seq<Seq<char>>,
    Error,
> {
    if file_convention(c, file) is None {
        Ok(Seq::empty())
    } else {
        locate_spec(c, file, work_dir)
    }
}

/// The candidate counterpart paths of the request's file, in source-root
/// declaration order, deduplicated: empty when no convention covers the
/// file, an error only for malformed input inside a recognized language.
pub fn find_candidates(finder: &Finder) -> (r: Result<Vec<String>, Error>)
    ensures
        result_agrees(r, request_spec(finder.config, finder.file@, finder.work_dir@)),
{
    let (_dir, name) = split_dir_name(finder.file.as_str());
    let (_stem, ext_opt) = split_stem_extension(name.as_str());
    let ext = match ext_opt {
        Some(e) => e,
        None => {
            let empty: Vec<String> = Vec::new();
            proof {
                assert(empty.deep_view() =~= Seq::<Seq<char>>::empty());
            }
            return Ok(empty);
        },
    };
    if finder.config.find_language_config(ext.as_str()).is_none() {
        let empty: Vec<String> = Vec::new();
        proof {
            assert(empty.deep_view() =~= Seq::<Seq<char>>::empty());
        }
        return Ok(empty);
    }
    finder.find_test_or_target()
}

} // verus!
