//! Tiered selection among candidate paths: keep the candidates that exist as
//! files, else those whose parent directory exists, else all of them. The
//! existence information is handed in by the caller; this module never
//! touches a filesystem.

use vstd::prelude::*;

use crate::order::{
    dedup_first, filter_by_flags, is_subsequence, lemma_dedup_first_subsequence,
    lemma_filter_by_flags_subsequence, lemma_subsequence_refl, lemma_subsequence_trans,
};

verus! {

/// Candidate paths awaiting selection, in ranking order.
pub struct Filter {
    pub paths: Vec<String>,
}

/// The three-tier selection: the candidates flagged as existing files when
/// any is, else those flagged as having an existing parent directory when
/// any is, else the whole list unchanged.
pub open spec fn select_spec(paths: Seq<Seq<char>>, file_flags: Seq<bool>, parent_flags: Seq<bool>) -> Seq<
    Seq<char>,
> {
    if filter_by_flags(paths, file_flags).len() > 0 {
        filter_by_flags(paths, file_flags)
    } else if filter_by_flags(paths, parent_flags).len() > 0 {
        filter_by_flags(paths, parent_flags)
    } else {
        paths
    }
}

/// Law: whatever tier wins, selection returns a subsequence of its input:
/// tiers subset, they never resort.
pub proof fn lemma_select_subsequence(
    paths: Seq<Seq<char>>,
    file_flags: Seq<bool>,
    parent_flags: Seq<bool>,
)
    requires
        file_flags.len() == paths.len(),
        parent_flags.len() == paths.len(),
    ensures
        is_subsequence(select_spec(paths, file_flags, parent_flags), paths),
{
    lemma_filter_by_flags_subsequence(paths, file_flags);
    lemma_filter_by_flags_subsequence(paths, parent_flags);
    lemma_subsequence_refl(paths);
}

/// Law: selecting among deduplicated candidates yields a subsequence of the
/// candidates as they were generated, in root-declaration order: neither
/// deduplication nor any tier reorders them.
pub proof fn lemma_selection_preserves_candidate_order(
    candidates: Seq<Seq<char>>,
    file_flags: Seq<bool>,
    parent_flags: Seq<bool>,
)
    requires
        file_flags.len() == dedup_first(candidates).len(),
        parent_flags.len() == dedup_first(candidates).len(),
    ensures
        is_subsequence(
            select_spec(dedup_first(candidates), file_flags, parent_flags),
            candidates,
        ),
{
    lemma_select_subsequence(dedup_first(candidates), file_flags, parent_flags);
    lemma_dedup_first_subsequence(candidates);
    lemma_subsequence_trans(
        select_spec(dedup_first(candidates), file_flags, parent_flags),
        dedup_first(candidates),
        candidates,
    );
}

/// The paths whose flag is set, in order.
#[verifier::loop_isolation(false)]
fn filtered(paths: &Vec<String>, flags: &Vec<bool>) -> (r: Vec<String>)
    requires
        flags@.len() == paths@.len(),
    ensures
        r.deep_view() == filter_by_flags(paths.deep_view(), flags@),
{
    let ghost pdv = paths.deep_view();
    let n = paths.len();
    let mut out: Vec<String> = Vec::new();
    let mut i: usize = 0;
    proof {
        assert(pdv.take(0) =~= Seq::<Seq<char>>::empty());
        assert(flags@.take(0) =~= Seq::<bool>::empty());
    }
    while i < n
        invariant
            i <= n,
            out.deep_view() == filter_by_flags(pdv.take(i as int), flags@.take(i as int)),
        decreases n - i,
    {
        let ghost pre = out.deep_view();
        proof {
            assert(pdv.take(i as int + 1).drop_last() =~= pdv.take(i as int));
            assert(flags@.take(i as int + 1).drop_last() =~= flags@.take(i as int));
        }
        if flags[i] {
            out.push(paths[i].clone());
            proof {
                assert forall|k: int| 0 <= k < pre.len() implies out.deep_view()[k] == pre[k] by {}
                assert(out.deep_view() =~= pre.push(pdv[i as int]));
            }
        }
        i = i + 1;
    }
    proof {
        assert(pdv.take(n as int) =~= pdv);
        assert(flags@.take(n as int) =~= flags@);
    }
    out
}

/// A copy of the paths whose elements equal the originals.
fn copied_paths(v: &Vec<String>) -> (r: Vec<String>)
    ensures
        r@ == v@,
{
    let n = v.len();
    let mut out: Vec<String> = Vec::new();
    let mut i: usize = 0;
    while i < n
        invariant
            i <= n,
            n == v@.len(),
            out@.len() == i as int,
            forall|j: int| 0 <= j < i ==> out@[j] == v@[j],
        decreases n - i,
    {
        out.push(v[i].clone());
        i = i + 1;
    }
    proof {
        assert(out@ =~= v@);
    }
    out
}

impl Filter {
    /// The candidates flagged as existing files, in order.
    pub fn existing_files(&self, file_exists: &Vec<bool>) -> (r: Vec<String>)
        requires
            file_exists@.len() == self.paths@.len(),
        ensures
            r.deep_view() == filter_by_flags(self.paths.deep_view(), file_exists@),
    {
        filtered(&self.paths, file_exists)
    }

    /// The candidates flagged as having an existing parent directory, in
    /// order.
    pub fn existing_dirs(&self, parent_exists: &Vec<bool>) -> (r: Vec<String>)
        requires
            parent_exists@.len() == self.paths@.len(),
        ensures
            r.deep_view() == filter_by_flags(self.paths.deep_view(), parent_exists@),
    {
        filtered(&self.paths, parent_exists)
    }

    /// Narrow the candidates by the three-tier policy: existing files first,
    /// else existing parent directories, else everything. A non-empty input
    /// always yields a non-empty result, and the result is a subsequence of
    /// the input: tiers subset, they never resort.
    pub fn call(&self, file_exists: &Vec<bool>, parent_exists: &Vec<bool>) -> (r: Vec<String>)
        requires
            file_exists@.len() == self.paths@.len(),
            parent_exists@.len() == self.paths@.len(),
        ensures
            r.deep_view() == select_spec(self.paths.deep_view(), file_exists@, parent_exists@),
            self.paths@.len() > 0 ==> r@.len() > 0,
            is_subsequence(r.deep_view(), self.paths.deep_view()),
    {
        let files = self.existing_files(file_exists);
        if files.len() > 0 {
            proof {
                lemma_filter_by_flags_subsequence(self.paths.deep_view(), file_exists@);
            }
            return files;
        }
        let dirs = self.existing_dirs(parent_exists);
        if dirs.len() > 0 {
            proof {
                lemma_filter_by_flags_subsequence(self.paths.deep_view(), parent_exists@);
            }
            return dirs;
        }
        let all = copied_paths(&self.paths);
        proof {
            assert(all.deep_view() =~= self.paths.deep_view());
            lemma_subsequence_refl(self.paths.deep_view());
        }
        all
    }
}

} // verus!
