//! Order-preserving operations on sequences of paths: first-occurrence
//! deduplication, flag-driven filtering, and the subsequence relation that
//! states both are subsets that never resort.

use vstd::prelude::*;

verus! {

/// `s` with every element dropped that already occurred earlier: the first
/// occurrence stays, in place, and the order is kept.
pub open spec fn dedup_first(s: Seq<Seq<char>>) -> Seq<Seq<char>>
    decreases s.len(),
{
    if s.len() == 0 {
        Seq::empty()
    } else if s.drop_last().contains(s.last()) {
        dedup_first(s.drop_last())
    } else {
        dedup_first(s.drop_last()).push(s.last())
    }
}

/// The elements of `s` whose flag is set, in order.
pub open spec fn filter_by_flags(s: Seq<Seq<char>>, flags: Seq<bool>) -> Seq<Seq<char>>
    recommends
        s.len() == flags.len(),
    decreases s.len(),
{
    if s.len() == 0 || flags.len() == 0 {
        Seq::empty()
    } else {
        let rest = filter_by_flags(s.drop_last(), flags.drop_last());
        if flags.last() {
            rest.push(s.last())
        } else {
            rest
        }
    }
}

/// Whether `a` is a subsequence of `b`: all of `a`'s elements occur in `b`,
/// in `a`'s order.
pub open spec fn is_subsequence(a: Seq<Seq<char>>, b: Seq<Seq<char>>) -> bool
    decreases b.len(),
{
    if a.len() == 0 {
        true
    } else if b.len() == 0 {
        false
    } else if a.last() == b.last() {
        is_subsequence(a.drop_last(), b.drop_last())
    } else {
        is_subsequence(a, b.drop_last())
    }
}

/// A subsequence stays one when its own last element is dropped.
pub proof fn lemma_subsequence_drop(a: Seq<Seq<char>>, b: Seq<Seq<char>>)
    requires
        is_subsequence(a, b),
        a.len() > 0,
    ensures
        is_subsequence(a.drop_last(), b),
    decreases b.len(),
{
    if b.len() > 0 {
        if a.last() == b.last() {
            if a.len() > 1 {
                lemma_subsequence_drop(a.drop_last(), b.drop_last());
            }
        } else {
            lemma_subsequence_drop(a, b.drop_last());
            if a.drop_last().len() > 0 {
                lemma_subsequence_drop(a.drop_last(), b.drop_last());
            }
        }
    }
}

/// A subsequence stays one when the larger sequence grows at the end.
pub proof fn lemma_subsequence_extend(a: Seq<Seq<char>>, b: Seq<Seq<char>>, x: Seq<char>)
    requires
        is_subsequence(a, b),
    ensures
        is_subsequence(a, b.push(x)),
{
    assert(b.push(x).drop_last() =~= b);
    assert(b.push(x).last() == x);
    if a.len() > 0 && a.last() == x {
        lemma_subsequence_drop(a, b);
    }
}

/// Every sequence is a subsequence of itself.
pub proof fn lemma_subsequence_refl(s: Seq<Seq<char>>)
    ensures
        is_subsequence(s, s),
    decreases s.len(),
{
    if s.len() > 0 {
        lemma_subsequence_refl(s.drop_last());
    }
}

/// The subsequence relation is transitive.
pub proof fn lemma_subsequence_trans(a: Seq<Seq<char>>, b: Seq<Seq<char>>, c: Seq<Seq<char>>)
    requires
        is_subsequence(a, b),
        is_subsequence(b, c),
    ensures
        is_subsequence(a, c),
    decreases c.len(),
{
    if a.len() > 0 && c.len() > 0 && b.len() > 0 {
        if b.last() == c.last() {
            if a.last() == b.last() {
                lemma_subsequence_trans(a.drop_last(), b.drop_last(), c.drop_last());
            } else {
                lemma_subsequence_trans(a, b.drop_last(), c.drop_last());
                if a.last() == c.last() {
                    lemma_subsequence_drop(a, c.drop_last());
                }
            }
        } else {
            lemma_subsequence_trans(a, b, c.drop_last());
            if a.last() == c.last() {
                lemma_subsequence_drop(a, c.drop_last());
            }
        }
    }
}

/// Deduplication only drops later duplicates: what it returns is a
/// subsequence of its input, never a reordering.
pub proof fn lemma_dedup_first_subsequence(s: Seq<Seq<char>>)
    ensures
        is_subsequence(dedup_first(s), s),
    decreases s.len(),
{
    if s.len() > 0 {
        lemma_dedup_first_subsequence(s.drop_last());
        assert(s.drop_last().push(s.last()) =~= s);
        if s.drop_last().contains(s.last()) {
            lemma_subsequence_extend(dedup_first(s.drop_last()), s.drop_last(), s.last());
        } else {
            assert(dedup_first(s.drop_last()).push(s.last()).drop_last() =~= dedup_first(
                s.drop_last(),
            ));
        }
    }
}

/// Filtering by flags only drops elements: what it returns is a subsequence
/// of its input, never a reordering.
pub proof fn lemma_filter_by_flags_subsequence(s: Seq<Seq<char>>, flags: Seq<bool>)
    requires
        s.len() == flags.len(),
    ensures
        is_subsequence(filter_by_flags(s, flags), s),
    decreases s.len(),
{
    if s.len() > 0 {
        lemma_filter_by_flags_subsequence(s.drop_last(), flags.drop_last());
        if flags.last() {
            assert(filter_by_flags(s, flags).drop_last() =~= filter_by_flags(
                s.drop_last(),
                flags.drop_last(),
            ));
        } else {
            assert(s.drop_last().push(s.last()) =~= s);
            lemma_subsequence_extend(
                filter_by_flags(s.drop_last(), flags.drop_last()),
                s.drop_last(),
                s.last(),
            );
        }
    }
}

/// Deduplicating a single element changes nothing.
pub proof fn lemma_dedup_first_singleton(s: Seq<Seq<char>>)
    requires
        s.len() == 1,
    ensures
        dedup_first(s) == s,
{
    assert(s.drop_last() =~= Seq::<Seq<char>>::empty());
    assert(dedup_first(s.drop_last()) =~= Seq::<Seq<char>>::empty());
    assert(dedup_first(s) =~= s);
}

} // verus!
