//! Paths as `/`-separated strings: the spec-level decomposition into
//! directory, file name, stem and extension, and the verified executable
//! operations the rest of the library builds on.

use vstd::prelude::*;

verus! {

/// Index of the last occurrence of `c` in `s`, or `-1` when `s` holds no `c`.
pub open spec fn last_index_of(s: Seq<char>, c: char) -> int
    decreases s.len(),
{
    if s.len() == 0 {
        -1
    } else if s[s.len() - 1] == c {
        s.len() - 1
    } else {
        last_index_of(s.drop_last(), c)
    }
}

pub proof fn lemma_last_index_of(s: Seq<char>, c: char)
    ensures
        -1 <= last_index_of(s, c) < s.len(),
        last_index_of(s, c) >= 0 ==> s[last_index_of(s, c)] == c,
        forall|i: int| last_index_of(s, c) < i < s.len() ==> s[i] != c,
    decreases s.len(),
{
    if s.len() > 0 && s[s.len() - 1] != c {
        lemma_last_index_of(s.drop_last(), c);
        assert(forall|i: int| 0 <= i < s.len() - 1 ==> s.drop_last()[i] == s[i]);
    }
}

pub proof fn lemma_last_index_of_at(s: Seq<char>, c: char, i: int)
    requires
        0 <= i < s.len(),
        s[i] == c,
        forall|j: int| i < j < s.len() ==> s[j] != c,
    ensures
        last_index_of(s, c) == i,
    decreases s.len(),
{
    if i < s.len() - 1 {
        assert(forall|j: int| 0 <= j < s.len() - 1 ==> s.drop_last()[j] == s[j]);
        lemma_last_index_of_at(s.drop_last(), c, i);
    }
}

pub proof fn lemma_last_index_of_absent(s: Seq<char>, c: char)
    requires
        forall|j: int| 0 <= j < s.len() ==> s[j] != c,
    ensures
        last_index_of(s, c) == -1,
    decreases s.len(),
{
    if s.len() > 0 {
        assert(forall|j: int| 0 <= j < s.len() - 1 ==> s.drop_last()[j] == s[j]);
        lemma_last_index_of_absent(s.drop_last(), c);
    }
}

/// The directory part of a path: what stands before the last `/`, empty when
/// there is no separator.
pub open spec fn dir_of(p: Seq<char>) -> Seq<char> {
    if last_index_of(p, '/') < 0 {
        Seq::empty()
    } else {
        p.subrange(0, last_index_of(p, '/'))
    }
}

/// The file-name part of a path: what stands after the last `/`, the whole
/// path when there is no separator.
pub open spec fn name_of(p: Seq<char>) -> Seq<char> {
    p.subrange(last_index_of(p, '/') + 1, p.len() as int)
}

/// A file name carries an extension when a `.` stands after its first
/// character, mirroring how a leading dot alone marks no extension.
pub open spec fn has_extension(n: Seq<char>) -> bool {
    last_index_of(n, '.') > 0
}

/// The stem of a file name: what stands before the last `.`, or the whole
/// name when it has no extension.
pub open spec fn stem_of(n: Seq<char>) -> Seq<char> {
    if has_extension(n) {
        n.subrange(0, last_index_of(n, '.'))
    } else {
        n
    }
}

/// The extension of a file name: what stands after the last `.`; meaningful
/// only when `has_extension` holds.
pub open spec fn extension_of(n: Seq<char>) -> Seq<char> {
    n.subrange(last_index_of(n, '.') + 1, n.len() as int)
}

/// Remove `pre` as a leading run of path components of `p`: the whole of `p`
/// when `pre` is empty, the rest after `pre` and its separator otherwise, and
/// `None` when `pre` is no component-wise prefix of `p`.
pub open spec fn strip_prefix_of(p: Seq<char>, pre: Seq<char>) -> Option<Seq<char>> {
    if pre.len() == 0 {
        Some(p)
    } else if p == pre {
        Some(Seq::<char>::empty())
    } else if p.len() > pre.len() && p.subrange(0, pre.len() as int) == pre && p[pre.len() as int]
        == '/' {
        Some(p.subrange(pre.len() as int + 1, p.len() as int))
    } else {
        None
    }
}

/// Remove `pre` when it is a component-wise prefix of `p`, and keep `p`
/// unchanged when it is not.
pub open spec fn strip_one_of(p: Seq<char>, pre: Seq<char>) -> Seq<char> {
    match strip_prefix_of(p, pre) {
        Some(rest) => rest,
        None => p,
    }
}

/// Join two path pieces with a separator; an empty piece adds nothing.
pub open spec fn join_of(a: Seq<char>, b: Seq<char>) -> Seq<char> {
    if b.len() == 0 {
        a
    } else if a.len() == 0 {
        b
    } else {
        a + seq!['/'] + b
    }
}

/// Whether `s` ends with `suffix`.
pub open spec fn ends_with(s: Seq<char>, suffix: Seq<char>) -> bool {
    s.len() >= suffix.len() && s.subrange(s.len() - suffix.len(), s.len() as int) == suffix
}

/// In `a + c + b`, the last occurrence of `c` is the marker between `a` and
/// `b` whenever `b` itself holds no `c`.
pub proof fn lemma_last_index_of_marker(a: Seq<char>, b: Seq<char>, c: char)
    requires
        forall|j: int| 0 <= j < b.len() ==> b[j] != c,
    ensures
        last_index_of(a + seq![c] + b, c) == a.len(),
{
    let w = a + seq![c] + b;
    assert(w[a.len() as int] == c);
    assert forall|j: int| a.len() < j < w.len() implies w[j] != c by {
        assert(w[j] == b[j - a.len() - 1]);
    }
    lemma_last_index_of_at(w, c, a.len() as int);
}

/// A file name with an extension is its stem, a dot and its extension.
pub proof fn lemma_stem_extension_recompose(n: Seq<char>)
    requires
        has_extension(n),
    ensures
        n == stem_of(n) + seq!['.'] + extension_of(n),
{
    lemma_last_index_of(n, '.');
    assert(n =~= stem_of(n) + seq!['.'] + extension_of(n));
}

/// The extension of a file name holds no dot: it is what stands after the
/// last one.
pub proof fn lemma_extension_no_dot(n: Seq<char>)
    requires
        has_extension(n),
    ensures
        forall|j: int| 0 <= j < extension_of(n).len() ==> extension_of(n)[j] != '.',
{
    lemma_last_index_of(n, '.');
    assert forall|j: int| 0 <= j < extension_of(n).len() implies extension_of(n)[j] != '.' by {
        assert(extension_of(n)[j] == n[last_index_of(n, '.') + 1 + j]);
    }
}

/// Position of the last occurrence of `c` in `s`, from the end towards the
/// start.
pub fn rfind_char(s: &str, c: char) -> (r: Option<usize>)
    ensures
        match r {
            Some(i) => last_index_of(s@, c) == i as int,
            None => last_index_of(s@, c) == -1,
        },
{
    let len = s.unicode_len();
    let mut i = len;
    while i > 0
        invariant
            i <= len,
            len == s@.len(),
            forall|j: int| i <= j < s@.len() ==> s@[j] != c,
        decreases i,
    {
        i = i - 1;
        if s.get_char(i) == c {
            proof {
                lemma_last_index_of_at(s@, c, i as int);
            }
            return Some(i);
        }
    }
    proof {
        lemma_last_index_of_absent(s@, c);
    }
    None
}

/// Whether two string slices hold the same characters.
pub fn str_eq(a: &str, b: &str) -> (r: bool)
    ensures
        r == (a@ == b@),
{
    let alen = a.unicode_len();
    let blen = b.unicode_len();
    if alen != blen {
        return false;
    }
    let mut i: usize = 0;
    while i < alen
        invariant
            i <= alen,
            alen == a@.len(),
            alen == b@.len(),
            forall|j: int| 0 <= j < i ==> a@[j] == b@[j],
        decreases alen - i,
    {
        if a.get_char(i) != b.get_char(i) {
            return false;
        }
        i = i + 1;
    }
    proof {
        assert(a@ =~= b@);
    }
    true
}

/// Split a path into its directory part and its file-name part.
pub fn split_dir_name(p: &str) -> (r: (String, String))
    ensures
        r.0@ == dir_of(p@),
        r.1@ == name_of(p@),
{
    proof {
        lemma_last_index_of(p@, '/');
    }
    let len = p.unicode_len();
    match rfind_char(p, '/') {
        Some(i) => (
            p.substring_char(0, i).to_owned(),
            p.substring_char(i + 1, len).to_owned(),
        ),
        None => {
            proof {
                assert(name_of(p@) =~= p@);
            }
            (String::new(), p.to_owned())
        },
    }
}

/// Split a file name into its stem and its extension, `None` when it has no
/// extension.
pub fn split_stem_extension(n: &str) -> (r: (String, Option<String>))
    ensures
        r.0@ == stem_of(n@),
        r.1 is Some <==> has_extension(n@),
        r.1 is Some ==> r.1.unwrap()@ == extension_of(n@),
{
    proof {
        lemma_last_index_of(n@, '.');
    }
    let len = n.unicode_len();
    match rfind_char(n, '.') {
        Some(i) if i > 0 => (
            n.substring_char(0, i).to_owned(),
            Some(n.substring_char(i + 1, len).to_owned()),
        ),
        _ => (n.to_owned(), None),
    }
}

/// Remove `pre` as a leading run of path components of `p`, as
/// `strip_prefix_of` describes.
pub fn strip_path_prefix(p: &str, pre: &str) -> (r: Option<String>)
    ensures
        match r {
            Some(rest) => strip_prefix_of(p@, pre@) == Some(rest@),
            None => strip_prefix_of(p@, pre@) is None,
        },
{
    let plen = p.unicode_len();
    let prelen = pre.unicode_len();
    if prelen == 0 {
        Some(p.to_owned())
    } else if str_eq(p, pre) {
        Some(String::new())
    } else if plen > prelen {
        let head = p.substring_char(0, prelen);
        if str_eq(head, pre) && p.get_char(prelen) == '/' {
            Some(p.substring_char(prelen + 1, plen).to_owned())
        } else {
            None
        }
    } else {
        None
    }
}

/// Join two path pieces with a separator, as `join_of` describes.
pub fn join_path(a: &str, b: &str) -> (r: String)
    ensures
        r@ == join_of(a@, b@),
{
    if b.unicode_len() == 0 {
        a.to_owned()
    } else if a.unicode_len() == 0 {
        b.to_owned()
    } else {
        proof {
            reveal_strlit("/");
            assert(a@ + "/"@ + b@ =~= a@ + seq!['/'] + b@);
        }
        a.to_owned().concat("/").concat(b)
    }
}

/// Remove `suffix` from the end of `s`; `None` when `s` does not end with it.
pub fn strip_suffix_str(s: &str, suffix: &str) -> (r: Option<String>)
    ensures
        r is Some <==> ends_with(s@, suffix@),
        r is Some ==> r.unwrap()@ == s@.subrange(0, s@.len() - suffix@.len()),
{
    let slen = s.unicode_len();
    let suflen = suffix.unicode_len();
    if slen < suflen {
        return None;
    }
    let tail = s.substring_char(slen - suflen, slen);
    if str_eq(tail, suffix) {
        Some(s.substring_char(0, slen - suflen).to_owned())
    } else {
        None
    }
}

} // verus!
