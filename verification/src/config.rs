//! The convention registry: one record of naming and location rules per
//! recognized file extension, the lookup that resolves an extension to its
//! record, and the pure name transforms built on a resolved record.

use vstd::prelude::*;

use crate::Error;
use crate::paths::{
    extension_of, has_extension, name_of, stem_of, strip_one_of, ends_with,
    split_dir_name, split_stem_extension, strip_path_prefix, strip_suffix_str,
};

verus! {

/// The naming and location rules of one language, keyed by file extension.
#[derive(Clone, Debug)]
pub struct LanguageConfig {
    /// Project-relative directories under which implementation files live,
    /// in ranking order. Empty means a single implicit root: the project
    /// root itself.
    pub primary_source_dirs: Vec<String>,
    /// Pattern that decides whether a file name is a test file.
    pub test_file_matcher: String,
    /// Appended to a source stem to form the test stem, and stripped to
    /// reverse the transform.
    pub test_file_suffix: String,
    /// Project-relative directory under which test files live.
    pub test_folder: String,
    /// When set, the matched source root is not mirrored under the test
    /// folder.
    pub omit_source_dir_from_test_dir: bool,
    /// Extension under which test files are found, when it differs from the
    /// source extension.
    pub test_file_extension: Option<String>,
    /// The counterpart, used when reversing a test name to a source name.
    pub source_file_extension: Option<String>,
}

/// The full convention set: an ordered list of extension-keyed records.
#[derive(Clone, Debug)]
pub struct Config {
    pub language_configs: Vec<(String, LanguageConfig)>,
}

/// Index of the first entry keyed exactly by `ext`, or `-1`.
pub open spec fn first_key_index(s: Seq<(String, LanguageConfig)>, ext: Seq<char>) -> int
    decreases s.len(),
{
    if s.len() == 0 {
        -1
    } else if s[0].0@ == ext {
        0
    } else if first_key_index(s.drop_first(), ext) < 0 {
        -1
    } else {
        1 + first_key_index(s.drop_first(), ext)
    }
}

/// Whether an optional extension field names `ext`.
pub open spec fn opt_extension_matches(o: Option<String>, ext: Seq<char>) -> bool {
    match o {
        Some(t) => t@ == ext,
        None => false,
    }
}

/// Index of the first entry whose `test_file_extension` names `ext`, or `-1`.
pub open spec fn first_test_ext_index(s: Seq<(String, LanguageConfig)>, ext: Seq<char>) -> int
    decreases s.len(),
{
    if s.len() == 0 {
        -1
    } else if opt_extension_matches(s[0].1.test_file_extension, ext) {
        0
    } else if first_test_ext_index(s.drop_first(), ext) < 0 {
        -1
    } else {
        1 + first_test_ext_index(s.drop_first(), ext)
    }
}

pub proof fn lemma_first_key_index_at(s: Seq<(String, LanguageConfig)>, ext: Seq<char>, i: int)
    requires
        0 <= i < s.len(),
        s[i].0@ == ext,
        forall|j: int| 0 <= j < i ==> s[j].0@ != ext,
    ensures
        first_key_index(s, ext) == i,
    decreases s.len(),
{
    if i > 0 {
        lemma_first_key_index_at(s.drop_first(), ext, i - 1);
    }
}

pub proof fn lemma_first_key_index_absent(s: Seq<(String, LanguageConfig)>, ext: Seq<char>)
    requires
        forall|j: int| 0 <= j < s.len() ==> s[j].0@ != ext,
    ensures
        first_key_index(s, ext) == -1,
    decreases s.len(),
{
    if s.len() > 0 {
        lemma_first_key_index_absent(s.drop_first(), ext);
    }
}

pub proof fn lemma_first_test_ext_index_at(
    s: Seq<(String, LanguageConfig)>,
    ext: Seq<char>,
    i: int,
)
    requires
        0 <= i < s.len(),
        opt_extension_matches(s[i].1.test_file_extension, ext),
        forall|j: int| 0 <= j < i ==> !opt_extension_matches(s[j].1.test_file_extension, ext),
    ensures
        first_test_ext_index(s, ext) == i,
    decreases s.len(),
{
    if i > 0 {
        lemma_first_test_ext_index_at(s.drop_first(), ext, i - 1);
    }
}

pub proof fn lemma_first_test_ext_index_absent(s: Seq<(String, LanguageConfig)>, ext: Seq<char>)
    requires
        forall|j: int| 0 <= j < s.len() ==> !opt_extension_matches(
            s[j].1.test_file_extension,
            ext,
        ),
    ensures
        first_test_ext_index(s, ext) == -1,
    decreases s.len(),
{
    if s.len() > 0 {
        lemma_first_test_ext_index_absent(s.drop_first(), ext);
    }
}

/// The convention resolved for `ext`: first an exact key match, else the
/// first entry whose `test_file_extension` is `ext`, else nothing.
pub open spec fn resolve_spec(c: Config, ext: Seq<char>) -> Option<LanguageConfig> {
    let s = c.language_configs@;
    if first_key_index(s, ext) >= 0 {
        Some(s[first_key_index(s, ext)].1)
    } else if first_test_ext_index(s, ext) >= 0 {
        Some(s[first_test_ext_index(s, ext)].1)
    } else {
        None
    }
}

/// The convention governing `file`: resolved from its extension, `None` when
/// the file has no extension or the extension is registered nowhere.
pub open spec fn file_convention(c: Config, file: Seq<char>) -> Option<LanguageConfig> {
    if has_extension(name_of(file)) {
        resolve_spec(c, extension_of(name_of(file)))
    } else {
        None
    }
}

/// The declared source roots, or the single implicit empty root when none is
/// declared.
pub open spec fn defaulted_roots(lc: LanguageConfig) -> Seq<Seq<char>> {
    if lc.primary_source_dirs@.len() == 0 {
        seq![Seq::<char>::empty()]
    } else {
        lc.primary_source_dirs.deep_view()
    }
}

/// `p` after each of `dirs` was removed in turn as a leading component run,
/// where a non-matching entry changes nothing.
pub open spec fn strip_all_of(dirs: Seq<Seq<char>>, p: Seq<char>) -> Seq<char>
    decreases dirs.len(),
{
    if dirs.len() == 0 {
        p
    } else {
        strip_all_of(dirs.drop_first(), strip_one_of(p, dirs[0]))
    }
}

/// The extension a test file of this convention carries.
pub open spec fn test_extension_of(lc: LanguageConfig, name: Seq<char>) -> Seq<char> {
    match lc.test_file_extension {
        Some(e) => e@,
        None => extension_of(name),
    }
}

/// The extension a source file of this convention carries.
pub open spec fn source_extension_of(lc: LanguageConfig, name: Seq<char>) -> Seq<char> {
    match lc.source_file_extension {
        Some(e) => e@,
        None => extension_of(name),
    }
}

/// The test file name formed from a source file name: stem, suffix, dot,
/// test extension.
pub open spec fn test_name_of(lc: LanguageConfig, name: Seq<char>) -> Seq<char> {
    stem_of(name) + lc.test_file_suffix@ + seq!['.'] + test_extension_of(lc, name)
}

/// The source file name recovered from a test file name: stem without the
/// suffix, dot, source extension. Meaningful only when the stem ends with
/// the suffix.
pub open spec fn target_name_of(lc: LanguageConfig, name: Seq<char>) -> Seq<char>
    recommends
        ends_with(stem_of(name), lc.test_file_suffix@),
{
    stem_of(name).subrange(0, stem_of(name).len() - lc.test_file_suffix@.len())
        + seq!['.'] + source_extension_of(lc, name)
}

/// Whether `regex::Regex::new` accepts `pattern`: success is a function of
/// the pattern alone.
pub uninterp spec fn regex_ok(pattern: Seq<char>) -> bool;

/// Whether the regular expression `pattern` matches anywhere in `text`: the
/// outcome is a function of the two alone.
pub uninterp spec fn regex_match_of(pattern: Seq<char>, text: Seq<char>) -> bool;

/// Whether `pattern` is a well-formed pattern that matches somewhere in
/// `text`; a pattern that does not compile accepts nothing.
pub open spec fn matcher_accepts(pattern: Seq<char>, text: Seq<char>) -> bool {
    regex_ok(pattern) && regex_match_of(pattern, text)
}

/// Relies on `regex::Regex::new`, which fails exactly on patterns it cannot
/// compile, and `regex::Regex::is_match`, which reports whether the compiled
/// pattern matches anywhere in the haystack; both outcomes depend on their
/// string arguments alone.
#[verifier::external_body]
fn regex_is_match(pattern: &str, text: &str) -> (r: Option<bool>)
    ensures
        r is Some <==> regex_ok(pattern@),
        r is Some ==> r->0 == regex_match_of(pattern@, text@),
{
    match regex::Regex::new(pattern) {
        Ok(re) => Some(re.is_match(text)),
        Err(_) => None,
    }
}

/// The built-in convention for `rb` files: sources under `app` and `lib`,
/// tests under `spec` with the `_spec` suffix and the same extension.
pub open spec fn is_default_ruby(lc: LanguageConfig) -> bool {
    &&& lc.primary_source_dirs.deep_view() == seq!["app"@, "lib"@]
    &&& lc.test_file_matcher@ == "_spec.rb"@
    &&& lc.test_file_suffix@ == "_spec"@
    &&& lc.test_folder@ == "spec"@
    &&& lc.omit_source_dir_from_test_dir == false
    &&& lc.test_file_extension is None
    &&& lc.source_file_extension is None
}

/// The built-in convention for `ex` files: sources under `lib`, tests under
/// `test` with the `_test` suffix, found under the `exs` extension, and the
/// source root not mirrored under the test folder.
pub open spec fn is_default_elixir(lc: LanguageConfig) -> bool {
    &&& lc.primary_source_dirs.deep_view() == seq!["lib"@]
    &&& lc.test_file_matcher@ == "_test.exs"@
    &&& lc.test_file_suffix@ == "_test"@
    &&& lc.test_folder@ == "test"@
    &&& lc.omit_source_dir_from_test_dir == true
    &&& opt_extension_matches(lc.test_file_extension, "exs"@)
    &&& opt_extension_matches(lc.source_file_extension, "ex"@)
}

impl Default for Config {
    /// The built-in convention set: the `rb` and `ex` conventions.
    fn default() -> (r: Config)
        ensures
            r.language_configs@.len() == 2,
            r.language_configs@[0].0@ == "rb"@,
            is_default_ruby(r.language_configs@[0].1),
            r.language_configs@[1].0@ == "ex"@,
            is_default_elixir(r.language_configs@[1].1),
    {
        let mut ruby_dirs: Vec<String> = Vec::new();
        ruby_dirs.push("app".to_owned());
        ruby_dirs.push("lib".to_owned());
        let ruby = LanguageConfig {
            primary_source_dirs: ruby_dirs,
            test_file_matcher: "_spec.rb".to_owned(),
            test_file_suffix: "_spec".to_owned(),
            test_folder: "spec".to_owned(),
            omit_source_dir_from_test_dir: false,
            test_file_extension: None,
            source_file_extension: None,
        };
        let mut elixir_dirs: Vec<String> = Vec::new();
        elixir_dirs.push("lib".to_owned());
        let elixir = LanguageConfig {
            primary_source_dirs: elixir_dirs,
            test_file_matcher: "_test.exs".to_owned(),
            test_file_suffix: "_test".to_owned(),
            test_folder: "test".to_owned(),
            omit_source_dir_from_test_dir: true,
            test_file_extension: Some("exs".to_owned()),
            source_file_extension: Some("ex".to_owned()),
        };
        proof {
            assert(ruby.primary_source_dirs.deep_view() =~= seq!["app"@, "lib"@]);
            assert(elixir.primary_source_dirs.deep_view() =~= seq!["lib"@]);
        }
        let mut entries: Vec<(String, LanguageConfig)> = Vec::new();
        entries.push(("rb".to_owned(), ruby));
        entries.push(("ex".to_owned(), elixir));
        Config { language_configs: entries }
    }
}

impl Config {
    /// Resolve the convention registered for `extension`, by exact key or by
    /// a convention's declared test-file extension.
    pub fn find_language_config(&self, extension: &str) -> (r: Option<&LanguageConfig>)
        ensures
            r is Some <==> resolve_spec(*self, extension@) is Some,
            r is Some ==> *r->0 == resolve_spec(*self, extension@)->0,
    {
        let n = self.language_configs.len();
        let mut i: usize = 0;
        while i < n
            invariant
                i <= n,
                n == self.language_configs@.len(),
                forall|j: int| 0 <= j < i ==> self.language_configs@[j].0@ != extension@,
            decreases n - i,
        {
            if crate::paths::str_eq(self.language_configs[i].0.as_str(), extension) {
                proof {
                    lemma_first_key_index_at(self.language_configs@, extension@, i as int);
                }
                return Some(&self.language_configs[i].1);
            }
            i = i + 1;
        }
        proof {
            lemma_first_key_index_absent(self.language_configs@, extension@);
        }
        let mut k: usize = 0;
        while k < n
            invariant
                k <= n,
                n == self.language_configs@.len(),
                first_key_index(self.language_configs@, extension@) == -1,
                forall|j: int| 0 <= j < k ==> !opt_extension_matches(
                    self.language_configs@[j].1.test_file_extension,
                    extension@,
                ),
            decreases n - k,
        {
            let found = match &self.language_configs[k].1.test_file_extension {
                Some(t) => crate::paths::str_eq(t.as_str(), extension),
                None => false,
            };
            if found {
                proof {
                    lemma_first_test_ext_index_at(self.language_configs@, extension@, k as int);
                }
                return Some(&self.language_configs[k].1);
            }
            k = k + 1;
        }
        proof {
            lemma_first_test_ext_index_absent(self.language_configs@, extension@);
        }
        None
    }

    /// The declared source roots of the convention for `extension`, or the
    /// single implicit empty root when none is declared.
    pub fn primary_source_dirs(&self, extension: &String) -> (r: Vec<String>)
        requires
            resolve_spec(*self, extension@) is Some,
        ensures
            r.deep_view() == defaulted_roots(resolve_spec(*self, extension@)->0),
    {
        let lc = self.find_language_config(extension.as_str()).unwrap();
        if lc.primary_source_dirs.len() == 0 {
            let r: Vec<String> = vec![String::new()];
            proof {
                assert(r.deep_view() =~= defaulted_roots(resolve_spec(*self, extension@)->0));
            }
            r
        } else {
            let n = lc.primary_source_dirs.len();
            let mut out: Vec<String> = Vec::new();
            let mut i: usize = 0;
            while i < n
                invariant
                    i <= n,
                    n == lc.primary_source_dirs@.len(),
                    out@.len() == i as int,
                    forall|j: int| 0 <= j < i ==> out@[j]@ == lc.primary_source_dirs@[j]@,
                decreases n - i,
            {
                out.push(lc.primary_source_dirs[i].clone());
                i = i + 1;
            }
            proof {
                assert forall|j: int| 0 <= j < n implies out.deep_view()[j]
                    == lc.primary_source_dirs.deep_view()[j] by {}
                assert(out.deep_view() =~= defaulted_roots(
                    resolve_spec(*self, extension@)->0,
                ));
            }
            out
        }
    }

    /// `path` after each declared source root of the convention for
    /// `extension` was removed in turn as a leading component run; a root
    /// that does not match leaves the path unchanged.
    pub fn strip_primary_source_dirs_from_path(
        &self,
        path: &String,
        extension: &String,
    ) -> (r: String)
        requires
            resolve_spec(*self, extension@) is Some,
        ensures
            r@ == strip_all_of(
                resolve_spec(*self, extension@)->0.primary_source_dirs.deep_view(),
                path@,
            ),
    {
        let lc = self.find_language_config(extension.as_str()).unwrap();
        let ghost dirs_v = lc.primary_source_dirs.deep_view();
        let n = lc.primary_source_dirs.len();
        let mut cur: String = path.clone();
        let mut i: usize = 0;
        proof {
            assert(dirs_v.skip(0) =~= dirs_v);
        }
        while i < n
            invariant
                i <= n,
                n == dirs_v.len(),
                dirs_v == lc.primary_source_dirs.deep_view(),
                strip_all_of(dirs_v.skip(i as int), cur@) == strip_all_of(dirs_v, path@),
            decreases n - i,
        {
            proof {
                assert(dirs_v.skip(i as int).drop_first() =~= dirs_v.skip(i as int + 1));
            }
            cur = match strip_path_prefix(cur.as_str(), lc.primary_source_dirs[i].as_str()) {
                Some(rest) => rest,
                None => cur,
            };
            i = i + 1;
        }
        proof {
            assert(dirs_v.skip(n as int) =~= Seq::<Seq<char>>::empty());
        }
        cur
    }

    /// The source file name of the test file `file`: the suffix leaves the
    /// stem and the source extension replaces the test extension.
    pub fn test_to_target_name(&self, file: &String) -> (r: Result<String, Error>)
        ensures
            r is Ok <==> (file_convention(*self, file@) is Some && ends_with(
                stem_of(name_of(file@)),
                file_convention(*self, file@)->0.test_file_suffix@,
            )),
            r is Ok ==> r->Ok_0@ == target_name_of(
                file_convention(*self, file@)->0,
                name_of(file@),
            ),
            !has_extension(name_of(file@)) ==> r == Err::<String, Error>(Error::InvalidPath),
            has_extension(name_of(file@)) && file_convention(*self, file@) is None ==> r
                == Err::<String, Error>(Error::UnknownLanguage),
            file_convention(*self, file@) is Some && !ends_with(
                stem_of(name_of(file@)),
                file_convention(*self, file@)->0.test_file_suffix@,
            ) ==> r == Err::<String, Error>(Error::NotATestName),
    {
        let (_dir, name) = split_dir_name(file.as_str());
        let (stem, ext_opt) = split_stem_extension(name.as_str());
        let ext = match ext_opt {
            Some(e) => e,
            None => {
                return Err(Error::InvalidPath);
            },
        };
        let lc = match self.find_language_config(ext.as_str()) {
            Some(lc) => lc,
            None => {
                return Err(Error::UnknownLanguage);
            },
        };
        let stripped = match strip_suffix_str(stem.as_str(), lc.test_file_suffix.as_str()) {
            Some(s) => s,
            None => {
                return Err(Error::NotATestName);
            },
        };
        let src_ext: &String = match &lc.source_file_extension {
            Some(e) => e,
            None => &ext,
        };
        let mut out = stripped;
        out.append(".");
        out.append(src_ext.as_str());
        proof {
            reveal_strlit(".");
            assert(out@ =~= target_name_of(file_convention(*self, file@)->0, name_of(file@)));
        }
        Ok(out)
    }

    /// The test file name of the source file `file`: the suffix joins the
    /// stem and the test extension replaces the source extension.
    pub fn target_to_test_name(&self, file: &String) -> (r: Result<String, Error>)
        ensures
            r is Ok <==> file_convention(*self, file@) is Some,
            r is Ok ==> r->Ok_0@ == test_name_of(
                file_convention(*self, file@)->0,
                name_of(file@),
            ),
            !has_extension(name_of(file@)) ==> r == Err::<String, Error>(Error::InvalidPath),
            has_extension(name_of(file@)) && file_convention(*self, file@) is None ==> r
                == Err::<String, Error>(Error::UnknownLanguage),
    {
        let (_dir, name) = split_dir_name(file.as_str());
        let (stem, ext_opt) = split_stem_extension(name.as_str());
        let ext = match ext_opt {
            Some(e) => e,
            None => {
                return Err(Error::InvalidPath);
            },
        };
        let lc = match self.find_language_config(ext.as_str()) {
            Some(lc) => lc,
            None => {
                return Err(Error::UnknownLanguage);
            },
        };
        let test_ext: &String = match &lc.test_file_extension {
            Some(e) => e,
            None => &ext,
        };
        let mut out = stem;
        out.append(lc.test_file_suffix.as_str());
        out.append(".");
        out.append(test_ext.as_str());
        proof {
            reveal_strlit(".");
            assert(out@ =~= test_name_of(file_convention(*self, file@)->0, name_of(file@)));
        }
        Ok(out)
    }

    /// Whether `file`'s name is a test file name under its convention: the
    /// configured matcher pattern accepts the base name.
    pub fn is_test(&self, file: &String) -> (r: Result<bool, Error>)
        ensures
            r is Ok <==> file_convention(*self, file@) is Some,
            r is Ok ==> r->Ok_0 == matcher_accepts(
                file_convention(*self, file@)->0.test_file_matcher@,
                name_of(file@),
            ),
            !has_extension(name_of(file@)) ==> r == Err::<bool, Error>(Error::InvalidPath),
            has_extension(name_of(file@)) && file_convention(*self, file@) is None ==> r
                == Err::<bool, Error>(Error::UnknownLanguage),
    {
        let (_dir, name) = split_dir_name(file.as_str());
        let (_stem, ext_opt) = split_stem_extension(name.as_str());
        let ext = match ext_opt {
            Some(e) => e,
            None => {
                return Err(Error::InvalidPath);
            },
        };
        let lc = match self.find_language_config(ext.as_str()) {
            Some(lc) => lc,
            None => {
                return Err(Error::UnknownLanguage);
            },
        };
        match regex_is_match(lc.test_file_matcher.as_str(), name.as_str()) {
            Some(m) => Ok(m),
            None => Ok(false),
        }
    }
}

/// Law: turning a source file name into its test name and that back into a
/// source name recovers the original, whenever the convention's test and
/// source extensions are both unset or are both set with the source
/// extension naming the file's own; the test name's stem is then also
/// guaranteed to end with the suffix, so the reverse transform is owed
/// success on it.
pub proof fn lemma_name_round_trip(lc: LanguageConfig, name: Seq<char>)
    requires
        has_extension(name),
        (lc.test_file_extension is None && lc.source_file_extension is None) || (
        lc.test_file_extension is Some && lc.source_file_extension is Some
            && lc.source_file_extension->0@ == extension_of(name) && forall|j: int|
            0 <= j < lc.test_file_extension->0@.len() ==> lc.test_file_extension->0@[j] != '.'),
    ensures
        has_extension(test_name_of(lc, name)),
        ends_with(stem_of(test_name_of(lc, name)), lc.test_file_suffix@),
        target_name_of(lc, test_name_of(lc, name)) == name,
{
    let s = stem_of(name);
    let e = extension_of(name);
    let suf = lc.test_file_suffix@;
    let te = test_extension_of(lc, name);
    let t = test_name_of(lc, name);
    if lc.test_file_extension is None {
        crate::paths::lemma_extension_no_dot(name);
    }
    assert(forall|j: int| 0 <= j < te.len() ==> te[j] != '.');
    crate::paths::lemma_last_index_of(name, '.');
    assert(t =~= (s + suf) + seq!['.'] + te);
    crate::paths::lemma_last_index_of_marker(s + suf, te, '.');
    assert(crate::paths::last_index_of(t, '.') == s.len() + suf.len());
    assert(s.len() > 0);
    assert(has_extension(t));
    assert(stem_of(t) =~= s + suf);
    assert(extension_of(t) =~= te);
    assert(stem_of(t).subrange(
        stem_of(t).len() - suf.len(),
        stem_of(t).len() as int,
    ) =~= suf);
    assert(ends_with(stem_of(t), suf));
    assert(stem_of(t).subrange(0, stem_of(t).len() - suf.len()) =~= s);
    crate::paths::lemma_stem_extension_recompose(name);
    assert(source_extension_of(lc, t) == e);
    assert(target_name_of(lc, t) =~= name);
}

} // verus!
