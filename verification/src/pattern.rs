//! File-name patterns, compiled and matched by the regex crate.
//!
//! What a regular expression accepts takes pages to state, so compilation
//! success and the match relation are only named here: both are functions
//! of the pattern text and the searched text alone.  A compiled pattern is
//! kept beside its source text, and the fields are private, so every value
//! of `FileNamePattern` holds the compilation of its own text; the trusted
//! contract of `matches` leans on that.
use vstd::prelude::*;

verus! {

#[verifier::external_type_specification]
#[verifier::external_body]
pub struct ExRegex(regex::Regex);

/// A pattern text the regex compiler rejects.
#[derive(Clone, Copy, PartialEq, Eq, Structural, Debug)]
pub struct PatternError;

/// Does the regex compiler accept the pattern text `p`?
pub uninterp spec fn regex_valid(p: Seq<char>) -> bool;

/// Does the pattern `p` match somewhere in the text `s`?
pub uninterp spec fn regex_match_of(p: Seq<char>, s: Seq<char>) -> bool;

/// A file-name pattern together with its compiled form.
pub struct FileNamePattern {
    pattern: String,
    compiled: regex::Regex,
}

impl FileNamePattern {
    /// The pattern text this value was compiled from.
    pub closed spec fn pattern_view(&self) -> Seq<char> {
        self.pattern@
    }

    /// Relies on regex's `Regex::new`: whether a pattern text compiles is a
    /// function of the text alone.
    #[verifier::external_body]
    fn compile_inner(pattern: &String) -> (r: Result<FileNamePattern, PatternError>)
        ensures
            r is Ok <==> regex_valid(pattern@),
            r matches Ok(p) ==> p.pattern_view() == pattern@,
    {
        match regex::Regex::new(pattern.as_str()) {
            Ok(compiled) => Ok(FileNamePattern { pattern: pattern.clone(), compiled }),
            Err(_) => Err(PatternError),
        }
    }

    /// Compiles `pattern`, failing exactly on the texts the regex compiler
    /// rejects.
    pub fn compile(pattern: &String) -> (r: Result<FileNamePattern, PatternError>)
        ensures
            r is Ok <==> regex_valid(pattern@),
            r matches Ok(p) ==> p.pattern_view() == pattern@,
    {
        Self::compile_inner(pattern)
    }

    /// Relies on regex's `Regex::is_match`: whether a pattern matches is a
    /// function of the pattern text and the searched text alone.  The
    /// compiled field is the compilation of the pattern field: values of
    /// this type only arise from `compile`.
    #[verifier::external_body]
    fn matches_inner(&self, name: &String) -> (r: bool)
        ensures
            r == regex_match_of(self.pattern_view(), name@),
    {
        self.compiled.is_match(name.as_str())
    }

    /// Does this pattern match somewhere in `name`?
    pub fn matches(&self, name: &String) -> (r: bool)
        ensures
            r == regex_match_of(self.pattern_view(), name@),
    {
        self.matches_inner(name)
    }
}

/// The subsequence of `names` that the pattern `p` matches, in order.
pub open spec fn filter_spec(names: Seq<Seq<char>>, p: Seq<char>) -> Seq<Seq<char>>
    decreases names.len(),
{
    if names.len() == 0 {
        Seq::empty()
    } else {
        let rest = filter_spec(names.drop_first(), p);
        if regex_match_of(p, names[0]) {
            seq![names[0]] + rest
        } else {
            rest
        }
    }
}

/// Keeps the names that the pattern matches, in their given order.
pub fn filter_names(names: Vec<String>, pattern: &FileNamePattern) -> (kept: Vec<String>)
    ensures
        crate::file_selector::name_views(kept@) == filter_spec(
            crate::file_selector::name_views(names@),
            pattern.pattern_view(),
        ),
{
    let ghost all: Seq<Seq<char>> = crate::file_selector::name_views(names@);
    let ghost p: Seq<char> = pattern.pattern_view();
    let mut kept: Vec<String> = Vec::new();
    let n: usize = names.len();
    let mut i: usize = 0;
    proof {
        assert(all.skip(0) =~= all);
        assert(crate::file_selector::name_views(kept@) =~= Seq::<Seq<char>>::empty());
        assert(Seq::<Seq<char>>::empty() + filter_spec(all, p) =~= filter_spec(all, p));
    }
    while i < n
        invariant
            n == names@.len(),
            i <= n,
            all == crate::file_selector::name_views(names@),
            p == pattern.pattern_view(),
            filter_spec(all, p) == crate::file_selector::name_views(kept@) + filter_spec(
                all.skip(i as int),
                p,
            ),
        decreases n - i,
    {
        let name = &names[i];
        proof {
            assert(all.skip(i as int)[0] == all[i as int]);
            assert(all.skip(i as int).drop_first() =~= all.skip(i + 1));
        }
        if pattern.matches(name) {
            let ghost prev = kept@;
            kept.push(name.clone());
            proof {
                assert(crate::file_selector::name_views(kept@) =~= crate::file_selector::name_views(
                    prev,
                ) + seq![all[i as int]]);
                assert(crate::file_selector::name_views(prev) + (seq![all[i as int]] + filter_spec(
                    all.skip(i + 1),
                    p,
                )) =~= crate::file_selector::name_views(kept@) + filter_spec(all.skip(i + 1), p));
            }
        }
        i = i + 1;
    }
    proof {
        assert(all.skip(n as int) =~= Seq::<Seq<char>>::empty());
        assert(crate::file_selector::name_views(kept@) + Seq::<Seq<char>>::empty()
            =~= crate::file_selector::name_views(kept@));
    }
    kept
}

} // verus!
