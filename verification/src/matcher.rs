//! Pattern matching over the known-directories list. The pattern is a
//! regular expression, compiled and run by the `regex` crate; what that crate
//! decides is named by the uninterpreted functions `regex_valid` and
//! `regex_matches`, and everything around the two calls is verified against
//! those names.

use vstd::prelude::*;

use crate::GodirError;
use crate::strutil::views;

verus! {

/// Declares the regex crate's compiled-pattern type, so that a `Matcher` can
/// hold one; the value is opaque here.
#[verifier::external_type_specification]
#[verifier::external_body]
pub struct ExRegex(regex::Regex);

/// Whether `pattern` compiles as a regular expression (what `regex::Regex::new`
/// accepts; it depends on the pattern text alone).
pub uninterp spec fn regex_valid(pattern: Seq<char>) -> bool;

/// Whether the regular expression `pattern` matches anywhere in `text` (what
/// `regex::Regex::is_match` decides; it depends on the two texts alone).
pub uninterp spec fn regex_matches(pattern: Seq<char>, text: Seq<char>) -> bool;

/// A compiled pattern, kept together with its source text so that contracts
/// can speak of the pattern it was built from.
pub struct Matcher {
    re: regex::Regex,
    pattern: String,
}

/// The pattern under the case policy: wrapped with the regex dialect's
/// case-insensitivity marker when the policy asks for it.
pub open spec fn cased_pattern(pattern: Seq<char>, case_insensitive: bool) -> Seq<char> {
    if case_insensitive {
        "(?i)"@ + pattern
    } else {
        pattern
    }
}

/// The subsequence of `dirs` whose entries the regular expression `pattern`
/// matches, in their original order.
pub open spec fn matching_dirs(dirs: Seq<Seq<char>>, pattern: Seq<char>) -> Seq<Seq<char>> {
    dirs.filter(|d: Seq<char>| regex_matches(pattern, d))
}

impl Matcher {
    /// The source text of the compiled pattern.
    pub closed spec fn pattern_view(&self) -> Seq<char> {
        self.pattern@
    }

    /// Relies on `regex::Regex::new`: it returns `Ok` exactly for the pattern
    /// texts that are well-formed regular expressions, and the compiled value
    /// is a function of the pattern text alone.
    #[verifier::external_body]
    fn compile(pattern: &str) -> (r: Option<Matcher>)
        ensures
            r is Some <==> regex_valid(pattern@),
            r matches Some(m) ==> m.pattern_view() == pattern@,
    {
        match regex::Regex::new(pattern) {
            Ok(re) => Some(Matcher { re, pattern: pattern.to_owned() }),
            Err(_) => None,
        }
    }

    /// Compiles a pattern; a pattern the regex dialect refuses gives
    /// `InvalidPattern`.
    pub fn try_new(pattern: &str) -> (r: Result<Matcher, GodirError>)
        ensures
            r matches Ok(m) ==> regex_valid(pattern@) && m.pattern_view() == pattern@,
            r matches Err(e) ==> !regex_valid(pattern@) && e == GodirError::InvalidPattern,
    {
        match Self::compile(pattern) {
            Some(m) => Ok(m),
            None => Err(GodirError::InvalidPattern),
        }
    }

    /// Compiles a pattern under an explicit case policy, instead of a silent
    /// platform branch: on case-insensitive filesystems the caller sets the
    /// flag, and the pattern is wrapped with the regex dialect's
    /// case-insensitivity marker.
    pub fn try_new_with_case(pattern: &str, case_insensitive: bool) -> (r: Result<
        Matcher,
        GodirError,
    >)
        ensures
            r matches Ok(m) ==> regex_valid(cased_pattern(pattern@, case_insensitive))
                && m.pattern_view() == cased_pattern(pattern@, case_insensitive),
            r matches Err(e) ==> !regex_valid(cased_pattern(pattern@, case_insensitive)) && e
                == GodirError::InvalidPattern,
    {
        if case_insensitive {
            let mut cased = String::from_str("(?i)");
            cased.append(pattern);
            Self::try_new(cased.as_str())
        } else {
            Self::try_new(pattern)
        }
    }

    /// Relies on `regex::Regex::is_match`: true exactly when the regex
    /// matches somewhere in `text`, a function of the pattern and the text.
    #[verifier::external_body]
    pub(crate) fn is_match(&self, text: &str) -> (r: bool)
        ensures
            r == regex_matches(self.pattern_view(), text@),
    {
        self.re.is_match(text)
    }
}

/// Filters the directories list by an already compiled pattern: exactly the
/// entries the regular expression matches, in the stored (sorted) order.
pub fn find_matches_compiled(directories: &Vec<String>, matcher: &Matcher) -> (r: Vec<String>)
    ensures
        views(r@) == matching_dirs(views(directories@), matcher.pattern_view()),
{
    let ghost pattern = matcher.pattern_view();
    let mut out: Vec<String> = Vec::new();
    let n = directories.len();
    let mut i: usize = 0;
    while i < n
        invariant
            n == directories@.len(),
            i <= n,
            pattern == matcher.pattern_view(),
            views(out@) == matching_dirs(views(directories@.take(i as int)), pattern),
        decreases n - i,
    {
        let ghost v = views(directories@.take(i as int));
        let ghost x = directories@[i as int]@;
        if matcher.is_match(directories[i].as_str()) {
            out.push(directories[i].clone());
        }
        proof {
            reveal(Seq::filter);
            assert(views(directories@.take(i + 1)) =~= v.push(x));
            assert(v.push(x).drop_last() =~= v);
            assert(v.push(x).last() == x);
        }
        i = i + 1;
    }
    proof {
        assert(directories@.take(n as int) =~= directories@);
    }
    out
}

/// Filters the directories list by the pattern: exactly the entries the
/// regular expression matches, in the stored (sorted) order. A pattern that
/// does not compile gives `InvalidPattern` and nothing is matched.
pub fn find_matches(directories: &Vec<String>, pattern: &str) -> (r: Result<
    Vec<String>,
    GodirError,
>)
    ensures
        r matches Ok(ms) ==> regex_valid(pattern@) && views(ms@) == matching_dirs(
            views(directories@),
            pattern@,
        ),
        r matches Err(e) ==> !regex_valid(pattern@) && e == GodirError::InvalidPattern,
{
    let matcher = match Matcher::try_new(pattern) {
        Ok(m) => m,
        Err(e) => {
            return Err(e);
        },
    };
    Ok(find_matches_compiled(directories, &matcher))
}

} // verus!
