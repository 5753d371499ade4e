//! The direct-path shortcut: deciding whether the input is a literal path
//! rather than a pattern, and expanding a leading home-directory marker. What
//! only the surrounding program can do — finding the home and current
//! directories, canonicalizing a relative path, testing that a directory
//! exists — stays outside; these functions work on the path text alone.

use vstd::prelude::*;

use crate::scanner::{join_path, joined};
use crate::strutil::{first_char_is, str_eq};

verus! {

/// The input is taken as a literal path, not a pattern: it is the current
/// directory marker, or it contains the path separator.
pub open spec fn direct_pattern(p: Seq<char>) -> bool {
    p == "."@ || p.contains('/')
}

/// An absolute path: it starts with the path separator.
pub open spec fn absolute_path(p: Seq<char>) -> bool {
    p.len() > 0 && p[0] == '/'
}

/// The input starts with the home-directory marker.
pub open spec fn tilde_path(p: Seq<char>) -> bool {
    p.len() > 0 && p[0] == '~'
}

/// What follows the home marker and its separator.
pub open spec fn tilde_rest(p: Seq<char>) -> Seq<char> {
    if p.len() >= 2 {
        p.subrange(2, p.len() as int)
    } else {
        Seq::empty()
    }
}

/// The path after home expansion: a home-marked input becomes the home
/// directory joined with the remainder; anything else stays as it is.
pub open spec fn expanded_candidate(p: Seq<char>, home: Seq<char>) -> Seq<char> {
    if tilde_path(p) {
        joined(home, tilde_rest(p))
    } else {
        p
    }
}

/// A literal path input, after home expansion: ready to use, or still
/// relative and to be resolved against the current directory (from the
/// original text, as given).
pub enum ResolvedInput {
    Ready(String),
    NeedsCanonicalize(String),
}

/// Whether the input is treated as a literal path rather than a pattern.
pub fn is_direct_pattern(pattern: &str) -> (r: bool)
    ensures
        r == direct_pattern(pattern@),
{
    if str_eq(pattern, ".") {
        return true;
    }
    let len = pattern.unicode_len();
    let mut i: usize = 0;
    while i < len
        invariant
            len == pattern@.len(),
            i <= len,
            forall|k: int| 0 <= k < i ==> pattern@[k] != '/',
        decreases len - i,
    {
        if pattern.get_char(i) == '/' {
            return true;
        }
        i = i + 1;
    }
    false
}

/// Expands a leading home marker and classifies the outcome: an absolute
/// path is emitted as it stands; a relative one is handed back as given, for
/// the caller to resolve against the current directory and canonicalize.
pub fn expand_path(path: &str, home: &str) -> (r: ResolvedInput)
    ensures
        absolute_path(expanded_candidate(path@, home@)) ==> (r matches ResolvedInput::Ready(s)
            && s@ == expanded_candidate(path@, home@)),
        !absolute_path(expanded_candidate(path@, home@)) ==> (r matches
            ResolvedInput::NeedsCanonicalize(s) && s@ == path@),
{
    let cand: String;
    if first_char_is(path, '~') {
        let plen = path.unicode_len();
        let rest: &str = if plen >= 2 {
            path.substring_char(2, plen)
        } else {
            ""
        };
        proof {
            if plen < 2 {
                reveal_strlit("");
                assert(rest@ =~= tilde_rest(path@));
            }
        }
        cand = join_path(&String::from_str(home), &String::from_str(rest));
    } else {
        cand = String::from_str(path);
    }
    if first_char_is(cand.as_str(), '/') {
        ResolvedInput::Ready(cand)
    } else {
        ResolvedInput::NeedsCanonicalize(String::from_str(path))
    }
}

} // verus!
