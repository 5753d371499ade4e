//! Character-level string utilities shared by the other modules:
//! lexicographic order on character sequences (with the lemmas that make it a
//! total order), substring search, and small predicates on single strings.

use vstd::prelude::*;

verus! {

/// The views of a sequence of strings, as character sequences.
pub open spec fn views(v: Seq<String>) -> Seq<Seq<char>> {
    v.map_values(|s: String| s@)
}

/// Lexicographic "strictly less than" on character sequences, comparing code
/// points position by position from index `i` on; a proper prefix is smaller.
pub open spec fn lex_lt_from(a: Seq<char>, b: Seq<char>, i: int) -> bool
    decreases b.len() - i,
{
    if i >= b.len() {
        false
    } else if i >= a.len() {
        true
    } else if a[i] != b[i] {
        (a[i] as int) < (b[i] as int)
    } else {
        lex_lt_from(a, b, i + 1)
    }
}

/// Lexicographic "strictly less than" on whole character sequences.
pub open spec fn lex_lt(a: Seq<char>, b: Seq<char>) -> bool {
    lex_lt_from(a, b, 0)
}

proof fn lemma_lex_lt_from_irrefl(a: Seq<char>, i: int)
    ensures
        !lex_lt_from(a, a, i),
    decreases a.len() - i,
{
    if i < a.len() {
        lemma_lex_lt_from_irrefl(a, i + 1);
    }
}

/// The order is irreflexive.
pub proof fn lemma_lex_irrefl(a: Seq<char>)
    ensures
        !lex_lt(a, a),
{
    lemma_lex_lt_from_irrefl(a, 0);
}

proof fn lemma_lex_lt_from_trans(a: Seq<char>, b: Seq<char>, c: Seq<char>, i: int)
    requires
        lex_lt_from(a, b, i),
        lex_lt_from(b, c, i),
    ensures
        lex_lt_from(a, c, i),
    decreases c.len() - i,
{
    if i < a.len() && i < b.len() && i < c.len() && a[i] == b[i] && b[i] == c[i] {
        lemma_lex_lt_from_trans(a, b, c, i + 1);
    }
}

/// The order is transitive.
pub proof fn lemma_lex_trans(a: Seq<char>, b: Seq<char>, c: Seq<char>)
    requires
        lex_lt(a, b),
        lex_lt(b, c),
    ensures
        lex_lt(a, c),
{
    lemma_lex_lt_from_trans(a, b, c, 0);
}

proof fn lemma_lex_lt_from_connex(a: Seq<char>, b: Seq<char>, i: int)
    requires
        !lex_lt_from(a, b, i),
        !lex_lt_from(b, a, i),
        0 <= i <= a.len(),
        i <= b.len(),
    ensures
        a.len() == b.len(),
        forall|k: int| i <= k < a.len() ==> a[k] == b[k],
    decreases a.len() - i,
{
    if i == a.len() {
        assert(i >= b.len()) by {
            if i < b.len() {
                assert(lex_lt_from(a, b, i));
            }
        }
    } else if i >= b.len() {
        assert(lex_lt_from(b, a, i));
    } else {
        assert(a[i] == b[i]);
        lemma_lex_lt_from_connex(a, b, i + 1);
    }
}

/// Two sequences that are not ordered either way are equal: the order is total.
pub proof fn lemma_lex_connex(a: Seq<char>, b: Seq<char>)
    requires
        !lex_lt(a, b),
        !lex_lt(b, a),
    ensures
        a == b,
{
    lemma_lex_lt_from_connex(a, b, 0);
    assert(a =~= b);
}

/// Compares two strings in the lexicographic code-point order.
pub fn str_lex_lt(a: &str, b: &str) -> (r: bool)
    ensures
        r == lex_lt(a@, b@),
{
    let alen = a.unicode_len();
    let blen = b.unicode_len();
    let mut i: usize = 0;
    loop
        invariant
            i <= alen,
            i <= blen,
            alen == a@.len(),
            blen == b@.len(),
            lex_lt(a@, b@) == lex_lt_from(a@, b@, i as int),
        decreases blen - i,
    {
        if i >= blen {
            return false;
        }
        if i >= alen {
            return true;
        }
        let ca = a.get_char(i);
        let cb = b.get_char(i);
        if ca != cb {
            return (ca as u32) < (cb as u32);
        }
        i = i + 1;
    }
}

/// Compares two strings character by character.
pub fn str_eq(a: &str, b: &str) -> (r: bool)
    ensures
        r == (a@ == b@),
{
    let alen = a.unicode_len();
    let blen = b.unicode_len();
    if alen != blen {
        return false;
    }
    let mut i: usize = 0;
    while i < alen
        invariant
            alen == a@.len(),
            blen == b@.len(),
            alen == blen,
            i <= alen,
            forall|k: int| 0 <= k < i ==> a@[k] == b@[k],
        decreases alen - i,
    {
        if a.get_char(i) != b.get_char(i) {
            return false;
        }
        i = i + 1;
    }
    proof {
        assert(a@ =~= b@);
    }
    true
}

/// `sub` occurs in `text` starting at position `i`.
pub open spec fn contains_at(text: Seq<char>, sub: Seq<char>, i: int) -> bool {
    0 <= i && i + sub.len() <= text.len() && text.subrange(i, i + sub.len()) == sub
}

/// `sub` occurs somewhere in `text`.
pub open spec fn has_substring(text: Seq<char>, sub: Seq<char>) -> bool {
    exists|i: int| contains_at(text, sub, i)
}

fn match_at(text: &str, sub: &str, i: usize) -> (r: bool)
    requires
        i + sub@.len() <= text@.len(),
        text@.len() <= usize::MAX,
    ensures
        r == contains_at(text@, sub@, i as int),
{
    let slen = sub.unicode_len();
    let mut j: usize = 0;
    while j < slen
        invariant
            slen == sub@.len(),
            i + slen <= text@.len(),
            text@.len() <= usize::MAX,
            j <= slen,
            forall|k: int| 0 <= k < j ==> text@[i + k] == sub@[k],
        decreases slen - j,
    {
        if text.get_char(i + j) != sub.get_char(j) {
            proof {
                assert(text@.subrange(i as int, i + slen as int) != sub@) by {
                    if text@.subrange(i as int, i + slen as int) == sub@ {
                        assert(text@.subrange(i as int, i + slen as int)[j as int] == sub@[
                            j as int
                        ]);
                    }
                }
            }
            return false;
        }
        j = j + 1;
    }
    proof {
        assert(text@.subrange(i as int, i + slen as int) =~= sub@);
    }
    true
}

/// Substring search: whether `sub` occurs anywhere in `text`.
pub fn str_contains(text: &str, sub: &str) -> (r: bool)
    ensures
        r == has_substring(text@, sub@),
{
    let tlen = text.unicode_len();
    let slen = sub.unicode_len();
    if slen > tlen {
        proof {
            assert(forall|k: int| !contains_at(text@, sub@, k));
        }
        return false;
    }
    if slen == 0 {
        proof {
            assert(text@.subrange(0, 0) =~= sub@);
            assert(contains_at(text@, sub@, 0));
        }
        return true;
    }
    let mut i: usize = 0;
    while i <= tlen - slen
        invariant
            tlen == text@.len(),
            slen == sub@.len(),
            1 <= slen <= tlen,
            i <= tlen - slen + 1,
            forall|k: int| 0 <= k < i ==> !contains_at(text@, sub@, k),
        decreases tlen - i,
    {
        if match_at(text, sub, i) {
            return true;
        }
        i = i + 1;
    }
    proof {
        assert(forall|k: int| !contains_at(text@, sub@, k)) by {
            assert(forall|k: int| k > tlen - slen ==> !contains_at(text@, sub@, k));
        }
    }
    false
}

/// A path is excluded when it contains one of the exclusion substrings.
pub open spec fn excluded_spec(path: Seq<char>, excludes: Seq<Seq<char>>) -> bool {
    exists|j: int| 0 <= j < excludes.len() && has_substring(path, excludes[j])
}

/// Whether `path` contains any of `excludes` as a substring.
pub fn is_excluded(path: &str, excludes: &Vec<String>) -> (r: bool)
    ensures
        r == excluded_spec(path@, views(excludes@)),
{
    let mut j: usize = 0;
    while j < excludes.len()
        invariant
            j <= excludes.len(),
            forall|k: int| 0 <= k < j ==> !has_substring(path@, views(excludes@)[k]),
        decreases excludes.len() - j,
    {
        if str_contains(path, excludes[j].as_str()) {
            assert(has_substring(path@, views(excludes@)[j as int]));
            return true;
        }
        j = j + 1;
    }
    false
}

/// Whether the string is non-empty and starts with the character `c`.
pub fn first_char_is(s: &str, c: char) -> (r: bool)
    ensures
        r == (s@.len() > 0 && s@[0] == c),
{
    let len = s.unicode_len();
    if len == 0 {
        false
    } else {
        s.get_char(0) == c
    }
}

/// An affirmative answer: the single letter `y`, in either case.
pub open spec fn yes_answer(line: Seq<char>) -> bool {
    line.len() == 1 && (line[0] == 'y' || line[0] == 'Y')
}

/// Whether the (trimmed) input line is an affirmative answer: `y` or `Y`.
pub fn is_yes(line: &str) -> (r: bool)
    ensures
        r == yes_answer(line@),
{
    let len = line.unicode_len();
    if len != 1 {
        false
    } else {
        let c = line.get_char(0);
        c == 'y' || c == 'Y'
    }
}

} // verus!
