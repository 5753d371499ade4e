//! The persisted configuration: the list of known directories and the
//! exclusion substrings. The directories list is kept strictly sorted and
//! free of duplicates; `update_and_save_config` restores that invariant after
//! any mutation, and the caller persists the result.

use vstd::prelude::*;

use crate::strutil::{
    lemma_lex_connex, lemma_lex_irrefl, lemma_lex_trans, lex_lt, str_eq, str_lex_lt, views,
};

verus! {

/// The persisted record: known directories and exclusion substrings.
#[derive(Clone, Debug)]
pub struct Config {
    pub directories: Vec<String>,
    pub excludes: Vec<String>,
}

/// Every pair of positions is strictly ordered: sorted, with no duplicates.
pub open spec fn strictly_sorted(s: Seq<Seq<char>>) -> bool {
    forall|i: int, j: int| 0 <= i < j < s.len() ==> lex_lt(s[i], s[j])
}

/// A strictly sorted sequence has no duplicate entries.
pub proof fn lemma_strictly_sorted_no_duplicates(s: Seq<Seq<char>>)
    requires
        strictly_sorted(s),
    ensures
        s.no_duplicates(),
{
    assert forall|i: int, j: int| 0 <= i < s.len() && 0 <= j < s.len() && i != j implies s[i] != s[
        j
    ] by {
        if i < j {
            lemma_lex_irrefl(s[i]);
        } else {
            lemma_lex_irrefl(s[j]);
        }
    }
}

/// Pushing an element onto a sequence inserts it into the element set.
pub proof fn lemma_push_to_set<A>(s: Seq<A>, x: A)
    ensures
        s.push(x).to_set() == s.to_set().insert(x),
{
    assert(s.push(x).to_set() =~= s.to_set().insert(x)) by {
        assert forall|y: A| s.push(x).to_set().contains(y) implies s.to_set().insert(x).contains(
            y,
        ) by {
            let i = choose|i: int| 0 <= i < s.push(x).len() && s.push(x)[i] == y;
            if i < s.len() {
                assert(s[i] == y);
            }
        }
        assert forall|y: A| s.to_set().insert(x).contains(y) implies s.push(x).to_set().contains(
            y,
        ) by {
            if y == x {
                assert(s.push(x)[s.len() as int] == y);
            } else {
                let i = choose|i: int| 0 <= i < s.len() && s[i] == y;
                assert(s.push(x)[i] == y);
            }
        }
    }
}

/// Two strictly sorted sequences holding the same set of entries are the same
/// sequence: a normalized directories list is determined by its set alone.
pub proof fn lemma_strictly_sorted_unique(a: Seq<Seq<char>>, b: Seq<Seq<char>>)
    requires
        strictly_sorted(a),
        strictly_sorted(b),
        a.to_set() == b.to_set(),
    ensures
        a == b,
    decreases a.len(),
{
    if a.len() == 0 {
        if b.len() > 0 {
            assert(b.to_set().contains(b[0]));
            assert(a.contains(b[0]));
        }
        assert(a =~= b);
    } else if b.len() == 0 {
        assert(a.to_set().contains(a[0]));
        assert(b.contains(a[0]));
        assert(a =~= b);
    } else {
        assert(a.to_set().contains(a[0]));
        assert(b.contains(a[0]));
        let k = choose|k: int| 0 <= k < b.len() && b[k] == a[0];
        assert(b.to_set().contains(b[0]));
        assert(a.contains(b[0]));
        let m = choose|m: int| 0 <= m < a.len() && a[m] == b[0];
        assert(a[0] == b[0]) by {
            if k > 0 && m > 0 {
                assert(lex_lt(b[0], b[k]));
                assert(lex_lt(a[0], a[m]));
                lemma_lex_trans(a[0], b[0], a[0]);
                lemma_lex_irrefl(a[0]);
            } else if k > 0 {
                assert(lex_lt(b[0], b[k]));
                lemma_lex_irrefl(b[0]);
            } else {
            }
        }
        let a1 = a.drop_first();
        let b1 = b.drop_first();
        assert(strictly_sorted(a1));
        assert(strictly_sorted(b1));
        assert(a1.to_set() =~= b1.to_set()) by {
            assert forall|y: Seq<char>| a1.to_set().contains(y) implies b1.to_set().contains(
                y,
            ) by {
                lemma_tail_contains(a, b, y);
            }
            assert forall|y: Seq<char>| b1.to_set().contains(y) implies a1.to_set().contains(
                y,
            ) by {
                lemma_tail_contains(b, a, y);
            }
        }
        lemma_strictly_sorted_unique(a1, b1);
        assert(a =~= b) by {
            assert(a.len() == b.len());
            assert(forall|i: int| 1 <= i < a.len() ==> a[i] == a1[i - 1] && b[i] == b1[i - 1]);
        }
    }
}

proof fn lemma_tail_contains(a: Seq<Seq<char>>, b: Seq<Seq<char>>, y: Seq<char>)
    requires
        strictly_sorted(a),
        strictly_sorted(b),
        a.to_set() == b.to_set(),
        a.len() > 0,
        b.len() > 0,
        a[0] == b[0],
        a.drop_first().to_set().contains(y),
    ensures
        b.drop_first().to_set().contains(y),
{
    let a1 = a.drop_first();
    let i = choose|i: int| 0 <= i < a1.len() && a1[i] == y;
    assert(a[i + 1] == y);
    assert(a.to_set().contains(y)) by {
        assert(a.contains(y));
    }
    assert(b.contains(y));
    let j = choose|j: int| 0 <= j < b.len() && b[j] == y;
    assert(j != 0) by {
        if j == 0 {
            assert(lex_lt(a[0], a[i + 1]));
            lemma_lex_irrefl(y);
        }
    }
    assert(b.drop_first()[j - 1] == y);
    assert(b.drop_first().contains(y));
}

/// The position where `item` belongs in the strictly sorted list: every entry
/// before it is strictly smaller.
fn insert_pos(out: &Vec<String>, item: &String) -> (j: usize)
    requires
        strictly_sorted(views(out@)),
    ensures
        j <= out.len(),
        forall|k: int| 0 <= k < j ==> lex_lt(views(out@)[k], item@),
        j < out.len() ==> !lex_lt(views(out@)[j as int], item@),
{
    let mut j: usize = 0;
    while j < out.len()
        invariant
            j <= out@.len(),
            forall|k: int| 0 <= k < j ==> lex_lt(views(out@)[k], item@),
        decreases out@.len() - j,
    {
        if !str_lex_lt(out[j].as_str(), item.as_str()) {
            return j;
        }
        j = j + 1;
    }
    j
}

/// Inserts `item` into a strictly sorted list, keeping it strictly sorted;
/// a duplicate of an existing entry is dropped.
fn sorted_insert(out: &mut Vec<String>, item: String)
    requires
        strictly_sorted(views(old(out)@)),
    ensures
        strictly_sorted(views(final(out)@)),
        views(final(out)@).to_set() == views(old(out)@).to_set().insert(item@),
{
    let j = insert_pos(out, &item);
    if j < out.len() && str_eq(out[j].as_str(), item.as_str()) {
        proof {
            assert(views(out@)[j as int] == item@);
            assert(views(out@).to_set().contains(item@)) by {
                assert(views(out@).contains(item@));
            }
            assert(views(out@).to_set() =~= views(out@).to_set().insert(item@));
        }
    } else {
        let ghost v0 = views(out@);
        let ghost jj = j as int;
        out.insert(j, item);
        proof {
            let v1 = views(out@);
            v0.insert_ensures(jj, item@);
            assert(v1 =~= v0.insert(jj, item@)) by {
                assert(out@ =~= old(out)@.insert(jj, item));
                assert forall|i: int| 0 <= i < v1.len() implies v1[i] == v0.insert(jj, item@)[
                    i
                ] by {
                    if i < jj {
                        assert(out@[i] == old(out)@[i]);
                    } else if i == jj {
                        assert(out@[i] == item);
                    } else {
                        assert(out@[i] == old(out)@[i - 1]);
                    }
                }
            }
            assert(strictly_sorted(v1)) by {
                assert forall|p: int, q: int| 0 <= p < q < v1.len() implies lex_lt(
                    v1[p],
                    v1[q],
                ) by {
                    if q < jj {
                        assert(v1[p] == v0[p] && v1[q] == v0[q]);
                    } else if p < jj && q == jj {
                        assert(v1[p] == v0[p] && v1[q] == item@);
                    } else if p == jj && q > jj {
                        assert(v1[p] == item@ && v1[q] == v0[q - 1]);
                        assert(lex_lt(item@, v0[jj])) by {
                            if !lex_lt(item@, v0[jj]) {
                                lemma_lex_connex(v0[jj], item@);
                            }
                        }
                        if q - 1 > jj {
                            assert(lex_lt(v0[jj], v0[q - 1]));
                            lemma_lex_trans(item@, v0[jj], v0[q - 1]);
                        }
                    } else if p < jj && q > jj {
                        assert(v1[p] == v0[p] && v1[q] == v0[q - 1]);
                    } else {
                        assert(v1[p] == v0[p - 1] && v1[q] == v0[q - 1]);
                    }
                }
            }
            assert(v1.to_set() =~= v0.to_set().insert(item@)) by {
                assert forall|y: Seq<char>| v1.to_set().contains(y) implies v0.to_set().insert(
                    item@,
                ).contains(y) by {
                    let i = choose|i: int| 0 <= i < v1.len() && v1[i] == y;
                    if i < jj {
                        assert(v0[i] == y);
                    } else if i == jj {
                    } else {
                        assert(v0[i - 1] == y);
                    }
                }
                assert forall|y: Seq<char>| v0.to_set().insert(item@).contains(y) implies v1
                    .to_set().contains(y) by {
                    if y == item@ {
                        assert(v1[jj] == y);
                    } else {
                        let i = choose|i: int| 0 <= i < v0.len() && v0[i] == y;
                        if i < jj {
                            assert(v1[i] == y);
                        } else {
                            assert(v1[i + 1] == y);
                        }
                    }
                }
            }
        }
    }
}

impl Config {
    /// A fresh configuration: no known directories, no exclusions.
    pub fn new() -> (c: Config)
        ensures
            c.directories@.len() == 0,
            c.excludes@.len() == 0,
    {
        Config { directories: Vec::new(), excludes: Vec::new() }
    }
}

/// Restores the directories invariant: sorts the list lexicographically and
/// removes duplicates, leaving the set of entries unchanged. The caller is
/// expected to persist the configuration right after.
pub fn update_and_save_config(config: &mut Config)
    ensures
        strictly_sorted(views(final(config).directories@)),
        views(final(config).directories@).to_set() == views(old(config).directories@).to_set(),
        final(config).excludes@ == old(config).excludes@,
{
    let mut out: Vec<String> = Vec::new();
    let n = config.directories.len();
    let mut i: usize = 0;
    while i < n
        invariant
            n == config.directories@.len(),
            config.directories@ == old(config).directories@,
            config.excludes@ == old(config).excludes@,
            i <= n,
            strictly_sorted(views(out@)),
            views(out@).to_set() == views(config.directories@.take(i as int)).to_set(),
        decreases n - i,
    {
        let item = config.directories[i].clone();
        sorted_insert(&mut out, item);
        proof {
            let d = config.directories@;
            assert(views(d.take(i + 1)) =~= views(d.take(i as int)).push(d[i as int]@));
            lemma_push_to_set(views(d.take(i as int)), d[i as int]@);
        }
        i = i + 1;
    }
    proof {
        assert(config.directories@.take(n as int) =~= config.directories@);
    }
    config.directories = out;
}

/// Adds a directory to the configuration when it is not already known.
/// Returns whether anything was added.
pub fn add_directory(config: &mut Config, dir: &String) -> (added: bool)
    ensures
        added == !views(old(config).directories@).contains(dir@),
        added ==> views(final(config).directories@) == views(old(config).directories@).push(dir@),
        !added ==> final(config).directories@ == old(config).directories@,
        final(config).excludes@ == old(config).excludes@,
{
    let n = config.directories.len();
    let mut i: usize = 0;
    while i < n
        invariant
            n == config.directories@.len(),
            config == old(config),
            i <= n,
            forall|k: int| 0 <= k < i ==> views(config.directories@)[k] != dir@,
        decreases n - i,
    {
        if str_eq(config.directories[i].as_str(), dir.as_str()) {
            proof {
                assert(views(config.directories@)[i as int] == dir@);
                assert(views(config.directories@).contains(dir@));
            }
            return false;
        }
        i = i + 1;
    }
    proof {
        assert(!views(config.directories@).contains(dir@));
    }
    let ghost before = config.directories@;
    config.directories.push(dir.clone());
    proof {
        assert(views(config.directories@) =~= views(before).push(dir@));
    }
    true
}

/// Adding the same directory twice leaves the persisted list exactly as
/// adding it once does, with a single occurrence of the directory: any two
/// normalized lists whose entry sets are the once-added and the twice-added
/// set are the same list, and it holds the directory.
pub proof fn lemma_idempotent_add(
    s: Seq<Seq<char>>,
    d: Seq<char>,
    once: Seq<Seq<char>>,
    twice: Seq<Seq<char>>,
)
    requires
        strictly_sorted(once),
        once.to_set() == s.push(d).to_set(),
        strictly_sorted(twice),
        twice.to_set() == s.push(d).push(d).to_set(),
    ensures
        once == twice,
        once.to_set().contains(d),
        once.no_duplicates(),
{
    lemma_push_to_set(s, d);
    lemma_push_to_set(s.push(d), d);
    assert(s.push(d).push(d).to_set() =~= s.push(d).to_set());
    lemma_strictly_sorted_unique(once, twice);
    lemma_strictly_sorted_no_duplicates(once);
}

} // verus!
