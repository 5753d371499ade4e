//! Bookkeeping for the recursive filesystem scan. The walk itself (reading a
//! directory's entries) is outside work; this module decides everything else:
//! which directories are pruned by an exclusion, which child names are
//! skipped as hidden or system directories, which child paths are matches,
//! and which are queued for descent. The caller loops: take the next pending
//! directory, read its child directory names, hand them back.

use vstd::prelude::*;

use crate::matcher::{regex_matches, Matcher};
use crate::strutil::{
    contains_at, excluded_spec, first_char_is, has_substring, is_excluded, str_eq, views,
};

verus! {

/// A name whose first character is the hidden-file marker.
pub open spec fn hidden_name(name: Seq<char>) -> bool {
    name.len() > 0 && name[0] == '.'
}

/// A name on the fixed system skip-list (the trash directory).
pub open spec fn skip_listed(name: Seq<char>) -> bool {
    name == ".Trash"@
}

/// A child directory name the scan neither matches nor descends into.
pub open spec fn skipped_name(name: Seq<char>) -> bool {
    hidden_name(name) || skip_listed(name)
}

/// The path of a child named `name` inside the directory `dir`.
pub open spec fn joined(dir: Seq<char>, name: Seq<char>) -> Seq<char> {
    if dir.len() > 0 && dir[dir.len() - 1] == '/' {
        dir + name
    } else {
        dir + seq!['/'] + name
    }
}

/// A child that the scan records as a match: not skipped by name, its path
/// not excluded, and its path matched by the pattern.
pub open spec fn accept_child(
    dir: Seq<char>,
    name: Seq<char>,
    excludes: Seq<Seq<char>>,
    pattern: Seq<char>,
) -> bool {
    &&& !skipped_name(name)
    &&& !excluded_spec(joined(dir, name), excludes)
    &&& regex_matches(pattern, joined(dir, name))
}

/// A child that the scan descends into: not skipped by name and not excluded.
pub open spec fn descend_child(dir: Seq<char>, name: Seq<char>, excludes: Seq<Seq<char>>) -> bool {
    !skipped_name(name) && !excluded_spec(joined(dir, name), excludes)
}

/// The paths of the children of `dir` that the scan records as matches, in
/// the order of `names`.
pub open spec fn accepted_paths(
    dir: Seq<char>,
    names: Seq<Seq<char>>,
    excludes: Seq<Seq<char>>,
    pattern: Seq<char>,
) -> Seq<Seq<char>>
    decreases names.len(),
{
    if names.len() == 0 {
        Seq::empty()
    } else {
        let rest = accepted_paths(dir, names.drop_last(), excludes, pattern);
        if accept_child(dir, names.last(), excludes, pattern) {
            rest.push(joined(dir, names.last()))
        } else {
            rest
        }
    }
}

/// The paths of the children of `dir` that the scan descends into, in the
/// order of `names`.
pub open spec fn descend_paths(
    dir: Seq<char>,
    names: Seq<Seq<char>>,
    excludes: Seq<Seq<char>>,
) -> Seq<Seq<char>>
    decreases names.len(),
{
    if names.len() == 0 {
        Seq::empty()
    } else {
        let rest = descend_paths(dir, names.drop_last(), excludes);
        if descend_child(dir, names.last(), excludes) {
            rest.push(joined(dir, names.last()))
        } else {
            rest
        }
    }
}

/// Whether the scan skips this child directory name.
pub fn is_skipped_name(name: &String) -> (r: bool)
    ensures
        r == skipped_name(name@),
{
    first_char_is(name.as_str(), '.') || str_eq(name.as_str(), ".Trash")
}

/// Joins a directory path and a child name with the path separator.
pub fn join_path(dir: &String, name: &String) -> (r: String)
    ensures
        r@ == joined(dir@, name@),
{
    let mut out = dir.clone();
    let dlen = out.as_str().unicode_len();
    let ends_in_sep = dlen > 0 && out.as_str().get_char(dlen - 1) == '/';
    if !ends_in_sep {
        out.append("/");
        proof {
            reveal_strlit("/");
            assert(out@ =~= dir@ + seq!['/']);
        }
    }
    out.append(name.as_str());
    proof {
        assert(out@ =~= joined(dir@, name@));
    }
    out
}

/// The state of one scan: the compiled pattern, the exclusions, the
/// directories still to visit, and the matches recorded so far. No pending or
/// recorded path is ever excluded.
pub struct Scanner {
    matcher: Matcher,
    excludes: Vec<String>,
    pending: Vec<String>,
    found: Vec<String>,
}

impl Scanner {
    /// The pattern the scan matches against.
    pub closed spec fn pattern_view(&self) -> Seq<char> {
        self.matcher.pattern_view()
    }

    /// The exclusion substrings.
    pub closed spec fn excludes_view(&self) -> Seq<Seq<char>> {
        views(self.excludes@)
    }

    /// The directories still to visit.
    pub closed spec fn pending_view(&self) -> Seq<Seq<char>> {
        views(self.pending@)
    }

    /// The matches recorded so far.
    pub closed spec fn found_view(&self) -> Seq<Seq<char>> {
        views(self.found@)
    }

    /// The scan invariant: no recorded match and no pending directory is
    /// excluded, and every recorded match is matched by the pattern.
    pub open spec fn wf(&self) -> bool {
        &&& forall|i: int|
            0 <= i < self.found_view().len() ==> !excluded_spec(
                #[trigger] self.found_view()[i],
                self.excludes_view(),
            ) && regex_matches(self.pattern_view(), self.found_view()[i])
        &&& forall|i: int|
            0 <= i < self.pending_view().len() ==> !excluded_spec(
                #[trigger] self.pending_view()[i],
                self.excludes_view(),
            )
    }

    /// Starts a scan at `root`. An excluded root is pruned at once: nothing
    /// is pending and nothing will ever be found.
    pub fn new(matcher: Matcher, excludes: Vec<String>, root: String) -> (s: Scanner)
        ensures
            s.wf(),
            s.pattern_view() == matcher.pattern_view(),
            s.excludes_view() == views(excludes@),
            s.found_view() == Seq::<Seq<char>>::empty(),
            excluded_spec(root@, views(excludes@)) ==> s.pending_view() == Seq::<
                Seq<char>,
            >::empty(),
            !excluded_spec(root@, views(excludes@)) ==> s.pending_view() == seq![root@],
    {
        let mut pending: Vec<String> = Vec::new();
        if !is_excluded(root.as_str(), &excludes) {
            pending.push(root);
        }
        let s = Scanner { matcher, excludes, pending, found: Vec::new() };
        proof {
            assert(s.pending_view() =~= views(s.pending@));
            if s.pending@.len() == 1 {
                assert(s.pending_view() =~= seq![s.pending@[0]@]);
            } else {
                assert(s.pending_view() =~= Seq::<Seq<char>>::empty());
            }
            assert(s.found_view() =~= Seq::<Seq<char>>::empty());
        }
        s
    }

    /// Takes the next directory to visit, depth-first. `None` when the scan
    /// is complete.
    pub fn next_dir(&mut self) -> (r: Option<String>)
        requires
            old(self).wf(),
        ensures
            final(self).wf(),
            final(self).found_view() == old(self).found_view(),
            final(self).excludes_view() == old(self).excludes_view(),
            final(self).pattern_view() == old(self).pattern_view(),
            r matches Some(d) ==> old(self).pending_view().len() > 0 && d@ == old(
                self,
            ).pending_view().last() && final(self).pending_view() == old(
                self,
            ).pending_view().drop_last() && !excluded_spec(d@, old(self).excludes_view()),
            r is None ==> old(self).pending_view().len() == 0 && final(self).pending_view() == old(
                self,
            ).pending_view(),
    {
        let ghost before = self.pending@;
        let r = self.pending.pop();
        proof {
            if before.len() > 0 {
                assert(views(self.pending@) =~= views(before).drop_last());
                assert(views(before)[before.len() - 1] == before[before.len() - 1]@);
            }
            assert forall|i: int| 0 <= i < self.pending_view().len() implies !excluded_spec(
                #[trigger] self.pending_view()[i],
                self.excludes_view(),
            ) by {
                assert(self.pending_view()[i] == old(self).pending_view()[i]);
            }
            assert forall|i: int| 0 <= i < self.found_view().len() implies !excluded_spec(
                #[trigger] self.found_view()[i],
                self.excludes_view(),
            ) && regex_matches(self.pattern_view(), self.found_view()[i]) by {
                assert(self.found_view()[i] == old(self).found_view()[i]);
            }
        }
        r
    }

    /// Records the child directory names of `dir`, which must have been
    /// handed out by `next_dir`: children skipped by name are neither matched
    /// nor queued; excluded children are pruned; the rest are queued for
    /// descent, and those whose path the pattern matches are recorded.
    pub fn record_children(&mut self, dir: &String, child_names: &Vec<String>)
        requires
            old(self).wf(),
        ensures
            final(self).wf(),
            final(self).excludes_view() == old(self).excludes_view(),
            final(self).pattern_view() == old(self).pattern_view(),
            final(self).found_view() == old(self).found_view() + accepted_paths(
                dir@,
                views(child_names@),
                old(self).excludes_view(),
                old(self).pattern_view(),
            ),
            final(self).pending_view() == old(self).pending_view() + descend_paths(
                dir@,
                views(child_names@),
                old(self).excludes_view(),
            ),
    {
        let n = child_names.len();
        let mut i: usize = 0;
        while i < n
            invariant
                n == child_names@.len(),
                i <= n,
                self.wf(),
                self.excludes_view() == old(self).excludes_view(),
                self.pattern_view() == old(self).pattern_view(),
                self.found_view() == old(self).found_view() + accepted_paths(
                    dir@,
                    views(child_names@.take(i as int)),
                    old(self).excludes_view(),
                    old(self).pattern_view(),
                ),
                self.pending_view() == old(self).pending_view() + descend_paths(
                    dir@,
                    views(child_names@.take(i as int)),
                    old(self).excludes_view(),
                ),
            decreases n - i,
        {
            let ghost names_i = views(child_names@.take(i as int));
            let ghost names_i1 = views(child_names@.take(i + 1));
            proof {
                assert(names_i1 =~= names_i.push(child_names@[i as int]@));
                assert(names_i1.drop_last() =~= names_i);
            }
            let name = &child_names[i];
            if !is_skipped_name(name) {
                let path = join_path(dir, name);
                if !is_excluded(path.as_str(), &self.excludes) {
                    if self.matcher.is_match(path.as_str()) {
                        let ghost f0 = self.found@;
                        self.found.push(path.clone());
                        proof {
                            assert(views(self.found@) =~= views(f0).push(path@));
                        }
                    }
                    let ghost p0 = self.pending@;
                    self.pending.push(path);
                    proof {
                        assert(views(self.pending@) =~= views(p0).push(
                            joined(dir@, child_names@[i as int]@),
                        ));
                    }
                }
            }
            i = i + 1;
        }
        proof {
            assert(child_names@.take(n as int) =~= child_names@);
        }
    }

    /// The matches recorded by the scan, in the order they were found.
    pub fn into_results(self) -> (r: Vec<String>)
        ensures
            views(r@) == self.found_view(),
    {
        self.found
    }
}

/// A path that extends an excluded path is itself excluded: the exclusion
/// substring is still there.
pub proof fn lemma_prefix_excluded(anc: Seq<char>, desc: Seq<char>, excludes: Seq<Seq<char>>)
    requires
        excluded_spec(anc, excludes),
        anc.is_prefix_of(desc),
    ensures
        excluded_spec(desc, excludes),
{
    let j = choose|j: int| 0 <= j < excludes.len() && has_substring(anc, excludes[j]);
    let i = choose|i: int| contains_at(anc, excludes[j], i);
    assert(contains_at(desc, excludes[j], i)) by {
        assert(desc.subrange(i, i + excludes[j].len()) =~= anc.subrange(i, i + excludes[j].len()))
            by {
            assert(forall|k: int| 0 <= k < anc.len() ==> anc[k] == desc[k]);
        }
    }
    assert(has_substring(desc, excludes[j]));
}

/// Scan exclusion: for a subtree whose root path matches an exclusion, no
/// path below that root is ever among the scan's results, whether or not the
/// pattern would match it.
pub proof fn lemma_scan_prunes_excluded_subtree(s: &Scanner, root: Seq<char>, p: Seq<char>)
    requires
        s.wf(),
        excluded_spec(root, s.excludes_view()),
        root.is_prefix_of(p),
    ensures
        !s.found_view().contains(p),
{
    if s.found_view().contains(p) {
        let i = choose|i: int| 0 <= i < s.found_view().len() && s.found_view()[i] == p;
        lemma_prefix_excluded(root, p, s.excludes_view());
    }
}

/// `p` is the path of some child of `dir` whose name the scan does not skip.
pub open spec fn unskipped_child_path(dir: Seq<char>, names: Seq<Seq<char>>, p: Seq<char>) -> bool {
    exists|k: int| 0 <= k < names.len() && !skipped_name(names[k]) && p == joined(dir, names[k])
}

/// Hidden-name skip: everything the scan records or descends into under a
/// directory is the path of a child whose name is not skipped; a child whose
/// name starts with the hidden marker contributes nothing.
pub proof fn lemma_skipped_never_recorded(
    dir: Seq<char>,
    names: Seq<Seq<char>>,
    excludes: Seq<Seq<char>>,
    pattern: Seq<char>,
)
    ensures
        forall|i: int|
            0 <= i < accepted_paths(dir, names, excludes, pattern).len()
                ==> unskipped_child_path(
                dir,
                names,
                #[trigger] accepted_paths(dir, names, excludes, pattern)[i],
            ),
        forall|i: int|
            0 <= i < descend_paths(dir, names, excludes).len() ==> unskipped_child_path(
                dir,
                names,
                #[trigger] descend_paths(dir, names, excludes)[i],
            ),
    decreases names.len(),
{
    if names.len() > 0 {
        lemma_skipped_never_recorded(dir, names.drop_last(), excludes, pattern);
        let last = names.len() - 1;
        let prev = accepted_paths(dir, names.drop_last(), excludes, pattern);
        let cur = accepted_paths(dir, names, excludes, pattern);
        assert forall|i: int| 0 <= i < cur.len() implies unskipped_child_path(
            dir,
            names,
            #[trigger] cur[i],
        ) by {
            if i < prev.len() {
                assert(cur[i] == prev[i]);
                assert(unskipped_child_path(dir, names.drop_last(), prev[i]));
                let k = choose|k: int|
                    0 <= k < names.drop_last().len() && !skipped_name(names.drop_last()[k])
                        && prev[i] == joined(dir, names.drop_last()[k]);
                assert(names.drop_last()[k] == names[k]);
                assert(0 <= k < names.len() && !skipped_name(names[k]) && cur[i] == joined(
                    dir,
                    names[k],
                ));
            } else {
                assert(cur[i] == joined(dir, names[last]));
                assert(0 <= last < names.len() && !skipped_name(names[last]) && cur[i] == joined(
                    dir,
                    names[last],
                ));
            }
        }
        let dprev = descend_paths(dir, names.drop_last(), excludes);
        let dcur = descend_paths(dir, names, excludes);
        assert forall|i: int| 0 <= i < dcur.len() implies unskipped_child_path(
            dir,
            names,
            #[trigger] dcur[i],
        ) by {
            if i < dprev.len() {
                assert(dcur[i] == dprev[i]);
                assert(unskipped_child_path(dir, names.drop_last(), dprev[i]));
                let k = choose|k: int|
                    0 <= k < names.drop_last().len() && !skipped_name(names.drop_last()[k])
                        && dprev[i] == joined(dir, names.drop_last()[k]);
                assert(names.drop_last()[k] == names[k]);
                assert(0 <= k < names.len() && !skipped_name(names[k]) && dcur[i] == joined(
                    dir,
                    names[k],
                ));
            } else {
                assert(dcur[i] == joined(dir, names[last]));
                assert(0 <= last < names.len() && !skipped_name(names[last]) && dcur[i] == joined(
                    dir,
                    names[last],
                ));
            }
        }
    }
}

} // verus!
