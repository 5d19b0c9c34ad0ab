//! Hierarchical ignore-rule resolution.
//!
//! Each directory that has an ignore-definition file contributes one
//! rule set, compiled by the ignore crate. What one rule set says about
//! one path is taken from that crate; how the verdicts of nested rule
//! sets combine — walk from the target's directory up to the root, the
//! first definitive verdict wins, then re-check every ancestor
//! directory — is the logic verified here.

use vstd::prelude::*;
use vstd::seq_lib::*;

use crate::strutil::last_index_of;
use crate::strutil::lemma_last_index_of;
use crate::strutil::find_last_char;
use crate::strutil::starts_with_str;
use crate::strutil::str_eq;

verus! {

#[verifier::external_type_specification]
#[verifier::external_body]
pub struct ExGitignore(ignore::gitignore::Gitignore);

/// What one compiled rule set says about one root-relative path: 0 for
/// no match, 1 for ignore, 2 for allow-list. Named, not defined: the
/// verdict is whatever `Gitignore::matched` answers, a function of the
/// rule set value, the path and `is_dir`.
pub uninterp spec fn ruleset_verdict(
    rules: ignore::gitignore::Gitignore,
    rel_path: Seq<char>,
    is_dir: bool,
) -> int;

/// The rule set that the ignore crate compiles from one directory's
/// pattern lines, or none when they do not compile. Named, not defined:
/// the result depends on the root and the lines alone.
pub uninterp spec fn compiled_ruleset(root: Seq<char>, lines: Seq<Seq<char>>) -> Option<
    ignore::gitignore::Gitignore,
>;

/// Relies on ignore::gitignore::GitignoreBuilder (new, add_line, build):
/// compiles one directory's pattern lines into one rule set, matched
/// relative to `root`. A line that does not parse adds nothing; a
/// compile error yields none.
#[verifier::external_body]
fn compile_ruleset(root: &str, lines: &Vec<String>) -> (r: Option<ignore::gitignore::Gitignore>)
    ensures
        r == compiled_ruleset(root@, crate::config::str_views(lines@)),
{
    let mut builder = ignore::gitignore::GitignoreBuilder::new(root);
    for line in lines {
        let _ = builder.add_line(None, line);
    }
    builder.build().ok()
}

/// Relies on Gitignore::matched: the verdict of the highest-precedence
/// matching rule, reported as 0 (none), 1 (ignore) or 2 (allow).
#[verifier::external_body]
fn ruleset_matched(rules: &ignore::gitignore::Gitignore, rel_path: &str, is_dir: bool) -> (v: i32)
    ensures
        v as int == ruleset_verdict(*rules, rel_path@, is_dir),
        0 <= v <= 2,
{
    match rules.matched(rel_path, is_dir) {
        ignore::Match::None => 0,
        ignore::Match::Ignore(_) => 1,
        ignore::Match::Whitelist(_) => 2,
    }
}

// ---------------------------------------------------------------------
// The walk-up resolution, specified
// ---------------------------------------------------------------------

/// The directory part of a relative path: what precedes the last slash,
/// or the root (the empty path) when there is no slash.
pub open spec fn parent_dir(d: Seq<char>) -> Seq<char> {
    let li = last_index_of(d, '/');
    if li < 0 {
        Seq::<char>::empty()
    } else {
        d.take(li)
    }
}

pub proof fn lemma_parent_dir_len(d: Seq<char>)
    requires
        d.len() > 0,
    ensures
        parent_dir(d).len() < d.len(),
{
    lemma_last_index_of(d, '/');
}

/// The rule set registered for a directory, if any; directories are
/// unique, so the first entry is the only one.
pub open spec fn dir_ruleset(
    rs: Seq<(String, ignore::gitignore::Gitignore)>,
    dir: Seq<char>,
) -> Option<ignore::gitignore::Gitignore>
    decreases rs.len(),
{
    if rs.len() == 0 {
        None
    } else if rs.first().0@ == dir {
        Some(rs.first().1)
    } else {
        dir_ruleset(rs.drop_first(), dir)
    }
}

/// The verdict of the walk that starts at `dir` and climbs to the root:
/// the first directory with a rule set whose verdict on `target` is
/// definitive decides; a walk that reaches the root undecided says 0.
pub open spec fn walk_verdict(
    rs: Seq<(String, ignore::gitignore::Gitignore)>,
    dir: Seq<char>,
    target: Seq<char>,
    is_dir: bool,
) -> int
    decreases dir.len(),
    via walk_verdict_decreases
{
    let here = match dir_ruleset(rs, dir) {
        Some(g) => ruleset_verdict(g, target, is_dir),
        None => 0,
    };
    if here != 0 {
        here
    } else if dir.len() == 0 {
        0
    } else {
        walk_verdict(rs, parent_dir(dir), target, is_dir)
    }
}

#[via_fn]
proof fn walk_verdict_decreases(
    rs: Seq<(String, ignore::gitignore::Gitignore)>,
    dir: Seq<char>,
    target: Seq<char>,
    is_dir: bool,
) {
    if dir.len() > 0 {
        lemma_parent_dir_len(dir);
    }
}

/// Whether `dir` or any of its ancestors is ignored as a directory: each
/// one is checked as its own walk target, and one ignored ancestor
/// ignores everything beneath it.
pub open spec fn ancestor_ignored(
    rs: Seq<(String, ignore::gitignore::Gitignore)>,
    dir: Seq<char>,
) -> bool
    decreases dir.len(),
    via ancestor_ignored_decreases
{
    if dir.len() == 0 {
        false
    } else {
        ||| walk_verdict(rs, dir, dir, true) == 1
        ||| ancestor_ignored(rs, parent_dir(dir))
    }
}

#[via_fn]
proof fn ancestor_ignored_decreases(
    rs: Seq<(String, ignore::gitignore::Gitignore)>,
    dir: Seq<char>,
) {
    if dir.len() > 0 {
        lemma_parent_dir_len(dir);
    }
}

/// Whether the rule sets ignore a root-relative path. The walk starts at
/// the path itself for a directory and at its parent for a file; an
/// undecided walk falls back, for files, to the ancestor-directory
/// check.
pub open spec fn spec_is_ignored(
    rs: Seq<(String, ignore::gitignore::Gitignore)>,
    rel_path: Seq<char>,
    is_dir: bool,
) -> bool {
    let base = if is_dir {
        rel_path
    } else {
        parent_dir(rel_path)
    };
    let v = walk_verdict(rs, base, rel_path, is_dir);
    if v == 1 {
        true
    } else if v == 2 {
        false
    } else if !is_dir {
        ancestor_ignored(rs, parent_dir(rel_path))
    } else {
        false
    }
}

/// A path with one trailing slash removed.
pub open spec fn strip_trailing_slash(p: Seq<char>) -> Seq<char> {
    if p.len() > 0 && p.last() == '/' {
        p.drop_last()
    } else {
        p
    }
}

/// A path made relative to the root: an absolute path must lie under
/// the absolute root, a relative path is taken as already relative.
pub open spec fn rel_to_root(root: Seq<char>, path: Seq<char>) -> Option<Seq<char>> {
    if path.len() > 0 && path[0] == '/' {
        if path == root {
            Some(Seq::<char>::empty())
        } else if (root + seq!['/']).is_prefix_of(path) {
            Some(path.skip(root.len() as int + 1))
        } else {
            None
        }
    } else {
        Some(path)
    }
}

/// Whether the matcher ignores a path: a path outside the root is never
/// ignored; one under it is resolved by the walk.
pub open spec fn spec_path_ignored(
    rs: Seq<(String, ignore::gitignore::Gitignore)>,
    root: Seq<char>,
    path: Seq<char>,
    is_dir: bool,
) -> bool {
    match rel_to_root(root, path) {
        Some(rel) => spec_is_ignored(rs, strip_trailing_slash(rel), is_dir),
        None => false,
    }
}

/// The dir-and-rule-set views of a matcher's entries.
pub open spec fn ruleset_views(rs: Seq<(String, ignore::gitignore::Gitignore)>) -> Seq<
    (Seq<char>, ignore::gitignore::Gitignore),
> {
    rs.map_values(|p: (String, ignore::gitignore::Gitignore)| (p.0@, p.1))
}

/// The views of a list of ignore-definition files: each directory's
/// root-relative path with its pattern lines.
pub open spec fn file_views(files: Seq<(String, Vec<String>)>) -> Seq<
    (Seq<char>, Seq<Seq<char>>),
> {
    files.map_values(|f: (String, Vec<String>)| (f.0@, crate::config::str_views(f.1@)))
}

/// The rule sets that a list of ignore files compiles to, in order: one
/// per directory whose lines compile, none for a directory whose lines
/// do not.
pub open spec fn rulesets_of(files: Seq<(Seq<char>, Seq<Seq<char>>)>) -> Seq<
    (Seq<char>, ignore::gitignore::Gitignore),
>
    decreases files.len(),
{
    if files.len() == 0 {
        Seq::<(Seq<char>, ignore::gitignore::Gitignore)>::empty()
    } else {
        rulesets_of(files.drop_last()) + (match compiled_ruleset(
            files.last().0,
            files.last().1,
        ) {
            Some(g) => seq![(files.last().0, g)],
            None => Seq::<(Seq<char>, ignore::gitignore::Gitignore)>::empty(),
        })
    }
}

// ---------------------------------------------------------------------
// The matcher
// ---------------------------------------------------------------------

/// Resolves paths against the ignore rule sets of one codebase.
pub struct GitignoreMatcher {
    codebase_path: String,
    rulesets: Vec<(String, ignore::gitignore::Gitignore)>,
}

impl GitignoreMatcher {
    /// The rule sets, each keyed by its directory's root-relative path.
    pub closed spec fn rules_view(&self) -> Seq<(String, ignore::gitignore::Gitignore)> {
        self.rulesets@
    }

    /// The codebase root this matcher was built for.
    pub closed spec fn root_view(&self) -> Seq<char> {
        self.codebase_path@
    }

    /// Builds the matcher from the ignore-definition files found under
    /// the root: one rule set per directory, keyed by the directory's
    /// root-relative path (the empty string for the root itself). A
    /// directory whose rules fail to compile contributes no rule set.
    pub fn new(codebase_path: &str, ignore_files: &Vec<(String, Vec<String>)>) -> (r:
        GitignoreMatcher)
        ensures
            r.root_view() == codebase_path@,
            ruleset_views(r.rules_view()) == rulesets_of(file_views(ignore_files@)),
    {
        let ghost fv = file_views(ignore_files@);
        let mut rulesets: Vec<(String, ignore::gitignore::Gitignore)> = Vec::new();
        let n = ignore_files.len();
        let mut i: usize = 0;
        proof {
            assert(fv.take(0) =~= Seq::<(Seq<char>, Seq<Seq<char>>)>::empty());
            assert(ruleset_views(rulesets@) =~= rulesets_of(fv.take(0)));
        }
        while i < n
            invariant
                n == ignore_files@.len(),
                i <= n,
                fv == file_views(ignore_files@),
                ruleset_views(rulesets@) =~= rulesets_of(fv.take(i as int)),
            decreases n - i,
        {
            let dir = &ignore_files[i].0;
            let ghost before = rulesets@;
            proof {
                assert(fv.take(i + 1).drop_last() =~= fv.take(i as int));
                assert(fv.take(i + 1).last() == fv[i as int]);
                assert(fv[i as int] == (
                    ignore_files@[i as int].0@,
                    crate::config::str_views(ignore_files@[i as int].1@),
                ));
            }
            match compile_ruleset(dir.as_str(), &ignore_files[i].1) {
                Some(rules) => {
                    rulesets.push((dir.clone(), rules));
                    proof {
                        assert(ruleset_views(rulesets@) =~= rulesets_of(fv.take(i + 1)));
                    }
                },
                None => {
                    proof {
                        assert(ruleset_views(rulesets@) =~= rulesets_of(fv.take(i + 1)));
                    }
                },
            }
            i += 1;
        }
        proof {
            assert(fv.take(n as int) =~= fv);
        }
        GitignoreMatcher { codebase_path: codebase_path.to_owned(), rulesets }
    }

    /// The rule set registered for `dir`, if any.
    fn find_ruleset(&self, dir: &str) -> (r: Option<&ignore::gitignore::Gitignore>)
        ensures
            match r {
                Some(g) => dir_ruleset(self.rules_view(), dir@) == Some(*g),
                None => dir_ruleset(self.rules_view(), dir@) is None,
            },
    {
        let ghost rs = self.rulesets@;
        let n = self.rulesets.len();
        let mut i: usize = 0;
        assert(rs.skip(0) =~= rs);
        while i < n
            invariant
                rs == self.rulesets@,
                n == rs.len(),
                i <= n,
                dir_ruleset(rs, dir@) == dir_ruleset(rs.skip(i as int), dir@),
            decreases n - i,
        {
            proof {
                assert(rs.skip(i as int).first() == rs[i as int]);
                assert(rs.skip(i as int).drop_first() =~= rs.skip(i + 1));
            }
            if str_eq(self.rulesets[i].0.as_str(), dir) {
                return Some(&self.rulesets[i].1);
            }
            i += 1;
        }
        proof {
            assert(rs.skip(n as int) =~= Seq::<(String, ignore::gitignore::Gitignore)>::empty());
        }
        None
    }

    /// The directory part of a relative path.
    fn parent_of(s: &str) -> (r: String)
        ensures
            r@ == parent_dir(s@),
    {
        proof {
            lemma_last_index_of(s@, '/');
        }
        match find_last_char(s, '/') {
            Some(i) => {
                let p = s.substring_char(0, i);
                assert(p@ =~= parent_dir(s@));
                p.to_owned()
            },
            None => String::new(),
        }
    }

    /// Climbs from `start` to the root and returns the walk's verdict.
    fn walk(&self, start: &str, target: &str, is_dir: bool) -> (v: i32)
        ensures
            v as int == walk_verdict(self.rules_view(), start@, target@, is_dir),
            0 <= v <= 2,
    {
        let ghost rs = self.rules_view();
        let mut cur = start.to_owned();
        loop
            invariant
                rs == self.rules_view(),
                walk_verdict(rs, start@, target@, is_dir) == walk_verdict(
                    rs,
                    cur@,
                    target@,
                    is_dir,
                ),
            decreases cur@.len(),
        {
            let here = match self.find_ruleset(cur.as_str()) {
                Some(rules) => ruleset_matched(rules, target, is_dir),
                None => 0,
            };
            if here != 0 {
                return here;
            }
            if cur.as_str().unicode_len() == 0 {
                return 0;
            }
            proof {
                lemma_parent_dir_len(cur@);
            }
            cur = Self::parent_of(cur.as_str());
        }
    }

    /// Whether `dir` or any ancestor directory is ignored.
    fn any_ancestor_ignored(&self, dir: &str) -> (r: bool)
        ensures
            r == ancestor_ignored(self.rules_view(), dir@),
    {
        let ghost rs = self.rules_view();
        let mut cur = dir.to_owned();
        loop
            invariant
                rs == self.rules_view(),
                ancestor_ignored(rs, dir@) == ancestor_ignored(rs, cur@),
            decreases cur@.len(),
        {
            if cur.as_str().unicode_len() == 0 {
                return false;
            }
            let v = self.walk(cur.as_str(), cur.as_str(), true);
            if v == 1 {
                return true;
            }
            proof {
                lemma_parent_dir_len(cur@);
            }
            cur = Self::parent_of(cur.as_str());
        }
    }

    /// Whether the ignore rules exclude `file_path`, which may be given
    /// relative to the root or absolute; a path outside the root is
    /// never ignored.
    pub fn is_ignored(&self, file_path: &str, is_dir: bool) -> (r: bool)
        ensures
            r == spec_path_ignored(self.rules_view(), self.root_view(), file_path@, is_dir),
    {
        let n = file_path.unicode_len();
        let root = self.codebase_path.as_str();
        let rel: String = if n > 0 && file_path.get_char(0) == '/' {
            if str_eq(file_path, root) {
                String::new()
            } else {
                let mut prefix = self.codebase_path.clone();
                prefix.append("/");
                proof {
                    reveal_strlit("/");
                    assert(prefix@ =~= self.root_view() + seq!['/']);
                }
                if starts_with_str(file_path, prefix.as_str()) {
                    let rl = root.unicode_len();
                    let stripped = file_path.substring_char(rl + 1, n);
                    assert(stripped@ =~= file_path@.skip(self.root_view().len() as int + 1));
                    stripped.to_owned()
                } else {
                    return false;
                }
            }
        } else {
            file_path.to_owned()
        };
        let m = rel.as_str().unicode_len();
        let clean: String = if m > 0 && rel.as_str().get_char(m - 1) == '/' {
            let c = rel.as_str().substring_char(0, m - 1);
            assert(c@ =~= strip_trailing_slash(rel@));
            c.to_owned()
        } else {
            rel
        };
        let base: String = if is_dir {
            clean.clone()
        } else {
            Self::parent_of(clean.as_str())
        };
        let v = self.walk(base.as_str(), clean.as_str(), is_dir);
        if v == 1 {
            return true;
        }
        if v == 2 {
            return false;
        }
        if !is_dir {
            let parent = Self::parent_of(clean.as_str());
            return self.any_ancestor_ignored(parent.as_str());
        }
        false
    }

    /// Keeps the paths, taken as files, that the rules do not ignore, in
    /// their given order.
    pub fn filter_paths(&self, paths: &Vec<String>) -> (r: Vec<String>)
        ensures
            crate::config::str_views(r@) == crate::config::str_views(paths@).filter(
                |p: Seq<char>|
                    !spec_path_ignored(self.rules_view(), self.root_view(), p, false),
            ),
    {
        let ghost pred = |p: Seq<char>|
            !spec_path_ignored(self.rules_view(), self.root_view(), p, false);
        let ghost all = crate::config::str_views(paths@);
        let mut r: Vec<String> = Vec::new();
        let n = paths.len();
        let mut i: usize = 0;
        proof {
            assert(all.take(0) =~= Seq::<Seq<char>>::empty());
            reveal(Seq::filter);
        }
        while i < n
            invariant
                n == paths@.len(),
                i <= n,
                all == crate::config::str_views(paths@),
                pred == (|p: Seq<char>|
                    !spec_path_ignored(self.rules_view(), self.root_view(), p, false)),
                crate::config::str_views(r@) == all.take(i as int).filter(pred),
            decreases n - i,
        {
            proof {
                reveal(Seq::filter);
                assert(all.take(i + 1).drop_last() =~= all.take(i as int));
                assert(all.take(i + 1).last() == all[i as int]);
            }
            if !self.is_ignored(paths[i].as_str(), false) {
                let ghost before = r@;
                r.push(paths[i].clone());
                proof {
                    assert(crate::config::str_views(r@) =~= crate::config::str_views(
                        before,
                    ).push(all[i as int]));
                }
            }
            i += 1;
        }
        proof {
            assert(all.take(n as int) =~= all);
        }
        r
    }

    /// The codebase root this matcher was built for.
    pub fn codebase_path(&self) -> (r: &str)
        ensures
            r@ == self.root_view(),
    {
        self.codebase_path.as_str()
    }
}

} // verus!
