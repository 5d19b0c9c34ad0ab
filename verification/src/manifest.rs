//! The manifest: one codebase's path-to-content-hash snapshot, and the
//! change sets computed against it.
//!
//! A manifest is a list of `(path, hash)` entries with unique paths,
//! viewed as a map from path to hash. Reading and writing the manifest
//! file is the caller's business; the map logic lives here.

use vstd::prelude::*;
use vstd::seq_lib::*;

use crate::hashing::short_digest;
use crate::hashing::short_digest_of;
use crate::strutil::str_eq;
use vstd::utf8::encode_utf8;

verus! {

/// The added, modified and removed files of one indexing run, each with
/// the new content hash where one exists.
pub struct Changes {
    pub added: Vec<(String, String)>,
    pub modified: Vec<(String, String)>,
    pub removed: Vec<String>,
}

impl Default for Changes {
    /// An empty change set.
    fn default() -> (r: Self)
        ensures
            r.added@.len() == 0,
            r.modified@.len() == 0,
            r.removed@.len() == 0,
    {
        Changes { added: Vec::new(), modified: Vec::new(), removed: Vec::new() }
    }
}

/// The codebase ID: the short digest of the codebase's canonical path.
pub fn get_codebase_hash(codebase_path: &str) -> (r: String)
    ensures
        r@ == short_digest_of(encode_utf8(codebase_path@)),
        r@.len() == 16,
{
    short_digest(codebase_path.as_bytes())
}

/// The content hash of a file: the short digest of its raw bytes.
pub fn hash_file_content(content: &[u8]) -> (r: String)
    ensures
        r@ == short_digest_of(content@),
        r@.len() == 16,
{
    short_digest(content)
}

/// The key views of a list of entries.
pub open spec fn key_views(s: Seq<(String, String)>) -> Seq<Seq<char>> {
    s.map_values(|p: (String, String)| p.0@)
}

/// The map that a list of entries denotes; a later entry with the same
/// key would override an earlier one.
pub open spec fn entries_map(s: Seq<(String, String)>) -> Map<Seq<char>, Seq<char>>
    decreases s.len(),
{
    if s.len() == 0 {
        Map::<Seq<char>, Seq<char>>::empty()
    } else {
        entries_map(s.drop_last()).insert(s.last().0@, s.last().1@)
    }
}

pub proof fn lemma_entries_map_props(s: Seq<(String, String)>)
    ensures
        forall|k: Seq<char>| #[trigger]
            entries_map(s).contains_key(k) <==> key_views(s).contains(k),
        forall|i: int|
            0 <= i < s.len() && key_views(s).no_duplicates() ==> entries_map(s).contains_key(
                #[trigger] s[i].0@,
            ) && entries_map(s)[s[i].0@] == s[i].1@,
    decreases s.len(),
{
    if s.len() > 0 {
        let t = s.drop_last();
        lemma_entries_map_props(t);
        assert(key_views(t) =~= key_views(s).drop_last());
        assert forall|k: Seq<char>| #[trigger]
            entries_map(s).contains_key(k) <==> key_views(s).contains(k) by {
            if key_views(s).contains(k) {
                let i = choose|i: int| 0 <= i < key_views(s).len() && key_views(s)[i] == k;
                if i < s.len() - 1 {
                    assert(key_views(t)[i] == k);
                    assert(key_views(t).contains(k));
                    assert(entries_map(t).contains_key(k));
                } else {
                    assert(k == s.last().0@);
                }
            }
            if entries_map(s).contains_key(k) {
                if k == s.last().0@ {
                    assert(key_views(s)[s.len() - 1] == k);
                    assert(key_views(s).contains(k));
                } else {
                    assert(entries_map(t).contains_key(k));
                    assert(key_views(t).contains(k));
                    let i = choose|i: int| 0 <= i < key_views(t).len() && key_views(t)[i] == k;
                    assert(key_views(s)[i] == k);
                    assert(key_views(s).contains(k));
                }
            }
        }
        if key_views(s).no_duplicates() {
            assert forall|i: int|
                0 <= i < s.len() implies entries_map(s).contains_key(#[trigger] s[i].0@)
                && entries_map(s)[s[i].0@] == s[i].1@ by {
                assert(key_views(s)[i] == s[i].0@);
                assert(key_views(s).contains(s[i].0@));
                if i < s.len() - 1 {
                    assert(key_views(s)[s.len() - 1] == s.last().0@);
                    assert(s[i].0@ != s.last().0@);
                    assert(t[i] == s[i]);
                }
            }
        }
    }
}

/// A manifest: a snapshot of each indexed file's content hash, keyed by
/// repository-relative path.
pub struct Manifest {
    entries: Vec<(String, String)>,
}

impl View for Manifest {
    type V = Map<Seq<char>, Seq<char>>;

    closed spec fn view(&self) -> Map<Seq<char>, Seq<char>> {
        entries_map(self.entries@)
    }
}

impl Manifest {
    /// No two entries name the same path.
    pub closed spec fn wf(&self) -> bool {
        key_views(self.entries@).no_duplicates()
    }

    /// An empty manifest, as a first run starts from.
    pub fn new() -> (r: Manifest)
        ensures
            r.wf(),
            r@ == Map::<Seq<char>, Seq<char>>::empty(),
    {
        Manifest { entries: Vec::new() }
    }

    /// The number of entries.
    pub fn len(&self) -> (r: usize)
        requires
            self.wf(),
        ensures
            r == self@.dom().len(),
    {
        proof {
            lemma_entries_map_props(self.entries@);
            assert(self@.dom() =~= key_views(self.entries@).to_set());
            key_views(self.entries@).unique_seq_to_set();
        }
        self.entries.len()
    }

    /// The entries, for callers that persist or walk the manifest.
    pub fn entries(&self) -> (r: &Vec<(String, String)>)
        ensures
            entries_map(r@) == self@,
            self.wf() ==> key_views(r@).no_duplicates(),
    {
        &self.entries
    }

    /// The index of the entry for `path`, if one exists.
    fn find(&self, path: &str) -> (r: Option<usize>)
        ensures
            match r {
                Some(i) => i < self.entries@.len() && self.entries@[i as int].0@ == path@,
                None => !key_views(self.entries@).contains(path@),
            },
    {
        let n = self.entries.len();
        let mut i: usize = 0;
        while i < n
            invariant
                n == self.entries@.len(),
                i <= n,
                forall|j: int| 0 <= j < i ==> key_views(self.entries@)[j] != path@,
            decreases n - i,
        {
            if str_eq(self.entries[i].0.as_str(), path) {
                assert(self.entries@[i as int].0@ == path@);
                return Some(i);
            }
            assert(key_views(self.entries@)[i as int] == self.entries@[i as int].0@);
            i += 1;
        }
        proof {
            if key_views(self.entries@).contains(path@) {
                let j = choose|j: int|
                    0 <= j < key_views(self.entries@).len() && key_views(self.entries@)[j]
                        == path@;
                assert(key_views(self.entries@)[j] != path@);
            }
        }
        None
    }

    /// The hash recorded for `path`, if any.
    pub fn get(&self, path: &str) -> (r: Option<&String>)
        requires
            self.wf(),
        ensures
            match r {
                Some(v) => self@.contains_key(path@) && self@[path@] == v@,
                None => !self@.contains_key(path@),
            },
    {
        proof {
            lemma_entries_map_props(self.entries@);
        }
        match self.find(path) {
            Some(i) => Some(&self.entries[i].1),
            None => None,
        }
    }

    /// Whether `path` has an entry.
    pub fn contains(&self, path: &str) -> (r: bool)
        requires
            self.wf(),
        ensures
            r == self@.contains_key(path@),
    {
        proof {
            lemma_entries_map_props(self.entries@);
        }
        match self.find(path) {
            Some(_) => true,
            None => false,
        }
    }

    /// Records `hash` for `path`, replacing any earlier entry.
    pub fn insert(&mut self, path: &str, hash: &str)
        requires
            old(self).wf(),
        ensures
            final(self).wf(),
            final(self)@ == old(self)@.insert(path@, hash@),
    {
        proof {
            lemma_entries_map_props(self.entries@);
        }
        let ghost s0 = self.entries@;
        match self.find(path) {
            Some(i) => {
                let p = (path.to_owned(), hash.to_owned());
                let ghost pg = p;
                self.entries.set(i, p);
                proof {
                    assert(key_views(self.entries@) =~= key_views(s0));
                    lemma_entries_map_update(s0, i as int, pg);
                }
            },
            None => {
                self.entries.push((path.to_owned(), hash.to_owned()));
                proof {
                    assert(self.entries@.drop_last() =~= s0);
                    assert(key_views(self.entries@) =~= key_views(s0).push(path@));
                    assert(key_views(self.entries@).drop_last() =~= key_views(s0));
                }
            },
        }
    }

    /// Deletes the entry for `path`, if one exists.
    pub fn remove(&mut self, path: &str)
        requires
            old(self).wf(),
        ensures
            final(self).wf(),
            final(self)@ == old(self)@.remove(path@),
    {
        proof {
            lemma_entries_map_props(self.entries@);
        }
        let ghost s0 = self.entries@;
        match self.find(path) {
            Some(i) => {
                self.entries.remove(i);
                proof {
                    assert(key_views(self.entries@) =~= key_views(s0).remove(i as int));
                    lemma_key_views_remove_no_duplicates(s0, i as int);
                    lemma_entries_map_remove(s0, i as int);
                }
            },
            None => {
                proof {
                    assert(self@ =~= old(self)@.remove(path@));
                }
            },
        }
    }
}

proof fn lemma_key_views_remove_no_duplicates(s: Seq<(String, String)>, i: int)
    requires
        0 <= i < s.len(),
        key_views(s).no_duplicates(),
    ensures
        key_views(s).remove(i).no_duplicates(),
{
    let k = key_views(s);
    assert forall|a: int, b: int|
        0 <= a < b < k.remove(i).len() implies k.remove(i)[a] != k.remove(i)[b] by {
        let ra = if a < i {
            a
        } else {
            a + 1
        };
        let rb = if b < i {
            b
        } else {
            b + 1
        };
        assert(k.remove(i)[a] == k[ra]);
        assert(k.remove(i)[b] == k[rb]);
    }
}

/// Updating the entry at a key's own index rewrites that key's value.
proof fn lemma_entries_map_update(s: Seq<(String, String)>, i: int, p: (String, String))
    requires
        0 <= i < s.len(),
        key_views(s).no_duplicates(),
        s[i].0@ == p.0@,
    ensures
        entries_map(s.update(i, p)) == entries_map(s).insert(p.0@, p.1@),
    decreases s.len(),
{
    let k = p.0@;
    let s2 = s.update(i, p);
    if i == s.len() - 1 {
        assert(s2.drop_last() =~= s.drop_last());
        assert(entries_map(s2) =~= entries_map(s).insert(p.0@, p.1@));
    } else {
        assert(key_views(s.drop_last()) =~= key_views(s).drop_last());
        assert(key_views(s)[i] == k);
        assert(key_views(s)[s.len() - 1] == s.last().0@);
        assert(s.last().0@ != k);
        lemma_entries_map_update(s.drop_last(), i, p);
        assert(s2.drop_last() =~= s.drop_last().update(i, p));
        assert(s2.last() == s.last());
        assert(entries_map(s2) =~= entries_map(s).insert(p.0@, p.1@));
    }
}

/// Removing the entry at a key's own index deletes that key.
proof fn lemma_entries_map_remove(s: Seq<(String, String)>, i: int)
    requires
        0 <= i < s.len(),
        key_views(s).no_duplicates(),
    ensures
        entries_map(s.remove(i)) == entries_map(s).remove(s[i].0@),
    decreases s.len(),
{
    let k = s[i].0@;
    if i == s.len() - 1 {
        assert(s.remove(i) =~= s.drop_last());
        lemma_entries_map_props(s.drop_last());
        assert(key_views(s.drop_last()) =~= key_views(s).drop_last());
        assert forall|j: int| 0 <= j < s.len() - 1 implies key_views(s)[j] != k by {
            assert(key_views(s)[s.len() - 1] == k);
        }
        assert(!key_views(s.drop_last()).contains(k)) by {
            if key_views(s.drop_last()).contains(k) {
                let j = choose|j: int|
                    0 <= j < key_views(s.drop_last()).len() && key_views(s.drop_last())[j] == k;
                assert(key_views(s)[j] == k);
            }
        }
        assert(!entries_map(s.drop_last()).contains_key(k));
        assert(entries_map(s.remove(i)) =~= entries_map(s).remove(k));
    } else {
        assert(key_views(s.drop_last()) =~= key_views(s).drop_last());
        assert(key_views(s)[i] == k);
        assert(key_views(s)[s.len() - 1] == s.last().0@);
        assert(s.last().0@ != k);
        lemma_entries_map_remove(s.drop_last(), i);
        assert(s.remove(i).drop_last() =~= s.drop_last().remove(i));
        assert(s.remove(i).last() == s.last());
        assert(entries_map(s.remove(i)) =~= entries_map(s).remove(k));
    }
}

} // verus!
