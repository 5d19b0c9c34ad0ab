//! Indexing-run logic: the deny-list file filter, change detection
//! against the manifest, and the per-file chunk records that one run
//! produces. Walking the tree, reading files and writing to the chunk
//! store are the caller's business.

use vstd::prelude::*;
use vstd::seq_lib::*;

use crate::config::str_views;
use crate::config::IndexingConfig;
use crate::hashing::short_digest;
use crate::hashing::short_digest_of;
use crate::manifest::key_views;
use crate::manifest::Changes;
use crate::manifest::Manifest;
use crate::splitter::chunk_well_formed;
use crate::splitter::chunk_windows;
use crate::splitter::lines_of;
use crate::splitter::spec_chunk_size;
use crate::splitter::spec_ext_key;
use crate::splitter::spec_file_name;
use crate::splitter::spec_overlap;
use crate::splitter::split_file;
use crate::splitter::windows_of_chunks;
use crate::strutil::contains_seq;
use crate::strutil::contains_str;
use crate::strutil::ends_with_str;
use crate::strutil::find_last_char;
use crate::strutil::starts_with_str;
use crate::strutil::str_eq;

verus! {

// ---------------------------------------------------------------------
// Options and statistics
// ---------------------------------------------------------------------

/// What one indexing run is asked to do.
pub struct IndexingOptions {
    pub chunk_size: Option<usize>,
    pub chunk_overlap: Option<usize>,
    pub force: bool,
    pub verbose: bool,
    pub use_gitignore: bool,
    pub model_name: Option<String>,
}

impl Default for IndexingOptions {
    /// The default options: incremental, quiet, honouring ignore files.
    fn default() -> (r: Self)
        ensures
            r.chunk_size is None,
            r.chunk_overlap is None,
            !r.force,
            !r.verbose,
            r.use_gitignore,
            r.model_name is None,
    {
        IndexingOptions {
            chunk_size: None,
            chunk_overlap: None,
            force: false,
            verbose: false,
            use_gitignore: true,
            model_name: None,
        }
    }
}

/// What one indexing run did.
pub struct IndexingStats {
    pub files_indexed: usize,
    pub files_skipped: usize,
    pub files_removed: usize,
    pub chunks_created: usize,
    pub chunks_removed: usize,
    pub duration_ms: u64,
}

impl Default for IndexingStats {
    /// All counters at zero.
    fn default() -> (r: Self)
        ensures
            r.files_indexed == 0,
            r.files_skipped == 0,
            r.files_removed == 0,
            r.chunks_created == 0,
            r.chunks_removed == 0,
            r.duration_ms == 0,
    {
        IndexingStats {
            files_indexed: 0,
            files_skipped: 0,
            files_removed: 0,
            chunks_created: 0,
            chunks_removed: 0,
            duration_ms: 0,
        }
    }
}

/// Counts of what one codebase holds in the chunk store.
pub struct Stats {
    pub total_chunks: i64,
    pub total_files: i64,
    pub total_codebases: i64,
}

/// An indexing run's options, held while the caller drives the run.
pub struct Indexer {
    pub config: IndexingOptions,
}

impl Indexer {
    /// An indexer that will run with the given options.
    pub fn new(config: IndexingOptions) -> (r: Self)
        ensures
            r.config == config,
    {
        Indexer { config }
    }
}

// ---------------------------------------------------------------------
// The static deny-list filter
// ---------------------------------------------------------------------

/// Whether a path lies in the skip directory `dir`: it starts with
/// `dir/` or holds `/dir/` anywhere.
pub open spec fn skip_dir_hit(path: Seq<char>, dir: Seq<char>) -> bool {
    ||| (dir + seq!['/']).is_prefix_of(path)
    ||| contains_seq(path, seq!['/'] + dir + seq!['/'])
}

/// A pattern with its leading stars removed.
pub open spec fn strip_leading_stars(p: Seq<char>) -> Seq<char>
    decreases p.len(),
{
    if p.len() > 0 && p[0] == '*' {
        strip_leading_stars(p.drop_first())
    } else {
        p
    }
}

proof fn lemma_strip_leading_stars(p: Seq<char>, k: int)
    requires
        0 <= k <= p.len(),
        forall|j: int| 0 <= j < k ==> p[j] == '*',
        k < p.len() ==> p[k] != '*',
    ensures
        strip_leading_stars(p) =~= p.skip(k),
    decreases k,
{
    if k == 0 {
        assert(p.skip(0) =~= p);
    } else {
        assert(p[0] == '*');
        assert(forall|j: int| 0 <= j < p.len() - 1 ==> p.drop_first()[j] == p[j + 1]);
        lemma_strip_leading_stars(p.drop_first(), k - 1);
        assert(p.drop_first().skip(k - 1) =~= p.skip(k));
    }
}

/// Removes the leading stars of a pattern.
fn strip_stars(p: &str) -> (r: &str)
    ensures
        r@ == strip_leading_stars(p@),
{
    let n = p.unicode_len();
    let mut k: usize = 0;
    while k < n && p.get_char(k) == '*'
        invariant
            n == p@.len(),
            k <= n,
            forall|j: int| 0 <= j < k ==> p@[j] == '*',
        decreases n - k,
    {
        k += 1;
    }
    proof {
        lemma_strip_leading_stars(p@, k as int);
    }
    let r = p.substring_char(k, n);
    assert(r@ =~= p@.skip(k as int));
    r
}

/// Whether a file name matches the skip pattern `pat`: a pattern that
/// starts with `*` matches by its star-free suffix, any other pattern
/// by equality.
pub open spec fn skip_file_hit(name: Seq<char>, pat: Seq<char>) -> bool {
    if pat.len() > 0 && pat[0] == '*' {
        strip_leading_stars(pat).is_suffix_of(name)
    } else {
        name == pat
    }
}

/// ASCII lowercasing of one character.
pub open spec fn lower_char(c: char) -> char {
    if c == 'A' {
        'a'
    } else if c == 'B' {
        'b'
    } else if c == 'C' {
        'c'
    } else if c == 'D' {
        'd'
    } else if c == 'E' {
        'e'
    } else if c == 'F' {
        'f'
    } else if c == 'G' {
        'g'
    } else if c == 'H' {
        'h'
    } else if c == 'I' {
        'i'
    } else if c == 'J' {
        'j'
    } else if c == 'K' {
        'k'
    } else if c == 'L' {
        'l'
    } else if c == 'M' {
        'm'
    } else if c == 'N' {
        'n'
    } else if c == 'O' {
        'o'
    } else if c == 'P' {
        'p'
    } else if c == 'Q' {
        'q'
    } else if c == 'R' {
        'r'
    } else if c == 'S' {
        's'
    } else if c == 'T' {
        't'
    } else if c == 'U' {
        'u'
    } else if c == 'V' {
        'v'
    } else if c == 'W' {
        'w'
    } else if c == 'X' {
        'x'
    } else if c == 'Y' {
        'y'
    } else if c == 'Z' {
        'z'
    } else {
        c
    }
}

/// ASCII lowercasing of a character sequence.
pub open spec fn lower_seq(s: Seq<char>) -> Seq<char> {
    s.map_values(|c: char| lower_char(c))
}

/// Lowercases one character.
fn to_lower_char(c: char) -> (r: char)
    ensures
        r == lower_char(c),
{
    match c {
        'A' => 'a',
        'B' => 'b',
        'C' => 'c',
        'D' => 'd',
        'E' => 'e',
        'F' => 'f',
        'G' => 'g',
        'H' => 'h',
        'I' => 'i',
        'J' => 'j',
        'K' => 'k',
        'L' => 'l',
        'M' => 'm',
        'N' => 'n',
        'O' => 'o',
        'P' => 'p',
        'Q' => 'q',
        'R' => 'r',
        'S' => 's',
        'T' => 't',
        'U' => 'u',
        'V' => 'v',
        'W' => 'w',
        'X' => 'x',
        'Y' => 'y',
        'Z' => 'z',
        _ => c,
    }
}

/// Lowercases a string, ASCII letters only. The extension keys and
/// model names this library compares are ASCII, where this agrees with
/// full Unicode lowercasing; a non-ASCII letter passes through.
pub fn to_lower(s: &str) -> (r: String)
    ensures
        r@ == lower_seq(s@),
{
    let n = s.unicode_len();
    let mut r = String::new();
    let mut chars: Vec<char> = Vec::new();
    let mut i: usize = 0;
    while i < n
        invariant
            n == s@.len(),
            i <= n,
            chars@ == lower_seq(s@).take(i as int),
        decreases n - i,
    {
        chars.push(to_lower_char(s.get_char(i)));
        proof {
            assert(chars@ =~= lower_seq(s@).take(i + 1));
        }
        i += 1;
    }
    proof {
        assert(lower_seq(s@).take(n as int) =~= lower_seq(s@));
    }
    chars_to_string(chars)
}

/// Relies on String as FromIterator<char>: collecting characters yields
/// the string of exactly those characters.
#[verifier::external_body]
fn chars_to_string(chars: Vec<char>) -> (r: String)
    ensures
        r@ == chars@,
{
    chars.into_iter().collect()
}

/// Whether the deny lists exclude a file: it lies in a skip directory,
/// its name matches a skip pattern, or it has an extension that the
/// allow list does not name.
pub open spec fn spec_should_skip(
    path: Seq<char>,
    dirs: Seq<Seq<char>>,
    pats: Seq<Seq<char>>,
    exts: Seq<Seq<char>>,
) -> bool {
    ||| exists|i: int| 0 <= i < dirs.len() && skip_dir_hit(path, #[trigger] dirs[i])
    ||| exists|i: int|
        0 <= i < pats.len() && skip_file_hit(spec_file_name(path), #[trigger] pats[i])
    ||| match spec_ext_key(spec_file_name(path)) {
        Some(k) => !exts.contains(lower_seq(k)),
        None => false,
    }
}

/// Applies the deny lists of `config` to a repository-relative path.
pub fn should_skip_file(rel_path: &str, config: &IndexingConfig) -> (r: bool)
    ensures
        r == spec_should_skip(
            rel_path@,
            str_views(config.skip_dirs@),
            str_views(config.skip_files@),
            str_views(config.extensions@),
        ),
{
    let ghost dirs = str_views(config.skip_dirs@);
    let ghost pats = str_views(config.skip_files@);
    let ghost exts = str_views(config.extensions@);
    proof {
        reveal_strlit("/");
    }
    let nd = config.skip_dirs.len();
    let mut i: usize = 0;
    while i < nd
        invariant
            nd == config.skip_dirs@.len(),
            i <= nd,
            dirs == str_views(config.skip_dirs@),
            forall|j: int| 0 <= j < i ==> !skip_dir_hit(rel_path@, #[trigger] dirs[j]),
            "/"@ == seq!['/'],
        decreases nd - i,
    {
        let dir = &config.skip_dirs[i];
        let mut head = dir.clone();
        head.append("/");
        let mut inner = String::from_str("/");
        inner.append(dir.as_str());
        inner.append("/");
        proof {
            assert(head@ =~= dirs[i as int] + seq!['/']);
            assert(inner@ =~= seq!['/'] + dirs[i as int] + seq!['/']);
        }
        if starts_with_str(rel_path, head.as_str()) || contains_str(rel_path, inner.as_str()) {
            assert(skip_dir_hit(rel_path@, dirs[i as int]));
            return true;
        }
        i += 1;
    }
    let n = rel_path.unicode_len();
    proof {
        crate::strutil::lemma_last_index_of(rel_path@, '/');
    }
    let name = match find_last_char(rel_path, '/') {
        Some(p) => rel_path.substring_char(p + 1, n),
        None => rel_path.substring_char(0, n),
    };
    assert(name@ =~= spec_file_name(rel_path@));
    let np = config.skip_files.len();
    let mut i: usize = 0;
    while i < np
        invariant
            np == config.skip_files@.len(),
            i <= np,
            pats == str_views(config.skip_files@),
            name@ == spec_file_name(rel_path@),
            forall|j: int| 0 <= j < i ==> !skip_file_hit(name@, #[trigger] pats[j]),
        decreases np - i,
    {
        let pat = &config.skip_files[i];
        let pn = pat.as_str().unicode_len();
        let hit = if pn > 0 && pat.as_str().get_char(0) == '*' {
            let suffix = strip_stars(pat.as_str());
            ends_with_str(name, suffix)
        } else {
            str_eq(name, pat.as_str())
        };
        if hit {
            assert(skip_file_hit(name@, pats[i as int]));
            return true;
        }
        i += 1;
    }
    let nn = name.unicode_len();
    proof {
        crate::strutil::lemma_last_index_of(name@, '.');
    }
    if let Some(p) = find_last_char(name, '.') {
        if p > 0 {
            let key = name.substring_char(p, nn);
            assert(key@ =~= name@.skip(p as int));
            let lower_key = to_lower(key);
            return !crate::config::list_contains(&config.extensions, lower_key.as_str());
        }
    }
    false
}

// ---------------------------------------------------------------------
// Change detection
// ---------------------------------------------------------------------

/// One scanned file: where it lies, and the hash and size of its bytes.
pub struct FileHash {
    pub path: String,
    pub relative_path: String,
    pub hash: String,
    pub size: u64,
}

/// The `(path, hash)` views of scanned files.
pub open spec fn file_hash_pairs(s: Seq<FileHash>) -> Seq<(Seq<char>, Seq<char>)> {
    s.map_values(|f: FileHash| (f.relative_path@, f.hash@))
}

/// The path views of scanned files.
pub open spec fn file_hash_keys(s: Seq<FileHash>) -> Seq<Seq<char>> {
    s.map_values(|f: FileHash| f.relative_path@)
}

/// The `(path, hash)` views of a change list.
pub open spec fn change_pairs(s: Seq<(String, String)>) -> Seq<(Seq<char>, Seq<char>)> {
    s.map_values(|p: (String, String)| (p.0@, p.1@))
}

/// The current files that the manifest does not know, in scan order.
pub open spec fn spec_added(
    cur: Seq<(Seq<char>, Seq<char>)>,
    m: Map<Seq<char>, Seq<char>>,
) -> Seq<(Seq<char>, Seq<char>)> {
    cur.filter(|p: (Seq<char>, Seq<char>)| !m.contains_key(p.0))
}

/// The current files whose hash differs from the manifest's, in scan
/// order.
pub open spec fn spec_modified(
    cur: Seq<(Seq<char>, Seq<char>)>,
    m: Map<Seq<char>, Seq<char>>,
) -> Seq<(Seq<char>, Seq<char>)> {
    cur.filter(|p: (Seq<char>, Seq<char>)| m.contains_key(p.0) && m[p.0] != p.1)
}

/// The short digest of a file's raw bytes.
pub fn compute_file_hash(content: &[u8]) -> (r: String)
    ensures
        r@ == short_digest_of(content@),
        r@.len() == 16,
{
    short_digest(content)
}

/// Whether any scanned file has the given relative path.
fn scan_contains_key(files: &Vec<FileHash>, key: &str) -> (r: bool)
    ensures
        r == file_hash_keys(files@).contains(key@),
{
    let n = files.len();
    let mut i: usize = 0;
    while i < n
        invariant
            n == files@.len(),
            i <= n,
            forall|j: int| 0 <= j < i ==> file_hash_keys(files@)[j] != key@,
        decreases n - i,
    {
        if str_eq(files[i].relative_path.as_str(), key) {
            assert(file_hash_keys(files@)[i as int] == key@);
            return true;
        }
        assert(file_hash_keys(files@)[i as int] == files@[i as int].relative_path@);
        i += 1;
    }
    proof {
        if file_hash_keys(files@).contains(key@) {
            let j = choose|j: int|
                0 <= j < file_hash_keys(files@).len() && file_hash_keys(files@)[j] == key@;
            assert(file_hash_keys(files@)[j] != key@);
        }
    }
    false
}

/// Compares the scanned tree against the manifest: a file the manifest
/// does not know is added; one with a different hash is modified; a
/// manifest entry with no file left is removed; an unchanged file is in
/// none of the three lists.
pub fn detect_changes(file_hashes: &Vec<FileHash>, manifest: &Manifest) -> (r: Changes)
    requires
        manifest.wf(),
    ensures
        change_pairs(r.added@) == spec_added(file_hash_pairs(file_hashes@), manifest@),
        change_pairs(r.modified@) == spec_modified(file_hash_pairs(file_hashes@), manifest@),
        str_views(r.removed@).no_duplicates(),
        forall|k: Seq<char>| #[trigger]
            str_views(r.removed@).contains(k) <==> (manifest@.contains_key(k) && !file_hash_keys(
                file_hashes@,
            ).contains(k)),
    {
    let ghost cur = file_hash_pairs(file_hashes@);
    let ghost m = manifest@;
    let mut added: Vec<(String, String)> = Vec::new();
    let mut modified: Vec<(String, String)> = Vec::new();
    let mut removed: Vec<String> = Vec::new();
    let n = file_hashes.len();
    let mut i: usize = 0;
    proof {
        assert(cur.take(0) =~= Seq::<(Seq<char>, Seq<char>)>::empty());
        reveal(Seq::filter);
    }
    while i < n
        invariant
            n == file_hashes@.len(),
            i <= n,
            cur == file_hash_pairs(file_hashes@),
            m == manifest@,
            manifest.wf(),
            change_pairs(added@) == spec_added(cur.take(i as int), m),
            change_pairs(modified@) == spec_modified(cur.take(i as int), m),
        decreases n - i,
    {
        let fh = &file_hashes[i];
        let ghost prev = cur.take(i as int);
        proof {
            assert(cur.take(i + 1).drop_last() =~= prev);
            assert(cur.take(i + 1).last() == cur[i as int]);
            reveal(Seq::filter);
        }
        match manifest.get(fh.relative_path.as_str()) {
            Some(old_hash) => {
                if !str_eq(old_hash.as_str(), fh.hash.as_str()) {
                    let ghost before = modified@;
                    modified.push((fh.relative_path.clone(), fh.hash.clone()));
                    proof {
                        assert(change_pairs(modified@) =~= change_pairs(before).push(
                            cur[i as int],
                        ));
                    }
                }
            },
            None => {
                let ghost before = added@;
                added.push((fh.relative_path.clone(), fh.hash.clone()));
                proof {
                    assert(change_pairs(added@) =~= change_pairs(before).push(cur[i as int]));
                }
            },
        }
        i += 1;
    }
    proof {
        assert(cur.take(n as int) =~= cur);
    }
    let entries = manifest.entries();
    let ne = entries.len();
    let mut j: usize = 0;
    while j < ne
        invariant
            ne == entries@.len(),
            entries_ok(entries@, manifest),
            manifest.wf(),
            j <= ne,
            str_views(removed@).no_duplicates(),
            forall|k: Seq<char>| #[trigger]
                str_views(removed@).contains(k) <==> (key_views(entries@).take(j as int).contains(
                    k,
                ) && !file_hash_keys(file_hashes@).contains(k)),
        decreases ne - j,
    {
        let key = &entries[j].0;
        let ghost kv = key_views(entries@);
        proof {
            assert(kv.take(j + 1).drop_last() =~= kv.take(j as int));
            assert(kv[j as int] == entries@[j as int].0@);
        }
        if !scan_contains_key(file_hashes, key.as_str()) {
            let ghost before = removed@;
            removed.push(key.clone());
            proof {
                assert(str_views(removed@) =~= str_views(before).push(key@));
                assert forall|k: Seq<char>| #[trigger]
                    str_views(removed@).contains(k) <==> (kv.take(j + 1).contains(k)
                        && !file_hash_keys(file_hashes@).contains(k)) by {
                    if str_views(removed@).contains(k) {
                        let x = choose|x: int|
                            0 <= x < str_views(removed@).len() && (#[trigger] str_views(
                                removed@,
                            )[x]) == k;
                        if x < str_views(before).len() {
                            assert(str_views(before)[x] == k);
                            assert(str_views(before).contains(k));
                            assert(kv.take(j as int).contains(k) && !file_hash_keys(
                                file_hashes@,
                            ).contains(k));
                            let x2 = choose|x2: int|
                                0 <= x2 < j && (#[trigger] kv.take(j as int)[x2]) == k;
                            assert(kv.take(j + 1)[x2] == k);
                            assert(kv.take(j + 1).contains(k));
                        } else {
                            assert(k == key@);
                            assert(kv.take(j + 1)[j as int] == k);
                            assert(kv.take(j + 1).contains(k));
                        }
                    }
                    if kv.take(j + 1).contains(k) && !file_hash_keys(file_hashes@).contains(k) {
                        let x = choose|x: int|
                            0 <= x < kv.take(j + 1).len() && (#[trigger] kv.take(j + 1)[x]) == k;
                        if x < j {
                            assert(kv.take(j as int)[x] == k);
                            assert(kv.take(j as int).contains(k));
                            assert(str_views(before).contains(k));
                            let y = choose|y: int|
                                0 <= y < str_views(before).len() && (#[trigger] str_views(
                                    before,
                                )[y]) == k;
                            assert(str_views(removed@)[y] == k);
                            assert(str_views(removed@).contains(k));
                        } else {
                            assert(k == key@);
                            assert(str_views(removed@)[str_views(before).len() as int] == k);
                            assert(str_views(removed@).contains(k));
                        }
                    }
                }
                // the new key was not removed before, so no duplicate arises
                assert(!str_views(before).contains(key@)) by {
                    if str_views(before).contains(key@) {
                        assert(kv.take(j as int).contains(key@));
                        let x = choose|x: int|
                            0 <= x < j && (#[trigger] kv.take(j as int)[x]) == key@;
                        assert(kv[x] == key@);
                        assert(kv[j as int] == key@);
                    }
                }
                lemma_push_no_duplicates(str_views(before), key@);
            }
        } else {
            proof {
                assert forall|k: Seq<char>| #[trigger]
                    str_views(removed@).contains(k) <==> (kv.take(j + 1).contains(k)
                        && !file_hash_keys(file_hashes@).contains(k)) by {
                    if kv.take(j + 1).contains(k) && !file_hash_keys(file_hashes@).contains(k) {
                        let x = choose|x: int|
                            0 <= x < kv.take(j + 1).len() && (#[trigger] kv.take(j + 1)[x]) == k;
                        if x == j {
                            assert(k == key@);
                            assert(file_hash_keys(file_hashes@).contains(k));
                        }
                        assert(x < j);
                        assert(kv.take(j as int)[x] == k);
                        assert(kv.take(j as int).contains(k));
                        assert(str_views(removed@).contains(k));
                    }
                    if str_views(removed@).contains(k) {
                        assert(kv.take(j as int).contains(k));
                        let x = choose|x: int|
                            0 <= x < j && (#[trigger] kv.take(j as int)[x]) == k;
                        assert(kv.take(j + 1)[x] == k);
                        assert(kv.take(j + 1).contains(k));
                    }
                }
            }
        }
        j += 1;
    }
    proof {
        let kv = key_views(entries@);
        assert(kv.take(ne as int) =~= kv);
        crate::manifest::lemma_entries_map_props(entries@);
    }
    Changes { added, modified, removed }
}

/// What `Manifest::entries` guarantees, restated for loop invariants.
pub open spec fn entries_ok(entries: Seq<(String, String)>, manifest: &Manifest) -> bool {
    &&& crate::manifest::entries_map(entries) == manifest@
    &&& manifest.wf() ==> key_views(entries).no_duplicates()
}

proof fn lemma_push_no_duplicates(s: Seq<Seq<char>>, x: Seq<char>)
    requires
        s.no_duplicates(),
        !s.contains(x),
    ensures
        s.push(x).no_duplicates(),
{
    assert forall|a: int, b: int|
        0 <= a < b < s.push(x).len() implies s.push(x)[a] != s.push(x)[b] by {
        if b == s.len() {
            assert(s.push(x)[a] == s[a]);
            if s[a] == x {
                assert(s.contains(x));
            }
        }
    }
}

// ---------------------------------------------------------------------
// Chunk records
// ---------------------------------------------------------------------

/// One chunk as the chunk store holds it: its file, line range, text and
/// owning file's hash. The store assigns `id`; the embedding vector is
/// attached by the caller that computed it.
pub struct Chunk {
    pub id: Option<i64>,
    pub codebase_id: String,
    pub file_path: String,
    pub start_line: usize,
    pub end_line: usize,
    pub content: String,
    pub language: Option<String>,
    pub hash: String,
}

/// Every field of `c` is what the record for window `(c.start_line,
/// c.end_line)` of this file must hold.
pub open spec fn record_well_formed(
    c: Chunk,
    codebase_id: Seq<char>,
    path: Seq<char>,
    file_hash: Seq<char>,
    ls: Seq<Seq<char>>,
) -> bool {
    &&& c.id is None
    &&& c.codebase_id@ == codebase_id
    &&& c.file_path@ == path
    &&& 1 <= c.start_line <= c.end_line <= ls.len()
    &&& c.content@ == crate::splitter::join_nl(ls.subrange(c.start_line - 1, c.end_line as int))
    &&& match c.language {
        Some(l) => l@ == crate::splitter::spec_detect_language(path),
        None => false,
    }
    &&& c.hash@ == file_hash
}

/// The line ranges that a sequence of records covers.
pub open spec fn windows_of_records(s: Seq<Chunk>) -> Seq<(int, int)> {
    s.map_values(|c: Chunk| (c.start_line as int, c.end_line as int))
}

/// Turns one file's text into its chunk records: none for an empty
/// file, else one per chunk window, each carrying the codebase ID and
/// the owning file's content hash.
pub fn process_file_content(
    rel_path: &str,
    content: &str,
    codebase_id: &str,
    file_hash: &str,
    chunk_size: Option<usize>,
    chunk_overlap: Option<usize>,
) -> (r: Vec<Chunk>)
    requires
        spec_overlap(chunk_overlap) < spec_chunk_size(chunk_size),
    ensures
        ({
            let ls = lines_of(content@);
            let ws = chunk_windows(
                0,
                ls.len() as int,
                spec_chunk_size(chunk_size) as int,
                spec_overlap(chunk_overlap) as int,
            );
            &&& windows_of_records(r@) == ws
            &&& forall|i: int|
                0 <= i < r@.len() ==> record_well_formed(
                    #[trigger] r@[i],
                    codebase_id@,
                    rel_path@,
                    file_hash@,
                    ls,
                )
            &&& content@.len() == 0 ==> r@.len() == 0
        }),
{
    let ghost ls = lines_of(content@);
    let ghost ws = chunk_windows(
        0,
        ls.len() as int,
        spec_chunk_size(chunk_size) as int,
        spec_overlap(chunk_overlap) as int,
    );
    let mut out: Vec<Chunk> = Vec::new();
    if content.is_empty() {
        assert(windows_of_records(out@) =~= ws);
        return out;
    }
    let chunks = split_file(rel_path, content, chunk_size, chunk_overlap);
    let n = chunks.len();
    let mut k: usize = 0;
    while k < n
        invariant
            n == chunks@.len(),
            k <= n,
            ws == windows_of_chunks(chunks@),
            forall|i: int|
                0 <= i < n ==> chunk_well_formed(#[trigger] chunks@[i], rel_path@, ls),
            out@.len() == k,
            windows_of_records(out@) =~= windows_of_chunks(chunks@).take(k as int),
            forall|i: int|
                0 <= i < k ==> record_well_formed(
                    #[trigger] out@[i],
                    codebase_id@,
                    rel_path@,
                    file_hash@,
                    ls,
                ),
        decreases n - k,
    {
        let c = &chunks[k];
        let ghost before = out@;
        out.push(
            Chunk {
                id: None,
                codebase_id: codebase_id.to_owned(),
                file_path: c.file_path.clone(),
                start_line: c.start_line,
                end_line: c.end_line,
                content: c.content.clone(),
                language: Some(c.language.clone()),
                hash: file_hash.to_owned(),
            },
        );
        proof {
            assert(chunk_well_formed(chunks@[k as int], rel_path@, ls));
            assert(windows_of_records(out@) =~= windows_of_records(before).push(
                windows_of_chunks(chunks@)[k as int],
            ));
            assert(windows_of_chunks(chunks@).take(k + 1) =~= windows_of_chunks(
                chunks@,
            ).take(k as int).push(windows_of_chunks(chunks@)[k as int]));
        }
        k += 1;
    }
    proof {
        assert(windows_of_chunks(chunks@).take(n as int) =~= windows_of_chunks(chunks@));
    }
    out
}

/// Re-running indexing over an unchanged tree yields an empty change
/// set: when every scanned file carries the hash the manifest records
/// and every manifest entry still has its file, nothing is added,
/// modified or removed.
pub proof fn lemma_unchanged_tree_empty_diff(
    cur: Seq<(Seq<char>, Seq<char>)>,
    m: Map<Seq<char>, Seq<char>>,
    removed: Seq<Seq<char>>,
)
    requires
        forall|i: int|
            0 <= i < cur.len() ==> m.contains_key(#[trigger] cur[i].0) && m[cur[i].0] == cur[i].1,
        forall|k: Seq<char>| #[trigger]
            removed.contains(k) <==> (m.contains_key(k) && !cur.map_values(
                |p: (Seq<char>, Seq<char>)| p.0,
            ).contains(k)),
        forall|k: Seq<char>| #[trigger]
            m.contains_key(k) ==> cur.map_values(|p: (Seq<char>, Seq<char>)| p.0).contains(k),
    ensures
        spec_added(cur, m).len() == 0,
        spec_modified(cur, m).len() == 0,
        removed.len() == 0,
{
    let added = spec_added(cur, m);
    if added.len() > 0 {
        cur.lemma_filter_pred(|p: (Seq<char>, Seq<char>)| !m.contains_key(p.0), 0);
        let p = added[0];
        assert(cur.contains(p)) by {
            lemma_filter_subset(cur, |q: (Seq<char>, Seq<char>)| !m.contains_key(q.0), 0);
        }
        let i = choose|i: int| 0 <= i < cur.len() && cur[i] == p;
        assert(m.contains_key(cur[i].0));
    }
    let modified = spec_modified(cur, m);
    if modified.len() > 0 {
        cur.lemma_filter_pred(
            |p: (Seq<char>, Seq<char>)| m.contains_key(p.0) && m[p.0] != p.1,
            0,
        );
        let p = modified[0];
        assert(cur.contains(p)) by {
            lemma_filter_subset(cur, |q: (Seq<char>, Seq<char>)| m.contains_key(q.0) && m[q.0] != q.1, 0);
        }
        let i = choose|i: int| 0 <= i < cur.len() && cur[i] == p;
        assert(m[cur[i].0] == cur[i].1);
    }
    if removed.len() > 0 {
        let k = removed[0];
        assert(removed.contains(k));
    }
}

/// Whatever `filter` keeps was in the sequence.
proof fn lemma_filter_subset<A>(s: Seq<A>, pred: spec_fn(A) -> bool, i: int)
    requires
        0 <= i < s.filter(pred).len(),
    ensures
        s.contains(s.filter(pred)[i]),
    decreases s.len(),
{
    reveal(Seq::filter);
    if s.len() > 0 {
        let t = s.drop_last();
        if pred(s.last()) && i == s.filter(pred).len() - 1 {
            assert(s[s.len() - 1] == s.filter(pred)[i]);
        } else {
            lemma_filter_subset(t, pred, i);
            let j = choose|j: int| 0 <= j < t.len() && t[j] == t.filter(pred)[i];
            assert(s[j] == s.filter(pred)[i]);
        }
    }
}

} // verus!
