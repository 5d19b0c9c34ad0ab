//! Line-based file chunking and language detection.
//!
//! A file's text is split into lines, the lines into overlapping windows,
//! and every window becomes a chunk whose stable ID is a short digest of
//! `path:start-end`. The language comes from a static table keyed by exact
//! file name first, then by extension.

use vstd::prelude::*;
use vstd::seq_lib::*;

use crate::hashing::short_digest;
use crate::hashing::short_digest_of;
use crate::strutil::dec_of;
use crate::strutil::find_last_char;
use crate::strutil::last_index_of;
use crate::strutil::str_eq;
use crate::strutil::usize_to_string;
use vstd::utf8::encode_utf8;

verus! {

pub const DEFAULT_CHUNK_SIZE: usize = 50;

pub const DEFAULT_OVERLAP: usize = 10;

// ---------------------------------------------------------------------
// Splitting text into lines
// ---------------------------------------------------------------------

/// The index of the first newline in `s`, or `s.len()` when there is none.
pub open spec fn first_nl(s: Seq<char>) -> int
    decreases s.len(),
{
    if s.len() == 0 {
        0
    } else if s[0] == '\n' {
        0
    } else {
        1 + first_nl(s.drop_first())
    }
}

pub proof fn lemma_first_nl(s: Seq<char>)
    ensures
        0 <= first_nl(s) <= s.len(),
        forall|j: int| 0 <= j < first_nl(s) ==> s[j] != '\n',
        first_nl(s) < s.len() ==> s[first_nl(s)] == '\n',
    decreases s.len(),
{
    if s.len() > 0 && s[0] != '\n' {
        lemma_first_nl(s.drop_first());
        assert forall|j: int| 0 <= j < first_nl(s) implies s[j] != '\n' by {
            if j > 0 {
                assert(s.drop_first()[j - 1] == s[j]);
            }
        }
        if first_nl(s) < s.len() {
            assert(s.drop_first()[first_nl(s) - 1] == s[first_nl(s)]);
        }
    }
}

/// A line loses one trailing carriage return, mirroring how a `\r\n`
/// ending is treated as one line break.
pub open spec fn strip_cr(line: Seq<char>) -> Seq<char> {
    if line.len() > 0 && line.last() == '\r' {
        line.drop_last()
    } else {
        line
    }
}

/// The lines of a text: split at `\n`, one `\r` before each split point
/// removed, and no empty final line when the text ends with a newline.
pub open spec fn lines_of(s: Seq<char>) -> Seq<Seq<char>>
    decreases s.len(),
    via lines_of_decreases
{
    if s.len() == 0 {
        Seq::<Seq<char>>::empty()
    } else {
        let i = first_nl(s);
        if i == s.len() {
            seq![s]
        } else {
            seq![strip_cr(s.take(i))] + lines_of(s.skip(i + 1))
        }
    }
}

#[via_fn]
proof fn lines_of_decreases(s: Seq<char>) {
    lemma_first_nl(s);
}

proof fn lemma_first_nl_at(s: Seq<char>, k: int)
    requires
        0 <= k <= s.len(),
        forall|j: int| 0 <= j < k ==> s[j] != '\n',
        k < s.len() ==> s[k] == '\n',
    ensures
        first_nl(s) == k,
    decreases s.len(),
{
    if s.len() > 0 && s[0] != '\n' {
        assert(k > 0);
        assert(forall|j: int| 0 <= j < s.len() - 1 ==> s.drop_first()[j] == s[j + 1]);
        lemma_first_nl_at(s.drop_first(), k - 1);
    }
}

/// Unfolds `lines_of` at a newline found at index `i`, with no earlier
/// newline at or after `start`.
proof fn lemma_lines_of_step(s: Seq<char>, start: int, i: int)
    requires
        0 <= start <= i < s.len(),
        forall|j: int| start <= j < i ==> s[j] != '\n',
        s[i] == '\n',
    ensures
        lines_of(s.skip(start)) =~= seq![strip_cr(s.subrange(start, i))] + lines_of(
            s.skip(i + 1),
        ),
{
    let t = s.skip(start);
    assert(forall|j: int| 0 <= j < t.len() ==> t[j] == s[start + j]);
    lemma_first_nl_at(t, i - start);
    assert(t.take(i - start) =~= s.subrange(start, i));
    assert(t.skip(i - start + 1) =~= s.skip(i + 1));
}

/// Unfolds `lines_of` for a tail that holds no newline at all.
proof fn lemma_lines_of_tail(s: Seq<char>, start: int)
    requires
        0 <= start <= s.len(),
        forall|j: int| start <= j < s.len() ==> s[j] != '\n',
    ensures
        start < s.len() ==> lines_of(s.skip(start)) =~= seq![s.skip(start)],
        start == s.len() ==> lines_of(s.skip(start)) =~= Seq::<Seq<char>>::empty(),
{
    let t = s.skip(start);
    assert(forall|j: int| 0 <= j < t.len() ==> t[j] == s[start + j]);
    lemma_first_nl_at(t, t.len() as int);
}

/// The views of a vector of lines.
pub open spec fn line_views(lines: Seq<String>) -> Seq<Seq<char>> {
    lines.map_values(|l: String| l@)
}

/// Splits a text into its lines.
pub fn split_lines(content: &str) -> (r: Vec<String>)
    ensures
        line_views(r@) == lines_of(content@),
{
    let n = content.unicode_len();
    let mut r: Vec<String> = Vec::new();
    let mut start: usize = 0;
    let mut i: usize = 0;
    assert(content@.skip(0) == content@);
    while i < n
        invariant
            n == content@.len(),
            start <= i <= n,
            lines_of(content@) =~= line_views(r@) + lines_of(content@.skip(start as int)),
            forall|j: int| start <= j < i ==> content@[j] != '\n',
        decreases n - i,
    {
        if content.get_char(i) == '\n' {
            let line_end = if i > start && content.get_char(i - 1) == '\r' {
                i - 1
            } else {
                i
            };
            let line = content.substring_char(start, line_end);
            proof {
                lemma_lines_of_step(content@, start as int, i as int);
                assert(line@ =~= strip_cr(content@.subrange(start as int, i as int)));
            }
            let ghost old_r = r@;
            r.push(line.to_owned());
            proof {
                assert(line_views(r@) =~= line_views(old_r).push(line@));
            }
            start = i + 1;
        }
        i += 1;
    }
    proof {
        lemma_lines_of_tail(content@, start as int);
    }
    if start < n {
        let line = content.substring_char(start, n);
        let ghost old_r = r@;
        r.push(line.to_owned());
        proof {
            assert(line@ =~= content@.skip(start as int));
            assert(line_views(r@) =~= line_views(old_r).push(line@));
        }
    }
    r
}

// ---------------------------------------------------------------------
// Joining a window of lines back into one text
// ---------------------------------------------------------------------

/// Lines joined with single newlines, no trailing newline.
pub open spec fn join_nl(ls: Seq<Seq<char>>) -> Seq<char>
    decreases ls.len(),
{
    if ls.len() == 0 {
        Seq::<char>::empty()
    } else if ls.len() == 1 {
        ls[0]
    } else {
        join_nl(ls.drop_last()) + seq!['\n'] + ls.last()
    }
}

/// Joins `lines[from..to]` with newlines.
pub fn join_lines(lines: &Vec<String>, from: usize, to: usize) -> (r: String)
    requires
        from <= to <= lines@.len(),
    ensures
        r@ == join_nl(line_views(lines@).subrange(from as int, to as int)),
{
    let ghost full = line_views(lines@);
    let mut r = String::new();
    let mut k = from;
    assert(full.subrange(from as int, from as int) =~= Seq::<Seq<char>>::empty());
    while k < to
        invariant
            from <= k <= to <= lines@.len(),
            full == line_views(lines@),
            r@ == join_nl(full.subrange(from as int, k as int)),
        decreases to - k,
    {
        if k > from {
            r.append("\n");
            proof {
                reveal_strlit("\n");
            }
        }
        r.append(lines[k].as_str());
        proof {
            let prev = full.subrange(from as int, k as int);
            let cur = full.subrange(from as int, k + 1);
            assert(cur.drop_last() =~= prev);
            assert(cur.last() == full[k as int]);
            if k > from {
                assert(r@ =~= join_nl(prev) + seq!['\n'] + full[k as int]);
            } else {
                assert(r@ =~= full[k as int]);
            }
        }
        k += 1;
    }
    r
}

// ---------------------------------------------------------------------
// Stable chunk identifiers
// ---------------------------------------------------------------------

/// The text hashed to form a chunk's stable ID: `path:start-end`.
pub open spec fn chunk_key(path: Seq<char>, start_line: int, end_line: int) -> Seq<char> {
    path + seq![':'] + dec_of(start_line) + seq!['-'] + dec_of(end_line)
}

/// A chunk's stable ID: the short digest of its key. It depends on the
/// path and the line bounds alone, never on the chunk's text.
pub open spec fn chunk_id_of(path: Seq<char>, start_line: int, end_line: int) -> Seq<char> {
    short_digest_of(encode_utf8(chunk_key(path, start_line, end_line)))
}

/// Computes a chunk's stable ID.
pub fn generate_chunk_id(file_path: &str, start_line: usize, end_line: usize) -> (r: String)
    ensures
        r@ == chunk_id_of(file_path@, start_line as int, end_line as int),
        r@.len() == 16,
{
    let mut key = file_path.to_owned();
    key.append(":");
    let start_str = usize_to_string(start_line);
    key.append(start_str.as_str());
    key.append("-");
    let end_str = usize_to_string(end_line);
    key.append(end_str.as_str());
    proof {
        reveal_strlit(":");
        reveal_strlit("-");
        assert(key@ =~= chunk_key(file_path@, start_line as int, end_line as int));
    }
    short_digest(key.as_str().as_bytes())
}

/// The stable ID is a function of the path and the line bounds alone:
/// two IDs obtained for the same triple are the same string.
pub proof fn lemma_chunk_id_deterministic(
    r1: Seq<char>,
    r2: Seq<char>,
    path: Seq<char>,
    start_line: int,
    end_line: int,
)
    requires
        r1 == chunk_id_of(path, start_line, end_line),
        r2 == chunk_id_of(path, start_line, end_line),
    ensures
        r1 == r2,
{
}

// ---------------------------------------------------------------------
// Chunk windows
// ---------------------------------------------------------------------

/// The 1-based, inclusive line ranges of the chunks of a file with `n`
/// lines, starting at 0-based line `start`: each window spans up to
/// `size` lines, clipped at the file's end, and the next window starts
/// `overlap` lines before the previous one ended.
pub open spec fn chunk_windows(start: int, n: int, size: int, overlap: int) -> Seq<(int, int)>
    decreases n - start,
{
    if !(0 <= start < n && 0 < size && 0 <= overlap < size) {
        Seq::<(int, int)>::empty()
    } else {
        let end = if start + size <= n {
            start + size
        } else {
            n
        };
        if end == n {
            seq![(start + 1, end)]
        } else {
            seq![(start + 1, end)] + chunk_windows(end - overlap, n, size, overlap)
        }
    }
}

/// Consecutive windows overlap by exactly `overlap` lines: the next
/// window begins `overlap` lines before the previous one ended.
pub proof fn lemma_consecutive_windows_overlap(
    start: int,
    n: int,
    size: int,
    overlap: int,
    i: int,
)
    requires
        0 <= i,
        i + 1 < chunk_windows(start, n, size, overlap).len(),
    ensures
        ({
            let ws = chunk_windows(start, n, size, overlap);
            ws[i].1 - ws[i + 1].0 + 1 == overlap
        }),
    decreases n - start,
{
    let ws = chunk_windows(start, n, size, overlap);
    assert(0 <= start < n && 0 < size && 0 <= overlap < size);
    let end = if start + size <= n {
        start + size
    } else {
        n
    };
    assert(end != n);
    let rest = chunk_windows(end - overlap, n, size, overlap);
    if i == 0 {
        assert(rest.len() > 0);
        assert(0 <= end - overlap < n);
        assert(ws[1] == rest[0]);
        assert(rest[0].0 == end - overlap + 1);
    } else {
        lemma_consecutive_windows_overlap(end - overlap, n, size, overlap, i - 1);
        assert(ws[i] == rest[i - 1]);
        assert(ws[i + 1] == rest[i]);
    }
}

// ---------------------------------------------------------------------
// Chunks
// ---------------------------------------------------------------------

/// One contiguous line range of one file, with its text and stable ID.
pub struct CodeChunk {
    pub chunk_id: String,
    pub file_path: String,
    pub language: String,
    pub start_line: usize,
    pub end_line: usize,
    pub content: String,
}

/// The line ranges that a sequence of chunks covers.
pub open spec fn windows_of_chunks(chunks: Seq<CodeChunk>) -> Seq<(int, int)> {
    chunks.map_values(|c: CodeChunk| (c.start_line as int, c.end_line as int))
}

/// Every field of `c` is what the chunk for window `(c.start_line,
/// c.end_line)` of this file must hold.
pub open spec fn chunk_well_formed(c: CodeChunk, path: Seq<char>, ls: Seq<Seq<char>>) -> bool {
    &&& 1 <= c.start_line <= c.end_line <= ls.len()
    &&& c.file_path@ == path
    &&& c.language@ == spec_detect_language(path)
    &&& c.content@ == join_nl(ls.subrange(c.start_line - 1, c.end_line as int))
    &&& c.chunk_id@ == chunk_id_of(path, c.start_line as int, c.end_line as int)
}

/// The chunk size that applies when the caller names none.
pub open spec fn spec_chunk_size(chunk_size: Option<usize>) -> usize {
    match chunk_size {
        Some(c) => c,
        None => DEFAULT_CHUNK_SIZE,
    }
}

/// The overlap that applies when the caller names none.
pub open spec fn spec_overlap(overlap: Option<usize>) -> usize {
    match overlap {
        Some(o) => o,
        None => DEFAULT_OVERLAP,
    }
}

/// Splits a file's text into overlapping chunks of whole lines.
///
/// An empty file yields no chunks; a file of at most `chunk_size` lines
/// yields exactly one chunk spanning all its lines.
pub fn split_file(
    file_path: &str,
    content: &str,
    chunk_size: Option<usize>,
    overlap: Option<usize>,
) -> (r: Vec<CodeChunk>)
    requires
        spec_overlap(overlap) < spec_chunk_size(chunk_size),
    ensures
        ({
            let ls = lines_of(content@);
            let ws = chunk_windows(
                0,
                ls.len() as int,
                spec_chunk_size(chunk_size) as int,
                spec_overlap(overlap) as int,
            );
            &&& windows_of_chunks(r@) == ws
            &&& forall|i: int|
                0 <= i < r@.len() ==> chunk_well_formed(#[trigger] r@[i], file_path@, ls)
            &&& ls.len() == 0 ==> r@.len() == 0
            &&& 0 < ls.len() <= spec_chunk_size(chunk_size) ==> (r@.len() == 1
                && r@[0].start_line == 1 && r@[0].end_line == ls.len())
        }),
{
    let cs = match chunk_size {
        Some(c) => c,
        None => DEFAULT_CHUNK_SIZE,
    };
    let ov = match overlap {
        Some(o) => o,
        None => DEFAULT_OVERLAP,
    };
    let lines = split_lines(content);
    let language = detect_language(file_path);
    let mut chunks: Vec<CodeChunk> = Vec::new();
    let n = lines.len();
    let ghost ls = lines_of(content@);
    let ghost ws = chunk_windows(0, ls.len() as int, cs as int, ov as int);
    if n == 0 {
        assert(windows_of_chunks(chunks@) =~= ws);
        return chunks;
    }
    let mut start: usize = 0;
    loop
        invariant_except_break
            n == lines@.len(),
            ls == line_views(lines@),
            ws == chunk_windows(0, ls.len() as int, cs as int, ov as int),
            language@ == spec_detect_language(file_path@),
            0 < cs,
            ov < cs,
            start < n,
            ws =~= windows_of_chunks(chunks@) + chunk_windows(
                start as int,
                n as int,
                cs as int,
                ov as int,
            ),
            forall|i: int|
                0 <= i < chunks@.len() ==> chunk_well_formed(#[trigger] chunks@[i], file_path@, ls),
        ensures
            ws =~= windows_of_chunks(chunks@),
            forall|i: int|
                0 <= i < chunks@.len() ==> chunk_well_formed(#[trigger] chunks@[i], file_path@, ls),
        decreases n - start,
    {
        let end = if cs <= n - start {
            start + cs
        } else {
            n
        };
        let window_content = join_lines(&lines, start, end);
        let id = generate_chunk_id(file_path, start + 1, end);
        let ghost old_chunks = chunks@;
        let chunk = CodeChunk {
            chunk_id: id,
            file_path: file_path.to_owned(),
            language: language.clone(),
            start_line: start + 1,
            end_line: end,
            content: window_content,
        };
        chunks.push(chunk);
        proof {
            assert(windows_of_chunks(chunks@) =~= windows_of_chunks(old_chunks).push(
                ((start + 1) as int, end as int),
            ));
        }
        if end >= n {
            proof {
                assert(chunk_windows(start as int, n as int, cs as int, ov as int)
                    =~= seq![((start + 1) as int, end as int)]);
            }
            break;
        }
        proof {
            assert(chunk_windows(start as int, n as int, cs as int, ov as int)
                =~= seq![((start + 1) as int, end as int)] + chunk_windows(
                (end - ov) as int,
                n as int,
                cs as int,
                ov as int,
            ));
        }
        start = end - ov;
    }
    proof {
        if 0 < ls.len() <= cs {
            assert(ws =~= seq![(1int, ls.len() as int)]);
            assert(windows_of_chunks(chunks@)[0] == (
                chunks@[0].start_line as int,
                chunks@[0].end_line as int,
            ));
        }
    }
    chunks
}


// ---------------------------------------------------------------------
// Language detection
// ---------------------------------------------------------------------

/// The views of a table of string pairs.
pub open spec fn pairs_view(t: Seq<(String, String)>) -> Seq<(Seq<char>, Seq<char>)> {
    t.map_values(|p: (String, String)| (p.0@, p.1@))
}

/// Appends one key/value pair to the table.
fn put(t: &mut Vec<(String, String)>, key: &str, value: &str)
    ensures
        pairs_view(final(t)@) == pairs_view(old(t)@).push((key@, value@)),
{
    let ghost t0 = t@;
    t.push((key.to_owned(), value.to_owned()));
    proof {
        assert(pairs_view(t@) =~= pairs_view(t0).push((key@, value@)));
    }
}

/// One block of the language table.
pub open spec fn table_part0() -> Seq<(Seq<char>, Seq<char>)> {
    seq![
        (".rs"@, "rust"@),
        (".py"@, "python"@),
        (".js"@, "javascript"@),
        (".jsx"@, "javascript"@),
        (".ts"@, "typescript"@),
        (".tsx"@, "typescript"@),
        (".java"@, "java"@),
        (".go"@, "go"@),
        (".c"@, "c"@),
        (".cpp"@, "cpp"@),
        (".cc"@, "cpp"@),
        (".cxx"@, "cpp"@),
        (".h"@, "c"@),
        (".hpp"@, "cpp"@),
        (".cs"@, "csharp"@),
        (".php"@, "php"@),
        (".rb"@, "ruby"@),
        (".swift"@, "swift"@),
        (".kt"@, "kotlin"@),
        (".kts"@, "kotlin"@),
        (".scala"@, "scala"@),
        (".sc"@, "scala"@),
        (".m"@, "objective-c"@),
        (".mm"@, "objective-c"@),
        (".sh"@, "shell"@),
        (".bash"@, "shell"@),
        (".zsh"@, "shell"@),
        (".fish"@, "shell"@),
        (".ps1"@, "powershell"@),
        (".sql"@, "sql"@),
    ]
}

#[verifier::rlimit(50)]
fn fill_part0(t: &mut Vec<(String, String)>)
    ensures
        pairs_view(final(t)@) =~= pairs_view(old(t)@) + table_part0(),
{
    let ghost t0 = t@;
    put(t, ".rs", "rust");
    put(t, ".py", "python");
    put(t, ".js", "javascript");
    put(t, ".jsx", "javascript");
    put(t, ".ts", "typescript");
    put(t, ".tsx", "typescript");
    put(t, ".java", "java");
    put(t, ".go", "go");
    put(t, ".c", "c");
    put(t, ".cpp", "cpp");
    put(t, ".cc", "cpp");
    put(t, ".cxx", "cpp");
    put(t, ".h", "c");
    put(t, ".hpp", "cpp");
    put(t, ".cs", "csharp");
    put(t, ".php", "php");
    put(t, ".rb", "ruby");
    put(t, ".swift", "swift");
    put(t, ".kt", "kotlin");
    put(t, ".kts", "kotlin");
    put(t, ".scala", "scala");
    put(t, ".sc", "scala");
    put(t, ".m", "objective-c");
    put(t, ".mm", "objective-c");
    put(t, ".sh", "shell");
    put(t, ".bash", "shell");
    put(t, ".zsh", "shell");
    put(t, ".fish", "shell");
    put(t, ".ps1", "powershell");
    put(t, ".sql", "sql");
    proof {
        assert(pairs_view(t@) =~= pairs_view(t0) + table_part0());
    }
}

/// One block of the language table.
pub open spec fn table_part1() -> Seq<(Seq<char>, Seq<char>)> {
    seq![
        (".pl"@, "perl"@),
        (".pm"@, "perl"@),
        (".lua"@, "lua"@),
        (".r"@, "r"@),
        (".R"@, "r"@),
        (".jl"@, "julia"@),
        (".dart"@, "dart"@),
        (".nim"@, "nim"@),
        (".cr"@, "crystal"@),
        (".elm"@, "elm"@),
        (".erl"@, "erlang"@),
        (".hrl"@, "erlang"@),
        (".ex"@, "elixir"@),
        (".exs"@, "elixir"@),
        (".clj"@, "clojure"@),
        (".cljs"@, "clojure"@),
        (".cljc"@, "clojure"@),
        (".hs"@, "haskell"@),
        (".lhs"@, "haskell"@),
        (".fs"@, "fsharp"@),
        (".fsi"@, "fsharp"@),
        (".fsx"@, "fsharp"@),
        (".ml"@, "ocaml"@),
        (".mli"@, "ocaml"@),
        (".v"@, "verilog"@),
        (".vh"@, "verilog"@),
        (".vhd"@, "vhdl"@),
        (".sv"@, "systemverilog"@),
        (".svh"@, "systemverilog"@),
        (".cob"@, "cobol"@),
    ]
}

#[verifier::rlimit(50)]
fn fill_part1(t: &mut Vec<(String, String)>)
    ensures
        pairs_view(final(t)@) =~= pairs_view(old(t)@) + table_part1(),
{
    let ghost t0 = t@;
    put(t, ".pl", "perl");
    put(t, ".pm", "perl");
    put(t, ".lua", "lua");
    put(t, ".r", "r");
    put(t, ".R", "r");
    put(t, ".jl", "julia");
    put(t, ".dart", "dart");
    put(t, ".nim", "nim");
    put(t, ".cr", "crystal");
    put(t, ".elm", "elm");
    put(t, ".erl", "erlang");
    put(t, ".hrl", "erlang");
    put(t, ".ex", "elixir");
    put(t, ".exs", "elixir");
    put(t, ".clj", "clojure");
    put(t, ".cljs", "clojure");
    put(t, ".cljc", "clojure");
    put(t, ".hs", "haskell");
    put(t, ".lhs", "haskell");
    put(t, ".fs", "fsharp");
    put(t, ".fsi", "fsharp");
    put(t, ".fsx", "fsharp");
    put(t, ".ml", "ocaml");
    put(t, ".mli", "ocaml");
    put(t, ".v", "verilog");
    put(t, ".vh", "verilog");
    put(t, ".vhd", "vhdl");
    put(t, ".sv", "systemverilog");
    put(t, ".svh", "systemverilog");
    put(t, ".cob", "cobol");
    proof {
        assert(pairs_view(t@) =~= pairs_view(t0) + table_part1());
    }
}

/// One block of the language table.
pub open spec fn table_part2() -> Seq<(Seq<char>, Seq<char>)> {
    seq![
        (".cbl"@, "cobol"@),
        (".cpy"@, "cobol"@),
        (".f"@, "fortran"@),
        (".f90"@, "fortran"@),
        (".f95"@, "fortran"@),
        (".f03"@, "fortran"@),
        (".f08"@, "fortran"@),
        (".adb"@, "ada"@),
        (".ads"@, "ada"@),
        (".pas"@, "pascal"@),
        (".pp"@, "pascal"@),
        (".inc"@, "pascal"@),
        (".asm"@, "assembly"@),
        (".s"@, "assembly"@),
        (".S"@, "assembly"@),
        (".nasm"@, "assembly"@),
        (".makefile"@, "makefile"@),
        ("Makefile"@, "makefile"@),
        (".mk"@, "makefile"@),
        (".cmake"@, "cmake"@),
        ("CMakeLists.txt"@, "cmake"@),
        (".gradle"@, "gradle"@),
        ("build.gradle"@, "gradle"@),
        ("build.gradle.kts"@, "gradle"@),
        (".xml"@, "xml"@),
        (".html"@, "html"@),
        (".htm"@, "html"@),
        (".css"@, "css"@),
        (".scss"@, "scss"@),
        (".sass"@, "sass"@),
    ]
}

#[verifier::rlimit(50)]
fn fill_part2(t: &mut Vec<(String, String)>)
    ensures
        pairs_view(final(t)@) =~= pairs_view(old(t)@) + table_part2(),
{
    let ghost t0 = t@;
    put(t, ".cbl", "cobol");
    put(t, ".cpy", "cobol");
    put(t, ".f", "fortran");
    put(t, ".f90", "fortran");
    put(t, ".f95", "fortran");
    put(t, ".f03", "fortran");
    put(t, ".f08", "fortran");
    put(t, ".adb", "ada");
    put(t, ".ads", "ada");
    put(t, ".pas", "pascal");
    put(t, ".pp", "pascal");
    put(t, ".inc", "pascal");
    put(t, ".asm", "assembly");
    put(t, ".s", "assembly");
    put(t, ".S", "assembly");
    put(t, ".nasm", "assembly");
    put(t, ".makefile", "makefile");
    put(t, "Makefile", "makefile");
    put(t, ".mk", "makefile");
    put(t, ".cmake", "cmake");
    put(t, "CMakeLists.txt", "cmake");
    put(t, ".gradle", "gradle");
    put(t, "build.gradle", "gradle");
    put(t, "build.gradle.kts", "gradle");
    put(t, ".xml", "xml");
    put(t, ".html", "html");
    put(t, ".htm", "html");
    put(t, ".css", "css");
    put(t, ".scss", "scss");
    put(t, ".sass", "sass");
    proof {
        assert(pairs_view(t@) =~= pairs_view(t0) + table_part2());
    }
}

/// One block of the language table.
pub open spec fn table_part3() -> Seq<(Seq<char>, Seq<char>)> {
    seq![
        (".less"@, "less"@),
        (".json"@, "json"@),
        (".yaml"@, "yaml"@),
        (".yml"@, "yaml"@),
        (".toml"@, "toml"@),
        (".ini"@, "ini"@),
        (".cfg"@, "config"@),
        (".conf"@, "config"@),
        (".md"@, "markdown"@),
        (".markdown"@, "markdown"@),
        (".rst"@, "rst"@),
        (".tex"@, "tex"@),
        (".bib"@, "bibtex"@),
        (".dockerfile"@, "dockerfile"@),
        ("Dockerfile"@, "dockerfile"@),
        (".dockerignore"@, "dockerignore"@),
        (".gitignore"@, "gitignore"@),
        (".gitattributes"@, "gitattributes"@),
        (".gitmodules"@, "gitmodules"@),
        (".gitconfig"@, "gitconfig"@),
        (".editorconfig"@, "editorconfig"@),
        (".eslintrc"@, "eslint"@),
        (".eslintrc.js"@, "eslint"@),
        (".eslintrc.json"@, "eslint"@),
        (".eslintrc.yaml"@, "eslint"@),
        (".eslintrc.yml"@, "eslint"@),
        (".prettierrc"@, "prettier"@),
        (".prettierrc.js"@, "prettier"@),
        (".prettierrc.json"@, "prettier"@),
        (".prettierrc.yaml"@, "prettier"@),
    ]
}

#[verifier::rlimit(50)]
fn fill_part3(t: &mut Vec<(String, String)>)
    ensures
        pairs_view(final(t)@) =~= pairs_view(old(t)@) + table_part3(),
{
    let ghost t0 = t@;
    put(t, ".less", "less");
    put(t, ".json", "json");
    put(t, ".yaml", "yaml");
    put(t, ".yml", "yaml");
    put(t, ".toml", "toml");
    put(t, ".ini", "ini");
    put(t, ".cfg", "config");
    put(t, ".conf", "config");
    put(t, ".md", "markdown");
    put(t, ".markdown", "markdown");
    put(t, ".rst", "rst");
    put(t, ".tex", "tex");
    put(t, ".bib", "bibtex");
    put(t, ".dockerfile", "dockerfile");
    put(t, "Dockerfile", "dockerfile");
    put(t, ".dockerignore", "dockerignore");
    put(t, ".gitignore", "gitignore");
    put(t, ".gitattributes", "gitattributes");
    put(t, ".gitmodules", "gitmodules");
    put(t, ".gitconfig", "gitconfig");
    put(t, ".editorconfig", "editorconfig");
    put(t, ".eslintrc", "eslint");
    put(t, ".eslintrc.js", "eslint");
    put(t, ".eslintrc.json", "eslint");
    put(t, ".eslintrc.yaml", "eslint");
    put(t, ".eslintrc.yml", "eslint");
    put(t, ".prettierrc", "prettier");
    put(t, ".prettierrc.js", "prettier");
    put(t, ".prettierrc.json", "prettier");
    put(t, ".prettierrc.yaml", "prettier");
    proof {
        assert(pairs_view(t@) =~= pairs_view(t0) + table_part3());
    }
}

/// One block of the language table.
pub open spec fn table_part4() -> Seq<(Seq<char>, Seq<char>)> {
    seq![
        (".prettierrc.yml"@, "prettier"@),
        (".babelrc"@, "babel"@),
        (".babelrc.js"@, "babel"@),
        (".babelrc.json"@, "babel"@),
        (".tsconfig.json"@, "tsconfig"@),
        (".pylintrc"@, "pylint"@),
        (".flake8"@, "flake8"@),
        (".mypy.ini"@, "mypy"@),
        (".isort.cfg"@, "isort"@),
        ("setup.py"@, "python"@),
        ("setup.cfg"@, "python"@),
        ("pyproject.toml"@, "python"@),
        ("requirements.txt"@, "python"@),
        ("Pipfile"@, "python"@),
        ("poetry.lock"@, "python"@),
        (".npmignore"@, "npm"@),
        (".yarnignore"@, "yarn"@),
        ("package.json"@, "npm"@),
        ("package-lock.json"@, "npm"@),
        ("yarn.lock"@, "yarn"@),
        ("pnpm-lock.yaml"@, "pnpm"@),
        ("Cargo.toml"@, "rust"@),
        ("Cargo.lock"@, "rust"@),
        ("go.mod"@, "go"@),
        ("go.sum"@, "go"@),
        ("Gopkg.toml"@, "go"@),
        ("Gopkg.lock"@, "go"@),
        ("composer.json"@, "php"@),
        ("composer.lock"@, "php"@),
        ("Gemfile"@, "ruby"@),
    ]
}

#[verifier::rlimit(50)]
fn fill_part4(t: &mut Vec<(String, String)>)
    ensures
        pairs_view(final(t)@) =~= pairs_view(old(t)@) + table_part4(),
{
    let ghost t0 = t@;
    put(t, ".prettierrc.yml", "prettier");
    put(t, ".babelrc", "babel");
    put(t, ".babelrc.js", "babel");
    put(t, ".babelrc.json", "babel");
    put(t, ".tsconfig.json", "tsconfig");
    put(t, ".pylintrc", "pylint");
    put(t, ".flake8", "flake8");
    put(t, ".mypy.ini", "mypy");
    put(t, ".isort.cfg", "isort");
    put(t, "setup.py", "python");
    put(t, "setup.cfg", "python");
    put(t, "pyproject.toml", "python");
    put(t, "requirements.txt", "python");
    put(t, "Pipfile", "python");
    put(t, "poetry.lock", "python");
    put(t, ".npmignore", "npm");
    put(t, ".yarnignore", "yarn");
    put(t, "package.json", "npm");
    put(t, "package-lock.json", "npm");
    put(t, "yarn.lock", "yarn");
    put(t, "pnpm-lock.yaml", "pnpm");
    put(t, "Cargo.toml", "rust");
    put(t, "Cargo.lock", "rust");
    put(t, "go.mod", "go");
    put(t, "go.sum", "go");
    put(t, "Gopkg.toml", "go");
    put(t, "Gopkg.lock", "go");
    put(t, "composer.json", "php");
    put(t, "composer.lock", "php");
    put(t, "Gemfile", "ruby");
    proof {
        assert(pairs_view(t@) =~= pairs_view(t0) + table_part4());
    }
}

/// One block of the language table.
pub open spec fn table_part5() -> Seq<(Seq<char>, Seq<char>)> {
    seq![
        ("Gemfile.lock"@, "ruby"@),
        ("Rakefile"@, "ruby"@),
        ("Podfile"@, "ruby"@),
        ("Podfile.lock"@, "ruby"@),
        (".gemspec"@, "ruby"@),
        ("pubspec.yaml"@, "dart"@),
        ("pubspec.lock"@, "dart"@),
        ("mix.exs"@, "elixir"@),
        ("mix.lock"@, "elixir"@),
        ("rebar.config"@, "erlang"@),
        ("project.clj"@, "clojure"@),
        ("build.sbt"@, "scala"@),
        ("pom.xml"@, "maven"@),
        ("build.gradle"@, "gradle"@),
        ("build.gradle.kts"@, "gradle"@),
        ("settings.gradle"@, "gradle"@),
        ("settings.gradle.kts"@, "gradle"@),
        ("gradle.properties"@, "gradle"@),
        (".gitlab-ci.yml"@, "gitlab-ci"@),
        (".travis.yml"@, "travis"@),
        ("appveyor.yml"@, "appveyor"@),
        ("Jenkinsfile"@, "jenkins"@),
        ("azure-pipelines.yml"@, "azure-pipelines"@),
        ("circleci"@, "circleci"@),
        (".circleci"@, "circleci"@),
        ("workflow.yml"@, "github-actions"@),
        (".github/workflows/*.yml"@, "github-actions"@),
        (".github/workflows/*.yaml"@, "github-actions"@),
        ("terraform"@, "terraform"@),
        (".tf"@, "terraform"@),
    ]
}

#[verifier::rlimit(50)]
fn fill_part5(t: &mut Vec<(String, String)>)
    ensures
        pairs_view(final(t)@) =~= pairs_view(old(t)@) + table_part5(),
{
    let ghost t0 = t@;
    put(t, "Gemfile.lock", "ruby");
    put(t, "Rakefile", "ruby");
    put(t, "Podfile", "ruby");
    put(t, "Podfile.lock", "ruby");
    put(t, ".gemspec", "ruby");
    put(t, "pubspec.yaml", "dart");
    put(t, "pubspec.lock", "dart");
    put(t, "mix.exs", "elixir");
    put(t, "mix.lock", "elixir");
    put(t, "rebar.config", "erlang");
    put(t, "project.clj", "clojure");
    put(t, "build.sbt", "scala");
    put(t, "pom.xml", "maven");
    put(t, "build.gradle", "gradle");
    put(t, "build.gradle.kts", "gradle");
    put(t, "settings.gradle", "gradle");
    put(t, "settings.gradle.kts", "gradle");
    put(t, "gradle.properties", "gradle");
    put(t, ".gitlab-ci.yml", "gitlab-ci");
    put(t, ".travis.yml", "travis");
    put(t, "appveyor.yml", "appveyor");
    put(t, "Jenkinsfile", "jenkins");
    put(t, "azure-pipelines.yml", "azure-pipelines");
    put(t, "circleci", "circleci");
    put(t, ".circleci", "circleci");
    put(t, "workflow.yml", "github-actions");
    put(t, ".github/workflows/*.yml", "github-actions");
    put(t, ".github/workflows/*.yaml", "github-actions");
    put(t, "terraform", "terraform");
    put(t, ".tf", "terraform");
    proof {
        assert(pairs_view(t@) =~= pairs_view(t0) + table_part5());
    }
}

/// One block of the language table.
pub open spec fn table_part6() -> Seq<(Seq<char>, Seq<char>)> {
    seq![
        (".tfvars"@, "terraform"@),
        ("hcl"@, "hcl"@),
        ("nomad"@, "nomad"@),
        (".nomad"@, "nomad"@),
        ("consul"@, "consul"@),
        (".hcl"@, "consul"@),
        ("vault"@, "vault"@),
        (".vault"@, "vault"@),
        (".proto"@, "protobuf"@),
        (".graphql"@, "graphql"@),
        (".gql"@, "graphql"@),
        (".prisma"@, "prisma"@),
        (".pug"@, "pug"@),
        (".jade"@, "pug"@),
        (".hbs"@, "handlebars"@),
        (".handlebars"@, "handlebars"@),
        (".mustache"@, "mustache"@),
        (".ejs"@, "ejs"@),
        (".liquid"@, "liquid"@),
        (".twig"@, "twig"@),
        (".blade.php"@, "blade"@),
        (".volt"@, "volt"@),
        (".slim"@, "slim"@),
        (".erb"@, "erb"@),
        (".rhtml"@, "erb"@),
        (".haml"@, "haml"@),
        (".razor"@, "razor"@),
        (".aspx"@, "aspx"@),
        (".ascx"@, "aspx"@),
        (".master"@, "aspx"@),
    ]
}

#[verifier::rlimit(50)]
fn fill_part6(t: &mut Vec<(String, String)>)
    ensures
        pairs_view(final(t)@) =~= pairs_view(old(t)@) + table_part6(),
{
    let ghost t0 = t@;
    put(t, ".tfvars", "terraform");
    put(t, "hcl", "hcl");
    put(t, "nomad", "nomad");
    put(t, ".nomad", "nomad");
    put(t, "consul", "consul");
    put(t, ".hcl", "consul");
    put(t, "vault", "vault");
    put(t, ".vault", "vault");
    put(t, ".proto", "protobuf");
    put(t, ".graphql", "graphql");
    put(t, ".gql", "graphql");
    put(t, ".prisma", "prisma");
    put(t, ".pug", "pug");
    put(t, ".jade", "pug");
    put(t, ".hbs", "handlebars");
    put(t, ".handlebars", "handlebars");
    put(t, ".mustache", "mustache");
    put(t, ".ejs", "ejs");
    put(t, ".liquid", "liquid");
    put(t, ".twig", "twig");
    put(t, ".blade.php", "blade");
    put(t, ".volt", "volt");
    put(t, ".slim", "slim");
    put(t, ".erb", "erb");
    put(t, ".rhtml", "erb");
    put(t, ".haml", "haml");
    put(t, ".razor", "razor");
    put(t, ".aspx", "aspx");
    put(t, ".ascx", "aspx");
    put(t, ".master", "aspx");
    proof {
        assert(pairs_view(t@) =~= pairs_view(t0) + table_part6());
    }
}

/// One block of the language table.
pub open spec fn table_part7() -> Seq<(Seq<char>, Seq<char>)> {
    seq![
        (".vue"@, "vue"@),
        (".svelte"@, "svelte"@),
        (".wasm"@, "wasm"@),
        (".wat"@, "wat"@),
        (".sol"@, "solidity"@),
        (".vy"@, "vyper"@),
        (".cairo"@, "cairo"@),
        (".move"@, "move"@),
        (".cap"@, "capsule"@),
        (".wit"@, "wit"@),
        (".wast"@, "wast"@),
        (".tla"@, "tla+"@),
        (".dfy"@, "dafny"@),
        (".spl"@, "sparkle"@),
        (".coq"@, "coq"@),
        (".v"@, "coq"@),
        (".lean"@, "lean"@),
        (".agda"@, "agda"@),
        (".idr"@, "idris"@),
        (".lidr"@, "idris"@),
        (".purescript"@, "purescript"@),
        (".purs"@, "purescript"@),
        (".elm"@, "elm"@),
        (".glsl"@, "glsl"@),
        (".vert"@, "glsl"@),
        (".frag"@, "glsl"@),
        (".hlsl"@, "hlsl"@),
        (".wgsl"@, "wgsl"@),
        (".metal"@, "metal"@),
        (".slang"@, "slang"@),
    ]
}

#[verifier::rlimit(50)]
fn fill_part7(t: &mut Vec<(String, String)>)
    ensures
        pairs_view(final(t)@) =~= pairs_view(old(t)@) + table_part7(),
{
    let ghost t0 = t@;
    put(t, ".vue", "vue");
    put(t, ".svelte", "svelte");
    put(t, ".wasm", "wasm");
    put(t, ".wat", "wat");
    put(t, ".sol", "solidity");
    put(t, ".vy", "vyper");
    put(t, ".cairo", "cairo");
    put(t, ".move", "move");
    put(t, ".cap", "capsule");
    put(t, ".wit", "wit");
    put(t, ".wast", "wast");
    put(t, ".tla", "tla+");
    put(t, ".dfy", "dafny");
    put(t, ".spl", "sparkle");
    put(t, ".coq", "coq");
    put(t, ".v", "coq");
    put(t, ".lean", "lean");
    put(t, ".agda", "agda");
    put(t, ".idr", "idris");
    put(t, ".lidr", "idris");
    put(t, ".purescript", "purescript");
    put(t, ".purs", "purescript");
    put(t, ".elm", "elm");
    put(t, ".glsl", "glsl");
    put(t, ".vert", "glsl");
    put(t, ".frag", "glsl");
    put(t, ".hlsl", "hlsl");
    put(t, ".wgsl", "wgsl");
    put(t, ".metal", "metal");
    put(t, ".slang", "slang");
    proof {
        assert(pairs_view(t@) =~= pairs_view(t0) + table_part7());
    }
}

/// One block of the language table.
pub open spec fn table_part8() -> Seq<(Seq<char>, Seq<char>)> {
    seq![
        (".spv"@, "spirv"@),
        (".d"@, "d"@),
        (".di"@, "d"@),
        (".nim"@, "nim"@),
        (".nims"@, "nim"@),
        (".cr"@, "crystal"@),
        (".ecr"@, "crystal"@),
        (".slang"@, "slang"@),
        (".zig"@, "zig"@),
        (".zon"@, "zig"@),
        (".odin"@, "odin"@),
        (".jai"@, "jai"@),
        (".pony"@, "pony"@),
        (".lobster"@, "lobster"@),
        (".wren"@, "wren"@),
        (".nelua"@, "nelua"@),
        (".fyr"@, "fyr"@),
        (".ferret"@, "ferret"@),
        (".gleam"@, "gleam"@),
        (".gleam"@, "gleam"@),
        (".inko"@, "inko"@),
        (".mojo"@, "mojo"@),
        (".wat"@, "wat"@),
        (".wit"@, "wit"@),
        (".wast"@, "wast"@),
        (".witx"@, "witx"@),
        (".wai"@, "wai"@),
        (".wai-bindgen"@, "wai-bindgen"@),
        (".webidl"@, "webidl"@),
        (".idl"@, "idl"@),
    ]
}

#[verifier::rlimit(50)]
fn fill_part8(t: &mut Vec<(String, String)>)
    ensures
        pairs_view(final(t)@) =~= pairs_view(old(t)@) + table_part8(),
{
    let ghost t0 = t@;
    put(t, ".spv", "spirv");
    put(t, ".d", "d");
    put(t, ".di", "d");
    put(t, ".nim", "nim");
    put(t, ".nims", "nim");
    put(t, ".cr", "crystal");
    put(t, ".ecr", "crystal");
    put(t, ".slang", "slang");
    put(t, ".zig", "zig");
    put(t, ".zon", "zig");
    put(t, ".odin", "odin");
    put(t, ".jai", "jai");
    put(t, ".pony", "pony");
    put(t, ".lobster", "lobster");
    put(t, ".wren", "wren");
    put(t, ".nelua", "nelua");
    put(t, ".fyr", "fyr");
    put(t, ".ferret", "ferret");
    put(t, ".gleam", "gleam");
    put(t, ".gleam", "gleam");
    put(t, ".inko", "inko");
    put(t, ".mojo", "mojo");
    put(t, ".wat", "wat");
    put(t, ".wit", "wit");
    put(t, ".wast", "wast");
    put(t, ".witx", "witx");
    put(t, ".wai", "wai");
    put(t, ".wai-bindgen", "wai-bindgen");
    put(t, ".webidl", "webidl");
    put(t, ".idl", "idl");
    proof {
        assert(pairs_view(t@) =~= pairs_view(t0) + table_part8());
    }
}

/// One block of the language table.
pub open spec fn table_part9() -> Seq<(Seq<char>, Seq<char>)> {
    seq![
        (".odl"@, "idl"@),
        (".thrift"@, "thrift"@),
        (".avsc"@, "avro"@),
        (".avdl"@, "avro"@),
        (".avpr"@, "avro"@),
        (".proto3"@, "protobuf"@),
        (".protodevel"@, "protobuf"@),
        (".fbs"@, "flatbuffers"@),
        (".capnp"@, "capnproto"@),
        (".asn"@, "asn1"@),
        (".asn1"@, "asn1"@),
        (".der"@, "asn1"@),
        (".cer"@, "asn1"@),
        (".pem"@, "pem"@),
        (".crt"@, "pem"@),
        (".key"@, "key"@),
        (".p12"@, "p12"@),
        (".pfx"@, "p12"@),
        (".csr"@, "csr"@),
        (".tsr"@, "csr"@),
        (".der"@, "der"@),
    ]
}

#[verifier::rlimit(50)]
fn fill_part9(t: &mut Vec<(String, String)>)
    ensures
        pairs_view(final(t)@) =~= pairs_view(old(t)@) + table_part9(),
{
    let ghost t0 = t@;
    put(t, ".odl", "idl");
    put(t, ".thrift", "thrift");
    put(t, ".avsc", "avro");
    put(t, ".avdl", "avro");
    put(t, ".avpr", "avro");
    put(t, ".proto3", "protobuf");
    put(t, ".protodevel", "protobuf");
    put(t, ".fbs", "flatbuffers");
    put(t, ".capnp", "capnproto");
    put(t, ".asn", "asn1");
    put(t, ".asn1", "asn1");
    put(t, ".der", "asn1");
    put(t, ".cer", "asn1");
    put(t, ".pem", "pem");
    put(t, ".crt", "pem");
    put(t, ".key", "key");
    put(t, ".p12", "p12");
    put(t, ".pfx", "p12");
    put(t, ".csr", "csr");
    put(t, ".tsr", "csr");
    put(t, ".der", "der");
    proof {
        assert(pairs_view(t@) =~= pairs_view(t0) + table_part9());
    }
}

/// The full language table: a later entry with the same key overrides
/// an earlier one.
pub open spec fn language_table() -> Seq<(Seq<char>, Seq<char>)> {
    table_part0() + table_part1() + table_part2() + table_part3() + table_part4() + table_part5() + table_part6() + table_part7() + table_part8() + table_part9()
}

/// Builds the language table: file names and extensions paired with the
/// language each one indicates.
pub fn language_map() -> (r: Vec<(String, String)>)
    ensures
        pairs_view(r@) == language_table(),
{
    let mut t: Vec<(String, String)> = Vec::new();
    fill_part0(&mut t);
    fill_part1(&mut t);
    fill_part2(&mut t);
    fill_part3(&mut t);
    fill_part4(&mut t);
    fill_part5(&mut t);
    fill_part6(&mut t);
    fill_part7(&mut t);
    fill_part8(&mut t);
    fill_part9(&mut t);
    proof {
        assert(pairs_view(t@) =~= language_table());
    }
    t
}

/// The value of the last pair whose key equals `key`, if any.
pub open spec fn table_lookup(t: Seq<(Seq<char>, Seq<char>)>, key: Seq<char>) -> Option<
    Seq<char>,
>
    decreases t.len(),
{
    if t.len() == 0 {
        None
    } else if t.last().0 == key {
        Some(t.last().1)
    } else {
        table_lookup(t.drop_last(), key)
    }
}

/// Looks `key` up in the table; the last matching pair wins.
pub fn lookup_value(table: &Vec<(String, String)>, key: &str) -> (r: Option<String>)
    ensures
        match r {
            Some(v) => table_lookup(pairs_view(table@), key@) == Some(v@),
            None => table_lookup(pairs_view(table@), key@) is None,
        },
{
    let ghost t = pairs_view(table@);
    let mut i: usize = table.len();
    assert(t.take(table@.len() as int) =~= t);
    while i > 0
        invariant
            t == pairs_view(table@),
            i <= table@.len(),
            table_lookup(t, key@) == table_lookup(t.take(i as int), key@),
        decreases i,
    {
        i -= 1;
        let hit = str_eq(table[i].0.as_str(), key);
        proof {
            assert(t.take(i + 1).last() == t[i as int]);
            assert(t.take(i + 1).drop_last() =~= t.take(i as int));
        }
        if hit {
            return Some(table[i].1.clone());
        }
    }
    assert(t.take(0) =~= Seq::<(Seq<char>, Seq<char>)>::empty());
    None
}

/// The file name of a path: what follows the last slash.
pub open spec fn spec_file_name(path: Seq<char>) -> Seq<char> {
    path.skip(last_index_of(path, '/') + 1)
}

/// The extension key of a file name: the last dot and what follows it,
/// provided the dot is not the name's first character.
pub open spec fn spec_ext_key(name: Seq<char>) -> Option<Seq<char>> {
    let p = last_index_of(name, '.');
    if p <= 0 {
        None
    } else {
        Some(name.skip(p))
    }
}

/// The language of a path: an exact file-name entry wins over an
/// extension entry; a path matching neither is of unknown language.
pub open spec fn spec_detect_language(path: Seq<char>) -> Seq<char> {
    let name = spec_file_name(path);
    match table_lookup(language_table(), name) {
        Some(v) => v,
        None => match spec_ext_key(name) {
            Some(k) => match table_lookup(language_table(), k) {
                Some(v) => v,
                None => "unknown"@,
            },
            None => "unknown"@,
        },
    }
}

/// Detects a file's language from its name or extension.
pub fn detect_language(file_path: &str) -> (r: String)
    ensures
        r@ == spec_detect_language(file_path@),
{
    let table = language_map();
    let n = file_path.unicode_len();
    proof {
        crate::strutil::lemma_last_index_of(file_path@, '/');
    }
    let name = match find_last_char(file_path, '/') {
        Some(i) => file_path.substring_char(i + 1, n),
        None => file_path.substring_char(0, n),
    };
    assert(name@ =~= spec_file_name(file_path@));
    if let Some(v) = lookup_value(&table, name) {
        return v;
    }
    let nn = name.unicode_len();
    proof {
        crate::strutil::lemma_last_index_of(name@, '.');
    }
    if let Some(p) = find_last_char(name, '.') {
        if p > 0 {
            let key = name.substring_char(p, nn);
            assert(key@ =~= name@.skip(p as int));
            if let Some(v) = lookup_value(&table, key) {
                return v;
            }
        }
    }
    String::from_str("unknown")
}

} // verus!
