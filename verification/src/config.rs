//! Configuration: the tunable values that indexing, chunking and search
//! read, with their defaults. Loading a configuration file and applying
//! environment overrides is the caller's business; the defaults and the
//! shapes live here.

use vstd::prelude::*;
use vstd::seq_lib::*;

verus! {

/// The views of a list of strings.
pub open spec fn str_views(s: Seq<String>) -> Seq<Seq<char>> {
    s.map_values(|x: String| x@)
}

/// Whether a list of strings holds `x`.
pub fn list_contains(list: &Vec<String>, x: &str) -> (r: bool)
    ensures
        r == str_views(list@).contains(x@),
{
    let n = list.len();
    let mut i: usize = 0;
    while i < n
        invariant
            n == list@.len(),
            i <= n,
            forall|j: int| 0 <= j < i ==> str_views(list@)[j] != x@,
        decreases n - i,
    {
        if crate::strutil::str_eq(list[i].as_str(), x) {
            assert(str_views(list@)[i as int] == x@);
            assert(str_views(list@).contains(x@));
            return true;
        }
        assert(str_views(list@)[i as int] == list@[i as int]@);
        i += 1;
    }
    proof {
        if str_views(list@).contains(x@) {
            let j = choose|j: int| 0 <= j < str_views(list@).len() && str_views(list@)[j] == x@;
            assert(str_views(list@)[j] != x@);
        }
    }
    false
}

/// Appends one string to a list.
fn put_str(t: &mut Vec<String>, value: &str)
    ensures
        str_views(final(t)@) == str_views(old(t)@).push(value@),
{
    let ghost t0 = t@;
    t.push(value.to_owned());
    proof {
        assert(str_views(t@) =~= str_views(t0).push(value@));
    }
}

fn default_model_type() -> (r: String)
    ensures
        r@ == "minilm"@,
{
    String::from_str("minilm")
}

fn default_auto_download() -> (r: bool)
    ensures
        r,
{
    true
}

fn default_use_gitignore() -> (r: bool)
    ensures
        r,
{
    true
}

fn default_batch_size() -> (r: usize)
    ensures
        r == 32,
{
    32
}

fn default_chunk_size() -> (r: usize)
    ensures
        r == 50,
{
    50
}

fn default_chunk_overlap() -> (r: usize)
    ensures
        r == 10,
{
    10
}

fn default_limit() -> (r: usize)
    ensures
        r == 10,
{
    10
}

fn default_data_dir() -> (r: String)
    ensures
        r@ == "code-search"@,
{
    String::from_str("code-search")
}

fn default_db_name() -> (r: String)
    ensures
        r@ == "index.db"@,
{
    String::from_str("index.db")
}

/// One block of the default extensions list.
pub open spec fn spec_default_extensions_part0() -> Seq<Seq<char>> {
    seq![
        ".rs"@,
        ".py"@,
        ".js"@,
        ".jsx"@,
        ".ts"@,
        ".tsx"@,
        ".java"@,
        ".go"@,
        ".c"@,
        ".cpp"@,
        ".cc"@,
        ".cxx"@,
        ".h"@,
        ".hpp"@,
        ".cs"@,
        ".php"@,
        ".rb"@,
        ".swift"@,
        ".kt"@,
        ".kts"@,
        ".scala"@,
        ".sc"@,
        ".m"@,
        ".mm"@,
        ".sh"@,
        ".bash"@,
        ".zsh"@,
        ".fish"@,
        ".ps1"@,
        ".sql"@,
    ]
}

#[verifier::rlimit(50)]
fn default_extensions_part0(t: &mut Vec<String>)
    ensures
        str_views(final(t)@) =~= str_views(old(t)@) + spec_default_extensions_part0(),
{
    let ghost t0 = t@;
    put_str(t, ".rs");
    put_str(t, ".py");
    put_str(t, ".js");
    put_str(t, ".jsx");
    put_str(t, ".ts");
    put_str(t, ".tsx");
    put_str(t, ".java");
    put_str(t, ".go");
    put_str(t, ".c");
    put_str(t, ".cpp");
    put_str(t, ".cc");
    put_str(t, ".cxx");
    put_str(t, ".h");
    put_str(t, ".hpp");
    put_str(t, ".cs");
    put_str(t, ".php");
    put_str(t, ".rb");
    put_str(t, ".swift");
    put_str(t, ".kt");
    put_str(t, ".kts");
    put_str(t, ".scala");
    put_str(t, ".sc");
    put_str(t, ".m");
    put_str(t, ".mm");
    put_str(t, ".sh");
    put_str(t, ".bash");
    put_str(t, ".zsh");
    put_str(t, ".fish");
    put_str(t, ".ps1");
    put_str(t, ".sql");
    proof {
        assert(str_views(t@) =~= str_views(t0) + spec_default_extensions_part0());
    }
}

/// One block of the default extensions list.
pub open spec fn spec_default_extensions_part1() -> Seq<Seq<char>> {
    seq![
        ".pl"@,
        ".pm"@,
        ".lua"@,
        ".r"@,
        ".R"@,
        ".jl"@,
        ".dart"@,
        ".nim"@,
        ".cr"@,
        ".elm"@,
        ".erl"@,
        ".hrl"@,
        ".ex"@,
        ".exs"@,
        ".clj"@,
        ".cljs"@,
        ".cljc"@,
        ".hs"@,
        ".lhs"@,
        ".fs"@,
        ".fsi"@,
        ".fsx"@,
        ".ml"@,
        ".mli"@,
        ".v"@,
        ".vh"@,
        ".vhd"@,
        ".sv"@,
        ".svh"@,
        ".cob"@,
    ]
}

#[verifier::rlimit(50)]
fn default_extensions_part1(t: &mut Vec<String>)
    ensures
        str_views(final(t)@) =~= str_views(old(t)@) + spec_default_extensions_part1(),
{
    let ghost t0 = t@;
    put_str(t, ".pl");
    put_str(t, ".pm");
    put_str(t, ".lua");
    put_str(t, ".r");
    put_str(t, ".R");
    put_str(t, ".jl");
    put_str(t, ".dart");
    put_str(t, ".nim");
    put_str(t, ".cr");
    put_str(t, ".elm");
    put_str(t, ".erl");
    put_str(t, ".hrl");
    put_str(t, ".ex");
    put_str(t, ".exs");
    put_str(t, ".clj");
    put_str(t, ".cljs");
    put_str(t, ".cljc");
    put_str(t, ".hs");
    put_str(t, ".lhs");
    put_str(t, ".fs");
    put_str(t, ".fsi");
    put_str(t, ".fsx");
    put_str(t, ".ml");
    put_str(t, ".mli");
    put_str(t, ".v");
    put_str(t, ".vh");
    put_str(t, ".vhd");
    put_str(t, ".sv");
    put_str(t, ".svh");
    put_str(t, ".cob");
    proof {
        assert(str_views(t@) =~= str_views(t0) + spec_default_extensions_part1());
    }
}

/// One block of the default extensions list.
pub open spec fn spec_default_extensions_part2() -> Seq<Seq<char>> {
    seq![
        ".cbl"@,
        ".cpy"@,
        ".f"@,
        ".f90"@,
        ".f95"@,
        ".f03"@,
        ".f08"@,
        ".adb"@,
        ".ads"@,
        ".pas"@,
        ".pp"@,
        ".inc"@,
        ".asm"@,
        ".s"@,
        ".S"@,
        ".nasm"@,
        ".cmake"@,
        ".xml"@,
        ".html"@,
        ".htm"@,
        ".css"@,
        ".scss"@,
        ".sass"@,
        ".less"@,
        ".json"@,
        ".yaml"@,
        ".yml"@,
        ".toml"@,
        ".ini"@,
        ".cfg"@,
    ]
}

#[verifier::rlimit(50)]
fn default_extensions_part2(t: &mut Vec<String>)
    ensures
        str_views(final(t)@) =~= str_views(old(t)@) + spec_default_extensions_part2(),
{
    let ghost t0 = t@;
    put_str(t, ".cbl");
    put_str(t, ".cpy");
    put_str(t, ".f");
    put_str(t, ".f90");
    put_str(t, ".f95");
    put_str(t, ".f03");
    put_str(t, ".f08");
    put_str(t, ".adb");
    put_str(t, ".ads");
    put_str(t, ".pas");
    put_str(t, ".pp");
    put_str(t, ".inc");
    put_str(t, ".asm");
    put_str(t, ".s");
    put_str(t, ".S");
    put_str(t, ".nasm");
    put_str(t, ".cmake");
    put_str(t, ".xml");
    put_str(t, ".html");
    put_str(t, ".htm");
    put_str(t, ".css");
    put_str(t, ".scss");
    put_str(t, ".sass");
    put_str(t, ".less");
    put_str(t, ".json");
    put_str(t, ".yaml");
    put_str(t, ".yml");
    put_str(t, ".toml");
    put_str(t, ".ini");
    put_str(t, ".cfg");
    proof {
        assert(str_views(t@) =~= str_views(t0) + spec_default_extensions_part2());
    }
}

/// One block of the default extensions list.
pub open spec fn spec_default_extensions_part3() -> Seq<Seq<char>> {
    seq![
        ".conf"@,
        ".md"@,
        ".markdown"@,
        ".rst"@,
        ".tex"@,
        ".bib"@,
        ".proto"@,
        ".graphql"@,
        ".gql"@,
        ".prisma"@,
        ".vue"@,
        ".svelte"@,
        ".sol"@,
        ".vy"@,
        ".zig"@,
        ".odin"@,
        ".d"@,
        ".di"@,
        ".nims"@,
        ".ecr"@,
        ".wat"@,
        ".wast"@,
        ".wit"@,
        ".glsl"@,
        ".vert"@,
        ".frag"@,
        ".hlsl"@,
        ".wgsl"@,
        ".metal"@,
    ]
}

#[verifier::rlimit(50)]
fn default_extensions_part3(t: &mut Vec<String>)
    ensures
        str_views(final(t)@) =~= str_views(old(t)@) + spec_default_extensions_part3(),
{
    let ghost t0 = t@;
    put_str(t, ".conf");
    put_str(t, ".md");
    put_str(t, ".markdown");
    put_str(t, ".rst");
    put_str(t, ".tex");
    put_str(t, ".bib");
    put_str(t, ".proto");
    put_str(t, ".graphql");
    put_str(t, ".gql");
    put_str(t, ".prisma");
    put_str(t, ".vue");
    put_str(t, ".svelte");
    put_str(t, ".sol");
    put_str(t, ".vy");
    put_str(t, ".zig");
    put_str(t, ".odin");
    put_str(t, ".d");
    put_str(t, ".di");
    put_str(t, ".nims");
    put_str(t, ".ecr");
    put_str(t, ".wat");
    put_str(t, ".wast");
    put_str(t, ".wit");
    put_str(t, ".glsl");
    put_str(t, ".vert");
    put_str(t, ".frag");
    put_str(t, ".hlsl");
    put_str(t, ".wgsl");
    put_str(t, ".metal");
    proof {
        assert(str_views(t@) =~= str_views(t0) + spec_default_extensions_part3());
    }
}

/// The default extensions list.
pub open spec fn spec_default_extensions() -> Seq<Seq<char>> {
    spec_default_extensions_part0() + spec_default_extensions_part1() + spec_default_extensions_part2() + spec_default_extensions_part3()
}

fn default_extensions() -> (r: Vec<String>)
    ensures
        str_views(r@) == spec_default_extensions(),
{
    let mut t: Vec<String> = Vec::new();
    default_extensions_part0(&mut t);
    default_extensions_part1(&mut t);
    default_extensions_part2(&mut t);
    default_extensions_part3(&mut t);
    proof {
        assert(str_views(t@) =~= spec_default_extensions());
    }
    t
}

/// One block of the default skip dirs list.
pub open spec fn spec_default_skip_dirs_part0() -> Seq<Seq<char>> {
    seq![
        ".git"@,
        ".svn"@,
        ".hg"@,
        "node_modules"@,
        "target"@,
        "build"@,
        "dist"@,
        "__pycache__"@,
        ".pytest_cache"@,
        ".mypy_cache"@,
        "venv"@,
        ".venv"@,
        "env"@,
        ".env"@,
        "vendor"@,
        "bower_components"@,
        ".idea"@,
        ".vscode"@,
        ".vs"@,
        "bin"@,
        "obj"@,
        "pkg"@,
        ".gradle"@,
        ".mvn"@,
        "Pods"@,
        ".cache"@,
    ]
}

#[verifier::rlimit(50)]
fn default_skip_dirs_part0(t: &mut Vec<String>)
    ensures
        str_views(final(t)@) =~= str_views(old(t)@) + spec_default_skip_dirs_part0(),
{
    let ghost t0 = t@;
    put_str(t, ".git");
    put_str(t, ".svn");
    put_str(t, ".hg");
    put_str(t, "node_modules");
    put_str(t, "target");
    put_str(t, "build");
    put_str(t, "dist");
    put_str(t, "__pycache__");
    put_str(t, ".pytest_cache");
    put_str(t, ".mypy_cache");
    put_str(t, "venv");
    put_str(t, ".venv");
    put_str(t, "env");
    put_str(t, ".env");
    put_str(t, "vendor");
    put_str(t, "bower_components");
    put_str(t, ".idea");
    put_str(t, ".vscode");
    put_str(t, ".vs");
    put_str(t, "bin");
    put_str(t, "obj");
    put_str(t, "pkg");
    put_str(t, ".gradle");
    put_str(t, ".mvn");
    put_str(t, "Pods");
    put_str(t, ".cache");
    proof {
        assert(str_views(t@) =~= str_views(t0) + spec_default_skip_dirs_part0());
    }
}

/// The default skip dirs list.
pub open spec fn spec_default_skip_dirs() -> Seq<Seq<char>> {
    spec_default_skip_dirs_part0()
}

fn default_skip_dirs() -> (r: Vec<String>)
    ensures
        str_views(r@) == spec_default_skip_dirs(),
{
    let mut t: Vec<String> = Vec::new();
    default_skip_dirs_part0(&mut t);
    proof {
        assert(str_views(t@) =~= spec_default_skip_dirs());
    }
    t
}

/// One block of the default skip files list.
pub open spec fn spec_default_skip_files_part0() -> Seq<Seq<char>> {
    seq![
        ".DS_Store"@,
        "Thumbs.db"@,
        "*.pyc"@,
        "*.pyo"@,
        "*.pyd"@,
        "*.so"@,
        "*.dylib"@,
        "*.dll"@,
        "*.exe"@,
        "*.out"@,
        "*.app"@,
        "*.lock"@,
        "*.log"@,
        "*.tmp"@,
        "*.temp"@,
        "*.bak"@,
        "*.swp"@,
        "*.swo"@,
        "*~"@,
        ".env"@,
        ".env.local"@,
        "package-lock.json"@,
        "yarn.lock"@,
        "pnpm-lock.yaml"@,
        "Cargo.lock"@,
        "composer.lock"@,
        "Gemfile.lock"@,
        "Podfile.lock"@,
        "poetry.lock"@,
        "go.sum"@,
    ]
}

#[verifier::rlimit(50)]
fn default_skip_files_part0(t: &mut Vec<String>)
    ensures
        str_views(final(t)@) =~= str_views(old(t)@) + spec_default_skip_files_part0(),
{
    let ghost t0 = t@;
    put_str(t, ".DS_Store");
    put_str(t, "Thumbs.db");
    put_str(t, "*.pyc");
    put_str(t, "*.pyo");
    put_str(t, "*.pyd");
    put_str(t, "*.so");
    put_str(t, "*.dylib");
    put_str(t, "*.dll");
    put_str(t, "*.exe");
    put_str(t, "*.out");
    put_str(t, "*.app");
    put_str(t, "*.lock");
    put_str(t, "*.log");
    put_str(t, "*.tmp");
    put_str(t, "*.temp");
    put_str(t, "*.bak");
    put_str(t, "*.swp");
    put_str(t, "*.swo");
    put_str(t, "*~");
    put_str(t, ".env");
    put_str(t, ".env.local");
    put_str(t, "package-lock.json");
    put_str(t, "yarn.lock");
    put_str(t, "pnpm-lock.yaml");
    put_str(t, "Cargo.lock");
    put_str(t, "composer.lock");
    put_str(t, "Gemfile.lock");
    put_str(t, "Podfile.lock");
    put_str(t, "poetry.lock");
    put_str(t, "go.sum");
    proof {
        assert(str_views(t@) =~= str_views(t0) + spec_default_skip_files_part0());
    }
}

/// The default skip files list.
pub open spec fn spec_default_skip_files() -> Seq<Seq<char>> {
    spec_default_skip_files_part0()
}

fn default_skip_files() -> (r: Vec<String>)
    ensures
        str_views(r@) == spec_default_skip_files(),
{
    let mut t: Vec<String> = Vec::new();
    default_skip_files_part0(&mut t);
    proof {
        assert(str_views(t@) =~= spec_default_skip_files());
    }
    t
}

/// Which embedding model to use, and whether it may be fetched on demand.
pub struct ModelConfig {
    pub model_type: String,
    pub auto_download: bool,
}

impl Default for ModelConfig {
    /// The default model configuration.
    fn default() -> (r: Self)
        ensures
            r.model_type@ == "minilm"@,
            r.auto_download,
    {
        ModelConfig { model_type: default_model_type(), auto_download: default_auto_download() }
    }
}

/// Which files indexing takes, skips and batches.
pub struct IndexingConfig {
    pub extensions: Vec<String>,
    pub skip_dirs: Vec<String>,
    pub skip_files: Vec<String>,
    pub use_gitignore: bool,
    pub batch_size: usize,
}

impl Default for IndexingConfig {
    /// The default indexing configuration.
    fn default() -> (r: Self)
        ensures
            str_views(r.extensions@) == spec_default_extensions(),
            str_views(r.skip_dirs@) == spec_default_skip_dirs(),
            str_views(r.skip_files@) == spec_default_skip_files(),
            r.use_gitignore,
            r.batch_size == 32,
    {
        IndexingConfig {
            extensions: default_extensions(),
            skip_dirs: default_skip_dirs(),
            skip_files: default_skip_files(),
            use_gitignore: default_use_gitignore(),
            batch_size: default_batch_size(),
        }
    }
}

/// How files are cut into chunks.
pub struct ChunkingConfig {
    pub chunk_size: usize,
    pub chunk_overlap: usize,
}

impl Default for ChunkingConfig {
    /// The default chunking configuration: windows of 50 lines that
    /// overlap by 10.
    fn default() -> (r: Self)
        ensures
            r.chunk_size == 50,
            r.chunk_overlap == 10,
    {
        ChunkingConfig { chunk_size: default_chunk_size(), chunk_overlap: default_chunk_overlap() }
    }
}

/// How many results a search returns when the caller names no limit.
pub struct SearchLimitConfig {
    pub default_limit: usize,
}

impl Default for SearchLimitConfig {
    /// The default search configuration.
    fn default() -> (r: Self)
        ensures
            r.default_limit == 10,
    {
        SearchLimitConfig { default_limit: default_limit() }
    }
}

/// Where the chunk store lives.
pub struct DatabaseConfig {
    pub data_dir: String,
    pub db_name: String,
}

impl Default for DatabaseConfig {
    /// The default database configuration.
    fn default() -> (r: Self)
        ensures
            r.data_dir@ == "code-search"@,
            r.db_name@ == "index.db"@,
    {
        DatabaseConfig { data_dir: default_data_dir(), db_name: default_db_name() }
    }
}

/// Configuration is owned by the caller and passed in by reference, so
/// there is nothing to reset; kept so that callers written against a
/// process-wide configuration still compile.
pub fn reset_config() {
}

} // verus!
