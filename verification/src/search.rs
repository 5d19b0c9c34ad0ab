//! Search scoring and fusion.
//!
//! Scores are fixed-point integers in parts per million: a weight of
//! 0.6 is 600000, a cosine similarity of 0.9 is 900000. Vector scores
//! come from an exhaustive cosine-similarity scan; lexical results keep
//! their ranker's order and take the lexical weight as their score; the
//! two lists are fused, deduplicated lexical-first, sorted and cut to
//! the requested size.

use vstd::prelude::*;
use vstd::seq_lib::*;

verus! {

/// One search hit: a stored chunk plus its fused score and final rank.
pub struct SearchResult {
    pub chunk_id: i64,
    pub codebase_id: String,
    pub file_path: String,
    pub start_line: i64,
    pub end_line: i64,
    pub content: String,
    pub language: Option<String>,
    pub score_ppm: i64,
    pub rank: i64,
}

// ---------------------------------------------------------------------
// Integer square root
// ---------------------------------------------------------------------

/// `r` is the integer square root of `x`, rounded down.
pub open spec fn is_sqrt_floor(x: int, r: int) -> bool {
    0 <= r && r * r <= x < (r + 1) * (r + 1)
}

/// The integer square root of a non-negative number, rounded down.
pub open spec fn sqrt_floor(x: int) -> int {
    choose|r: int| is_sqrt_floor(x, r)
}

pub proof fn lemma_sqrt_floor_exists(x: int)
    requires
        x >= 0,
    ensures
        is_sqrt_floor(x, sqrt_floor(x)),
    decreases x,
{
    if x == 0 {
        assert(is_sqrt_floor(0, 0));
    } else {
        lemma_sqrt_floor_exists(x - 1);
        let r = sqrt_floor(x - 1);
        if (r + 1) * (r + 1) <= x {
            assert(x <= (r + 1) * (r + 1)) by {
                assert(x - 1 < (r + 1) * (r + 1));
            }
            assert(is_sqrt_floor(x, r + 1)) by (nonlinear_arith)
                requires
                    0 <= r,
                    x == (r + 1) * (r + 1),
            ;
        } else {
            assert(is_sqrt_floor(x, r));
        }
        assert(is_sqrt_floor(x, sqrt_floor(x))) by {
            let w = choose|w: int| is_sqrt_floor(x, w);
            assert(is_sqrt_floor(x, w));
        }
    }
}

pub proof fn lemma_sqrt_floor_unique(x: int, r: int)
    requires
        is_sqrt_floor(x, r),
    ensures
        r == sqrt_floor(x),
{
    let s = sqrt_floor(x);
    assert(is_sqrt_floor(x, s)) by {
        lemma_sqrt_floor_exists(x);
    }
    assert(r == s) by (nonlinear_arith)
        requires
            0 <= r,
            0 <= s,
            r * r <= x < (r + 1) * (r + 1),
            s * s <= x < (s + 1) * (s + 1),
    ;
}

/// The integer square root, rounded down, by bisection.
fn isqrt_u128(x: u128) -> (r: u128)
    ensures
        r as int == sqrt_floor(x as int),
        is_sqrt_floor(x as int, r as int),
{
    if x == 0 {
        proof {
            lemma_sqrt_floor_unique(0, 0);
        }
        return 0;
    }
    let mut lo: u128 = 0;
    let mut hi: u128 = 0x1_0000_0000_0000_0000;
    proof {
        assert((hi as int) * (hi as int) > x as int) by (nonlinear_arith)
            requires
                hi == 0x1_0000_0000_0000_0000u128,
                x <= u128::MAX,
        ;
    }
    while lo + 1 < hi
        invariant
            lo < hi,
            hi <= 0x1_0000_0000_0000_0000,
            (lo as int) * (lo as int) <= x as int,
            (hi as int) * (hi as int) > x as int,
        decreases hi - lo,
    {
        let mid = lo + (hi - lo) / 2;
        proof {
            assert((mid as int) * (mid as int) < 0x1_0000_0000_0000_0000_0000_0000_0000_0000)
                by (nonlinear_arith)
                requires
                    mid < 0x1_0000_0000_0000_0000u128,
            ;
        }
        if mid * mid <= x {
            lo = mid;
        } else {
            hi = mid;
        }
    }
    proof {
        assert(hi == lo + 1);
        lemma_sqrt_floor_unique(x as int, lo as int);
    }
    lo
}

// ---------------------------------------------------------------------
// Cosine similarity over fixed-point vectors
// ---------------------------------------------------------------------

/// The dot product of two equally long vectors.
pub open spec fn dot_of(a: Seq<i64>, b: Seq<i64>) -> int
    decreases a.len(),
{
    if a.len() == 0 || b.len() == 0 {
        0
    } else {
        dot_of(a.drop_last(), b.drop_last()) + a.last() * b.last()
    }
}

/// The largest similarity value: a cosine of exactly 1.
pub open spec fn unit_ppm() -> int {
    1000000
}

/// A quotient clamped into the unit range, absorbing the overshoot that
/// rounded-down square roots in the denominator can cause.
pub open spec fn clamp_unit(q: int) -> int {
    if q > unit_ppm() {
        unit_ppm()
    } else if q < -unit_ppm() {
        -unit_ppm()
    } else {
        q
    }
}

/// The cosine similarity of two vectors, in parts per million, clamped
/// to the unit range. Mismatched lengths, empty vectors and zero
/// vectors all score 0 by definition.
pub open spec fn spec_cosine_ppm(a: Seq<i64>, b: Seq<i64>) -> int {
    if a.len() != b.len() || a.len() == 0 {
        0
    } else {
        let na = sqrt_floor(dot_of(a, a));
        let nb = sqrt_floor(dot_of(b, b));
        if na == 0 || nb == 0 {
            0
        } else {
            let d = dot_of(a, b);
            if d >= 0 {
                clamp_unit((d * 1000000) / (na * nb))
            } else {
                clamp_unit(-(((-d) * 1000000) / (na * nb)))
            }
        }
    }
}

/// Entry and length bounds under which the fixed-point cosine cannot
/// overflow its 128-bit intermediates.
pub open spec fn embedding_in_range(a: Seq<i64>) -> bool {
    &&& a.len() <= 100000000
    &&& forall|i: int| 0 <= i < a.len() ==> -1000000000 <= #[trigger] a[i] <= 1000000000
}

/// A vector's dot product with itself is non-negative.
proof fn lemma_sumsq_nonneg(a: Seq<i64>)
    ensures
        dot_of(a, a) >= 0,
    decreases a.len(),
{
    if a.len() > 0 {
        lemma_sumsq_nonneg(a.drop_last());
        assert(a.last() * a.last() >= 0) by (nonlinear_arith);
    }
}

/// An all-zero vector has dot product 0 with itself.
proof fn lemma_sumsq_zero(a: Seq<i64>)
    requires
        forall|i: int| 0 <= i < a.len() ==> #[trigger] a[i] == 0,
    ensures
        dot_of(a, a) == 0,
    decreases a.len(),
{
    if a.len() > 0 {
        lemma_sumsq_zero(a.drop_last());
        assert(a.last() == 0);
    }
}

/// The cosine similarity of two fixed-point vectors, in parts per
/// million. Mismatched lengths, empty vectors and zero vectors score 0:
/// the similarity is always a number, never undefined.
pub fn cosine_similarity(a: &Vec<i64>, b: &Vec<i64>) -> (r: i64)
    requires
        embedding_in_range(a@),
        embedding_in_range(b@),
    ensures
        r as int == spec_cosine_ppm(a@, b@),
        -1000000 <= r <= 1000000,
        a@.len() != b@.len() ==> r == 0,
        a@.len() == 0 ==> r == 0,
        (forall|i: int| 0 <= i < a@.len() ==> #[trigger] a@[i] == 0) ==> r == 0,
        (forall|i: int| 0 <= i < b@.len() ==> #[trigger] b@[i] == 0) ==> r == 0,
{
    let n = a.len();
    if n != b.len() || n == 0 {
        return 0;
    }
    let mut dot: i128 = 0;
    let mut sa: i128 = 0;
    let mut sb: i128 = 0;
    let mut i: usize = 0;
    proof {
        assert(a@.take(0) =~= Seq::<i64>::empty());
        assert(b@.take(0) =~= Seq::<i64>::empty());
    }
    while i < n
        invariant
            n == a@.len(),
            n == b@.len(),
            embedding_in_range(a@),
            embedding_in_range(b@),
            i <= n,
            dot as int == dot_of(a@.take(i as int), b@.take(i as int)),
            sa as int == dot_of(a@.take(i as int), a@.take(i as int)),
            sb as int == dot_of(b@.take(i as int), b@.take(i as int)),
            -(i as int) * 1000000000000000000 <= dot as int <= (i as int) * 1000000000000000000,
            0 <= sa as int <= (i as int) * 1000000000000000000,
            0 <= sb as int <= (i as int) * 1000000000000000000,
        decreases n - i,
    {
        let x = a[i] as i128;
        let y = b[i] as i128;
        proof {
            assert(-1000000000000000000 <= x * y <= 1000000000000000000 && 0 <= x * x
                <= 1000000000000000000 && 0 <= y * y <= 1000000000000000000) by (nonlinear_arith)
                requires
                    -1000000000 <= x <= 1000000000,
                    -1000000000 <= y <= 1000000000,
            ;
            assert((i as int) * 1000000000000000000 + 1000000000000000000 == (i + 1)
                * 1000000000000000000) by (nonlinear_arith);
            assert((i + 1) * 1000000000000000000 <= 100000000000000000000000000)
                by (nonlinear_arith)
                requires
                    i + 1 <= 100000000,
            ;
            assert(a@.take(i + 1).drop_last() =~= a@.take(i as int));
            assert(b@.take(i + 1).drop_last() =~= b@.take(i as int));
            assert(a@.take(i + 1).last() == a@[i as int]);
            assert(b@.take(i + 1).last() == b@[i as int]);
        }
        dot = dot + x * y;
        sa = sa + x * x;
        sb = sb + y * y;
        i += 1;
    }
    proof {
        assert(a@.take(n as int) =~= a@);
        assert(b@.take(n as int) =~= b@);
        lemma_sumsq_nonneg(a@);
        lemma_sumsq_nonneg(b@);
        if forall|j: int| 0 <= j < a@.len() ==> #[trigger] a@[j] == 0 {
            lemma_sumsq_zero(a@);
        }
        if forall|j: int| 0 <= j < b@.len() ==> #[trigger] b@[j] == 0 {
            lemma_sumsq_zero(b@);
        }
    }
    let na = isqrt_u128(sa as u128);
    let nb = isqrt_u128(sb as u128);
    if na == 0 || nb == 0 {
        return 0;
    }
    proof {
        if forall|j: int| 0 <= j < a@.len() ==> #[trigger] a@[j] == 0 {
            assert((na as int) * (na as int) <= 0);
            assert(na as int == 0) by (nonlinear_arith)
                requires
                    na as int >= 0,
                    (na as int) * (na as int) <= 0,
            ;
        }
        if forall|j: int| 0 <= j < b@.len() ==> #[trigger] b@[j] == 0 {
            assert((nb as int) * (nb as int) <= 0);
            assert(nb as int == 0) by (nonlinear_arith)
                requires
                    nb as int >= 0,
                    (nb as int) * (nb as int) <= 0,
            ;
        }
    }
    proof {
        assert(na as int <= 10000000000000 && nb as int <= 10000000000000) by (nonlinear_arith)
            requires
                (na as int) * (na as int) <= sa as int,
                (nb as int) * (nb as int) <= sb as int,
                sa as int <= 100000000000000000000000000,
                sb as int <= 100000000000000000000000000,
                na as int >= 0,
                nb as int >= 0,
        ;
        assert((na as int) * (nb as int) <= 100000000000000000000000000
            && (na as int) * (nb as int) >= 1) by (nonlinear_arith)
            requires
                1 <= na as int <= 10000000000000,
                1 <= nb as int <= 10000000000000,
        ;
    }
    let denom: i128 = (na as i128) * (nb as i128);
    let q: i128 = if dot >= 0 {
        (dot * 1000000) / denom
    } else {
        -(((-dot) * 1000000) / denom)
    };
    proof {
        if dot as int >= 0 {
            assert(0 <= (dot as int) * 1000000 <= 100000000000000000000000000 * 1000000)
                by (nonlinear_arith)
                requires
                    0 <= dot as int <= 100000000000000000000000000,
            ;
        } else {
            assert(0 <= (-(dot as int)) * 1000000 <= 100000000000000000000000000 * 1000000)
                by (nonlinear_arith)
                requires
                    0 < -(dot as int) <= 100000000000000000000000000,
            ;
        }
    }
    let clamped: i64 = if q > 1000000 {
        1000000
    } else if q < -1000000 {
        -1000000
    } else {
        q as i64
    };
    clamped
}

// ---------------------------------------------------------------------
// Selection: sort by score, cut to the limit, assign ranks
// ---------------------------------------------------------------------

/// The chunk IDs of a result list.
pub open spec fn result_ids(s: Seq<SearchResult>) -> Seq<i64> {
    s.map_values(|r: SearchResult| r.chunk_id)
}

/// Two results that name the same chunk with the same score; only the
/// final rank may differ.
pub open spec fn same_result(a: SearchResult, b: SearchResult) -> bool {
    &&& a.chunk_id == b.chunk_id
    &&& a.codebase_id == b.codebase_id
    &&& a.file_path == b.file_path
    &&& a.start_line == b.start_line
    &&& a.end_line == b.end_line
    &&& a.content == b.content
    &&& a.language == b.language
    &&& a.score_ppm == b.score_ppm
}

/// `c` occurs, as a value, in `s`.
pub open spec fn in_seq(c: SearchResult, s: Seq<SearchResult>) -> bool {
    exists|b: int| 0 <= b < s.len() && s[b] == c
}

/// Some entry of `s` is the same hit as `c`, rank aside.
pub open spec fn represented(c: SearchResult, s: Seq<SearchResult>) -> bool {
    exists|i: int| 0 <= i < s.len() && same_result(s[i], c)
}

/// Scores never increase along the list.
pub open spec fn sorted_desc(s: Seq<SearchResult>) -> bool {
    forall|i: int, j: int|
        0 <= i < j < s.len() ==> #[trigger] s[i].score_ppm >= #[trigger] s[j].score_ppm
}

/// Ranks are positional, starting at 1.
pub open spec fn ranks_assigned(s: Seq<SearchResult>) -> bool {
    forall|i: int| 0 <= i < s.len() ==> #[trigger] s[i].rank == i + 1
}

/// What selection promises relative to its candidate list: at most
/// `limit` results, sorted and ranked, each candidate either kept (with
/// its rank filled in) or outscored by everything kept.
pub open spec fn selected_from(
    r: Seq<SearchResult>,
    cands: Seq<SearchResult>,
    limit: int,
) -> bool {
    &&& r.len() == (if limit <= cands.len() {
        limit
    } else {
        cands.len() as int
    })
    &&& sorted_desc(r)
    &&& ranks_assigned(r)
    &&& result_ids(r).no_duplicates()
    &&& forall|i: int|
        0 <= i < r.len() ==> exists|j: int|
            0 <= j < cands.len() && same_result(#[trigger] r[i], cands[j])
    &&& forall|j: int|
        0 <= j < cands.len() ==> represented(#[trigger] cands[j], r) || (r.len() == limit && (
        limit == 0 || cands[j].score_ppm <= r[r.len() - 1].score_ppm))
}

proof fn lemma_ids_remove_no_duplicates(s: Seq<i64>, i: int)
    requires
        0 <= i < s.len(),
        s.no_duplicates(),
    ensures
        s.remove(i).no_duplicates(),
{
    let t = s.remove(i);
    assert forall|a: int, b: int| 0 <= a < b < t.len() implies t[a] != t[b] by {
        let ra = if a < i {
            a
        } else {
            a + 1
        };
        let rb = if b < i {
            b
        } else {
            b + 1
        };
        assert(t[a] == s[ra]);
        assert(t[b] == s[rb]);
    }
}

/// Sorts the candidates by score, descending, keeps the best `limit`
/// and assigns ranks 1 upward.
/// One extraction step preserves every selection invariant: the best
/// remaining candidate moves, with its rank filled in, to the end of
/// the output.
proof fn lemma_select_step(
    orig: Seq<SearchResult>,
    oldout: Seq<SearchResult>,
    oldc: Seq<SearchResult>,
    newout: Seq<SearchResult>,
    newc: Seq<SearchResult>,
    m: int,
    y: SearchResult,
)
    requires
        0 <= m < oldc.len(),
        newc == oldc.remove(m),
        newout == oldout.push(y),
        same_result(y, oldc[m]),
        forall|t: int| 0 <= t < oldc.len() ==> (#[trigger] oldc[t]).score_ppm <= oldc[m].score_ppm,
        y.rank == oldout.len() + 1,
        oldout.len() + oldc.len() == orig.len(),
        sorted_desc(oldout),
        ranks_assigned(oldout),
        result_ids(oldout).no_duplicates(),
        result_ids(oldc).no_duplicates(),
        forall|a: int, b: int|
            0 <= a < oldout.len() && 0 <= b < oldc.len() ==> (#[trigger] oldout[a]).chunk_id != (
            #[trigger] oldc[b]).chunk_id,
        oldout.len() > 0 ==> forall|b: int|
            0 <= b < oldc.len() ==> (#[trigger] oldc[b]).score_ppm <= oldout[oldout.len()
                - 1].score_ppm,
        forall|i: int|
            0 <= i < oldout.len() ==> exists|j: int|
                0 <= j < orig.len() && same_result(#[trigger] oldout[i], orig[j]),
        forall|b: int| 0 <= b < oldc.len() ==> in_seq(#[trigger] oldc[b], orig),
        forall|j: int|
            0 <= j < orig.len() ==> represented(#[trigger] orig[j], oldout) || in_seq(
                orig[j],
                oldc,
            ),
    ensures
        newout.len() + newc.len() == orig.len(),
        sorted_desc(newout),
        ranks_assigned(newout),
        result_ids(newout).no_duplicates(),
        result_ids(newc).no_duplicates(),
        forall|a: int, b: int|
            0 <= a < newout.len() && 0 <= b < newc.len() ==> (#[trigger] newout[a]).chunk_id != (
            #[trigger] newc[b]).chunk_id,
        newout.len() > 0 ==> forall|b: int|
            0 <= b < newc.len() ==> (#[trigger] newc[b]).score_ppm <= newout[newout.len()
                - 1].score_ppm,
        forall|i: int|
            0 <= i < newout.len() ==> exists|j: int|
                0 <= j < orig.len() && same_result(#[trigger] newout[i], orig[j]),
        forall|b: int| 0 <= b < newc.len() ==> in_seq(#[trigger] newc[b], orig),
        forall|j: int|
            0 <= j < orig.len() ==> represented(#[trigger] orig[j], newout) || in_seq(
                orig[j],
                newc,
            ),
{
    assert(result_ids(newc) =~= result_ids(oldc).remove(m));
    lemma_ids_remove_no_duplicates(result_ids(oldc), m);
    assert(result_ids(newout) =~= result_ids(oldout).push(y.chunk_id));
    assert(sorted_desc(newout)) by {
        assert forall|i: int, j: int|
            0 <= i < j < newout.len() implies (#[trigger] newout[i]).score_ppm >= (
            #[trigger] newout[j]).score_ppm by {
            if j == newout.len() - 1 && oldout.len() > 0 {
                assert(newout[j].score_ppm == oldc[m].score_ppm);
                if i < oldout.len() - 1 {
                    assert(oldout[i].score_ppm >= oldout[oldout.len() - 1].score_ppm);
                }
                assert(oldc[m].score_ppm <= oldout[oldout.len() - 1].score_ppm);
            }
        }
    }
    assert(result_ids(newout).no_duplicates()) by {
        assert forall|a: int, b: int|
            0 <= a < b < result_ids(newout).len() implies result_ids(newout)[a] != result_ids(
            newout,
        )[b] by {
            if b == result_ids(newout).len() - 1 {
                assert(result_ids(newout)[a] == oldout[a].chunk_id);
                assert(oldout[a].chunk_id != oldc[m].chunk_id);
            }
        }
    }
    assert forall|a: int, b: int|
        0 <= a < newout.len() && 0 <= b < newc.len() implies (#[trigger] newout[a]).chunk_id != (
        #[trigger] newc[b]).chunk_id by {
        let ob = if b < m {
            b
        } else {
            b + 1
        };
        assert(newc[b] == oldc[ob]);
        if a < newout.len() - 1 {
            assert(newout[a] == oldout[a]);
        } else {
            assert(result_ids(oldc)[m] != result_ids(oldc)[ob]);
        }
    }
    assert forall|b: int|
        0 <= b < newc.len() implies (#[trigger] newc[b]).score_ppm <= newout[newout.len()
        - 1].score_ppm by {
        let ob = if b < m {
            b
        } else {
            b + 1
        };
        assert(newc[b] == oldc[ob]);
        assert(oldc[ob].score_ppm <= oldc[m].score_ppm);
    }
    assert forall|i: int|
        0 <= i < newout.len() implies exists|j: int|
            0 <= j < orig.len() && same_result(#[trigger] newout[i], orig[j]) by {
        if i < newout.len() - 1 {
            assert(newout[i] == oldout[i]);
            let j = choose|j: int| 0 <= j < orig.len() && same_result(oldout[i], orig[j]);
            assert(same_result(newout[i], orig[j]));
        } else {
            let j = choose|j: int| 0 <= j < orig.len() && oldc[m] == orig[j];
            assert(same_result(y, orig[j]));
        }
    }
    assert forall|b: int| 0 <= b < newc.len() implies in_seq(#[trigger] newc[b], orig) by {
        let ob = if b < m {
            b
        } else {
            b + 1
        };
        assert(newc[b] == oldc[ob]);
        assert(in_seq(oldc[ob], orig));
    }
    assert forall|j: int|
        0 <= j < orig.len() implies represented(#[trigger] orig[j], newout) || in_seq(
        orig[j],
        newc,
    ) by {
        if represented(orig[j], oldout) {
            let i = choose|i: int| 0 <= i < oldout.len() && same_result(oldout[i], orig[j]);
            assert(newout[i] == oldout[i]);
            assert(same_result(newout[i], orig[j]));
            assert(represented(orig[j], newout));
        } else {
            assert(in_seq(orig[j], oldc));
            let b = choose|b: int| 0 <= b < oldc.len() && oldc[b] == orig[j];
            if b == m {
                assert(same_result(y, orig[j]));
                assert(same_result(newout[newout.len() - 1], orig[j]));
                assert(represented(orig[j], newout));
            } else {
                let nb = if b < m {
                    b
                } else {
                    b - 1
                };
                assert(newc[nb] == oldc[b]);
                assert(in_seq(orig[j], newc));
            }
        }
    }
}

/// Sorts the candidates by score, descending, keeps the best `limit`
/// and assigns ranks 1 upward.
#[verifier::rlimit(60)]
fn select_top(cands: Vec<SearchResult>, limit: usize) -> (r: Vec<SearchResult>)
    requires
        result_ids(cands@).no_duplicates(),
        limit < 0x8000_0000_0000_0000,
    ensures
        selected_from(r@, cands@, limit as int),
{
    let ghost orig = cands@;
    let mut cands = cands;
    let mut out: Vec<SearchResult> = Vec::new();
    proof {
        assert forall|b: int| 0 <= b < cands@.len() implies in_seq(#[trigger] cands@[b], orig) by {
            assert(orig[b] == cands@[b]);
        }
        assert forall|j: int|
            0 <= j < orig.len() implies represented(#[trigger] orig[j], out@) || in_seq(
            orig[j],
            cands@,
        ) by {
            assert(cands@[j] == orig[j]);
            assert(in_seq(orig[j], cands@));
        }
    }
    while out.len() < limit && cands.len() > 0
        invariant
            limit < 0x8000_0000_0000_0000,
            out@.len() + cands@.len() == orig.len(),
            out@.len() <= limit,
            sorted_desc(out@),
            ranks_assigned(out@),
            result_ids(out@).no_duplicates(),
            result_ids(cands@).no_duplicates(),
            forall|a: int, b: int|
                0 <= a < out@.len() && 0 <= b < cands@.len() ==> (#[trigger] out@[a]).chunk_id != (
                #[trigger] cands@[b]).chunk_id,
            out@.len() > 0 ==> forall|b: int|
                0 <= b < cands@.len() ==> (#[trigger] cands@[b]).score_ppm <= out@[out@.len()
                    - 1].score_ppm,
            forall|i: int|
                0 <= i < out@.len() ==> exists|j: int|
                    0 <= j < orig.len() && same_result(#[trigger] out@[i], orig[j]),
            forall|b: int| 0 <= b < cands@.len() ==> in_seq(#[trigger] cands@[b], orig),
            forall|j: int|
                0 <= j < orig.len() ==> represented(#[trigger] orig[j], out@) || in_seq(
                    orig[j],
                    cands@,
                ),
        decreases cands@.len(),
    {
        let n = cands.len();
        let mut m: usize = 0;
        let mut k: usize = 1;
        while k < n
            invariant
                n == cands@.len(),
                0 < n,
                m < k <= n,
                forall|t: int| 0 <= t < k ==> (#[trigger] cands@[t]).score_ppm <= cands@[m
                    as int].score_ppm,
            decreases n - k,
        {
            if cands[k].score_ppm > cands[m].score_ppm {
                m = k;
            }
            k += 1;
        }
        let ghost oldc = cands@;
        let ghost oldout = out@;
        let x = cands.remove(m);
        let y = SearchResult { rank: (out.len() + 1) as i64, ..x };
        out.push(y);
        proof {
            lemma_select_step(orig, oldout, oldc, out@, cands@, m as int, y);
        }
    }
    proof {
        assert forall|j: int|
            0 <= j < orig.len() implies represented(#[trigger] orig[j], out@) || (out@.len()
            == limit as int && (limit == 0 || orig[j].score_ppm <= out@[out@.len()
                - 1].score_ppm)) by {
            if !represented(orig[j], out@) {
                assert(in_seq(orig[j], cands@));
                let b = choose|b: int| 0 <= b < cands@.len() && cands@[b] == orig[j];
                assert(cands@.len() > 0);
                assert(out@.len() == limit as int);
                if limit > 0 {
                    assert(cands@[b].score_ppm <= out@[out@.len() - 1].score_ppm);
                }
            }
        }
    }
    out
}

// ---------------------------------------------------------------------
// Vector search: exhaustive cosine scoring
// ---------------------------------------------------------------------

/// `r` with its score replaced and its rank cleared.
pub open spec fn rescored(r: SearchResult, score: i64) -> SearchResult {
    SearchResult {
        chunk_id: r.chunk_id,
        codebase_id: r.codebase_id,
        file_path: r.file_path,
        start_line: r.start_line,
        end_line: r.end_line,
        content: r.content,
        language: r.language,
        score_ppm: score,
        rank: 0,
    }
}

/// Copies a result with a new score and a cleared rank.
fn restyled(r: &SearchResult, score: i64) -> (c: SearchResult)
    ensures
        c == rescored(*r, score),
{
    let language = match &r.language {
        Some(l) => Some(l.clone()),
        None => None,
    };
    SearchResult {
        chunk_id: r.chunk_id,
        codebase_id: r.codebase_id.clone(),
        file_path: r.file_path.clone(),
        start_line: r.start_line,
        end_line: r.end_line,
        content: r.content.clone(),
        language,
        score_ppm: score,
        rank: 0,
    }
}

/// Whether any result in the list has the given chunk ID.
fn contains_id(v: &Vec<SearchResult>, id: i64) -> (r: bool)
    ensures
        r == result_ids(v@).contains(id),
{
    let n = v.len();
    let mut i: usize = 0;
    while i < n
        invariant
            n == v@.len(),
            i <= n,
            forall|j: int| 0 <= j < i ==> result_ids(v@)[j] != id,
        decreases n - i,
    {
        if v[i].chunk_id == id {
            assert(result_ids(v@)[i as int] == id);
            return true;
        }
        assert(result_ids(v@)[i as int] == v@[i as int].chunk_id);
        i += 1;
    }
    proof {
        if result_ids(v@).contains(id) {
            let j = choose|j: int| 0 <= j < result_ids(v@).len() && result_ids(v@)[j] == id;
            assert(result_ids(v@)[j] != id);
        }
    }
    false
}

/// The candidate rows scored by cosine similarity against the query.
pub open spec fn scored_by_query(
    cands: Seq<(SearchResult, Vec<i64>)>,
    q: Seq<i64>,
) -> Seq<SearchResult> {
    cands.map_values(
        |p: (SearchResult, Vec<i64>)| rescored(p.0, spec_cosine_ppm(q, p.1@) as i64),
    )
}

/// Exhaustive vector search: every candidate chunk is scored by the
/// cosine similarity of its stored embedding to the query embedding,
/// and the best `limit` come back sorted and ranked.
pub fn vector_search(
    candidates: Vec<(SearchResult, Vec<i64>)>,
    query_embedding: &Vec<i64>,
    limit: usize,
) -> (r: Vec<SearchResult>)
    requires
        embedding_in_range(query_embedding@),
        forall|i: int|
            0 <= i < candidates@.len() ==> embedding_in_range((#[trigger] candidates@[i]).1@),
        result_ids(candidates@.map_values(|p: (SearchResult, Vec<i64>)| p.0)).no_duplicates(),
        limit < 0x8000_0000_0000_0000,
    ensures
        selected_from(r@, scored_by_query(candidates@, query_embedding@), limit as int),
{
    let ghost spec_scored = scored_by_query(candidates@, query_embedding@);
    let mut scored: Vec<SearchResult> = Vec::new();
    let n = candidates.len();
    let mut i: usize = 0;
    while i < n
        invariant
            n == candidates@.len(),
            i <= n,
            embedding_in_range(query_embedding@),
            forall|j: int|
                0 <= j < candidates@.len() ==> embedding_in_range(
                    (#[trigger] candidates@[j]).1@,
                ),
            spec_scored == scored_by_query(candidates@, query_embedding@),
            scored@ =~= spec_scored.take(i as int),
        decreases n - i,
    {
        let s = cosine_similarity(query_embedding, &candidates[i].1);
        let c = restyled(&candidates[i].0, s);
        scored.push(c);
        proof {
            assert(spec_scored[i as int] == rescored(
                candidates@[i as int].0,
                spec_cosine_ppm(query_embedding@, candidates@[i as int].1@) as i64,
            ));
            assert(scored@ =~= spec_scored.take(i + 1));
        }
        i += 1;
    }
    proof {
        assert(spec_scored.take(n as int) =~= spec_scored);
        assert(result_ids(scored@) =~= result_ids(
            candidates@.map_values(|p: (SearchResult, Vec<i64>)| p.0),
        ));
    }
    select_top(scored, limit)
}

// ---------------------------------------------------------------------
// Hybrid fusion
// ---------------------------------------------------------------------

/// A vector score weighted by `vw`, in parts per million.
pub open spec fn vec_weighted(score: int, vw: int) -> int {
    if score >= 0 {
        (score * vw) / 1000000
    } else {
        -(((-score) * vw) / 1000000)
    }
}

/// The lexical results, each given the flat lexical weight as score.
pub open spec fn with_fts_score(s: Seq<SearchResult>, fw: i64) -> Seq<SearchResult> {
    s.map_values(|r: SearchResult| rescored(r, fw))
}

/// The vector results, each with its similarity weighted by `vw`.
pub open spec fn with_vec_score(s: Seq<SearchResult>, vw: i64) -> Seq<SearchResult> {
    s.map_values(|r: SearchResult| rescored(r, vec_weighted(r.score_ppm as int, vw as int) as i64))
}

/// First occurrence of each chunk ID wins; IDs in `seen` are dropped.
pub open spec fn dedup_by_id(s: Seq<SearchResult>, seen: Seq<i64>) -> Seq<SearchResult>
    decreases s.len(),
{
    if s.len() == 0 {
        Seq::<SearchResult>::empty()
    } else if seen.contains(s.first().chunk_id) {
        dedup_by_id(s.drop_first(), seen)
    } else {
        seq![s.first()] + dedup_by_id(s.drop_first(), seen.push(s.first().chunk_id))
    }
}

/// The fused candidate list: lexical results first, at the lexical
/// weight; then vector results not already present, at their weighted
/// similarity; one entry per chunk ID.
pub open spec fn fused_candidates(
    fts: Seq<SearchResult>,
    vec_results: Seq<SearchResult>,
    fw: i64,
    vw: i64,
) -> Seq<SearchResult> {
    dedup_by_id(with_fts_score(fts, fw) + with_vec_score(vec_results, vw), Seq::<i64>::empty())
}

proof fn lemma_dedup_elements(s: Seq<SearchResult>, seen: Seq<i64>, i: int)
    requires
        0 <= i < dedup_by_id(s, seen).len(),
    ensures
        in_seq(dedup_by_id(s, seen)[i], s),
        !seen.contains(dedup_by_id(s, seen)[i].chunk_id),
    decreases s.len(),
{
    let d = dedup_by_id(s, seen);
    let rest = s.drop_first();
    if seen.contains(s.first().chunk_id) {
        lemma_dedup_elements(rest, seen, i);
        let b = choose|b: int| 0 <= b < rest.len() && rest[b] == d[i];
        assert(s[b + 1] == d[i]);
        assert(in_seq(d[i], s));
    } else {
        if i == 0 {
            assert(d[0] == s.first());
            assert(s[0] == d[0]);
            assert(in_seq(d[0], s));
        } else {
            let seen2 = seen.push(s.first().chunk_id);
            lemma_dedup_elements(rest, seen2, i - 1);
            let e = dedup_by_id(rest, seen2)[i - 1];
            assert(d[i] == e);
            let b = choose|b: int| 0 <= b < rest.len() && rest[b] == e;
            assert(s[b + 1] == e);
            assert(in_seq(d[i], s));
            assert(!seen.contains(e.chunk_id)) by {
                if seen.contains(e.chunk_id) {
                    let x = choose|x: int| 0 <= x < seen.len() && seen[x] == e.chunk_id;
                    assert(seen2[x] == e.chunk_id);
                    assert(seen2.contains(e.chunk_id));
                }
            }
        }
    }
}

proof fn lemma_dedup_split(a: Seq<SearchResult>, b: Seq<SearchResult>, seen: Seq<i64>)
    ensures
        dedup_by_id(a + b, seen) =~= dedup_by_id(a, seen) + dedup_by_id(
            b,
            seen + result_ids(dedup_by_id(a, seen)),
        ),
    decreases a.len(),
{
    if a.len() == 0 {
        assert(a + b =~= b);
        assert(dedup_by_id(a, seen) =~= Seq::<SearchResult>::empty());
        assert(seen + result_ids(dedup_by_id(a, seen)) =~= seen);
    } else {
        let s = a + b;
        assert(s.first() == a.first());
        assert(s.drop_first() =~= a.drop_first() + b);
        if seen.contains(a.first().chunk_id) {
            lemma_dedup_split(a.drop_first(), b, seen);
        } else {
            let seen2 = seen.push(a.first().chunk_id);
            lemma_dedup_split(a.drop_first(), b, seen2);
            let d_rest = dedup_by_id(a.drop_first(), seen2);
            assert(dedup_by_id(a, seen) =~= seq![a.first()] + d_rest);
            assert(result_ids(seq![a.first()] + d_rest) =~= seq![a.first().chunk_id]
                + result_ids(d_rest));
            assert(seen2 + result_ids(d_rest) =~= seen + result_ids(dedup_by_id(a, seen)));
        }
    }
}

proof fn lemma_dedup_covers(s: Seq<SearchResult>, seen: Seq<i64>, id: i64)
    requires
        result_ids(s).contains(id),
    ensures
        seen.contains(id) || result_ids(dedup_by_id(s, seen)).contains(id),
    decreases s.len(),
{
    let d = dedup_by_id(s, seen);
    let rest = s.drop_first();
    if s.first().chunk_id == id {
        if !seen.contains(id) {
            assert(d[0] == s.first());
            assert(result_ids(d)[0] == id);
            assert(result_ids(d).contains(id));
        }
    } else {
        let x = choose|x: int| 0 <= x < result_ids(s).len() && result_ids(s)[x] == id;
        assert(result_ids(s)[x] == s[x].chunk_id);
        assert(x > 0);
        assert(result_ids(rest)[x - 1] == id);
        assert(result_ids(rest).contains(id));
        if seen.contains(s.first().chunk_id) {
            lemma_dedup_covers(rest, seen, id);
        } else {
            let seen2 = seen.push(s.first().chunk_id);
            lemma_dedup_covers(rest, seen2, id);
            if seen2.contains(id) {
                let y = choose|y: int| 0 <= y < seen2.len() && seen2[y] == id;
                assert(y < seen.len());
                assert(seen[y] == id);
                assert(seen.contains(id));
            } else {
                let d_rest = dedup_by_id(rest, seen2);
                let y = choose|y: int|
                    0 <= y < result_ids(d_rest).len() && result_ids(d_rest)[y] == id;
                assert(d =~= seq![s.first()] + d_rest);
                assert(result_ids(d)[y + 1] == d[y + 1].chunk_id);
                assert(d[y + 1] == d_rest[y]);
                assert(result_ids(d_rest)[y] == d_rest[y].chunk_id);
                assert(result_ids(d).contains(id));
            }
        }
    }
}

/// Lexical-first deduplication: a chunk that the lexical search found
/// takes the flat lexical weight as its fused score, whether or not the
/// vector search found it too; the weighted similarity is not added on
/// top.
pub proof fn lemma_lexical_first(
    fts: Seq<SearchResult>,
    vec_results: Seq<SearchResult>,
    fw: i64,
    vw: i64,
    j: int,
)
    requires
        0 <= j < fused_candidates(fts, vec_results, fw, vw).len(),
        result_ids(fts).contains(fused_candidates(fts, vec_results, fw, vw)[j].chunk_id),
    ensures
        fused_candidates(fts, vec_results, fw, vw)[j].score_ppm == fw,
{
    let af = with_fts_score(fts, fw);
    let bv = with_vec_score(vec_results, vw);
    let c = fused_candidates(fts, vec_results, fw, vw)[j];
    assert(result_ids(af) =~= result_ids(fts));
    lemma_dedup_split(af, bv, Seq::<i64>::empty());
    let d1 = dedup_by_id(af, Seq::<i64>::empty());
    let seen1 = Seq::<i64>::empty() + result_ids(d1);
    assert(seen1 =~= result_ids(d1));
    if j < d1.len() {
        assert(c == d1[j]);
        lemma_dedup_elements(af, Seq::<i64>::empty(), j);
        let x = choose|x: int| 0 <= x < af.len() && af[x] == c;
        assert(af[x] == rescored(fts[x], fw));
    } else {
        let d2 = dedup_by_id(bv, seen1);
        assert(c == d2[j - d1.len()]);
        lemma_dedup_elements(bv, seen1, j - d1.len());
        assert(!seen1.contains(c.chunk_id));
        lemma_dedup_covers(af, Seq::<i64>::empty(), c.chunk_id);
        assert(result_ids(d1).contains(c.chunk_id));
        let y = choose|y: int| 0 <= y < result_ids(d1).len() && result_ids(d1)[y] == c.chunk_id;
        assert(seen1[y] == c.chunk_id);
        assert(seen1.contains(c.chunk_id));
        assert(false);
    }
}

/// Fuses lexical and vector results: lexical hits take the flat
/// lexical weight, vector-only hits their weighted similarity; one
/// entry per chunk, the best `limit` of them sorted and ranked.
#[verifier::rlimit(30)]
pub fn hybrid_search(
    fts_results: Vec<SearchResult>,
    vector_results: Vec<SearchResult>,
    fts_weight_ppm: i64,
    vector_weight_ppm: i64,
    limit: usize,
) -> (r: Vec<SearchResult>)
    requires
        0 <= vector_weight_ppm <= 1000000000,
        forall|i: int|
            0 <= i < vector_results@.len() ==> -1000000 <= (#[trigger] vector_results@[
                i]).score_ppm <= 1000000,
        limit < 0x8000_0000_0000_0000,
    ensures
        selected_from(
            r@,
            fused_candidates(fts_results@, vector_results@, fts_weight_ppm, vector_weight_ppm),
            limit as int,
        ),
{
    let ghost scored = with_fts_score(fts_results@, fts_weight_ppm) + with_vec_score(
        vector_results@,
        vector_weight_ppm,
    );
    let ghost cands_spec = fused_candidates(
        fts_results@,
        vector_results@,
        fts_weight_ppm,
        vector_weight_ppm,
    );
    let mut combined: Vec<SearchResult> = Vec::new();
    let nf = fts_results.len();
    let nv = vector_results.len();
    proof {
        assert(scored.skip(0) =~= scored);
        assert(result_ids(combined@) =~= Seq::<i64>::empty());
        assert(combined@ + dedup_by_id(scored, result_ids(combined@)) =~= dedup_by_id(
            scored,
            Seq::<i64>::empty(),
        ));
    }
    let mut k: usize = 0;
    while k < nf
        invariant
            nf == fts_results@.len(),
            nv == vector_results@.len(),
            k <= nf,
            scored == with_fts_score(fts_results@, fts_weight_ppm) + with_vec_score(
                vector_results@,
                vector_weight_ppm,
            ),
            cands_spec == dedup_by_id(scored, Seq::<i64>::empty()),
            cands_spec =~= combined@ + dedup_by_id(scored.skip(k as int), result_ids(combined@)),
            result_ids(combined@).no_duplicates(),
        decreases nf - k,
    {
        let c = restyled(&fts_results[k], fts_weight_ppm);
        proof {
            assert(scored[k as int] == rescored(fts_results@[k as int], fts_weight_ppm));
            assert(scored.skip(k as int).first() == scored[k as int]);
            assert(scored.skip(k as int).drop_first() =~= scored.skip(k + 1));
        }
        if !contains_id(&combined, c.chunk_id) {
            let ghost before = combined@;
            combined.push(c);
            proof {
                assert(result_ids(combined@) =~= result_ids(before).push(c.chunk_id));
                assert(cands_spec =~= combined@ + dedup_by_id(
                    scored.skip(k + 1),
                    result_ids(combined@),
                ));
                assert forall|a: int, b: int|
                    0 <= a < b < result_ids(combined@).len() implies result_ids(combined@)[a]
                    != result_ids(combined@)[b] by {
                    if b == result_ids(combined@).len() - 1 {
                        assert(result_ids(before)[a] == result_ids(combined@)[a]);
                        assert(!result_ids(before).contains(c.chunk_id));
                        if result_ids(combined@)[a] == c.chunk_id {
                            assert(result_ids(before).contains(c.chunk_id));
                        }
                    }
                }
            }
        }
        k += 1;
    }
    let mut k: usize = 0;
    while k < nv
        invariant
            nf == fts_results@.len(),
            nv == vector_results@.len(),
            k <= nv,
            0 <= vector_weight_ppm <= 1000000000,
            forall|i: int|
                0 <= i < vector_results@.len() ==> -1000000 <= (#[trigger] vector_results@[
                    i]).score_ppm <= 1000000,
            scored == with_fts_score(fts_results@, fts_weight_ppm) + with_vec_score(
                vector_results@,
                vector_weight_ppm,
            ),
            cands_spec == dedup_by_id(scored, Seq::<i64>::empty()),
            cands_spec =~= combined@ + dedup_by_id(
                scored.skip(nf + k as int),
                result_ids(combined@),
            ),
            result_ids(combined@).no_duplicates(),
        decreases nv - k,
    {
        let s = vector_results[k].score_ppm;
        proof {
            assert(-1000000 <= s <= 1000000);
            assert((0 <= s ==> 0 <= s * vector_weight_ppm) && (s < 0 ==> 0 <= (-s)
                * vector_weight_ppm) && -1000000000000000 <= s * vector_weight_ppm
                <= 1000000000000000 && -1000000000000000 <= (-s) * vector_weight_ppm
                <= 1000000000000000) by (nonlinear_arith)
                requires
                    -1000000 <= s <= 1000000,
                    0 <= vector_weight_ppm <= 1000000000,
            ;
        }
        let w = if s >= 0 {
            (s * vector_weight_ppm) / 1000000
        } else {
            -(((-s) * vector_weight_ppm) / 1000000)
        };
        assert(w as int == vec_weighted(s as int, vector_weight_ppm as int));
        let c = restyled(&vector_results[k], w);
        proof {
            assert(scored[nf + k as int] == rescored(
                vector_results@[k as int],
                vec_weighted(
                    vector_results@[k as int].score_ppm as int,
                    vector_weight_ppm as int,
                ) as i64,
            ));
            assert(scored.skip(nf + k as int).first() == scored[nf + k as int]);
            assert(scored.skip(nf + k as int).drop_first() =~= scored.skip(nf + k + 1));
        }
        if !contains_id(&combined, c.chunk_id) {
            let ghost before = combined@;
            combined.push(c);
            proof {
                assert(result_ids(combined@) =~= result_ids(before).push(c.chunk_id));
                assert(cands_spec =~= combined@ + dedup_by_id(
                    scored.skip(nf + k + 1),
                    result_ids(combined@),
                ));
                assert forall|a: int, b: int|
                    0 <= a < b < result_ids(combined@).len() implies result_ids(combined@)[a]
                    != result_ids(combined@)[b] by {
                    if b == result_ids(combined@).len() - 1 {
                        assert(result_ids(before)[a] == result_ids(combined@)[a]);
                        if result_ids(combined@)[a] == c.chunk_id {
                            assert(result_ids(before).contains(c.chunk_id));
                        }
                    }
                }
            }
        }
        k += 1;
    }
    proof {
        assert(scored.skip(nf + nv as int) =~= Seq::<SearchResult>::empty());
        assert(cands_spec =~= combined@);
    }
    select_top(combined, limit)
}

// ---------------------------------------------------------------------
// Query tokenization
// ---------------------------------------------------------------------

/// The whitespace characters that separate query terms: the Unicode
/// White_Space set.
pub open spec fn is_space(c: char) -> bool {
    ||| c == ' '
    ||| c == '\t'
    ||| c == '\n'
    ||| c == '\r'
    ||| c == '\u{b}'
    ||| c == '\u{c}'
    ||| c == '\u{85}'
    ||| c == '\u{a0}'
    ||| c == '\u{1680}'
    ||| ('\u{2000}' <= c && c <= '\u{200a}')
    ||| c == '\u{2028}'
    ||| c == '\u{2029}'
    ||| c == '\u{202f}'
    ||| c == '\u{205f}'
    ||| c == '\u{3000}'
}

/// Whether one character separates query terms.
fn is_space_char(c: char) -> (r: bool)
    ensures
        r == is_space(c),
{
    c == ' ' || c == '\t' || c == '\n' || c == '\r' || c == '\u{b}' || c == '\u{c}'
        || c == '\u{85}' || c == '\u{a0}' || c == '\u{1680}' || ('\u{2000}' <= c && c
        <= '\u{200a}') || c == '\u{2028}' || c == '\u{2029}' || c == '\u{202f}' || c
        == '\u{205f}' || c == '\u{3000}'
}

/// The index of the first whitespace character, or `s.len()`.
pub open spec fn first_space(s: Seq<char>) -> int
    decreases s.len(),
{
    if s.len() == 0 {
        0
    } else if is_space(s[0]) {
        0
    } else {
        1 + first_space(s.drop_first())
    }
}

proof fn lemma_first_space(s: Seq<char>)
    ensures
        0 <= first_space(s) <= s.len(),
    decreases s.len(),
{
    if s.len() > 0 && !is_space(s[0]) {
        lemma_first_space(s.drop_first());
    }
}

proof fn lemma_first_space_at(s: Seq<char>, k: int)
    requires
        0 <= k <= s.len(),
        forall|j: int| 0 <= j < k ==> !is_space(s[j]),
        k < s.len() ==> is_space(s[k]),
    ensures
        first_space(s) == k,
    decreases s.len(),
{
    if s.len() > 0 && !is_space(s[0]) {
        assert(k > 0);
        assert(forall|j: int| 0 <= j < s.len() - 1 ==> s.drop_first()[j] == s[j + 1]);
        lemma_first_space_at(s.drop_first(), k - 1);
    }
}

/// The query terms: maximal whitespace-free runs, with runs shorter
/// than two characters dropped.
pub open spec fn spec_tokens(s: Seq<char>) -> Seq<Seq<char>>
    decreases s.len(),
    via spec_tokens_decreases
{
    if s.len() == 0 {
        Seq::<Seq<char>>::empty()
    } else {
        let i = first_space(s);
        if i == s.len() {
            if s.len() >= 2 {
                seq![s]
            } else {
                Seq::<Seq<char>>::empty()
            }
        } else {
            let head: Seq<Seq<char>> = if i >= 2 {
                seq![s.take(i)]
            } else {
                Seq::<Seq<char>>::empty()
            };
            head + spec_tokens(s.skip(i + 1))
        }
    }
}

#[via_fn]
proof fn spec_tokens_decreases(s: Seq<char>) {
    lemma_first_space(s);
}

proof fn lemma_tokens_step(s: Seq<char>, start: int, i: int)
    requires
        0 <= start <= i < s.len(),
        forall|j: int| start <= j < i ==> !is_space(s[j]),
        is_space(s[i]),
    ensures
        spec_tokens(s.skip(start)) =~= (if i - start >= 2 {
            seq![s.subrange(start, i)]
        } else {
            Seq::<Seq<char>>::empty()
        }) + spec_tokens(s.skip(i + 1)),
{
    let t = s.skip(start);
    assert(forall|j: int| 0 <= j < t.len() ==> t[j] == s[start + j]);
    lemma_first_space_at(t, i - start);
    assert(t.take(i - start) =~= s.subrange(start, i));
    assert(t.skip(i - start + 1) =~= s.skip(i + 1));
}

proof fn lemma_tokens_tail(s: Seq<char>, start: int)
    requires
        0 <= start <= s.len(),
        forall|j: int| start <= j < s.len() ==> !is_space(s[j]),
    ensures
        s.len() - start >= 2 ==> spec_tokens(s.skip(start)) =~= seq![s.skip(start)],
        s.len() - start < 2 ==> spec_tokens(s.skip(start)) =~= Seq::<Seq<char>>::empty(),
{
    let t = s.skip(start);
    assert(forall|j: int| 0 <= j < t.len() ==> t[j] == s[start + j]);
    lemma_first_space_at(t, t.len() as int);
}

/// Splits a query into its search terms: whitespace-separated words of
/// at least two characters. An empty result means the lexical search
/// has nothing to ask for and returns no results.
pub fn tokenize_query(query: &str) -> (r: Vec<String>)
    ensures
        crate::config::str_views(r@) == spec_tokens(query@),
{
    let n = query.unicode_len();
    let mut r: Vec<String> = Vec::new();
    let mut start: usize = 0;
    let mut i: usize = 0;
    assert(query@.skip(0) == query@);
    while i < n
        invariant
            n == query@.len(),
            start <= i <= n,
            spec_tokens(query@) =~= crate::config::str_views(r@) + spec_tokens(
                query@.skip(start as int),
            ),
            forall|j: int| start <= j < i ==> !is_space(query@[j]),
        decreases n - i,
    {
        if is_space_char(query.get_char(i)) {
            proof {
                lemma_tokens_step(query@, start as int, i as int);
            }
            if i - start >= 2 {
                let term = query.substring_char(start, i);
                let ghost old_r = r@;
                r.push(term.to_owned());
                proof {
                    assert(term@ =~= query@.subrange(start as int, i as int));
                    assert(crate::config::str_views(r@) =~= crate::config::str_views(
                        old_r,
                    ).push(term@));
                }
            }
            start = i + 1;
        }
        i += 1;
    }
    proof {
        lemma_tokens_tail(query@, start as int);
    }
    if n - start >= 2 {
        let term = query.substring_char(start, n);
        let ghost old_r = r@;
        r.push(term.to_owned());
        proof {
            assert(term@ =~= query@.skip(start as int));
            assert(crate::config::str_views(r@) =~= crate::config::str_views(old_r).push(term@));
        }
    }
    r
}

// ---------------------------------------------------------------------
// Result formatting
// ---------------------------------------------------------------------

/// One search hit rendered for display: every field a plain string.
pub struct FormattedResult {
    pub file: String,
    pub lines: String,
    pub content: String,
    pub score: String,
    pub language: Option<String>,
}

/// A number below 10000 as exactly four digits, zero-padded.
pub open spec fn pad4(n: int) -> Seq<char> {
    seq![
        crate::hashing::hex_digit_char(n / 1000 % 10),
        crate::hashing::hex_digit_char(n / 100 % 10),
        crate::hashing::hex_digit_char(n / 10 % 10),
        crate::hashing::hex_digit_char(n % 10),
    ]
}

/// A parts-per-million score as a decimal with four places, rounded
/// half up at the fourth place.
pub open spec fn score_string_of(ppm: int) -> Seq<char> {
    let mag = if ppm < 0 {
        -ppm
    } else {
        ppm
    };
    let rounded = (mag + 50) / 100;
    (if ppm < 0 {
        seq!['-']
    } else {
        Seq::<char>::empty()
    }) + crate::strutil::dec_of(rounded / 10000) + seq!['.'] + pad4(rounded % 10000)
}

/// A line range as `start-end`.
pub open spec fn lines_string_of(start: int, end: int) -> Seq<char> {
    crate::strutil::dec_of(start) + seq!['-'] + crate::strutil::dec_of(end)
}

fn pad4_string(n: u64) -> (r: String)
    requires
        n < 10000,
    ensures
        r@ == pad4(n as int),
{
    let mut r = String::new();
    r.append(crate::hashing::hex_digit_str((n / 1000 % 10) as u8));
    r.append(crate::hashing::hex_digit_str((n / 100 % 10) as u8));
    r.append(crate::hashing::hex_digit_str((n / 10 % 10) as u8));
    r.append(crate::hashing::hex_digit_str((n % 10) as u8));
    assert(r@ =~= pad4(n as int));
    r
}

/// Renders results for display: the line range as `start-end` and the
/// fixed-point score as a decimal with four places.
pub fn format_results(results: &Vec<SearchResult>) -> (r: Vec<FormattedResult>)
    requires
        forall|i: int|
            0 <= i < results@.len() ==> {
                &&& 0 <= (#[trigger] results@[i]).start_line
                &&& 0 <= results@[i].end_line
                &&& results@[i].start_line as int <= usize::MAX as int
                &&& results@[i].end_line as int <= usize::MAX as int
                &&& -1000000000000000 <= results@[i].score_ppm <= 1000000000000000
            },
    ensures
        r@.len() == results@.len(),
        forall|i: int|
            0 <= i < r@.len() ==> {
                &&& (#[trigger] r@[i]).file@ == results@[i].file_path@
                &&& r@[i].lines@ == lines_string_of(
                    results@[i].start_line as int,
                    results@[i].end_line as int,
                )
                &&& r@[i].content@ == results@[i].content@
                &&& r@[i].score@ == score_string_of(results@[i].score_ppm as int)
                &&& r@[i].language == results@[i].language
            },
{
    let n = results.len();
    let mut r: Vec<FormattedResult> = Vec::new();
    let mut i: usize = 0;
    while i < n
        invariant
            n == results@.len(),
            i <= n,
            forall|j: int|
                0 <= j < results@.len() ==> {
                    &&& 0 <= (#[trigger] results@[j]).start_line
                    &&& 0 <= results@[j].end_line
                    &&& results@[j].start_line as int <= usize::MAX as int
                    &&& results@[j].end_line as int <= usize::MAX as int
                    &&& -1000000000000000 <= results@[j].score_ppm <= 1000000000000000
                },
            r@.len() == i,
            forall|j: int|
                0 <= j < i ==> {
                    &&& (#[trigger] r@[j]).file@ == results@[j].file_path@
                    &&& r@[j].lines@ == lines_string_of(
                        results@[j].start_line as int,
                        results@[j].end_line as int,
                    )
                    &&& r@[j].content@ == results@[j].content@
                    &&& r@[j].score@ == score_string_of(results@[j].score_ppm as int)
                    &&& r@[j].language == results@[j].language
                },
        decreases n - i,
    {
        let x = &results[i];
        let mut lines = crate::strutil::usize_to_string(x.start_line as usize);
        lines.append("-");
        let end_str = crate::strutil::usize_to_string(x.end_line as usize);
        lines.append(end_str.as_str());
        proof {
            reveal_strlit("-");
            assert(lines@ =~= lines_string_of(x.start_line as int, x.end_line as int));
        }
        let ppm = x.score_ppm;
        let mag: u64 = if ppm < 0 {
            (-ppm) as u64
        } else {
            ppm as u64
        };
        let rounded = (mag + 50) / 100;
        let mut score = if ppm < 0 {
            String::from_str("-")
        } else {
            String::new()
        };
        let int_part = crate::strutil::usize_to_string((rounded / 10000) as usize);
        score.append(int_part.as_str());
        score.append(".");
        let frac = pad4_string(rounded % 10000);
        score.append(frac.as_str());
        proof {
            reveal_strlit("-");
            reveal_strlit(".");
            assert(score@ =~= score_string_of(ppm as int));
        }
        let language = match &x.language {
            Some(l) => Some(l.clone()),
            None => None,
        };
        r.push(
            FormattedResult {
                file: x.file_path.clone(),
                lines,
                content: x.content.clone(),
                score,
                language,
            },
        );
        i += 1;
    }
    r
}

} // verus!
