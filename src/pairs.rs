//! The upper-triangular grid of body pairs `(i, j)`, `i < j < n`, in
//! lexicographic order, and its division into contiguous slices.
use vstd::prelude::*;
use vstd::arithmetic::div_mod::lemma_fundamental_div_mod;

verus! {

/// `p` is a pair of distinct bodies among `n`, smaller index first.
pub open spec fn is_pair(n: int, p: (usize, usize)) -> bool {
    p.0 < p.1 && p.1 < n
}

/// Number of pairs whose first index is `i`.
pub open spec fn row_len(n: int, i: int) -> int {
    if i + 1 < n {
        n - 1 - i
    } else {
        0
    }
}

/// Number of pairs whose first index is below `i`.
pub open spec fn row_start(n: int, i: int) -> int
    decreases i,
{
    if i <= 0 {
        0
    } else {
        row_start(n, i - 1) + row_len(n, i - 1)
    }
}

/// Number of pairs among `n` bodies.
pub open spec fn pair_count(n: int) -> int {
    n * (n - 1) / 2
}

/// Position of pair `p` in the lexicographic list of all pairs.
pub open spec fn rank(n: int, p: (usize, usize)) -> int {
    row_start(n, p.0 as int) + (p.1 - p.0 - 1)
}

/// Strict lexicographic order on pairs.
pub open spec fn lex_lt(p: (usize, usize), q: (usize, usize)) -> bool {
    p.0 < q.0 || (p.0 == q.0 && p.1 < q.1)
}

pub proof fn lemma_row_start_mono(n: int, a: int, b: int)
    requires
        0 <= a <= b,
    ensures
        row_start(n, a) <= row_start(n, b),
    decreases b,
{
    if a < b {
        lemma_row_start_mono(n, a, b - 1);
    }
}

proof fn lemma_row_start_closed(n: int, i: int)
    requires
        0 <= i <= n - 1,
    ensures
        2 * row_start(n, i) == i * (2 * n - i - 1),
    decreases i,
{
    if i > 0 {
        lemma_row_start_closed(n, i - 1);
        assert(2 * row_start(n, i) == (i - 1) * (2 * n - i) + 2 * (n - i)) by {
            assert(row_len(n, i - 1) == n - i);
        }
        assert((i - 1) * (2 * n - i) + 2 * (n - i) == i * (2 * n - i - 1)) by (nonlinear_arith);
    } else {
        assert(i * (2 * n - i - 1) == 0) by (nonlinear_arith)
            requires
                i == 0,
        ;
    }
}

/// The rows before the last one hold every pair.
pub proof fn lemma_pair_count_rows(n: int)
    requires
        n >= 1,
    ensures
        row_start(n, n - 1) == pair_count(n),
        pair_count(n) >= 0,
{
    lemma_row_start_closed(n, n - 1);
    assert((n - 1) * (2 * n - (n - 1) - 1) == n * (n - 1)) by (nonlinear_arith);
    assert(n * (n - 1) >= 0) by (nonlinear_arith)
        requires
            n >= 1,
    ;
}

/// Each row occupies a contiguous block of ranks below `pair_count(n)`.
pub proof fn lemma_rank_bounds(n: int, p: (usize, usize))
    requires
        is_pair(n, p),
    ensures
        row_start(n, p.0 as int) <= rank(n, p) < row_start(n, p.0 + 1),
        row_start(n, p.0 + 1) <= pair_count(n),
        0 <= rank(n, p) < pair_count(n),
{
    assert(row_start(n, p.0 + 1) == row_start(n, p.0 as int) + (n - 1 - p.0));
    lemma_row_start_mono(n, p.0 + 1, n - 1);
    lemma_row_start_mono(n, 0, p.0 as int);
    lemma_pair_count_rows(n);
}

/// Rank order is lexicographic order, and distinct pairs have distinct ranks.
pub proof fn lemma_rank_order(n: int, p: (usize, usize), q: (usize, usize))
    requires
        is_pair(n, p),
        is_pair(n, q),
    ensures
        rank(n, p) < rank(n, q) <==> lex_lt(p, q),
        rank(n, p) == rank(n, q) <==> p == q,
{
    lemma_rank_bounds(n, p);
    lemma_rank_bounds(n, q);
    if p.0 < q.0 {
        lemma_row_start_mono(n, p.0 + 1, q.0 as int);
    } else if q.0 < p.0 {
        lemma_row_start_mono(n, q.0 + 1, p.0 as int);
    }
}

/// Number of pairs among `n` bodies, or `None` where it exceeds `usize`.
pub fn checked_pair_count(n: usize) -> (r: Option<usize>)
    ensures
        r is None <==> pair_count(n as int) > usize::MAX,
        r matches Some(c) ==> c == pair_count(n as int),
{
    if n < 2 {
        assert(pair_count(n as int) == 0) by (nonlinear_arith)
            requires
                n < 2,
        ;
        return Some(0);
    }
    let (a, b) = if n % 2 == 0 {
        (n / 2, n - 1)
    } else {
        (n, (n - 1) / 2)
    };
    assert(n * (n - 1) == 2 * (a * b)) by (nonlinear_arith)
        requires
            (n % 2 == 0 && a == n / 2 && b == n - 1) || (n % 2 == 1 && a == n && b == (n - 1) / 2),
    ;
    a.checked_mul(b)
}

/// The pair at position `k` of the lexicographic list of pairs among `n`.
pub fn pair_at_rank(n: usize, k: usize) -> (p: (usize, usize))
    requires
        k < pair_count(n as int),
    ensures
        is_pair(n as int, p),
        rank(n as int, p) == k,
{
    assert(n >= 2) by (nonlinear_arith)
        requires
            k < n * (n - 1) / 2,
            k >= 0,
    ;
    proof {
        lemma_pair_count_rows(n as int);
    }
    let mut i: usize = 0;
    let mut base: usize = 0;
    while k - base >= n - 1 - i
        invariant
            n >= 2,
            i < n - 1,
            base == row_start(n as int, i as int),
            base <= k,
            k < row_start(n as int, n - 1),
        decreases n - i,
    {
        assert(row_start(n as int, i + 1) == base + (n - 1 - i));
        proof {
            if i + 1 >= n - 1 {
                lemma_row_start_mono(n as int, n - 1, i + 1);
            }
        }
        base = base + (n - 1 - i);
        i = i + 1;
    }
    (i, i + 1 + (k - base))
}

/// The pair that follows `p` in lexicographic order, if any.
pub fn next_pair(n: usize, p: (usize, usize)) -> (r: Option<(usize, usize)>)
    requires
        is_pair(n as int, p),
    ensures
        r is Some <==> rank(n as int, p) + 1 < pair_count(n as int),
        r matches Some(q) ==> is_pair(n as int, q) && rank(n as int, q) == rank(n as int, p) + 1,
{
    proof {
        lemma_rank_bounds(n as int, p);
        lemma_pair_count_rows(n as int);
    }
    if p.1 + 1 < n {
        let q = (p.0, p.1 + 1);
        proof {
            lemma_rank_bounds(n as int, q);
        }
        Some(q)
    } else if p.0 + 2 < n {
        let q = (p.0 + 1, p.0 + 2);
        proof {
            lemma_rank_bounds(n as int, q);
        }
        Some(q)
    } else {
        assert(row_start(n as int, n - 1) == row_start(n as int, n - 2) + 1);
        None
    }
}

/// One step of the walk through an inclusive pair-fence ending at `end`:
/// the successor of `cur` while `cur` lies before `end`, else `None`.
pub fn walk_fence(n: usize, cur: (usize, usize), end: (usize, usize)) -> (r: Option<(usize, usize)>)
    requires
        is_pair(n as int, cur),
        is_pair(n as int, end),
        rank(n as int, cur) <= rank(n as int, end),
    ensures
        r is Some <==> rank(n as int, cur) < rank(n as int, end),
        r matches Some(q) ==> is_pair(n as int, q) && rank(n as int, q) == rank(n as int, cur) + 1,
{
    proof {
        lemma_rank_order(n as int, cur, end);
        lemma_rank_bounds(n as int, end);
    }
    if cur.0 < end.0 || (cur.0 == end.0 && cur.1 < end.1) {
        next_pair(n, cur)
    } else {
        None
    }
}

/// An inclusive pair-fence: the pairs from `start` to `end` in lexicographic
/// order, handed to one worker.
#[derive(Clone, Copy, PartialEq, Eq, Debug)]
pub struct WorkItem {
    pub start: (usize, usize),
    pub end: (usize, usize),
}

impl WorkItem {
    /// Both ends are pairs among `n` and the fence is not empty.
    pub open spec fn wf(self, n: int) -> bool {
        is_pair(n, self.start) && is_pair(n, self.end) && rank(n, self.start) <= rank(n, self.end)
    }

    /// The fence holds pair `p`.
    pub open spec fn covers(self, n: int, p: (usize, usize)) -> bool {
        is_pair(n, p) && rank(n, self.start) <= rank(n, p) <= rank(n, self.end)
    }

    /// Number of pairs the fence holds.
    pub open spec fn size(self, n: int) -> int {
        rank(n, self.end) - rank(n, self.start) + 1
    }
}

/// The pairs of a fence, in lexicographic order.
pub fn fence_pairs(n: usize, item: &WorkItem) -> (r: Vec<(usize, usize)>)
    requires
        item.wf(n as int),
    ensures
        r@.len() == item.size(n as int),
        forall|t: int|
            0 <= t < r@.len() ==> is_pair(n as int, #[trigger] r@[t]) && rank(n as int, r@[t])
                == rank(n as int, item.start) + t,
{
    let mut out: Vec<(usize, usize)> = Vec::new();
    let mut cur = item.start;
    out.push(cur);
    loop
        invariant
            item.wf(n as int),
            is_pair(n as int, cur),
            rank(n as int, cur) <= rank(n as int, item.end),
            out@.len() == rank(n as int, cur) - rank(n as int, item.start) + 1,
            forall|t: int|
                0 <= t < out@.len() ==> is_pair(n as int, #[trigger] out@[t]) && rank(
                    n as int,
                    out@[t],
                ) == rank(n as int, item.start) + t,
        ensures
            out@.len() == item.size(n as int),
            forall|t: int|
                0 <= t < out@.len() ==> is_pair(n as int, #[trigger] out@[t]) && rank(
                    n as int,
                    out@[t],
                ) == rank(n as int, item.start) + t,
        decreases rank(n as int, item.end) - rank(n as int, cur),
    {
        match walk_fence(n, cur, item.end) {
            Some(q) => {
                out.push(q);
                cur = q;
            },
            None => {
                break;
            },
        }
    }
    out
}

/// Size of slice `s` when `total` pairs are split into `m` slices: the
/// first `total % m` slices take one pair more than the others.
pub open spec fn slice_size(total: int, m: int, s: int) -> int {
    total / m + if s < total % m {
        1int
    } else {
        0int
    }
}

/// Rank of the first pair of slice `s`.
pub open spec fn slice_lo(total: int, m: int, s: int) -> int
    decreases s,
{
    if s <= 0 {
        0
    } else {
        slice_lo(total, m, s - 1) + slice_size(total, m, s - 1)
    }
}

/// Number of slices: one per thread, but no more than there are pairs.
pub open spec fn slice_count(n: int, threads: int) -> int {
    if pair_count(n) < threads {
        pair_count(n)
    } else {
        threads
    }
}

/// `slices` divides the pairs among `n` over `threads` workers: one slice
/// per worker up to the number of pairs, in order, of near-equal sizes.
#[verifier::opaque]
pub open spec fn is_split(n: int, threads: int, slices: Seq<WorkItem>) -> bool {
    let total = pair_count(n);
    let m = slice_count(n, threads);
    &&& slices.len() == m
    &&& forall|s: int|
        0 <= s < m ==> {
            &&& is_pair(n, #[trigger] slices[s].start)
            &&& is_pair(n, slices[s].end)
            &&& rank(n, slices[s].start) == slice_lo(total, m, s)
            &&& rank(n, slices[s].end) == slice_lo(total, m, s + 1) - 1
        }
}

proof fn lemma_slice_lo_closed(total: int, m: int, s: int)
    requires
        total >= 0,
        m > 0,
        0 <= s <= m,
    ensures
        slice_lo(total, m, s) == s * (total / m) + if s < total % m {
            s
        } else {
            total % m
        },
    decreases s,
{
    if s > 0 {
        lemma_slice_lo_closed(total, m, s - 1);
        assert((s - 1) * (total / m) + total / m == s * (total / m)) by (nonlinear_arith);
    } else {
        assert(s * (total / m) == 0) by (nonlinear_arith)
            requires
                s == 0,
        ;
    }
}

/// Slices tile the ranks `0..total` in order, and none is empty.
proof fn lemma_slice_lo_range(total: int, m: int, s: int)
    requires
        0 < m <= total,
        0 <= s < m,
    ensures
        0 <= slice_lo(total, m, s),
        slice_lo(total, m, s) < slice_lo(total, m, s + 1) <= total,
        slice_lo(total, m, 0) == 0,
        slice_lo(total, m, m) == total,
{
    lemma_fundamental_div_mod(total, m);
    let q = total / m;
    assert(q >= 1) by (nonlinear_arith)
        requires
            total == m * q + total % m,
            total % m < m,
            m <= total,
    ;
    lemma_slice_lo_closed(total, m, s);
    lemma_slice_lo_closed(total, m, s + 1);
    lemma_slice_lo_closed(total, m, m);
    assert(s * q >= 0 && (s + 1) * q <= m * q) by (nonlinear_arith)
        requires
            0 <= s < m,
            q >= 1,
    ;
}

/// Splits the pairs among `n` bodies into `min(threads, pairs)` contiguous
/// fences in lexicographic order, of sizes that differ by at most one.
pub fn split_pairs(n: usize, threads: usize) -> (r: Vec<WorkItem>)
    requires
        pair_count(n as int) <= usize::MAX,
    ensures
        is_split(n as int, threads as int, r@),
{
    let total = match checked_pair_count(n) {
        Some(t) => t,
        None => {
            return Vec::new();
        },
    };
    let m = if total < threads {
        total
    } else {
        threads
    };
    let mut out: Vec<WorkItem> = Vec::new();
    if m == 0 {
        reveal(is_split);
        return out;
    }
    let q = total / m;
    let rem = total % m;
    let mut s: usize = 0;
    let mut lo: usize = 0;
    while s < m
        invariant
            total == pair_count(n as int),
            m == slice_count(n as int, threads as int),
            0 < m <= total,
            q == total / m,
            rem == total % m,
            s <= m,
            lo == slice_lo(total as int, m as int, s as int),
            out@.len() == s,
            forall|t: int|
                0 <= t < s ==> {
                    &&& is_pair(n as int, #[trigger] out@[t].start)
                    &&& is_pair(n as int, out@[t].end)
                    &&& rank(n as int, out@[t].start) == slice_lo(total as int, m as int, t)
                    &&& rank(n as int, out@[t].end) == slice_lo(total as int, m as int, t + 1) - 1
                },
        decreases m - s,
    {
        proof {
            lemma_slice_lo_range(total as int, m as int, s as int);
        }
        let size = if s < rem {
            q + 1
        } else {
            q
        };
        let hi = lo + size - 1;
        let start = pair_at_rank(n, lo);
        let end = pair_at_rank(n, hi);
        out.push(WorkItem { start, end });
        lo = lo + size;
        s = s + 1;
    }
    assert forall|t: int| 0 <= t < m implies {
        &&& is_pair(n as int, #[trigger] out@[t].start)
        &&& is_pair(n as int, out@[t].end)
        &&& rank(n as int, out@[t].start) == slice_lo(pair_count(n as int), m as int, t)
        &&& rank(n as int, out@[t].end) == slice_lo(pair_count(n as int), m as int, t + 1) - 1
    } by {}
    reveal(is_split);
    out
}

/// Some slice of `slices` holds pair `p`.
pub open spec fn in_some_slice(n: int, slices: Seq<WorkItem>, p: (usize, usize)) -> bool {
    exists|s: int| 0 <= s < slices.len() && #[trigger] slices[s].covers(n, p)
}

/// Every pair among `n` bodies lies in exactly one slice of a split over
/// `threads` workers; slices come in lexicographic order, end to end, and
/// their sizes differ by at most one.
pub proof fn lemma_split_covers_once(n: int, threads: int, slices: Seq<WorkItem>)
    requires
        n >= 2,
        1 <= threads <= pair_count(n),
        is_split(n, threads, slices),
    ensures
        slices.len() == threads,
        forall|s: int| 0 <= s < slices.len() ==> (#[trigger] slices[s]).wf(n),
        forall|p: (usize, usize)| is_pair(n, p) ==> #[trigger] in_some_slice(n, slices, p),
        forall|p: (usize, usize), s1: int, s2: int|
            0 <= s1 < slices.len() && 0 <= s2 < slices.len() && #[trigger] slices[s1].covers(n, p)
                && #[trigger] slices[s2].covers(n, p) ==> s1 == s2,
        rank(n, slices[0].start) == 0,
        rank(n, slices[slices.len() - 1].end) == pair_count(n) - 1,
        forall|s: int|
            0 <= s < slices.len() - 1 ==> rank(n, #[trigger] slices[s].end) + 1 == rank(n, #[trigger] slices[s + 1].start),
        forall|s1: int, s2: int|
            0 <= s1 < slices.len() && 0 <= s2 < slices.len() ==> (#[trigger] slices[s1]).size(n) <= (#[trigger] slices[s2]).size(n) + 1,
{
    lemma_split_slice(n, threads, slices, 0);
    lemma_split_slice(n, threads, slices, threads - 1);
    lemma_split_all_wf(n, threads, slices);
    lemma_split_cover(n, threads, slices);
    lemma_split_unique(n, threads, slices);
    lemma_split_adjacent(n, threads, slices);
    lemma_split_sizes(n, threads, slices);
}

proof fn lemma_split_all_wf(n: int, threads: int, slices: Seq<WorkItem>)
    requires
        n >= 2,
        1 <= threads <= pair_count(n),
        is_split(n, threads, slices),
    ensures
        forall|s: int| 0 <= s < slices.len() ==> (#[trigger] slices[s]).wf(n),
{
    lemma_split_slice(n, threads, slices, 0);
    assert forall|s: int| 0 <= s < slices.len() implies (#[trigger] slices[s]).wf(n) by {
        lemma_split_slice(n, threads, slices, s);
    }
}

proof fn lemma_split_cover(n: int, threads: int, slices: Seq<WorkItem>)
    requires
        n >= 2,
        1 <= threads <= pair_count(n),
        is_split(n, threads, slices),
    ensures
        forall|p: (usize, usize)| is_pair(n, p) ==> #[trigger] in_some_slice(n, slices, p),
{
    assert forall|p: (usize, usize)| is_pair(n, p) implies #[trigger] in_some_slice(n, slices, p) by {
        let s = lemma_split_find(n, threads, slices, p);
    }
}

proof fn lemma_split_unique(n: int, threads: int, slices: Seq<WorkItem>)
    requires
        n >= 2,
        1 <= threads <= pair_count(n),
        is_split(n, threads, slices),
    ensures
        forall|p: (usize, usize), s1: int, s2: int|
            0 <= s1 < slices.len() && 0 <= s2 < slices.len() && #[trigger] slices[s1].covers(n, p)
                && #[trigger] slices[s2].covers(n, p) ==> s1 == s2,
{
    assert forall|p: (usize, usize), s1: int, s2: int|
        0 <= s1 < slices.len() && 0 <= s2 < slices.len() && #[trigger] slices[s1].covers(n, p)
            && #[trigger] slices[s2].covers(n, p) implies s1 == s2 by {
        lemma_split_disjoint(n, threads, slices, p, s1, s2);
    }
}

proof fn lemma_split_adjacent(n: int, threads: int, slices: Seq<WorkItem>)
    requires
        n >= 2,
        1 <= threads <= pair_count(n),
        is_split(n, threads, slices),
    ensures
        forall|s: int|
            0 <= s < slices.len() - 1 ==> rank(n, #[trigger] slices[s].end) + 1 == rank(n, #[trigger] slices[s + 1].start),
{
    lemma_split_slice(n, threads, slices, 0);
    assert forall|s: int| 0 <= s < slices.len() - 1 implies rank(n, #[trigger] slices[s].end) + 1
        == rank(n, #[trigger] slices[s + 1].start) by {
        lemma_split_slice(n, threads, slices, s);
        lemma_split_slice(n, threads, slices, s + 1);
    }
}

proof fn lemma_split_sizes(n: int, threads: int, slices: Seq<WorkItem>)
    requires
        n >= 2,
        1 <= threads <= pair_count(n),
        is_split(n, threads, slices),
    ensures
        forall|s1: int, s2: int|
            0 <= s1 < slices.len() && 0 <= s2 < slices.len() ==> (#[trigger] slices[s1]).size(n) <= (#[trigger] slices[s2]).size(n) + 1,
{
    lemma_split_slice(n, threads, slices, 0);
    assert forall|s1: int, s2: int|
        0 <= s1 < slices.len() && 0 <= s2 < slices.len() implies (#[trigger] slices[s1]).size(n)
        <= (#[trigger] slices[s2]).size(n) + 1 by {
        lemma_split_slice(n, threads, slices, s1);
        lemma_split_slice(n, threads, slices, s2);
    }
}

/// What a split says of slice `s`, with its size.
proof fn lemma_split_slice(n: int, threads: int, slices: Seq<WorkItem>, s: int)
    requires
        n >= 2,
        1 <= threads <= pair_count(n),
        is_split(n, threads, slices),
        0 <= s < threads,
    ensures
        slices.len() == threads,
        slices[s].wf(n),
        rank(n, slices[s].start) == slice_lo(pair_count(n), threads, s),
        rank(n, slices[s].end) == slice_lo(pair_count(n), threads, s + 1) - 1,
        slices[s].size(n) == slice_size(pair_count(n), threads, s),
        s == 0 ==> rank(n, slices[s].start) == 0,
        s == threads - 1 ==> rank(n, slices[s].end) == pair_count(n) - 1,
{
    let total = pair_count(n);
    reveal(is_split);
    assert(slice_count(n, threads) == threads);
    assert(is_pair(n, slices[s].start));
    lemma_slice_lo_range(total, threads, s);
    assert(slice_lo(total, threads, s + 1) == slice_lo(total, threads, s) + slice_size(total, threads, s));
}

/// The slice of a split that holds pair `p`.
proof fn lemma_split_find(n: int, threads: int, slices: Seq<WorkItem>, p: (usize, usize)) -> (s: int)
    requires
        n >= 2,
        1 <= threads <= pair_count(n),
        is_split(n, threads, slices),
        is_pair(n, p),
    ensures
        0 <= s < slices.len(),
        slices[s].covers(n, p),
{
    let total = pair_count(n);
    lemma_rank_bounds(n, p);
    lemma_slice_lo_range(total, threads, 0);
    let s = find_slice(total, threads, rank(n, p), 0);
    lemma_split_slice(n, threads, slices, s);
    s
}

/// No pair lies in two slices of a split.
proof fn lemma_split_disjoint(
    n: int,
    threads: int,
    slices: Seq<WorkItem>,
    p: (usize, usize),
    s1: int,
    s2: int,
)
    requires
        n >= 2,
        1 <= threads <= pair_count(n),
        is_split(n, threads, slices),
        0 <= s1 < slices.len(),
        0 <= s2 < slices.len(),
        slices[s1].covers(n, p),
        slices[s2].covers(n, p),
    ensures
        s1 == s2,
{
    let total = pair_count(n);
    lemma_split_slice(n, threads, slices, 0);
    lemma_split_slice(n, threads, slices, s1);
    lemma_split_slice(n, threads, slices, s2);
    if s1 < s2 {
        lemma_slice_lo_increasing(total, threads, s1 + 1, s2);
    } else if s2 < s1 {
        lemma_slice_lo_increasing(total, threads, s2 + 1, s1);
    }
}

proof fn lemma_slice_lo_increasing(total: int, m: int, a: int, b: int)
    requires
        0 < m <= total,
        0 <= a <= b <= m,
    ensures
        slice_lo(total, m, a) <= slice_lo(total, m, b),
    decreases b - a,
{
    if a < b {
        lemma_slice_lo_range(total, m, a);
        lemma_slice_lo_increasing(total, m, a + 1, b);
    }
}

/// The slice at or after `from` whose ranks hold `k`.
proof fn find_slice(total: int, m: int, k: int, from: int) -> (s: int)
    requires
        0 < m <= total,
        0 <= k < total,
        0 <= from < m,
        slice_lo(total, m, from) <= k,
    ensures
        from <= s < m,
        slice_lo(total, m, s) <= k < slice_lo(total, m, s + 1),
    decreases m - from,
{
    lemma_slice_lo_range(total, m, from);
    if slice_lo(total, m, from + 1) <= k {
        lemma_slice_lo_range(total, m, m - 1);
        find_slice(total, m, k, from + 1)
    } else {
        from
    }
}

/// With a single pair to share, a split over several threads has one slice.
pub proof fn lemma_single_pair_split(threads: int, slices: Seq<WorkItem>)
    requires
        threads > 1,
        is_split(2, threads, slices),
    ensures
        slices.len() == 1,
        slices[0].start == (0usize, 1usize),
        slices[0].end == (0usize, 1usize),
{
    reveal(is_split);
    assert(pair_count(2) == 1);
    assert(slice_lo(1, 1, 0) == 0);
    assert(slice_lo(1, 1, 1) == 1);
    assert(row_start(2, 0) == 0);
}

} // verus!
