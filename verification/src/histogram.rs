//! Bounded-memory aggregation of latency samples with quantile queries.
//!
//! Samples are microsecond durations.  Each sample lands in one of a fixed
//! number of buckets whose widths grow with the magnitude of the value, so
//! the bucket of a sample is always within about one percent of the sample
//! (two significant decimal digits) and memory stays constant however many
//! samples arrive.  Beside a count, every bucket keeps the largest sample
//! it received, so a quantile query can answer with a value that was
//! actually recorded.
//!
//! The model of a histogram is the sequence of samples it accepted, in
//! order, each clamped to [`MAX_TRACKABLE_MICROS`].  Every public contract
//! speaks of that sequence.

use vstd::arithmetic::mul::*;
use vstd::arithmetic::power2::*;
use vstd::prelude::*;

verus! {

/// Largest duration, in microseconds, that the histogram keeps apart;
/// greater samples are clamped to this value when recorded.
pub const MAX_TRACKABLE_MICROS: u64 = 0xFFFF_FFFF;

/// Largest number of samples one histogram accepts; anything recorded
/// beyond that is dropped.  The bound keeps every sum of squares well
/// inside fixed-width arithmetic.
pub const MAX_SAMPLE_COUNT: u64 = 0xFFFF_FFFF;

/// Number of buckets: 256 unit-width buckets for values below 256, then
/// 128 buckets per doubling of magnitude, 24 doublings in all, up to
/// `MAX_TRACKABLE_MICROS`.
pub const NUM_BUCKETS: usize = 3328;

/// Index of the largest bucket.
pub const LAST_BUCKET: usize = 3327;

/// A sample as the histogram stores it.
pub open spec fn spec_clamp(v: u64) -> u64 {
    if v > MAX_TRACKABLE_MICROS {
        MAX_TRACKABLE_MICROS
    } else {
        v
    }
}

/// The bucket a value falls in: values below 256 get their own bucket;
/// above, each doubling of magnitude spans 128 buckets, so the width of a
/// bucket stays below 1/128 of the values in it.
pub open spec fn spec_bucket_of(v: nat) -> nat
    decreases v,
{
    if v < 256 {
        v
    } else if v < 512 {
        (128 + v / 2) as nat
    } else {
        (128 + spec_bucket_of(v / 2)) as nat
    }
}

/// How many samples fall in buckets `0..=b`.
pub open spec fn count_through_bucket(s: Seq<u64>, b: int) -> int
    decreases s.len(),
{
    if s.len() == 0 {
        0
    } else {
        count_through_bucket(s.drop_last(), b) + if spec_bucket_of(s.last() as nat) <= b {
            1int
        } else {
            0int
        }
    }
}

/// How many samples fall in bucket `b` exactly.
pub open spec fn count_in_bucket(s: Seq<u64>, b: int) -> int
    decreases s.len(),
{
    if s.len() == 0 {
        0
    } else {
        count_in_bucket(s.drop_last(), b) + if spec_bucket_of(s.last() as nat) == b {
            1int
        } else {
            0int
        }
    }
}

/// The largest sample in buckets `0..=b`, or 0 when none landed there.
pub open spec fn max_through_bucket(s: Seq<u64>, b: int) -> u64
    decreases s.len(),
{
    if s.len() == 0 {
        0u64
    } else {
        let m = max_through_bucket(s.drop_last(), b);
        if spec_bucket_of(s.last() as nat) <= b && s.last() > m {
            s.last()
        } else {
            m
        }
    }
}

/// The largest sample in bucket `b` exactly, or 0 when none landed there.
pub open spec fn max_in_bucket(s: Seq<u64>, b: int) -> u64
    decreases s.len(),
{
    if s.len() == 0 {
        0u64
    } else {
        let m = max_in_bucket(s.drop_last(), b);
        if spec_bucket_of(s.last() as nat) == b && s.last() > m {
            s.last()
        } else {
            m
        }
    }
}

/// Sum of all samples.
pub open spec fn sum_of(s: Seq<u64>) -> int
    decreases s.len(),
{
    if s.len() == 0 {
        0
    } else {
        sum_of(s.drop_last()) + s.last()
    }
}

/// Sum of the squares of all samples.
pub open spec fn sum_sq_of(s: Seq<u64>) -> int
    decreases s.len(),
{
    if s.len() == 0 {
        0
    } else {
        sum_sq_of(s.drop_last()) + s.last() * s.last()
    }
}

/// The smallest recorded sample, or 0 when none was.
pub open spec fn seq_min(s: Seq<u64>) -> u64
    decreases s.len(),
{
    if s.len() == 0 {
        0u64
    } else if s.len() == 1 {
        s.last()
    } else {
        let m = seq_min(s.drop_last());
        if s.last() < m {
            s.last()
        } else {
            m
        }
    }
}

/// The largest recorded sample, or 0 when none was.
pub open spec fn seq_max(s: Seq<u64>) -> u64
    decreases s.len(),
{
    if s.len() == 0 {
        0u64
    } else {
        let m = seq_max(s.drop_last());
        if s.last() > m {
            s.last()
        } else {
            m
        }
    }
}

/// The one-based rank a quantile (in thousandths) selects among `len`
/// samples: the count rounds up, and never below the first sample.
pub open spec fn spec_rank(q_permille: u64, len: int) -> int {
    let r = (q_permille * len + 999) / 1000;
    if r < 1 {
        1
    } else {
        r
    }
}

/// The first bucket, from `b` up, at which the running sample count
/// reaches `rank`; the last bucket when none does.
pub open spec fn spec_bucket_for_rank(s: Seq<u64>, rank: int, b: int) -> int
    decreases LAST_BUCKET - b,
{
    if b >= LAST_BUCKET as int {
        LAST_BUCKET as int
    } else if count_through_bucket(s, b) >= rank {
        b
    } else {
        spec_bucket_for_rank(s, rank, b + 1)
    }
}

/// The value a quantile query answers: the largest sample at or below the
/// first bucket that covers the quantile's rank.
pub open spec fn spec_value_at_quantile(s: Seq<u64>, q_permille: u64) -> u64 {
    max_through_bucket(s, spec_bucket_for_rank(s, spec_rank(q_permille, s.len() as int), 0))
}

/// Population variance of the samples, at floor precision.
pub open spec fn spec_variance(s: Seq<u64>) -> int
    recommends
        s.len() > 0,
{
    let n = s.len() as int;
    (n * sum_sq_of(s) - sum_of(s) * sum_of(s)) / (n * n)
}

/// Buckets below 256 times a power of two stay within the table:
/// each doubling beyond the unit buckets adds at most 128 indices.
proof fn lemma_bucket_le(v: nat, j: nat)
    requires
        v < 256 * pow2(j),
    ensures
        spec_bucket_of(v) <= 128 * j + 255,
    decreases j,
{
    if v < 256 {
    } else if v < 512 {
        assert(pow2(0) == 1 && pow2(1) == 2) by {
            lemma2_to64();
        }
        if j == 0 {
            assert(false);
        }
    } else {
        if j == 0 {
            assert(pow2(0) == 1) by {
                lemma2_to64();
            }
            assert(false);
        } else {
            lemma_pow2_unfold(j);
            assert(v < 256 * (2 * pow2((j - 1) as nat)));
            assert(v / 2 < 256 * pow2((j - 1) as nat));
            lemma_bucket_le(v / 2, (j - 1) as nat);
        }
    }
}

/// Every value the histogram stores lands inside the bucket table.
proof fn lemma_bucket_in_table(v: u64)
    requires
        v <= MAX_TRACKABLE_MICROS,
    ensures
        spec_bucket_of(v as nat) <= LAST_BUCKET as int,
{
    assert(pow2(24) == 0x1000000) by {
        lemma2_to64();
    }
    lemma_bucket_le(v as nat, 24);
}

/// Counts through a bucket never exceed the number of samples.
proof fn lemma_count_through_le_len(s: Seq<u64>, b: int)
    ensures
        0 <= count_through_bucket(s, b) <= s.len(),
    decreases s.len(),
{
    if s.len() > 0 {
        lemma_count_through_le_len(s.drop_last(), b);
    }
}

/// Counts in one bucket never exceed the number of samples.
proof fn lemma_count_in_le_len(s: Seq<u64>, b: int)
    ensures
        0 <= count_in_bucket(s, b) <= s.len(),
    decreases s.len(),
{
    if s.len() > 0 {
        lemma_count_in_le_len(s.drop_last(), b);
    }
}

/// The count through bucket `b` splits into the count through `b - 1`
/// plus the count in `b` itself.
proof fn lemma_count_through_split(s: Seq<u64>, b: int)
    ensures
        count_through_bucket(s, b) == count_through_bucket(s, b - 1) + count_in_bucket(s, b),
    decreases s.len(),
{
    if s.len() > 0 {
        lemma_count_through_split(s.drop_last(), b);
    }
}

/// When the table's last bucket is reached, every sample is counted.
proof fn lemma_count_through_full(s: Seq<u64>)
    requires
        forall|i: int| 0 <= i < s.len() ==> s[i] <= MAX_TRACKABLE_MICROS,
    ensures
        count_through_bucket(s, LAST_BUCKET as int) == s.len(),
    decreases s.len(),
{
    if s.len() > 0 {
        assert(forall|i: int|
            0 <= i < s.drop_last().len() ==> s.drop_last()[i] <= MAX_TRACKABLE_MICROS);
        lemma_count_through_full(s.drop_last());
        lemma_bucket_in_table(s.last());
    }
}

/// A bucket's own maximum never exceeds the running maximum through it.
proof fn lemma_max_in_le_through(s: Seq<u64>, b: int)
    ensures
        max_in_bucket(s, b) <= max_through_bucket(s, b),
        max_through_bucket(s, b - 1) <= max_through_bucket(s, b),
    decreases s.len(),
{
    if s.len() > 0 {
        lemma_max_in_le_through(s.drop_last(), b);
    }
}

/// The running maximum through bucket `b` extends the one through
/// `b - 1` by bucket `b`'s own maximum, when that bucket holds samples.
proof fn lemma_max_through_step(s: Seq<u64>, b: int)
    ensures
        max_through_bucket(s, b) == if count_in_bucket(s, b) > 0 && max_in_bucket(s, b)
            > max_through_bucket(s, b - 1) {
            max_in_bucket(s, b)
        } else {
            max_through_bucket(s, b - 1)
        },
    decreases s.len(),
{
    if s.len() > 0 {
        lemma_max_through_step(s.drop_last(), b);
        lemma_max_in_le_through(s.drop_last(), b);
        lemma_count_in_le_len(s.drop_last(), b);
    }
}

/// An empty range of buckets has a zero running maximum.
proof fn lemma_max_through_of_none(s: Seq<u64>, b: int)
    requires
        count_through_bucket(s, b) == 0,
    ensures
        max_through_bucket(s, b) == 0,
    decreases s.len(),
{
    if s.len() > 0 {
        lemma_count_through_le_len(s.drop_last(), b);
        lemma_max_through_of_none(s.drop_last(), b);
    }
}

/// A non-empty range of buckets has its running maximum among the samples.
proof fn lemma_max_through_contains(s: Seq<u64>, b: int)
    requires
        count_through_bucket(s, b) > 0,
    ensures
        s.contains(max_through_bucket(s, b)),
    decreases s.len(),
{
    let last = s.last();
    let rest = s.drop_last();
    let m = max_through_bucket(s, b);
    if spec_bucket_of(last as nat) <= b && last > max_through_bucket(rest, b) {
        assert(s[s.len() - 1] == m);
    } else {
        if count_through_bucket(rest, b) > 0 {
            lemma_max_through_contains(rest, b);
            let i = choose|i: int| 0 <= i < rest.len() && rest[i] == m;
            assert(s[i] == m);
        } else {
            lemma_max_through_of_none(rest, b);
            assert(spec_bucket_of(last as nat) <= b);
            assert(last == 0 && m == 0);
            assert(s[s.len() - 1] == m);
        }
    }
}

/// Sums and sums of squares of clamped samples stay within the bounds the
/// sample-count cap implies.
proof fn lemma_sum_bounds(s: Seq<u64>)
    requires
        forall|i: int| 0 <= i < s.len() ==> s[i] <= MAX_TRACKABLE_MICROS,
    ensures
        0 <= sum_of(s) <= s.len() * (MAX_TRACKABLE_MICROS as int),
        0 <= sum_sq_of(s) <= s.len() * ((MAX_TRACKABLE_MICROS as int) * (MAX_TRACKABLE_MICROS
            as int)),
    decreases s.len(),
{
    let v = MAX_TRACKABLE_MICROS as int;
    if s.len() > 0 {
        let rest = s.drop_last();
        let last = s.last() as int;
        assert(forall|i: int| 0 <= i < rest.len() ==> rest[i] <= MAX_TRACKABLE_MICROS);
        lemma_sum_bounds(rest);
        let n = rest.len() as int;
        assert(last * last <= v * v) by (nonlinear_arith)
            requires
                0 <= last <= v,
        ;
        assert(n * v + v == (n + 1) * v) by (nonlinear_arith);
        assert(n * (v * v) + v * v == (n + 1) * (v * v)) by (nonlinear_arith);
        assert(0 <= last * last) by (nonlinear_arith)
            requires
                0 <= last,
        ;
    }
}

/// Below the first bucket nothing is counted and nothing is maximal.
proof fn lemma_before_first_bucket(s: Seq<u64>)
    ensures
        count_through_bucket(s, -1) == 0,
        max_through_bucket(s, -1) == 0,
    decreases s.len(),
{
    if s.len() > 0 {
        lemma_before_first_bucket(s.drop_last());
    }
}

/// Sums of samples are never negative.
proof fn lemma_sums_nonneg(s: Seq<u64>)
    ensures
        sum_of(s) >= 0,
        sum_sq_of(s) >= 0,
    decreases s.len(),
{
    if s.len() > 0 {
        lemma_sums_nonneg(s.drop_last());
        let v = s.last() as int;
        assert(v * v >= 0) by (nonlinear_arith)
            requires
                v >= 0,
        ;
    }
}

/// The count times the sum of squares dominates the squared sum: the
/// inequality that keeps the variance non-negative.
proof fn lemma_cauchy_schwarz(s: Seq<u64>)
    ensures
        (s.len() as int) * sum_sq_of(s) >= sum_of(s) * sum_of(s),
    decreases s.len(),
{
    if s.len() == 0 {
    } else {
        let rest = s.drop_last();
        lemma_cauchy_schwarz(rest);
        lemma_sums_nonneg(rest);
        let n = rest.len() as int;
        let s1 = sum_of(rest);
        let s2 = sum_sq_of(rest);
        let v = s.last() as int;
        assert((n + 1) * (s2 + v * v) >= (s1 + v) * (s1 + v)) by (nonlinear_arith)
            requires
                n * s2 >= s1 * s1,
                n >= 0,
                s1 >= 0,
                s2 >= 0,
                v >= 0,
        ;
    }
}

/// A rank a permille quantile selects stays between 1 and the sample count.
proof fn lemma_rank_bounds(q_permille: u64, len: int)
    requires
        q_permille <= 1000,
        len >= 1,
    ensures
        1 <= spec_rank(q_permille, len) <= len,
{
    lemma_mul_inequality(q_permille as int, 1000, len);
    assert((1000 * len + 999) / 1000 == len) by (nonlinear_arith)
        requires
            len >= 0,
    ;
    vstd::arithmetic::div_mod::lemma_div_is_ordered(
        q_permille as int * len + 999,
        1000 * len + 999,
        1000,
    );
}

/// Ranks grow with the quantile.
proof fn lemma_rank_monotone(q1: u64, q2: u64, len: int)
    requires
        q1 <= q2,
        len >= 0,
    ensures
        spec_rank(q1, len) <= spec_rank(q2, len),
{
    lemma_mul_inequality(q1 as int, q2 as int, len);
    vstd::arithmetic::div_mod::lemma_div_is_ordered(
        q1 as int * len + 999,
        q2 as int * len + 999,
        1000,
    );
}

/// The bucket search never leaves the table, nor goes below its start.
proof fn lemma_bucket_for_rank_range(s: Seq<u64>, rank: int, lo: int)
    requires
        0 <= lo <= LAST_BUCKET as int,
    ensures
        lo <= spec_bucket_for_rank(s, rank, lo) <= LAST_BUCKET as int,
    decreases LAST_BUCKET as int - lo,
{
    if lo < LAST_BUCKET as int && count_through_bucket(s, lo) < rank {
        lemma_bucket_for_rank_range(s, rank, lo + 1);
    }
}

/// The bucket search returns exactly the first bucket whose running count
/// covers the rank.
proof fn lemma_bucket_for_rank_found(s: Seq<u64>, rank: int, lo: int, b: int)
    requires
        0 <= lo <= b <= LAST_BUCKET as int,
        count_through_bucket(s, b) >= rank,
        forall|b2: int| lo <= b2 < b ==> count_through_bucket(s, b2) < rank,
    ensures
        spec_bucket_for_rank(s, rank, lo) == b,
    decreases b - lo,
{
    if lo < b {
        lemma_bucket_for_rank_found(s, rank, lo + 1, b);
    }
}

/// Whenever some bucket covers the rank, the bucket the search returns
/// covers it too.
proof fn lemma_bucket_for_rank_sound(s: Seq<u64>, rank: int, lo: int)
    requires
        0 <= lo <= LAST_BUCKET as int,
        count_through_bucket(s, LAST_BUCKET as int) >= rank,
    ensures
        count_through_bucket(s, spec_bucket_for_rank(s, rank, lo)) >= rank,
    decreases LAST_BUCKET as int - lo,
{
    if lo < LAST_BUCKET as int && count_through_bucket(s, lo) < rank {
        lemma_bucket_for_rank_sound(s, rank, lo + 1);
    }
}

/// A larger rank never selects an earlier bucket.
proof fn lemma_bucket_for_rank_monotone(s: Seq<u64>, r1: int, r2: int, lo: int)
    requires
        r1 <= r2,
        0 <= lo <= LAST_BUCKET as int,
    ensures
        spec_bucket_for_rank(s, r1, lo) <= spec_bucket_for_rank(s, r2, lo),
    decreases LAST_BUCKET as int - lo,
{
    if lo < LAST_BUCKET as int {
        if count_through_bucket(s, lo) >= r2 {
        } else if count_through_bucket(s, lo) >= r1 {
            lemma_bucket_for_rank_range(s, r2, lo);
        } else {
            lemma_bucket_for_rank_monotone(s, r1, r2, lo + 1);
        }
    }
}

/// Running maxima only grow with the bucket range.
proof fn lemma_max_through_monotone(s: Seq<u64>, b1: int, b2: int)
    requires
        b1 <= b2,
    ensures
        max_through_bucket(s, b1) <= max_through_bucket(s, b2),
    decreases s.len(),
{
    if s.len() > 0 {
        lemma_max_through_monotone(s.drop_last(), b1, b2);
    }
}

/// A sample the sequence contains bounds its minimum and maximum.
proof fn lemma_min_max_of_contains(s: Seq<u64>, x: u64)
    requires
        s.contains(x),
    ensures
        seq_min(s) <= x,
        x <= seq_max(s),
    decreases s.len(),
{
    let i = choose|i: int| 0 <= i < s.len() && s[i] == x;
    if i == s.len() - 1 {
    } else {
        let rest = s.drop_last();
        assert(rest[i] == x);
        assert(rest.contains(x));
        lemma_min_max_of_contains(rest, x);
    }
}

/// Computes the bucket of a storable value.
fn bucket_index(v: u64) -> (b: usize)
    requires
        v <= MAX_TRACKABLE_MICROS,
    ensures
        b == spec_bucket_of(v as nat),
        b <= LAST_BUCKET,
{
    proof {
        lemma_bucket_in_table(v);
        lemma2_to64();
        assert((v as nat) * pow2(0) == v as nat) by (nonlinear_arith)
            requires
                pow2(0) == 1,
        ;
    }
    let mut w: u64 = v;
    let mut base: usize = 0;
    while w >= 512
        invariant
            spec_bucket_of(v as nat) == base + spec_bucket_of(w as nat),
            base % 128 == 0,
            (w as nat) * pow2((base / 128) as nat) <= v as nat,
            v <= MAX_TRACKABLE_MICROS,
        decreases w,
    {
        proof {
            let j = (base / 128) as nat;
            lemma_pow2_unfold(j + 1);
            lemma_pow2_pos(j);
            assert((w as nat / 2) * (2 * pow2(j)) <= (w as nat) * pow2(j)) by (nonlinear_arith)
                requires
                    pow2(j) >= 1,
                    w >= 2,
            ;
            if base / 128 >= 33 {
                lemma2_to64();
                lemma_pow2_strictly_increases(32, j);
                assert((w as nat) * pow2(j) >= pow2(j)) by (nonlinear_arith)
                    requires
                        w >= 1,
                        pow2(j) >= 0,
                ;
                assert(false);
            }
        }
        w = w / 2;
        base = base + 128;
    }
    let idx: usize = if w < 256 {
        w as usize
    } else {
        (128 + w / 2) as usize
    };
    proof {
        assert(base + idx == spec_bucket_of(v as nat));
    }
    base + idx
}

/// Accumulates latency samples in bounded memory and answers quantile,
/// mean and deviation queries over everything recorded so far.
///
/// The histogram a value of this type models is the sequence of clamped
/// samples it accepted, written `h@`.
pub struct LatencyHistogram {
    counts: Vec<u64>,
    bucket_max: Vec<u64>,
    total: u64,
    sum: u64,
    sum_sq: u128,
    samples: Ghost<Seq<u64>>,
}

impl View for LatencyHistogram {
    type V = Seq<u64>;

    closed spec fn view(&self) -> Seq<u64> {
        self.samples@
    }
}

impl LatencyHistogram {
    /// Internal consistency: the bucket tables, the running sums and the
    /// sample count all agree with the recorded sequence.
    pub closed spec fn wf(&self) -> bool {
        &&& self.counts@.len() == NUM_BUCKETS
        &&& self.bucket_max@.len() == NUM_BUCKETS
        &&& self.total as int == self.samples@.len()
        &&& self.samples@.len() <= MAX_SAMPLE_COUNT
        &&& forall|i: int| 0 <= i < self.samples@.len() ==> self.samples@[i] <= MAX_TRACKABLE_MICROS
        &&& forall|b: int|
            0 <= b < NUM_BUCKETS ==> self.counts@[b] as int == count_in_bucket(self.samples@, b)
        &&& forall|b: int|
            0 <= b < NUM_BUCKETS ==> self.bucket_max@[b] == max_in_bucket(self.samples@, b)
        &&& self.sum as int == sum_of(self.samples@)
        &&& self.sum_sq as int == sum_sq_of(self.samples@)
    }

    /// A fresh histogram with nothing recorded.
    pub fn new() -> (h: Self)
        ensures
            h.wf(),
            h@ == Seq::<u64>::empty(),
    {
        let mut counts: Vec<u64> = Vec::new();
        let mut bucket_max: Vec<u64> = Vec::new();
        while counts.len() < NUM_BUCKETS
            invariant
                counts@.len() == bucket_max@.len(),
                counts@.len() <= NUM_BUCKETS,
                forall|i: int| 0 <= i < counts@.len() ==> counts@[i] == 0,
                forall|i: int| 0 <= i < bucket_max@.len() ==> bucket_max@[i] == 0,
            decreases NUM_BUCKETS - counts@.len(),
        {
            counts.push(0);
            bucket_max.push(0);
        }
        let h = LatencyHistogram {
            counts,
            bucket_max,
            total: 0,
            sum: 0,
            sum_sq: 0,
            samples: Ghost(Seq::empty()),
        };
        h
    }

    /// How many samples were recorded.
    pub fn len(&self) -> (n: u64)
        requires
            self.wf(),
        ensures
            n as int == self@.len(),
    {
        self.total
    }

    /// Records one latency sample, clamped to the trackable range.  Once
    /// the sample cap is reached, further samples are dropped.
    pub fn record(&mut self, value: u64)
        requires
            old(self).wf(),
        ensures
            final(self).wf(),
            old(self)@.len() < MAX_SAMPLE_COUNT ==> final(self)@ == old(self)@.push(
                spec_clamp(value),
            ),
            old(self)@.len() >= MAX_SAMPLE_COUNT ==> final(self)@ == old(self)@,
    {
        if self.total >= MAX_SAMPLE_COUNT {
            return ;
        }
        let w: u64 = if value > MAX_TRACKABLE_MICROS {
            MAX_TRACKABLE_MICROS
        } else {
            value
        };
        let ghost s = self.samples@;
        let ghost s2 = s.push(w);
        proof {
            assert(s2.drop_last() =~= s);
        }
        let idx = bucket_index(w);
        proof {
            lemma_count_in_le_len(s, idx as int);
            lemma_sum_bounds(s);
            let n = s.len() as int;
            let v = MAX_TRACKABLE_MICROS as int;
            lemma_mul_inequality(n + 1, MAX_SAMPLE_COUNT as int, v);
            lemma_mul_inequality(n + 1, MAX_SAMPLE_COUNT as int, v * v);
            assert(n * v + v == (n + 1) * v) by (nonlinear_arith);
            assert(n * (v * v) + v * v == (n + 1) * (v * v)) by (nonlinear_arith);
            assert(w as int * w as int <= v * v) by (nonlinear_arith)
                requires
                    0 <= w as int <= v,
            ;
            assert((MAX_SAMPLE_COUNT as int) * v < 0x10000000000000000) by (nonlinear_arith)
                requires
                    v == MAX_TRACKABLE_MICROS as int,
            ;
            assert((MAX_SAMPLE_COUNT as int) * (v * v) < 0x100000000000000000000000000000000)
                by (nonlinear_arith)
                requires
                    v == MAX_TRACKABLE_MICROS as int,
            ;
        }
        let c = self.counts[idx];
        self.counts.set(idx, c + 1);
        let m = self.bucket_max[idx];
        if w > m {
            self.bucket_max.set(idx, w);
        }
        self.total = self.total + 1;
        self.sum = self.sum + w;
        self.sum_sq = self.sum_sq + (w as u128) * (w as u128);
        self.samples = Ghost(s2);
        proof {
            assert forall|b: int| 0 <= b < NUM_BUCKETS implies self.counts@[b] as int
                == count_in_bucket(s2, b) by {
                assert(count_in_bucket(s2, b) == count_in_bucket(s, b) + if spec_bucket_of(
                    w as nat,
                ) == b {
                    1int
                } else {
                    0int
                });
            }
            assert forall|b: int| 0 <= b < NUM_BUCKETS implies self.bucket_max@[b]
                == max_in_bucket(s2, b) by {
                assert(max_in_bucket(s2, b) == if spec_bucket_of(w as nat) == b && w
                    > max_in_bucket(s, b) {
                    w
                } else {
                    max_in_bucket(s, b)
                });
            }
        }
    }

    /// The latency at or below which the given share (in thousandths) of
    /// all recorded samples lies.  The answer is the largest sample in the
    /// first run of buckets that covers the share's rank, so it is always
    /// one of the recorded samples; before anything is recorded it is 0.
    pub fn value_at_quantile(&self, q_permille: u64) -> (r: u64)
        requires
            self.wf(),
            q_permille <= 1000,
        ensures
            self@.len() == 0 ==> r == 0,
            self@.len() > 0 ==> r == spec_value_at_quantile(self@, q_permille),
    {
        if self.total == 0 {
            return 0;
        }
        let ghost s = self.samples@;
        proof {
            assert((q_permille as int) * (self.total as int) <= 1000 * (MAX_SAMPLE_COUNT as int))
                by (nonlinear_arith)
                requires
                    q_permille <= 1000,
                    0 <= self.total <= MAX_SAMPLE_COUNT,
            ;
            lemma_rank_bounds(q_permille, s.len() as int);
        }
        let raw: u64 = q_permille * self.total;
        let mut rank: u64 = (raw + 999) / 1000;
        if rank == 0 {
            rank = 1;
        }
        proof {
            lemma_before_first_bucket(s);
        }
        let mut b: usize = 0;
        let mut cum: u64 = 0;
        let mut pmax: u64 = 0;
        while b < NUM_BUCKETS
            invariant
                self.wf(),
                s == self@,
                s.len() > 0,
                rank as int == spec_rank(q_permille, s.len() as int),
                1 <= rank as int <= s.len(),
                b <= NUM_BUCKETS,
                cum as int == count_through_bucket(s, b - 1),
                cum < rank,
                pmax == max_through_bucket(s, b - 1),
                forall|b2: int| 0 <= b2 < b ==> count_through_bucket(s, b2) < rank as int,
            decreases NUM_BUCKETS - b,
        {
            let c = self.counts[b];
            let m = self.bucket_max[b];
            proof {
                lemma_count_through_split(s, b as int);
                lemma_count_through_le_len(s, b as int);
                lemma_max_through_step(s, b as int);
            }
            cum = cum + c;
            if c > 0 && m > pmax {
                pmax = m;
            }
            if cum >= rank {
                proof {
                    lemma_bucket_for_rank_found(s, rank as int, 0, b as int);
                }
                return pmax;
            }
            b = b + 1;
        }
        proof {
            lemma_count_through_full(s);
            assert(false);
        }
        0
    }

    /// The mean of all recorded samples, in microseconds, rounded down;
    /// 0 before anything is recorded.
    pub fn mean_micros(&self) -> (r: u64)
        requires
            self.wf(),
        ensures
            self@.len() == 0 ==> r == 0,
            self@.len() > 0 ==> r as int == sum_of(self@) / (self@.len() as int),
    {
        if self.total == 0 {
            return 0;
        }
        proof {
            lemma_sums_nonneg(self.samples@);
        }
        self.sum / self.total
    }

    /// The population standard deviation of all recorded samples, in
    /// microseconds, rounded down to the integer square root of the
    /// variance; 0 before anything is recorded.
    pub fn stdev_micros(&self) -> (r: u64)
        requires
            self.wf(),
        ensures
            self@.len() == 0 ==> r == 0,
            self@.len() > 0 ==> (r as int) * (r as int) <= spec_variance(self@),
            self@.len() > 0 ==> (r as int + 1) * (r as int + 1) > spec_variance(self@),
    {
        if self.total == 0 {
            return 0;
        }
        let ghost s = self.samples@;
        let ghost v = MAX_TRACKABLE_MICROS as int;
        let ghost n = s.len() as int;
        proof {
            lemma_sum_bounds(s);
            lemma_sums_nonneg(s);
            lemma_cauchy_schwarz(s);
            assert(sum_of(s) * sum_of(s) < 0x100000000000000000000000000000000)
                by (nonlinear_arith)
                requires
                    0 <= sum_of(s),
                    sum_of(s) <= n * v,
                    0 <= n <= 0xFFFF_FFFF,
                    v == 0xFFFF_FFFF,
            ;
            assert(n * sum_sq_of(s) <= (n * n) * (v * v)) by (nonlinear_arith)
                requires
                    0 <= n,
                    0 <= sum_sq_of(s) <= n * (v * v),
            ;
            assert((n * n) * (v * v) < 0x100000000000000000000000000000000) by (nonlinear_arith)
                requires
                    0 <= n <= 0xFFFF_FFFF,
                    v == 0xFFFF_FFFF,
            ;
        }
        let n128: u128 = self.total as u128;
        let sum128: u128 = self.sum as u128;
        let num: u128 = n128 * self.sum_sq - sum128 * sum128;
        let den: u128 = n128 * n128;
        proof {
            assert(n * n >= 1) by (nonlinear_arith)
                requires
                    n >= 1,
            ;
        }
        let var128: u128 = num / den;
        proof {
            assert(num as int <= den as int * (v * v)) by (nonlinear_arith)
                requires
                    num as int == n * sum_sq_of(s) - sum_of(s) * sum_of(s),
                    den as int == n * n,
                    0 <= n,
                    sum_of(s) * sum_of(s) >= 0,
                    0 <= sum_sq_of(s) <= n * (v * v),
            ;
            vstd::arithmetic::div_mod::lemma_div_is_ordered(
                num as int,
                den as int * (v * v),
                den as int,
            );
            vstd::arithmetic::div_mod::lemma_div_multiples_vanish(v * v, den as int);
            assert(var128 as int <= v * v);
            assert(v * v < 0x10000000000000000) by (nonlinear_arith)
                requires
                    v == 0xFFFF_FFFF,
            ;
        }
        let var: u64 = var128 as u64;
        isqrt(var)
    }
}

/// The integer square root: the largest `r` with `r * r <= x`.
fn isqrt(x: u64) -> (r: u64)
    ensures
        (r as int) * (r as int) <= x as int,
        (r as int + 1) * (r as int + 1) > x as int,
{
    proof {
        assert(0x100000000int * 0x100000000int > 0xFFFF_FFFF_FFFF_FFFFint) by (nonlinear_arith);
    }
    let mut lo: u64 = 0;
    let mut hi: u64 = 0x100000000;
    while lo + 1 < hi
        invariant
            lo < hi <= 0x100000000,
            (lo as int) * (lo as int) <= x as int,
            (hi as int) * (hi as int) > x as int,
        decreases hi - lo,
    {
        let mid = lo + (hi - lo) / 2;
        proof {
            assert((mid as int) * (mid as int) < 0x100000000000000000000000000000000)
                by (nonlinear_arith)
                requires
                    0 <= mid <= 0x100000000,
            ;
        }
        if (mid as u128) * (mid as u128) <= x as u128 {
            lo = mid;
        } else {
            hi = mid;
        }
    }
    lo
}

/// Law: a quantile of a non-empty histogram answers with one of the
/// recorded samples, so it lies between their minimum and maximum.
pub proof fn lemma_quantile_within_recorded_range(s: Seq<u64>, q_permille: u64)
    requires
        s.len() > 0,
        q_permille <= 1000,
        forall|i: int| 0 <= i < s.len() ==> s[i] <= MAX_TRACKABLE_MICROS,
    ensures
        s.contains(spec_value_at_quantile(s, q_permille)),
        seq_min(s) <= spec_value_at_quantile(s, q_permille),
        spec_value_at_quantile(s, q_permille) <= seq_max(s),
{
    let rank = spec_rank(q_permille, s.len() as int);
    lemma_rank_bounds(q_permille, s.len() as int);
    lemma_count_through_full(s);
    lemma_bucket_for_rank_sound(s, rank, 0);
    let b = spec_bucket_for_rank(s, rank, 0);
    lemma_max_through_contains(s, b);
    lemma_min_max_of_contains(s, spec_value_at_quantile(s, q_permille));
}

/// The width of the bucket a value falls in: 1 below 256, doubling with
/// each further doubling of the value.
pub open spec fn spec_bucket_width(v: nat) -> nat
    decreases v,
{
    if v < 256 {
        1
    } else if v < 512 {
        2
    } else {
        2 * spec_bucket_width(v / 2)
    }
}

/// Two values in one bucket differ by less than the bucket's width.
proof fn lemma_same_bucket_close(v1: nat, v2: nat)
    requires
        v1 <= v2,
        spec_bucket_of(v1) == spec_bucket_of(v2),
    ensures
        v2 - v1 <= spec_bucket_width(v2) - 1,
    decreases v2,
{
    if v2 < 256 {
    } else if v2 < 512 {
        if v1 < 256 {
            assert(spec_bucket_of(v1) < 256);
            assert(spec_bucket_of(v2) >= 256);
        }
    } else {
        assert(spec_bucket_of(v2) == 128 + spec_bucket_of(v2 / 2));
        assert(spec_bucket_of(v2 / 2) >= 256) by {
            if v2 / 2 < 512 {
            } else {
                lemma_bucket_of_at_least(v2 / 2);
            }
        }
        if v1 < 256 {
            assert(false);
        } else if v1 < 512 {
            assert(spec_bucket_of(v1) <= 383);
            assert(false);
        } else {
            lemma_same_bucket_close(v1 / 2, v2 / 2);
        }
    }
}

/// Buckets of values at or above 512 lie past the first two bands.
proof fn lemma_bucket_of_at_least(v: nat)
    requires
        v >= 512,
    ensures
        spec_bucket_of(v) >= 384,
    decreases v,
{
    assert(spec_bucket_of(v) == 128 + spec_bucket_of(v / 2));
    if v / 2 >= 512 {
        lemma_bucket_of_at_least(v / 2);
    } else {
        assert(v / 2 >= 256);
        assert(spec_bucket_of(v / 2) == (128 + (v / 2) / 2) as nat);
        assert((v / 2) / 2 >= 128);
    }
}

/// A bucket's width never exceeds 1/128 of the values in it.
proof fn lemma_bucket_width_small(v: nat)
    requires
        v >= 256,
    ensures
        spec_bucket_width(v) <= v / 128,
    decreases v,
{
    if v < 512 {
    } else {
        lemma_bucket_width_small(v / 2);
        assert(2 * (v / 2 / 128) <= v / 128) by (nonlinear_arith)
            requires
                v >= 0,
        ;
    }
}

/// Law: the histogram's resolution is two significant decimal digits —
/// two values it files in the same bucket differ by at most 1/128 of the
/// larger, so no aggregation step loses more than one percent.
pub proof fn lemma_bucket_resolution(v1: u64, v2: u64)
    requires
        v1 <= v2,
        spec_bucket_of(v1 as nat) == spec_bucket_of(v2 as nat),
    ensures
        v2 - v1 <= vstd::math::max(1, v2 as int / 128),
{
    lemma_same_bucket_close(v1 as nat, v2 as nat);
    if v2 >= 256 {
        lemma_bucket_width_small(v2 as nat);
    }
}

/// Law: quantile answers never decrease as the queried quantile grows.
pub proof fn lemma_quantile_monotone(s: Seq<u64>, q1: u64, q2: u64)
    requires
        q1 <= q2,
    ensures
        spec_value_at_quantile(s, q1) <= spec_value_at_quantile(s, q2),
{
    let r1 = spec_rank(q1, s.len() as int);
    let r2 = spec_rank(q2, s.len() as int);
    lemma_rank_monotone(q1, q2, s.len() as int);
    lemma_bucket_for_rank_monotone(s, r1, r2, 0);
    lemma_max_through_monotone(
        s,
        spec_bucket_for_rank(s, r1, 0),
        spec_bucket_for_rank(s, r2, 0),
    );
}

} // verus!
