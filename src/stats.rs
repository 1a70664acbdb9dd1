//! The statistics engine: a distribution summary of a non-empty set of samples.
use vstd::arithmetic::div_mod::{lemma_fundamental_div_mod_converse, lemma_multiply_divide_le};
use vstd::seq_lib::lemma_multiset_commutative;
use vstd::prelude::*;

use crate::error::BenchError;

verus! {

/// The samples in ascending order, built by inserting them one after another.
pub open spec fn insert_sorted(t: Seq<u64>, x: u64) -> Seq<u64>
    decreases t.len(),
{
    if t.len() == 0 {
        seq![x]
    } else if x <= t[0] {
        seq![x] + t
    } else {
        seq![t[0]] + insert_sorted(t.drop_first(), x)
    }
}

/// The samples of `s` in ascending order.
pub open spec fn sorted_samples(s: Seq<u64>) -> Seq<u64>
    decreases s.len(),
{
    if s.len() == 0 {
        Seq::empty()
    } else {
        insert_sorted(sorted_samples(s.drop_last()), s.last())
    }
}

pub open spec fn is_sorted(t: Seq<u64>) -> bool {
    forall|i: int, j: int| 0 <= i <= j < t.len() ==> t[i] <= t[j]
}

/// Inserting `x` before the first element that is not below it.
proof fn lemma_insert_sorted_at(t: Seq<u64>, x: u64, p: int)
    requires
        0 <= p <= t.len(),
        forall|j: int| 0 <= j < p ==> t[j] < x,
        p == t.len() || x <= t[p],
    ensures
        insert_sorted(t, x) == t.insert(p, x),
    decreases p,
{
    if p == 0 {
        assert(insert_sorted(t, x) =~= t.insert(p, x));
    } else {
        let r = t.drop_first();
        lemma_insert_sorted_at(r, x, p - 1);
        assert(insert_sorted(t, x) =~= t.insert(p, x));
    }
}

/// Every element of the insertion is at least a common lower bound of `t` and `x`.
proof fn lemma_insert_lower_bound(t: Seq<u64>, x: u64, b: u64)
    requires
        b <= x,
        forall|j: int| 0 <= j < t.len() ==> b <= t[j],
    ensures
        insert_sorted(t, x).len() == t.len() + 1,
        forall|i: int| 0 <= i < t.len() + 1 ==> b <= #[trigger] insert_sorted(t, x)[i],
    decreases t.len(),
{
    if t.len() > 0 && x > t[0] {
        lemma_insert_lower_bound(t.drop_first(), x, b);
    }
}

proof fn lemma_insert_sorted_sorted(t: Seq<u64>, x: u64)
    requires
        is_sorted(t),
    ensures
        insert_sorted(t, x).len() == t.len() + 1,
        is_sorted(insert_sorted(t, x)),
    decreases t.len(),
{
    if t.len() > 0 && x > t[0] {
        let r = t.drop_first();
        lemma_insert_sorted_sorted(r, x);
        lemma_insert_lower_bound(r, x, t[0]);
    }
}

/// `sorted_samples` keeps the length and is in ascending order.
pub proof fn lemma_sorted_samples(s: Seq<u64>)
    ensures
        sorted_samples(s).len() == s.len(),
        is_sorted(sorted_samples(s)),
    decreases s.len(),
{
    if s.len() > 0 {
        lemma_sorted_samples(s.drop_last());
        lemma_insert_sorted_sorted(sorted_samples(s.drop_last()), s.last());
    }
}

proof fn lemma_insert_sorted_multiset(t: Seq<u64>, x: u64)
    ensures
        insert_sorted(t, x).to_multiset() =~= t.to_multiset().insert(x),
    decreases t.len(),
{
    broadcast use vstd::seq_lib::group_to_multiset_ensures, vstd::multiset::group_multiset_axioms;

    if t.len() == 0 {
        assert(seq![x] =~= t.push(x));
    } else {
        let r = t.drop_first();
        assert(t =~= seq![t[0]] + r);
        lemma_multiset_commutative(seq![t[0]], r);
        assert(seq![t[0]] =~= Seq::<u64>::empty().push(t[0]));
        assert(seq![x] =~= Seq::<u64>::empty().push(x));
        if x <= t[0] {
            lemma_multiset_commutative(seq![x], t);
        } else {
            lemma_insert_sorted_multiset(r, x);
            lemma_multiset_commutative(seq![t[0]], insert_sorted(r, x));
        }
    }
}

/// `sorted_samples` rearranges the samples: it holds each as often as they do.
pub proof fn lemma_sorted_samples_permutes(s: Seq<u64>)
    ensures
        sorted_samples(s).to_multiset() =~= s.to_multiset(),
    decreases s.len(),
{
    broadcast use vstd::seq_lib::group_to_multiset_ensures;

    if s.len() > 0 {
        let d = s.drop_last();
        lemma_sorted_samples_permutes(d);
        lemma_insert_sorted_multiset(sorted_samples(d), s.last());
        assert(d.push(s.last()) =~= s);
    }
}

/// A summary's order statistics are samples, and its minimum and maximum
/// bound every sample.
pub proof fn lemma_summary_is_drawn_from_samples(s: Seq<u64>, st: Stats)
    requires
        s.len() > 0,
        summarizes(s, st),
    ensures
        forall|i: int| 0 <= i < s.len() ==> st.min <= #[trigger] s[i] <= st.max,
        s.contains(st.min),
        s.contains(st.p_25),
        s.contains(st.median),
        s.contains(st.p_75),
        s.contains(st.max),
{
    broadcast use vstd::seq_lib::group_to_multiset_ensures;

    let t = sorted_samples(s);
    let n = s.len() as int;
    lemma_sorted_samples(s);
    lemma_sorted_samples_permutes(s);
    assert(n / 4 < n && n / 2 < n && n * 3 / 4 < n) by (nonlinear_arith)
        requires
            n > 0,
    ;
    assert forall|k: int| 0 <= k < n implies s.contains(#[trigger] t[k]) by {
        assert(t.contains(t[k]));
        assert(t.to_multiset().count(t[k]) > 0);
    }
    assert forall|i: int| 0 <= i < n implies st.min <= #[trigger] s[i] <= st.max by {
        assert(s.contains(s[i]));
        assert(s.to_multiset().count(s[i]) > 0);
        assert(t.contains(s[i]));
        let j = choose|j: int| 0 <= j < t.len() && t[j] == s[i];
        assert(t[0] <= t[j] <= t[n - 1]);
    }
    assert(s.contains(t[n / 4]));
    assert(s.contains(t[n / 2]));
    assert(s.contains(t[n * 3 / 4]));
    assert(s.contains(t[0]));
    assert(s.contains(t[n - 1]));
}

/// A copy of the samples in ascending order.
fn sort_samples(v: &Vec<u64>) -> (r: Vec<u64>)
    ensures
        r@ == sorted_samples(v@),
{
    let mut out: Vec<u64> = Vec::new();
    let mut i: usize = 0;
    while i < v.len()
        invariant
            0 <= i <= v.len(),
            out@ == sorted_samples(v@.take(i as int)),
        decreases v.len() - i,
    {
        proof {
            lemma_sorted_samples(v@.take(i as int));
        }
        let x = v[i];
        let mut p: usize = 0;
        while p < out.len() && out[p] < x
            invariant
                0 <= p <= out.len(),
                forall|j: int| 0 <= j < p ==> out@[j] < x,
            decreases out.len() - p,
        {
            p = p + 1;
        }
        proof {
            lemma_insert_sorted_at(out@, x, p as int);
            assert(v@.take(i + 1).drop_last() =~= v@.take(i as int));
        }
        out.insert(p, x);
        i = i + 1;
    }
    assert(v@.take(v.len() as int) =~= v@);
    out
}

pub open spec fn seq_sum(s: Seq<u64>) -> int
    decreases s.len(),
{
    if s.len() == 0 {
        0
    } else {
        seq_sum(s.drop_last()) + s.last()
    }
}

/// The arithmetic mean, truncated to a whole nanosecond.
pub open spec fn mean_of(s: Seq<u64>) -> int {
    seq_sum(s) / (s.len() as int)
}

/// The sum of the squared deviations of the samples from `m`.
pub open spec fn sq_dev_sum(s: Seq<u64>, m: int) -> int
    decreases s.len(),
{
    if s.len() == 0 {
        0
    } else {
        sq_dev_sum(s.drop_last(), m) + (s.last() - m) * (s.last() - m)
    }
}

/// The population variance around the (truncated) mean, truncated.
pub open spec fn variance_of(s: Seq<u64>) -> int {
    sq_dev_sum(s, mean_of(s)) / (s.len() as int)
}

/// `r` is the integer square root of `v`.
pub open spec fn is_isqrt(v: int, r: int) -> bool {
    0 <= r && r * r <= v && v < (r + 1) * (r + 1)
}

/// The sum of the samples, which cannot overflow a `u128`.
pub fn sample_sum(v: &Vec<u64>) -> (r: u128)
    ensures
        r == seq_sum(v@),
        r <= v.len() * (u64::MAX as int),
{
    let mut acc: u128 = 0;
    let mut i: usize = 0;
    while i < v.len()
        invariant
            0 <= i <= v.len(),
            acc == seq_sum(v@.take(i as int)),
            acc <= i * (u64::MAX as int),
        decreases v.len() - i,
    {
        assert(v@.take(i + 1).drop_last() =~= v@.take(i as int));
        assert(acc + v[i as int] <= (i + 1) * (u64::MAX as int)) by (nonlinear_arith)
            requires
                acc <= i * (u64::MAX as int),
                v[i as int] <= u64::MAX,
        ;
        acc = acc + v[i] as u128;
        i = i + 1;
    }
    assert(v@.take(v.len() as int) =~= v@);
    acc
}

/// The truncated arithmetic mean of a non-empty sample set.
pub fn sample_mean(v: &Vec<u64>) -> (r: u64)
    requires
        v.len() > 0,
    ensures
        r == mean_of(v@),
{
    let total = sample_sum(v);
    let n = v.len() as u128;
    proof {
        lemma_multiply_divide_le(total as int, n as int, u64::MAX as int);
    }
    (total / n) as u64
}

/// The truncated mean of the squared deviations from `m`.
///
/// The sum is kept as a quotient and a remainder of the division by the
/// length, so that no intermediate value leaves a `u128`.
fn mean_sq_dev(v: &Vec<u64>, m: u64) -> (r: u128)
    requires
        v.len() > 0,
    ensures
        r == sq_dev_sum(v@, m as int) / (v.len() as int),
{
    let n = v.len() as u128;
    let ghost big: int = (u64::MAX as int) * (u64::MAX as int);
    let mut q: u128 = 0;
    let mut rem: u128 = 0;
    let mut i: usize = 0;
    while i < v.len()
        invariant
            0 <= i <= v.len(),
            n == v.len(),
            big == (u64::MAX as int) * (u64::MAX as int),
            q * n + rem == sq_dev_sum(v@.take(i as int), m as int),
            rem < n,
            sq_dev_sum(v@.take(i as int), m as int) <= i * big,
        decreases v.len() - i,
    {
        assert(v@.take(i + 1).drop_last() =~= v@.take(i as int));
        let x = v[i];
        let d: u64 = if x >= m {
            x - m
        } else {
            m - x
        };
        assert((x - m) * (x - m) == d * d) by (nonlinear_arith)
            requires
                d == x - m || d == m - x,
        ;
        assert(d * d <= big) by (nonlinear_arith)
            requires
                0 <= d <= u64::MAX,
                big == (u64::MAX as int) * (u64::MAX as int),
        ;
        let sq: u128 = (d as u128) * (d as u128);
        let a = sq / n;
        let b = sq % n;
        let ghost prev = sq_dev_sum(v@.take(i as int), m as int);
        let ghost next = prev + sq;
        assert(next == sq_dev_sum(v@.take(i + 1), m as int));
        assert(sq == a * n + b) by (nonlinear_arith)
            requires
                a == sq / n,
                b == sq % n,
                n > 0,
        ;
        assert(next <= (i + 1) * big) by (nonlinear_arith)
            requires
                prev <= i * big,
                sq <= big,
                next == prev + sq,
        ;
        assert((i + 1) * big <= n * big) by (nonlinear_arith)
            requires
                i + 1 <= n,
                big >= 0,
        ;
        assert((q + a) * n <= next) by (nonlinear_arith)
            requires
                q * n + rem == prev,
                sq == a * n + b,
                next == prev + sq,
                rem >= 0,
                b >= 0,
        ;
        assert(q + a <= big) by (nonlinear_arith)
            requires
                (q + a) * n <= n * big,
                n > 0,
        ;
        if rem + b >= n {
            assert((q + a + 1) * n <= next) by (nonlinear_arith)
                requires
                    q * n + rem == prev,
                    sq == a * n + b,
                    next == prev + sq,
                    rem + b >= n,
            ;
            assert(q + a + 1 <= big) by (nonlinear_arith)
                requires
                    (q + a + 1) * n <= n * big,
                    n > 0,
            ;
            assert((q + a + 1) * n + (rem + b - n) == next) by (nonlinear_arith)
                requires
                    q * n + rem == prev,
                    sq == a * n + b,
                    next == prev + sq,
            ;
            q = q + a + 1;
            rem = rem + b - n;
        } else {
            assert((q + a) * n + (rem + b) == next) by (nonlinear_arith)
                requires
                    q * n + rem == prev,
                    sq == a * n + b,
                    next == prev + sq,
            ;
            q = q + a;
            rem = rem + b;
        }
        i = i + 1;
    }
    assert(v@.take(v.len() as int) =~= v@);
    proof {
        lemma_fundamental_div_mod_converse(
            sq_dev_sum(v@, m as int),
            n as int,
            q as int,
            rem as int,
        );
    }
    q
}

/// The integer square root.
pub fn isqrt(v: u128) -> (r: u64)
    ensures
        is_isqrt(v as int, r as int),
{
    let mut lo: u128 = 0;
    let mut hi: u128 = 0x1_0000_0000_0000_0000;
    assert(v < hi * hi) by (nonlinear_arith)
        requires
            hi == 0x1_0000_0000_0000_0000u128,
            v <= u128::MAX,
    ;
    while hi - lo > 1
        invariant
            lo < hi,
            hi <= 0x1_0000_0000_0000_0000u128,
            lo * lo <= v,
            v < hi * hi,
        decreases hi - lo,
    {
        let mid = lo + (hi - lo) / 2;
        assert(mid * mid < 0x1_0000_0000_0000_0000u128 * 0x1_0000_0000_0000_0000u128)
            by (nonlinear_arith)
            requires
                mid < 0x1_0000_0000_0000_0000u128,
        ;
        if mid * mid <= v {
            lo = mid;
        } else {
            hi = mid;
        }
    }
    assert(hi == lo + 1);
    lo as u64
}

/// Width of a mode bin: a hundredth of a microsecond.
pub const MODE_BIN_NS: u64 = 10;

/// The bin of a sample: its value in hundredths of a microsecond, truncated.
pub open spec fn bin_of(x: u64) -> int {
    x as int / MODE_BIN_NS as int
}

/// How many samples fall in bin `k`.
pub open spec fn bin_count(s: Seq<u64>, k: int) -> nat
    decreases s.len(),
{
    if s.len() == 0 {
        0
    } else {
        bin_count(s.drop_last(), k) + if bin_of(s.last()) == k {
            1nat
        } else {
            0nat
        }
    }
}

/// `k` is the fullest bin, and the lowest of the fullest bins when several tie.
pub open spec fn is_mode_bin(s: Seq<u64>, k: int) -> bool {
    &&& bin_count(s, k) > 0
    &&& forall|j: int| #[trigger] bin_count(s, j) <= bin_count(s, k)
    &&& forall|j: int| j < k ==> #[trigger] bin_count(s, j) < bin_count(s, k)
}

/// A bin with a sample in it is the bin of some sample.
proof fn lemma_bin_count_witness(s: Seq<u64>, k: int)
    requires
        bin_count(s, k) > 0,
    ensures
        exists|j: int| 0 <= j < s.len() && bin_of(#[trigger] s[j]) == k,
    decreases s.len(),
{
    if bin_of(s.last()) != k {
        lemma_bin_count_witness(s.drop_last(), k);
        let j = choose|j: int| 0 <= j < s.drop_last().len() && bin_of(#[trigger] s.drop_last()[j]) == k;
        assert(s[j] == s.drop_last()[j]);
    } else {
        assert(bin_of(s[s.len() - 1]) == k);
    }
}

/// How many samples of `v` fall in bin `k`.
fn count_in_bin(v: &Vec<u64>, k: u64) -> (c: usize)
    ensures
        c == bin_count(v@, k as int),
{
    let mut c: usize = 0;
    let mut j: usize = 0;
    while j < v.len()
        invariant
            0 <= j <= v.len(),
            c == bin_count(v@.take(j as int), k as int),
            c <= j,
        decreases v.len() - j,
    {
        assert(v@.take(j + 1).drop_last() =~= v@.take(j as int));
        if v[j] / MODE_BIN_NS == k {
            c = c + 1;
        }
        j = j + 1;
    }
    assert(v@.take(v.len() as int) =~= v@);
    c
}

/// The mode: the lower edge of the fullest bin (lowest bin on a tie).
fn sample_mode(v: &Vec<u64>) -> (r: u64)
    requires
        v.len() > 0,
    ensures
        r % MODE_BIN_NS == 0,
        is_mode_bin(v@, r as int / MODE_BIN_NS as int),
{
    let ghost s = v@;
    let mut best_k: u64 = v[0] / MODE_BIN_NS;
    let mut best_c: usize = count_in_bin(v, best_k);
    proof {
        lemma_bin_count_pos(s, 0);
    }
    let mut i: usize = 1;
    while i < v.len()
        invariant
            s == v@,
            1 <= i <= v.len(),
            best_c == bin_count(s, best_k as int),
            best_c >= 1,
            best_k <= u64::MAX / MODE_BIN_NS,
            forall|j: int|
                0 <= j < i ==> {
                    let c = bin_count(s, bin_of(#[trigger] s[j]));
                    c < best_c || (c == best_c && best_k <= bin_of(s[j]))
                },
        decreases v.len() - i,
    {
        let k = v[i] / MODE_BIN_NS;
        let c = count_in_bin(v, k);
        if c > best_c || (c == best_c && k < best_k) {
            best_k = k;
            best_c = c;
        }
        i = i + 1;
    }
    proof {
        assert forall|j: int| #[trigger] bin_count(s, j) <= bin_count(s, best_k as int) && (j
            < best_k ==> bin_count(s, j) < bin_count(s, best_k as int)) by {
            if bin_count(s, j) > 0 {
                lemma_bin_count_witness(s, j);
                let w = choose|w: int| 0 <= w < s.len() && bin_of(#[trigger] s[w]) == j;
                assert(bin_of(s[w]) == j);
            }
        }
    }
    let r = best_k * MODE_BIN_NS;
    assert(r % 10 == 0 && r / 10 == best_k) by (nonlinear_arith)
        requires
            r == best_k * 10,
    ;
    r
}

/// A sample lies in its own bin.
proof fn lemma_bin_count_pos(s: Seq<u64>, i: int)
    requires
        0 <= i < s.len(),
    ensures
        bin_count(s, bin_of(s[i])) > 0,
    decreases s.len(),
{
    if i < s.len() - 1 {
        lemma_bin_count_pos(s.drop_last(), i);
        assert(s.drop_last()[i] == s[i]);
    }
}

/// A distribution summary of a sample set, in nanoseconds.
#[derive(Clone, Copy, Debug, PartialEq, Eq, Structural)]
pub struct Stats {
    pub min: u64,
    pub p_25: u64,
    pub median: u64,
    pub p_75: u64,
    pub max: u64,
    pub mode: u64,
    pub mean: u64,
    pub std_dev: u64,
}

/// `st` summarizes the non-empty sample set `s`.
///
/// The order statistics are taken from the ascending samples at the indices
/// `len / 4`, `len / 2` and `len * 3 / 4`, truncated, with no interpolation.
/// The mean is truncated, the standard deviation is the integer square root
/// of the truncated population variance around it, and the mode is the lower
/// edge of the fullest hundredth-of-a-microsecond bin.
pub open spec fn summarizes(s: Seq<u64>, st: Stats) -> bool {
    let t = sorted_samples(s);
    let n = s.len() as int;
    &&& st.min == t[0]
    &&& st.p_25 == t[n / 4]
    &&& st.median == t[n / 2]
    &&& st.p_75 == t[n * 3 / 4]
    &&& st.max == t[n - 1]
    &&& st.mean == mean_of(s)
    &&& is_isqrt(variance_of(s), st.std_dev as int)
    &&& st.mode % MODE_BIN_NS == 0
    &&& is_mode_bin(s, st.mode as int / MODE_BIN_NS as int)
}

/// Summarizes a sample set; an empty one is refused.
pub fn calculate_stats(vec: &Vec<u64>) -> (r: Result<Stats, BenchError>)
    ensures
        vec.len() == 0 ==> r == Err::<Stats, BenchError>(BenchError::EmptyInput),
        vec.len() > 0 ==> r is Ok,
        r matches Ok(st) ==> summarizes(vec@, st),
        r matches Ok(st) ==> st.min <= st.p_25 <= st.median <= st.p_75 <= st.max,
{
    if vec.len() == 0 {
        return Err(BenchError::EmptyInput);
    }
    let n = vec.len();
    let mean = sample_mean(vec);
    let sorted = sort_samples(vec);
    proof {
        lemma_sorted_samples(vec@);
    }
    let i_75 = ((n as u128) * 3 / 4) as usize;
    assert(n / 4 <= n / 2 <= n * 3 / 4 < n) by (nonlinear_arith)
        requires
            n > 0,
    ;
    let variance = mean_sq_dev(vec, mean);
    let st = Stats {
        min: sorted[0],
        p_25: sorted[n / 4],
        median: sorted[n / 2],
        p_75: sorted[i_75],
        max: sorted[n - 1],
        mode: sample_mode(vec),
        mean,
        std_dev: isqrt(variance),
    };
    Ok(st)
}

} // verus!
