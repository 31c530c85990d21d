//! The reverse mapper: every integer tuple of weights and bias in a range,
//! bucketed by the truth table its unit produces.
use crate::activation::Activation;
use crate::encoding::{binary_to_dec, decode, encode, lemma_encode_bound};
use crate::lattice::{abs, bias_at, int_range, weights_at, MAX_CANDIDATES, MAX_INPUTS};
use crate::search::{input_rows, params_at, row_sum, tuple_count, tuple_total, weighted_sum};
use vstd::arithmetic::power2::{lemma2_to64, pow2};
use vstd::prelude::*;

verus! {

/// An output `o / q` lies strictly within `1e-6` of the bipolar value of `target`.
pub open spec fn near(o: int, q: int, target: bool) -> bool {
    abs(o - (if target {
        q
    } else {
        -q
    })) * 1_000_000 < q
}

/// The output of one row read as a Boolean, or `None` when it lies near
/// neither `+1` nor `-1`. Weights and bias are integers.
pub open spec fn row_class(act: Activation, w: Seq<i32>, bias: int, bits: Seq<bool>) -> Option<bool> {
    let o = act.out_num(weighted_sum(w, bias, bits), 1);
    let q = act.den_of(1);
    if near(o, q, true) {
        Some(true)
    } else if near(o, q, false) {
        Some(false)
    } else {
        None
    }
}

/// Every row of the unit's table is read as a Boolean.
pub open spec fn unambiguous(act: Activation, w: Seq<i32>, bias: int, n: nat) -> bool {
    forall|r: nat| r < pow2(n) ==> #[trigger] row_class(act, w, bias, decode(r, n)) is Some
}

/// The outputs the unit produces, read as Booleans, in canonical row order.
pub open spec fn sweep_outputs(act: Activation, w: Seq<i32>, bias: int, n: nat) -> Seq<bool> {
    Seq::new(pow2(n), |r: int| row_class(act, w, bias, decode(r as nat, n)) == Some(true))
}

/// The encoded table that the tuple of rank `k` realizes, or `None` when it
/// is ambiguous.
pub open spec fn sweep_code(act: Activation, vals: Seq<i32>, n: nat, k: nat) -> Option<nat> {
    let w = weights_at(vals, n, k);
    let b = bias_at(vals, k) as int;
    if unambiguous(act, w, b, n) {
        Some(encode(sweep_outputs(act, w, b, n)))
    } else {
        None
    }
}

/// How many of the first `k` tuples have the outcome `x`.
pub open spec fn code_count(act: Activation, vals: Seq<i32>, n: nat, k: nat, x: Option<nat>) -> nat
    decreases k,
{
    if k == 0 {
        0
    } else {
        code_count(act, vals, n, (k - 1) as nat, x) + (if sweep_code(act, vals, n, (k - 1) as nat) == x {
            1nat
        } else {
            0nat
        })
    }
}

/// The sum of a sequence of counts.
pub open spec fn total_of(s: Seq<u64>) -> nat
    decreases s.len(),
{
    if s.len() == 0 {
        0
    } else {
        total_of(s.drop_last()) + (s.last() as nat)
    }
}

/// Raising one count by one raises the sum by one.
pub proof fn lemma_total_of_bump(s: Seq<u64>, i: int)
    requires
        0 <= i < s.len(),
        s[i] < u64::MAX,
    ensures
        total_of(s.update(i, (s[i] + 1) as u64)) == total_of(s) + 1,
    decreases s.len(),
{
    let t = s.update(i, (s[i] + 1) as u64);
    if i < s.len() - 1 {
        assert(t.drop_last() =~= s.drop_last().update(i, (s[i] + 1) as u64));
        lemma_total_of_bump(s.drop_last(), i);
    } else {
        assert(t.drop_last() =~= s.drop_last());
    }
}

/// Counts that are all zero sum to zero.
pub proof fn lemma_total_of_zeros(s: Seq<u64>)
    requires
        forall|i: int| 0 <= i < s.len() ==> s[i] == 0,
    ensures
        total_of(s) == 0,
    decreases s.len(),
{
    if s.len() > 0 {
        lemma_total_of_zeros(s.drop_last());
    }
}

/// No count exceeds the sum.
pub proof fn lemma_total_of_le(s: Seq<u64>, i: int)
    requires
        0 <= i < s.len(),
    ensures
        s[i] <= total_of(s),
    decreases s.len(),
{
    if i < s.len() - 1 {
        lemma_total_of_le(s.drop_last(), i);
    }
}

proof fn lemma_code_count_le(act: Activation, vals: Seq<i32>, n: nat, k: nat, x: Option<nat>)
    ensures
        code_count(act, vals, n, k, x) <= k,
    decreases k,
{
    if k > 0 {
        lemma_code_count_le(act, vals, n, (k - 1) as nat, x);
    }
}

/// The outcome of a reverse sweep.
#[derive(Debug)]
pub struct SweepResult {
    /// `counts[t]`: how many tuples realize the table encoded `t`.
    pub counts: Vec<u64>,
    /// How many tuples produce an output near neither `+1` nor `-1`.
    pub ambiguous: u64,
    /// How many tuples were swept.
    pub total: u64,
}

/// The encoded table that the unit with integer weights `w` and bias `bias`
/// produces, or `None` when some row's output is near neither `+1` nor `-1`.
pub fn classify_tuple(act: &Activation, w: &Vec<i32>, bias: i32, rows: &Vec<Vec<bool>>, n: usize) -> (r: Option<u64>)
    requires
        act.wf(),
        w@.len() == n <= MAX_INPUTS,
        rows@.len() == pow2(n as nat),
        forall|i: int| 0 <= i < rows@.len() ==> (#[trigger] rows@[i])@ == decode(i as nat, n as nat),
    ensures
        match r {
            Some(c) => unambiguous(*act, w@, bias as int, n as nat) && c == encode(sweep_outputs(*act, w@, bias as int, n as nat)),
            None => !unambiguous(*act, w@, bias as int, n as nat),
        },
{
    let ghost full = sweep_outputs(*act, w@, bias as int, n as nat);
    let mut outs: Vec<bool> = Vec::new();
    let mut i: usize = 0;
    while i < rows.len()
        invariant
            i <= rows@.len() == pow2(n as nat),
            act.wf(),
            w@.len() == n <= MAX_INPUTS,
            forall|j: int| 0 <= j < rows@.len() ==> (#[trigger] rows@[j])@ == decode(j as nat, n as nat),
            full == sweep_outputs(*act, w@, bias as int, n as nat),
            outs@ == full.subrange(0, i as int),
            forall|j: nat| j < i ==> #[trigger] row_class(*act, w@, bias as int, decode(j, n as nat)) is Some,
        decreases rows@.len() - i,
    {
        let s = row_sum(w, bias, &rows[i]);
        let o = act.activate(s, 1);
        let t: i128 = o.den;
        let up: i128 = if o.num >= t { o.num - t } else { t - o.num };
        let down: i128 = if o.num >= -t { o.num + t } else { -t - o.num };
        if up * 1_000_000 < o.den {
            outs.push(true);
        } else if down * 1_000_000 < o.den {
            outs.push(false);
        } else {
            assert(row_class(*act, w@, bias as int, decode(i as nat, n as nat)) is None);
            return None;
        }
        assert(outs@ =~= full.subrange(0, i as int + 1));
        i = i + 1;
    }
    assert(outs@ =~= full);
    proof {
        lemma2_to64();
        vstd::arithmetic::power2::lemma_pow2_strictly_increases(n as nat, 7);
    }
    Some(binary_to_dec(outs.as_slice()))
}

/// Sweeps every tuple of `n` integer weights and an integer bias in
/// `lo..=hi` and counts, for each truth table, the tuples that realize it;
/// a tuple with any output near neither `+1` nor `-1` counts as ambiguous.
pub fn reverse_sweep(act: &Activation, n: usize, lo: i32, hi: i32) -> (r: SweepResult)
    requires
        act.wf(),
        n <= MAX_INPUTS,
        lo <= hi,
        hi - lo + 1 <= MAX_CANDIDATES,
    ensures
        r.total == tuple_count((hi - lo + 1) as nat, n as nat),
        r.counts@.len() == pow2(pow2(n as nat)),
        forall|t: int| 0 <= t < r.counts@.len() ==> #[trigger] r.counts@[t] == code_count(*act, Seq::new((hi - lo + 1) as nat, |i: int| (lo + i) as i32), n as nat, r.total as nat, Some(t as nat)),
        r.ambiguous == code_count(*act, Seq::new((hi - lo + 1) as nat, |i: int| (lo + i) as i32), n as nat, r.total as nat, None),
        // Every swept tuple is counted once: for one table, or as ambiguous.
        total_of(r.counts@) + r.ambiguous == r.total,
{
    let vals = int_range(lo, hi);
    let ghost vs = Seq::new((hi - lo + 1) as nat, |i: int| (lo + i) as i32);
    assert(vals@ =~= vs);
    let rows = input_rows(n);
    proof {
        lemma2_to64();
    }
    let tables: usize = if n == 0 {
        2
    } else if n == 1 {
        4
    } else if n == 2 {
        16
    } else if n == 3 {
        256
    } else {
        65536
    };
    let mut counts: Vec<u64> = Vec::new();
    while counts.len() < tables
        invariant
            counts@.len() <= tables,
            forall|i: int| 0 <= i < counts@.len() ==> counts@[i] == 0,
        decreases tables - counts@.len(),
    {
        counts.push(0);
    }
    proof {
        lemma_total_of_zeros(counts@);
    }
    let total = tuple_total(vals.len(), n + 1);
    let mut ambiguous: u64 = 0;
    let mut k: u64 = 0;
    while k < total
        invariant
            k <= total == tuple_count(vs.len(), n as nat),
            total <= 0x1000_0000_0000_0000,
            act.wf(),
            n <= MAX_INPUTS,
            vals@ == vs,
            vs.len() > 0,
            rows@.len() == pow2(n as nat),
            forall|i: int| 0 <= i < rows@.len() ==> (#[trigger] rows@[i])@ == decode(i as nat, n as nat),
            counts@.len() == tables == pow2(pow2(n as nat)),
            forall|t: int| 0 <= t < counts@.len() ==> #[trigger] counts@[t] == code_count(*act, vs, n as nat, k as nat, Some(t as nat)),
            ambiguous == code_count(*act, vs, n as nat, k as nat, None),
            total_of(counts@) + ambiguous == k,
        decreases total - k,
    {
        let (w, bias) = params_at(&vals, n, k);
        let c = classify_tuple(act, &w, bias, &rows, n);
        proof {
            lemma_code_count_le(*act, vs, n as nat, k as nat, None);
        }
        match c {
            Some(code) => {
                proof {
                    lemma_encode_bound(sweep_outputs(*act, w@, bias as int, n as nat));
                    lemma_code_count_le(*act, vs, n as nat, k as nat, Some(code as nat));
                    lemma_total_of_bump(counts@, code as int);
                }
                let cur = counts[code as usize];
                counts.set(code as usize, cur + 1);
            },
            None => {
                ambiguous = ambiguous + 1;
            },
        }
        assert(sweep_code(*act, vs, n as nat, k as nat) == match c { Some(code) => Some(code as nat), None => None::<nat> });
        k = k + 1;
    }
    SweepResult { counts, ambiguous, total }
}

/// How many entries of `s` equal `c`.
pub open spec fn count_eq(s: Seq<u64>, c: int) -> nat
    decreases s.len(),
{
    if s.len() == 0 {
        0
    } else {
        count_eq(s.drop_last(), c) + (if s.last() == c {
            1nat
        } else {
            0nat
        })
    }
}

/// How many entries of `s` are non-zero.
pub open spec fn nonzero_count(s: Seq<u64>) -> nat
    decreases s.len(),
{
    if s.len() == 0 {
        0
    } else {
        nonzero_count(s.drop_last()) + (if s.last() != 0 {
            1nat
        } else {
            0nat
        })
    }
}

/// How many truth tables a sweep realized at least once.
pub fn unique_tables(counts: &Vec<u64>) -> (r: u64)
    ensures
        r == nonzero_count(counts@),
{
    let mut r: u64 = 0;
    let mut i: usize = 0;
    while i < counts.len()
        invariant
            i <= counts@.len(),
            r == nonzero_count(counts@.subrange(0, i as int)),
            r <= i,
        decreases counts@.len() - i,
    {
        assert(counts@.subrange(0, i as int + 1).drop_last() =~= counts@.subrange(0, i as int));
        if counts[i] != 0 {
            r = r + 1;
        }
        i = i + 1;
    }
    assert(counts@.subrange(0, i as int) =~= counts@);
    r
}

/// How many entries of `counts` equal `c`.
pub fn tables_with_count(counts: &Vec<u64>, c: u64) -> (r: u64)
    ensures
        r == count_eq(counts@, c as int),
{
    let mut r: u64 = 0;
    let mut i: usize = 0;
    while i < counts.len()
        invariant
            i <= counts@.len(),
            r == count_eq(counts@.subrange(0, i as int), c as int),
            r <= i,
        decreases counts@.len() - i,
    {
        assert(counts@.subrange(0, i as int + 1).drop_last() =~= counts@.subrange(0, i as int));
        if counts[i] == c {
            r = r + 1;
        }
        i = i + 1;
    }
    assert(counts@.subrange(0, i as int) =~= counts@);
    r
}

/// The largest entry of `counts` below `limit` that is non-zero, if any.
fn largest_below(counts: &Vec<u64>, limit: u128) -> (r: Option<u64>)
    ensures
        match r {
            Some(m) => m > 0 && m < limit && counts@.contains(m) && forall|t: int|
                0 <= t < counts@.len() && #[trigger] counts@[t] > 0 && counts@[t] < limit ==> counts@[t] <= m,
            None => forall|t: int| 0 <= t < counts@.len() ==> #[trigger] counts@[t] == 0 || counts@[t] >= limit,
        },
{
    let mut best: Option<u64> = None;
    let mut i: usize = 0;
    while i < counts.len()
        invariant
            i <= counts@.len(),
            match best {
                Some(m) => m > 0 && m < limit && counts@.contains(m) && forall|t: int|
                    0 <= t < i && #[trigger] counts@[t] > 0 && counts@[t] < limit ==> counts@[t] <= m,
                None => forall|t: int| 0 <= t < i ==> #[trigger] counts@[t] == 0 || counts@[t] >= limit,
            },
        decreases counts@.len() - i,
    {
        let v = counts[i];
        if v > 0 && (v as u128) < limit {
            match best {
                Some(m) => {
                    if v > m {
                        best = Some(v);
                    }
                },
                None => {
                    best = Some(v);
                },
            }
        }
        i = i + 1;
    }
    best
}

/// The histogram of a frequency table: for each count `k > 0` that occurs,
/// the pair `(k, number of tables realized by exactly k tuples)`, by
/// descending `k`.
pub fn count_histogram(counts: &Vec<u64>) -> (r: Vec<(u64, u64)>)
    ensures
        forall|i: int, j: int| 0 <= i < j < r@.len() ==> r@[i].0 > r@[j].0,
        forall|i: int| 0 <= i < r@.len() ==> (#[trigger] r@[i]).0 > 0 && r@[i].1 == count_eq(counts@, r@[i].0 as int)
            && counts@.contains(r@[i].0),
        forall|t: int| 0 <= t < counts@.len() && #[trigger] counts@[t] > 0 ==> exists|i: int| 0 <= i < r@.len() && (#[trigger] r@[i]).0 == counts@[t],
{
    let mut out: Vec<(u64, u64)> = Vec::new();
    let mut limit: u128 = 0x1_0000_0000_0000_0000;
    loop
        invariant
            limit <= 0x1_0000_0000_0000_0000,
            forall|i: int, j: int| 0 <= i < j < out@.len() ==> out@[i].0 > out@[j].0,
            forall|i: int| 0 <= i < out@.len() ==> (#[trigger] out@[i]).0 > 0 && out@[i].1 == count_eq(counts@, out@[i].0 as int)
                && counts@.contains(out@[i].0),
            forall|i: int| 0 <= i < out@.len() ==> (#[trigger] out@[i]).0 >= limit,
            forall|t: int| 0 <= t < counts@.len() && #[trigger] counts@[t] >= limit ==> exists|i: int| 0 <= i < out@.len() && (#[trigger] out@[i]).0 == counts@[t],
        ensures
            forall|i: int, j: int| 0 <= i < j < out@.len() ==> out@[i].0 > out@[j].0,
            forall|i: int| 0 <= i < out@.len() ==> (#[trigger] out@[i]).0 > 0 && out@[i].1 == count_eq(counts@, out@[i].0 as int)
                && counts@.contains(out@[i].0),
            forall|t: int| 0 <= t < counts@.len() && #[trigger] counts@[t] > 0 ==> exists|i: int| 0 <= i < out@.len() && (#[trigger] out@[i]).0 == counts@[t],
        decreases limit,
    {
        match largest_below(counts, limit) {
            Some(m) => {
                let h = tables_with_count(counts, m);
                let ghost before = out@;
                out.push((m, h));
                assert forall|t: int| 0 <= t < counts@.len() && #[trigger] counts@[t] >= m implies exists|i: int|
                    0 <= i < out@.len() && (#[trigger] out@[i]).0 == counts@[t] by {
                    if counts@[t] >= limit {
                        let i = choose|i: int| 0 <= i < before.len() && (#[trigger] before[i]).0 == counts@[t];
                        assert(out@[i] == before[i]);
                    } else {
                        assert(out@[before.len() as int].0 == counts@[t]);
                    }
                }
                limit = m as u128;
            },
            None => {
                assert forall|t: int| 0 <= t < counts@.len() && #[trigger] counts@[t] > 0 implies exists|i: int|
                    0 <= i < out@.len() && (#[trigger] out@[i]).0 == counts@[t] by {
                    assert(counts@[t] >= limit);
                }
                break;
            },
        }
    }
    out
}

} // verus!
