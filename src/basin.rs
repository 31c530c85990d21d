//! The basin-size tally: sampled weight/bias tuples bucketed by the sign
//! pattern their unit produces.
use crate::activation::Activation;
use crate::encoding::{binary_to_dec, decode, encode, lemma_encode_bound};
use crate::lattice::MAX_INPUTS;
use crate::reverse::total_of;
use crate::search::{input_rows, row_sum, weighted_sum, Params};
use vstd::arithmetic::power2::{lemma2_to64, lemma_pow2_strictly_increases, pow2};
use vstd::prelude::*;

verus! {

/// The table read off the signs of the unit's outputs: a row is true when its
/// output is positive.
pub open spec fn sign_outputs(act: Activation, w: Seq<i32>, bias: int, den: int, n: nat) -> Seq<bool> {
    Seq::new(pow2(n), |r: int| act.out_num(weighted_sum(w, bias, decode(r as nat, n)), den) > 0)
}

/// The encoded sign table of `p`.
pub open spec fn sign_code(act: Activation, p: Params, n: nat) -> nat {
    encode(sign_outputs(act, p.weights@, p.bias as int, p.den as int, n))
}

/// How many of the first `k` samples have the sign table `t`.
pub open spec fn samples_with(act: Activation, samples: Seq<Params>, n: nat, k: nat, t: nat) -> nat
    decreases k,
{
    if k == 0 {
        0
    } else {
        samples_with(act, samples, n, (k - 1) as nat, t) + (if sign_code(act, samples[k - 1], n) == t {
            1nat
        } else {
            0nat
        })
    }
}

/// Tallying depends on the drawn values alone: two runs whose draws agree
/// value for value give the same frequency table.
pub proof fn lemma_tally_reproducible(act: Activation, a: Seq<Params>, b: Seq<Params>, n: nat, k: nat, t: nat)
    requires
        k <= a.len() == b.len(),
        forall|i: int| 0 <= i < a.len() ==> (#[trigger] a[i]).weights@ == b[i].weights@ && a[i].bias == b[i].bias && a[i].den
            == b[i].den,
    ensures
        samples_with(act, a, n, k, t) == samples_with(act, b, n, k, t),
    decreases k,
{
    if k > 0 {
        lemma_tally_reproducible(act, a, b, n, (k - 1) as nat, t);
        let i = k - 1;
        assert(a[i].weights@ == b[i].weights@);
        assert(sign_code(act, a[i], n) == sign_code(act, b[i], n));
    }
}

pub open spec fn sample_ok(p: Params, n: nat) -> bool {
    p.weights@.len() == n && p.den > 0
}

/// The encoded sign table of the unit `p`.
pub fn sign_table_code(act: &Activation, p: &Params, rows: &Vec<Vec<bool>>, n: usize) -> (r: u64)
    requires
        act.wf(),
        n <= MAX_INPUTS,
        sample_ok(*p, n as nat),
        rows@.len() == pow2(n as nat),
        forall|i: int| 0 <= i < rows@.len() ==> (#[trigger] rows@[i])@ == decode(i as nat, n as nat),
    ensures
        r == sign_code(*act, *p, n as nat),
        r < pow2(pow2(n as nat)),
{
    let ghost full = sign_outputs(*act, p.weights@, p.bias as int, p.den as int, n as nat);
    let mut outs: Vec<bool> = Vec::new();
    let mut i: usize = 0;
    while i < rows.len()
        invariant
            i <= rows@.len() == pow2(n as nat),
            act.wf(),
            n <= MAX_INPUTS,
            sample_ok(*p, n as nat),
            forall|j: int| 0 <= j < rows@.len() ==> (#[trigger] rows@[j])@ == decode(j as nat, n as nat),
            full == sign_outputs(*act, p.weights@, p.bias as int, p.den as int, n as nat),
            outs@ == full.subrange(0, i as int),
        decreases rows@.len() - i,
    {
        let s = row_sum(&p.weights, p.bias, &rows[i]);
        let o = act.activate(s, p.den as i64);
        outs.push(o.num > 0);
        assert(outs@ =~= full.subrange(0, i as int + 1));
        i = i + 1;
    }
    assert(outs@ =~= full);
    proof {
        lemma2_to64();
        lemma_pow2_strictly_increases(n as nat, 7);
        lemma_encode_bound(full);
    }
    binary_to_dec(outs.as_slice())
}

/// A running tally of sampled tuples by sign table.
#[derive(Debug)]
pub struct BasinTally {
    /// `counts[t]`: how many samples produced the table encoded `t`.
    pub counts: Vec<u64>,
    /// How many samples were recorded.
    pub total: u64,
    pub inputs: usize,
    /// The input rows, in canonical order.
    pub rows: Vec<Vec<bool>>,
}

impl BasinTally {
    pub open spec fn wf(&self) -> bool {
        &&& self.inputs <= MAX_INPUTS
        &&& self.counts@.len() == pow2(pow2(self.inputs as nat))
        &&& total_of(self.counts@) == self.total
        &&& self.rows_ok()
    }

    pub open spec fn rows_ok(&self) -> bool {
        &&& self.rows@.len() == pow2(self.inputs as nat)
        &&& forall|i: int| 0 <= i < self.rows@.len() ==> (#[trigger] self.rows@[i])@ == decode(i as nat, self.inputs as nat)
    }

    /// An empty tally for units of `n` inputs.
    pub fn new(n: usize) -> (r: BasinTally)
        requires
            n <= MAX_INPUTS,
        ensures
            r.wf(),
            r.inputs == n,
            r.total == 0,
            forall|t: int| 0 <= t < r.counts@.len() ==> r.counts@[t] == 0,
    {
        proof {
            lemma2_to64();
        }
        let tables: usize = if n == 0 {
            2
        } else if n == 1 {
            4
        } else if n == 2 {
            16
        } else if n == 3 {
            256
        } else {
            65536
        };
        let mut counts: Vec<u64> = Vec::new();
        while counts.len() < tables
            invariant
                counts@.len() <= tables,
                forall|i: int| 0 <= i < counts@.len() ==> counts@[i] == 0,
            decreases tables - counts@.len(),
        {
            counts.push(0);
        }
        proof {
            crate::reverse::lemma_total_of_zeros(counts@);
        }
        BasinTally { counts, total: 0, inputs: n, rows: input_rows(n) }
    }

    /// Counts one sample under its sign table.
    pub fn record(&mut self, act: &Activation, p: &Params)
        requires
            old(self).wf(),
            old(self).total < u64::MAX,
            act.wf(),
            sample_ok(*p, old(self).inputs as nat),
        ensures
            final(self).wf(),
            final(self).inputs == old(self).inputs,
            final(self).total == old(self).total + 1,
            final(self).counts@ == old(self).counts@.update(
                sign_code(*act, *p, old(self).inputs as nat) as int,
                (old(self).counts@[sign_code(*act, *p, old(self).inputs as nat) as int] + 1) as u64,
            ),
    {
        let code = sign_table_code(act, p, &self.rows, self.inputs);
        proof {
            crate::encoding::lemma_table_sizes(self.inputs as nat);
            crate::reverse::lemma_total_of_le(self.counts@, code as int);
            crate::reverse::lemma_total_of_bump(self.counts@, code as int);
        }
        let cur = self.counts[code as usize];
        assert(cur <= self.total);
        self.counts.set(code as usize, cur + 1);
        self.total = self.total + 1;
    }
}

/// The sign-table tally of `samples`, units of `n` inputs.
pub fn basin_counts(act: &Activation, n: usize, samples: &Vec<Params>) -> (r: Vec<u64>)
    requires
        act.wf(),
        n <= MAX_INPUTS,
        forall|i: int| 0 <= i < samples@.len() ==> sample_ok(#[trigger] samples@[i], n as nat),
    ensures
        r@.len() == pow2(pow2(n as nat)),
        forall|t: int| 0 <= t < r@.len() ==> #[trigger] r@[t] == samples_with(*act, samples@, n as nat, samples@.len(), t as nat),
{
    let mut tally = BasinTally::new(n);
    let mut k: usize = 0;
    while k < samples.len()
        invariant
            k <= samples@.len(),
            act.wf(),
            tally.wf(),
            tally.inputs == n,
            tally.total == k,
            forall|i: int| 0 <= i < samples@.len() ==> sample_ok(#[trigger] samples@[i], n as nat),
            forall|t: int| 0 <= t < tally.counts@.len() ==> #[trigger] tally.counts@[t] == samples_with(*act, samples@, n as nat, k as nat, t as nat),
        decreases samples@.len() - k,
    {
        let ghost prev = tally.counts@;
        let ghost code = sign_code(*act, samples@[k as int], n as nat);
        proof {
            let sp = samples@[k as int];
            lemma_encode_bound(sign_outputs(*act, sp.weights@, sp.bias as int, sp.den as int, n as nat));
            crate::reverse::lemma_total_of_le(prev, code as int);
        }
        tally.record(act, &samples[k]);
        assert(tally.counts@ == prev.update(code as int, (prev[code as int] + 1) as u64));
        assert forall|t: int| 0 <= t < tally.counts@.len() implies #[trigger] tally.counts@[t] == samples_with(*act, samples@, n as nat, (k + 1) as nat, t as nat) by {
            assert(prev[t] == samples_with(*act, samples@, n as nat, k as nat, t as nat));
            if t == code {
                crate::reverse::lemma_total_of_le(prev, t);
            }
            assert(samples_with(*act, samples@, n as nat, (k + 1) as nat, t as nat) == samples_with(*act, samples@, n as nat, k as nat, t as nat) + (if code == t { 1nat } else { 0nat }));
        }
        k = k + 1;
    }
    tally.counts
}

} // verus!
