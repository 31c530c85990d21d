//! Realizability search: the first lattice tuple whose unit reproduces a
//! truth table, exactly or by sign.
use crate::activation::{Activation, Ratio, SUM_BOUND};
use crate::encoding::{decode, dec_to_binary, lemma_shifted_next, shifted};
use crate::lattice::{
    abs, before, bias_at, power, weights_at, Candidates, MAX_CANDIDATES, MAX_INPUTS,
};
use vstd::arithmetic::div_mod::{lemma_fundamental_div_mod, lemma_fundamental_div_mod_converse};
use vstd::arithmetic::power2::{lemma2_to64, pow2};
use vstd::prelude::*;

verus! {

/// How an activation output must meet a row's target.
#[derive(Clone, Copy, Debug, PartialEq, Eq, Structural)]
pub enum MatchMode {
    /// Within `1e-6` of the bipolar target `+1` or `-1`.
    Exact,
    /// Non-zero, with the target's sign.
    SignOnly,
}

/// Weights and bias of a unit, each `num / den`.
#[derive(Debug)]
pub struct Params {
    pub weights: Vec<i32>,
    pub bias: i32,
    pub den: i32,
}

/// `w[0] * s[0] + ... + w[i-1] * s[i-1]`, where `s[j]` is `+1` for a true
/// input and `-1` for a false one.
pub open spec fn signed_sum(w: Seq<i32>, bits: Seq<bool>, i: nat) -> int
    decreases i,
{
    if i == 0 {
        0
    } else {
        signed_sum(w, bits, (i - 1) as nat) + (if bits[i - 1] {
            w[i - 1] as int
        } else {
            -w[i - 1]
        })
    }
}

/// Numerator of the weighted sum of one input row, bias included.
pub open spec fn weighted_sum(w: Seq<i32>, bias: int, bits: Seq<bool>) -> int {
    signed_sum(w, bits, w.len()) + bias
}

/// An output `o / q` lies within `1e-6` of the target `+1` or `-1`.
pub open spec fn exact_hit(o: int, q: int, target: bool) -> bool {
    abs(o - (if target {
        q
    } else {
        -q
    })) * 1_000_000 <= q
}

/// An output is non-zero and has the target's sign.
pub open spec fn sign_hit(o: int, target: bool) -> bool {
    o != 0 && ((o > 0) == target)
}

pub open spec fn row_hit(
    act: Activation,
    mode: MatchMode,
    w: Seq<i32>,
    bias: int,
    den: int,
    bits: Seq<bool>,
    target: bool,
) -> bool {
    let o = act.out_num(weighted_sum(w, bias, bits), den);
    match mode {
        MatchMode::Exact => exact_hit(o, act.den_of(den), target),
        MatchMode::SignOnly => sign_hit(o, target),
    }
}

/// The unit with weights `w` and bias `bias` (over `den`) meets every row of
/// `table`, row `r` having the inputs `decode(r, n)`.
pub open spec fn realizes(
    act: Activation,
    mode: MatchMode,
    w: Seq<i32>,
    bias: int,
    den: int,
    table: Seq<bool>,
    n: nat,
) -> bool {
    forall|r: int| 0 <= r < table.len() ==> row_hit(act, mode, w, bias, den, decode(r as nat, n), #[trigger] table[r])
}

/// The tuple of rank `k` in search order realizes `table`.
pub open spec fn realized_at(
    act: Activation,
    mode: MatchMode,
    c: Candidates,
    table: Seq<bool>,
    n: nat,
    k: nat,
) -> bool {
    realizes(act, mode, weights_at(c.values@, n, k), bias_at(c.values@, k) as int, c.den as int, table, n)
}

/// `p` is the first tuple in search order that realizes `table`.
pub open spec fn first_solution(act: Activation, mode: MatchMode, c: Candidates, table: Seq<bool>, n: nat, p: Params) -> bool {
    &&& p.den == c.den
    &&& realizes(act, mode, p.weights@, p.bias as int, p.den as int, table, n)
    &&& exists|k: nat| #![trigger realized_at(act, mode, c, table, n, k)]
        k < tuple_count(c.values@.len(), n)
        && realized_at(act, mode, c, table, n, k)
        && p.weights@ == weights_at(c.values@, n, k)
        && p.bias == bias_at(c.values@, k)
        && forall|j: nat| j < k ==> !realized_at(act, mode, c, table, n, j)
}

/// Number of tuples of `n` weights and a bias.
pub open spec fn tuple_count(m: nat, n: nat) -> nat {
    power(m, n + 1)
}

pub open spec fn valid_table(table: Seq<bool>, n: nat) -> bool {
    n <= MAX_INPUTS && table.len() == pow2(n)
}

proof fn lemma_power_bound(m: nat, e: nat)
    requires
        m <= MAX_CANDIDATES,
        e <= MAX_INPUTS + 1,
    ensures
        power(m, e) <= 0x1000_0000_0000_0000,
    decreases e,
{
    if e > 0 {
        lemma_power_bound(m, (e - 1) as nat);
        let p = power(m, (e - 1) as nat);
        assert(power(4096, 0) == 1);
        assert(power(4096, 1) == 4096);
        assert(power(4096, 2) == 4096 * 4096);
        assert(power(4096, 3) == 4096 * 4096 * 4096);
        assert(power(4096, 4) == 4096 * 4096 * 4096 * 4096);
        lemma_power_mono(m, 4096, (e - 1) as nat);
        assert(m * p <= 4096 * power(4096, (e - 1) as nat)) by (nonlinear_arith)
            requires
                m <= 4096,
                p <= power(4096, (e - 1) as nat),
                0 <= p,
        ;
    }
}

proof fn lemma_power_mono(a: nat, b: nat, e: nat)
    requires
        a <= b,
    ensures
        power(a, e) <= power(b, e),
    decreases e,
{
    if e > 0 {
        lemma_power_mono(a, b, (e - 1) as nat);
        let pa = power(a, (e - 1) as nat);
        let pb = power(b, (e - 1) as nat);
        assert(a * pa <= b * pb) by (nonlinear_arith)
            requires
                a <= b,
                pa <= pb,
                0 <= pa,
        ;
    }
}

/// `m` to the power `e`, for a lattice of `m` values and at most
/// `MAX_INPUTS + 1` parameters.
pub fn tuple_total(m: usize, e: usize) -> (r: u64)
    requires
        m <= MAX_CANDIDATES,
        e <= MAX_INPUTS + 1,
    ensures
        r == power(m as nat, e as nat),
        r <= 0x1000_0000_0000_0000,
{
    let mut r: u64 = 1;
    let mut j: usize = 0;
    while j < e
        invariant
            j <= e <= MAX_INPUTS + 1,
            m <= MAX_CANDIDATES,
            r == power(m as nat, j as nat),
        decreases e - j,
    {
        proof {
            lemma_power_bound(m as nat, (j + 1) as nat);
            assert(power(m as nat, (j + 1) as nat) == (m as nat) * power(m as nat, j as nat));
            assert((r as int) * (m as int) == (m as int) * (r as int)) by (nonlinear_arith);
        }
        r = r * (m as u64);
        j = j + 1;
    }
    proof {
        lemma_power_bound(m as nat, e as nat);
    }
    r
}

/// The weights and bias of the tuple of rank `k`.
pub fn params_at(vals: &Vec<i32>, n: usize, k: u64) -> (r: (Vec<i32>, i32))
    requires
        vals@.len() > 0,
    ensures
        r.0@ == weights_at(vals@, n as nat, k as nat),
        r.1 == bias_at(vals@, k as nat),
{
    let m = vals.len() as u64;
    let mut rest: u64 = k;
    let bias = vals[(rest % m) as usize];
    let mut w: Vec<i32> = Vec::new();
    let mut i: usize = 0;
    while i < n
        invariant
            i <= n,
            m == vals@.len() > 0,
            vals@.len() <= usize::MAX,
            rest as nat == shifted(k as nat, vals@.len(), i as nat),
            w@.len() == i,
            forall|j: int| 0 <= j < i ==> w@[j] == weights_at(vals@, n as nat, k as nat)[j],
        decreases n - i,
    {
        rest = rest / m;
        proof {
            crate::encoding::lemma_shifted_next(k as nat, vals@.len(), i as nat);
        }
        let v = vals[(rest % m) as usize];
        proof {
            crate::lattice::lemma_weights_at_index(vals@, n as nat, k as nat, i as int);
        }
        w.push(v);
        assert(w@[i as int] == weights_at(vals@, n as nat, k as nat)[i as int]);
        i = i + 1;
    }
    assert(w@ =~= weights_at(vals@, n as nat, k as nat));
    (w, bias)
}

/// The input rows of an `n`-input table, in canonical order.
pub fn input_rows(n: usize) -> (r: Vec<Vec<bool>>)
    requires
        n <= MAX_INPUTS,
    ensures
        r@.len() == pow2(n as nat),
        forall|i: int| 0 <= i < r@.len() ==> (#[trigger] r@[i])@ == decode(i as nat, n as nat),
{
    proof {
        lemma2_to64();
    }
    let count: u64 = 1u64 << (n as u64);
    assert(count == pow2(n as nat)) by {
        assert(1u64 << 0u64 == 1) by (bit_vector);
        assert(1u64 << 1u64 == 2) by (bit_vector);
        assert(1u64 << 2u64 == 4) by (bit_vector);
        assert(1u64 << 3u64 == 8) by (bit_vector);
        assert(1u64 << 4u64 == 16) by (bit_vector);
    }
    let mut rows: Vec<Vec<bool>> = Vec::new();
    let mut k: u64 = 0;
    while k < count
        invariant
            k <= count == pow2(n as nat),
            n <= MAX_INPUTS,
            rows@.len() == k,
            forall|i: int| 0 <= i < k ==> (#[trigger] rows@[i])@ == decode(i as nat, n as nat),
        decreases count - k,
    {
        rows.push(dec_to_binary(k, n));
        k = k + 1;
    }
    rows
}

/// The weighted sum of one input row: its numerator over the weights' denominator.
pub fn row_sum(w: &Vec<i32>, bias: i32, bits: &Vec<bool>) -> (r: i64)
    requires
        w@.len() == bits@.len() <= MAX_INPUTS,
    ensures
        r == weighted_sum(w@, bias as int, bits@),
        -SUM_BOUND <= r <= SUM_BOUND,
{
    let mut s: i64 = 0;
    let mut i: usize = 0;
    while i < w.len()
        invariant
            i <= w@.len() == bits@.len() <= MAX_INPUTS,
            s == signed_sum(w@, bits@, i as nat),
            -(i as int) * 0x8000_0000 <= s <= (i as int) * 0x8000_0000,
        decreases w@.len() - i,
    {
        if bits[i] {
            s = s + w[i] as i64;
        } else {
            s = s - w[i] as i64;
        }
        i = i + 1;
    }
    s + bias as i64
}

/// Whether the output `o` (over `o.den`) meets `target` under `mode`.
pub fn output_hits(mode: MatchMode, o: Ratio, target: bool) -> (r: bool)
    requires
        0 < o.den <= 0x2000_0000_0000_0000_0000_0000,
        -o.den <= o.num <= o.den,
    ensures
        r == (match mode {
            MatchMode::Exact => exact_hit(o.num as int, o.den as int, target),
            MatchMode::SignOnly => sign_hit(o.num as int, target),
        }),
{
    match mode {
        MatchMode::Exact => {
            let t: i128 = if target { o.den } else { -o.den };
            let diff: i128 = if o.num >= t { o.num - t } else { t - o.num };
            diff * 1_000_000 <= o.den
        },
        MatchMode::SignOnly => o.num != 0 && ((o.num > 0) == target),
    }
}

/// Whether the unit with `w`, `bias` over `den` meets every row of `table`.
pub fn params_realize(
    act: &Activation,
    mode: MatchMode,
    w: &Vec<i32>,
    bias: i32,
    den: i32,
    table: &Vec<bool>,
    rows: &Vec<Vec<bool>>,
    n: usize,
) -> (r: bool)
    requires
        act.wf(),
        den > 0,
        w@.len() == n,
        valid_table(table@, n as nat),
        rows@.len() == table@.len(),
        forall|i: int| 0 <= i < rows@.len() ==> (#[trigger] rows@[i])@ == decode(i as nat, n as nat),
    ensures
        r == realizes(*act, mode, w@, bias as int, den as int, table@, n as nat),
{
    let mut i: usize = 0;
    while i < table.len()
        invariant
            i <= table@.len() == rows@.len(),
            act.wf(),
            den > 0,
            w@.len() == n <= MAX_INPUTS,
            forall|j: int| 0 <= j < rows@.len() ==> (#[trigger] rows@[j])@ == decode(j as nat, n as nat),
            forall|j: int| 0 <= j < i ==> row_hit(*act, mode, w@, bias as int, den as int, decode(j as nat, n as nat), #[trigger] table@[j]),
        decreases table@.len() - i,
    {
        let bits = &rows[i];
        let s = row_sum(w, bias, bits);
        let o = act.activate(s, den as i64);
        if !output_hits(mode, o, table[i]) {
            assert(!row_hit(*act, mode, w@, bias as int, den as int, decode(i as nat, n as nat), table@[i as int]));
            return false;
        }
        i = i + 1;
    }
    true
}

/// The first tuple in search order whose unit meets every row of `table`:
/// weights and bias range over `c`, the last weight varying slowest and the
/// bias fastest. `None` when no tuple of the lattice does.
pub fn solve(act: &Activation, table: &Vec<bool>, n: usize, c: &Candidates, mode: MatchMode) -> (r: Option<Params>)
    requires
        act.wf(),
        c.wf(),
        valid_table(table@, n as nat),
    ensures
        match r {
            Some(p) => first_solution(*act, mode, *c, table@, n as nat, p),
            None => forall|k: nat| k < tuple_count(c.values@.len(), n as nat) ==> !realized_at(*act, mode, *c, table@, n as nat, k),
        },
        // In exact mode every row's output is within 1e-6 of its target.
        mode == MatchMode::Exact ==> (r matches Some(p) ==> forall|i: int| 0 <= i < table@.len() ==> exact_hit(
            act.out_num(weighted_sum(p.weights@, p.bias as int, decode(i as nat, n as nat)), p.den as int),
            act.den_of(p.den as int),
            #[trigger] table@[i],
        )),
        // In sign-only mode every row's output is non-zero, with its target's sign.
        mode == MatchMode::SignOnly ==> (r matches Some(p) ==> forall|i: int| 0 <= i < table@.len() ==> sign_hit(
            act.out_num(weighted_sum(p.weights@, p.bias as int, decode(i as nat, n as nat)), p.den as int),
            #[trigger] table@[i],
        )),
{
    let rows = input_rows(n);
    let total = tuple_total(c.values.len(), n + 1);
    let mut k: u64 = 0;
    while k < total
        invariant
            k <= total == tuple_count(c.values@.len(), n as nat),
            act.wf(),
            c.wf(),
            valid_table(table@, n as nat),
            rows@.len() == table@.len(),
            forall|i: int| 0 <= i < rows@.len() ==> (#[trigger] rows@[i])@ == decode(i as nat, n as nat),
            forall|j: nat| j < k ==> !realized_at(*act, mode, *c, table@, n as nat, j),
        decreases total - k,
    {
        let (w, bias) = params_at(&c.values, n, k);
        if params_realize(act, mode, &w, bias, c.den, table, &rows, n) {
            let p = Params { weights: w, bias, den: c.den };
            assert(realized_at(*act, mode, *c, table@, n as nat, k as nat));
            return Some(p);
        }
        k = k + 1;
    }
    None
}

/// Zero, when it is a candidate, comes first in search order.
proof fn lemma_zero_first(c: Candidates)
    requires
        c.wf(),
        c.values@.contains(0),
    ensures
        c.values@[0] == 0,
{
    let j = choose|j: int| 0 <= j < c.values@.len() && c.values@[j] == 0;
    if j > 0 {
        assert(before(c.values@[0] as int, c.values@[j] as int));
    }
}

/// Once a shift reaches zero it stays zero.
proof fn lemma_shifted_stays_zero(k: nat, m: nat, j: nat, i: nat)
    requires
        m > 0,
        j <= i,
        shifted(k, m, j) == 0,
    ensures
        shifted(k, m, i) == 0,
    decreases i - j,
{
    if j < i {
        lemma_shifted_stays_zero(k, m, j, (i - 1) as nat);
        lemma_shifted_next(k, m, (i - 1) as nat);
    }
}

/// The index of a value in a sequence that contains it.
proof fn index_of(vals: Seq<i32>, v: i32) -> (i: nat)
    requires
        vals.contains(v),
    ensures
        i < vals.len(),
        vals[i as int] == v,
{
    let j = choose|j: int| 0 <= j < vals.len() && vals[j] == v;
    j as nat
}

/// The rank that `first_solution` speaks of comes no later than any rank
/// that realizes the table.
proof fn first_rank(act: Activation, mode: MatchMode, c: Candidates, table: Seq<bool>, n: nat, p: Params, k0: nat) -> (k: nat)
    requires
        first_solution(act, mode, c, table, n, p),
        realized_at(act, mode, c, table, n, k0),
    ensures
        k <= k0,
        p.weights@ == weights_at(c.values@, n, k),
{
    let k = choose|k: nat| #![trigger realized_at(act, mode, c, table, n, k)]
        k < tuple_count(c.values@.len(), n)
        && realized_at(act, mode, c, table, n, k)
        && p.weights@ == weights_at(c.values@, n, k)
        && p.bias == bias_at(c.values@, k)
        && forall|j: nat| j < k ==> !realized_at(act, mode, c, table, n, j);
    k
}

/// Bias alone suffices first: when zero is a candidate and some candidate
/// bias with every weight zero realizes the table, the first solution gives
/// every input the weight zero.
pub proof fn lemma_first_solution_bias_only(
    act: Activation,
    mode: MatchMode,
    c: Candidates,
    table: Seq<bool>,
    n: nat,
    p: Params,
    b: i32,
)
    requires
        c.wf(),
        c.values@.contains(0),
        c.values@.contains(b),
        realizes(act, mode, Seq::new(n, |i: int| 0i32), b as int, c.den as int, table, n),
        first_solution(act, mode, c, table, n, p),
    ensures
        p.weights@.len() == n,
        forall|i: int| 0 <= i < n ==> p.weights@[i] == 0,
{
    let vals = c.values@;
    let m = vals.len();
    lemma_zero_first(c);
    let k0 = index_of(vals, b);
    lemma_fundamental_div_mod_converse(k0 as int, m as int, 0, k0 as int);
    lemma_shifted_next(k0, m, 0);
    assert(shifted(k0, m, 1) == 0);
    assert forall|i: int| 0 <= i < n implies #[trigger] weights_at(vals, n, k0)[i] == 0i32 by {
        lemma_shifted_stays_zero(k0, m, 1, (i + 1) as nat);
    }
    assert(weights_at(vals, n, k0) =~= Seq::new(n, |i: int| 0i32));
    assert(realized_at(act, mode, c, table, n, k0));
    let k = first_rank(act, mode, c, table, n, p, k0);
    lemma_fundamental_div_mod_converse(k as int, m as int, 0, k as int);
    lemma_shifted_next(k, m, 0);
    assert(shifted(k, m, 1) == 0);
    assert forall|i: int| 0 <= i < n implies p.weights@[i] == 0 by {
        lemma_shifted_stays_zero(k, m, 1, (i + 1) as nat);
    }
}

/// Irrelevant inputs stay at zero: when zero is a candidate and a tuple
/// that weighs only the first input (with candidate values) realizes the
/// table, the first solution gives every other input the weight zero.
pub proof fn lemma_first_solution_first_input_only(
    act: Activation,
    mode: MatchMode,
    c: Candidates,
    table: Seq<bool>,
    n: nat,
    p: Params,
    a: i32,
    b: i32,
)
    requires
        c.wf(),
        n >= 1,
        c.values@.contains(0),
        c.values@.contains(a),
        c.values@.contains(b),
        realizes(act, mode, Seq::new(n, |i: int| if i == 0 { a } else { 0i32 }), b as int, c.den as int, table, n),
        first_solution(act, mode, c, table, n, p),
    ensures
        p.weights@.len() == n,
        forall|i: int| 1 <= i < n ==> p.weights@[i] == 0,
{
    let vals = c.values@;
    let m = vals.len();
    lemma_zero_first(c);
    let ia = index_of(vals, a);
    let ib = index_of(vals, b);
    let k0: nat = ia * m + ib;
    lemma_fundamental_div_mod_converse(k0 as int, m as int, ia as int, ib as int);
    lemma_fundamental_div_mod_converse(ia as int, m as int, 0, ia as int);
    lemma_shifted_next(k0, m, 0);
    lemma_shifted_next(k0, m, 1);
    assert(shifted(k0, m, 2) == 0);
    assert forall|i: int| 0 <= i < n implies #[trigger] weights_at(vals, n, k0)[i] == (if i == 0 { a } else { 0i32 }) by {
        if i >= 1 {
            lemma_shifted_stays_zero(k0, m, 2, (i + 1) as nat);
        }
    }
    assert(weights_at(vals, n, k0) =~= Seq::new(n, |i: int| if i == 0 { a } else { 0i32 }));
    assert(realized_at(act, mode, c, table, n, k0));
    let k = first_rank(act, mode, c, table, n, p, k0);
    assert(k0 < m * m) by (nonlinear_arith)
        requires
            k0 == ia * m + ib,
            ib < m,
            ia < m,
    ;
    lemma_fundamental_div_mod(k as int, m as int);
    let q = k / m;
    assert(q < m) by (nonlinear_arith)
        requires
            k == m * q + k % m,
            k % m >= 0,
            k < m * m,
            m > 0,
            q >= 0,
    ;
    lemma_fundamental_div_mod_converse(q as int, m as int, 0, q as int);
    lemma_shifted_next(k, m, 0);
    lemma_shifted_next(k, m, 1);
    assert(shifted(k, m, 2) == 0);
    assert forall|i: int| 1 <= i < n implies p.weights@[i] == 0 by {
        lemma_shifted_stays_zero(k, m, 2, (i + 1) as nat);
    }
}

proof fn lemma_signed_sum_zero(n: nat, bits: Seq<bool>, i: nat)
    requires
        i <= n,
    ensures
        signed_sum(Seq::new(n, |j: int| 0i32), bits, i) == 0,
    decreases i,
{
    if i > 0 {
        lemma_signed_sum_zero(n, bits, (i - 1) as nat);
    }
}

proof fn lemma_signed_sum_first_only(n: nat, a: i32, bits: Seq<bool>, i: nat)
    requires
        1 <= i <= n,
    ensures
        signed_sum(Seq::new(n, |j: int| if j == 0 { a } else { 0i32 }), bits, i) == (if bits[0] {
            a as int
        } else {
            -a
        }),
    decreases i,
{
    let w = Seq::new(n, |j: int| if j == 0 { a } else { 0i32 });
    if i > 1 {
        lemma_signed_sum_first_only(n, a, bits, (i - 1) as nat);
        assert(w[i - 1] == 0i32);
    } else {
        assert(w[0] == a);
        assert(signed_sum(w, bits, 0) == 0);
    }
}

/// Bias alone for the constant tables: under the canonical activation, with
/// zero as a candidate over the denominator 2, the first exact solution of
/// the all-true table (candidate `1`) or the all-false table (candidate
/// `-1`) gives every input the weight zero.
pub proof fn lemma_constant_tables_need_only_a_bias(c: Candidates, n: nat, value: bool, p: Params)
    requires
        c.wf(),
        c.den == 2,
        c.values@.contains(0),
        c.values@.contains(if value { 2i32 } else { -2i32 }),
        first_solution(
            Activation { scale_num: 3, scale_den: 2, shift_num: 1, shift_den: 2 },
            MatchMode::Exact,
            c,
            Seq::new(pow2(n), |r: int| value),
            n,
            p,
        ),
    ensures
        p.weights@.len() == n,
        forall|i: int| 0 <= i < n ==> p.weights@[i] == 0,
{
    let act = Activation { scale_num: 3, scale_den: 2, shift_num: 1, shift_den: 2 };
    let b: i32 = if value { 2i32 } else { -2i32 };
    let table = Seq::new(pow2(n), |r: int| value);
    assert forall|r: int| 0 <= r < table.len() implies row_hit(
        act,
        MatchMode::Exact,
        Seq::new(n, |j: int| 0i32),
        b as int,
        2,
        decode(r as nat, n),
        #[trigger] table[r],
    ) by {
        lemma_signed_sum_zero(n, decode(r as nat, n), n);
    }
    lemma_first_solution_bias_only(act, MatchMode::Exact, c, table, n, p, b);
}

/// Irrelevant inputs get no weight: under the canonical activation, with
/// `0` and `1` as candidates over the denominator 2, the first exact
/// solution of the table that copies the first input gives every other
/// input the weight zero.
pub proof fn lemma_first_input_table_ignores_the_rest(c: Candidates, n: nat, p: Params)
    requires
        c.wf(),
        c.den == 2,
        n >= 1,
        c.values@.contains(0),
        c.values@.contains(2),
        first_solution(
            Activation { scale_num: 3, scale_den: 2, shift_num: 1, shift_den: 2 },
            MatchMode::Exact,
            c,
            Seq::new(pow2(n), |r: int| decode(r as nat, n)[0]),
            n,
            p,
        ),
    ensures
        p.weights@.len() == n,
        forall|i: int| 1 <= i < n ==> p.weights@[i] == 0,
{
    let act = Activation { scale_num: 3, scale_den: 2, shift_num: 1, shift_den: 2 };
    let table = Seq::new(pow2(n), |r: int| decode(r as nat, n)[0]);
    let w = Seq::new(n, |j: int| if j == 0 { 2i32 } else { 0i32 });
    assert forall|r: int| 0 <= r < table.len() implies row_hit(
        act,
        MatchMode::Exact,
        w,
        0,
        2,
        decode(r as nat, n),
        #[trigger] table[r],
    ) by {
        lemma_signed_sum_first_only(n, 2, decode(r as nat, n), n);
    }
    lemma_first_solution_first_input_only(act, MatchMode::Exact, c, table, n, p, 2, 0);
}

} // verus!
