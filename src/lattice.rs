//! The discretized search lattice: candidate values ordered by magnitude,
//! and the tuples of weights and bias drawn from them in search order.
use crate::encoding::digit;
use vstd::prelude::*;

verus! {

/// Largest number of candidate values in one lattice.
pub const MAX_CANDIDATES: usize = 4096;

/// Largest number of inputs a unit has.
pub const MAX_INPUTS: usize = 4;

/// `b` to the power `e`.
pub open spec fn power(b: nat, e: nat) -> nat
    decreases e,
{
    if e == 0 {
        1
    } else {
        b * power(b, (e - 1) as nat)
    }
}

pub open spec fn abs(a: int) -> int {
    if a < 0 {
        -a
    } else {
        a
    }
}

/// The search order of candidate values: by magnitude, then by value.
pub open spec fn before(a: int, b: int) -> bool {
    abs(a) < abs(b) || (abs(a) == abs(b) && a < b)
}

pub open spec fn ordered(s: Seq<i32>) -> bool {
    forall|i: int, j: int| 0 <= i < j < s.len() ==> before(s[i] as int, s[j] as int)
}

/// Weight `i` of the tuple of rank `k`: digit `i + 1` of `k` in base `vals.len()`
/// picks the value, so the last weight varies slowest.
pub open spec fn weights_at(vals: Seq<i32>, n: nat, k: nat) -> Seq<i32> {
    Seq::new(n, |i: int| vals[digit(k, vals.len(), (i + 1) as nat) as int])
}

/// Weight `i` of the tuple of rank `k`, unfolded.
pub proof fn lemma_weights_at_index(vals: Seq<i32>, n: nat, k: nat, i: int)
    requires
        0 <= i < n,
    ensures
        weights_at(vals, n, k)[i] == vals[digit(k, vals.len(), (i + 1) as nat) as int],
{
}

/// The bias of the tuple of rank `k`: digit `0`, which varies fastest.
pub open spec fn bias_at(vals: Seq<i32>, k: nat) -> i32 {
    vals[digit(k, vals.len(), 0) as int]
}

/// A finite, non-empty set of lattice values `values[i] / den`, without
/// repeats, in search order.
#[derive(Debug)]
pub struct Candidates {
    pub den: i32,
    pub values: Vec<i32>,
}

impl Candidates {
    pub open spec fn wf(&self) -> bool {
        &&& self.den > 0
        &&& 0 < self.values@.len() <= MAX_CANDIDATES
        &&& ordered(self.values@)
    }

    /// The values of `raw` over `den`, without repeats, in search order.
    pub fn from_values(den: i32, raw: &Vec<i32>) -> (r: Candidates)
        requires
            den > 0,
            0 < raw@.len() <= MAX_CANDIDATES,
        ensures
            r.wf(),
            r.den == den,
            forall|v: i32| r.values@.contains(v) <==> raw@.contains(v),
    {
        let mut out: Vec<i32> = Vec::new();
        let mut i: usize = 0;
        while i < raw.len()
            invariant
                i <= raw@.len(),
                out@.len() <= i,
                ordered(out@),
                forall|v: i32| out@.contains(v) <==> raw@.subrange(0, i as int).contains(v),
            decreases raw@.len() - i,
        {
            let x = raw[i];
            let mut p: usize = 0;
            while p < out.len() && before_exec(out[p], x)
                invariant
                    p <= out@.len(),
                    forall|j: int| 0 <= j < p ==> before(out@[j] as int, x as int),
                decreases out@.len() - p,
            {
                p = p + 1;
            }
            let ghost old_out = out@;
            if p < out.len() && out[p] == x {
            } else {
                out.insert(p, x);
                assert forall|a: int, b: int| 0 <= a < b < out@.len() implies before(
                    out@[a] as int,
                    out@[b] as int,
                ) by {
                    if b < p {
                    } else if a < p && b == p {
                    } else if a < p {
                        assert(before(old_out[p as int] as int, old_out[b - 1] as int) || p == b - 1);
                    } else if a == p {
                        assert(before(old_out[p as int] as int, old_out[b - 1] as int) || p == b - 1);
                    } else {
                    }
                }
            }
            let ghost prev = raw@.subrange(0, i as int);
            assert(raw@.subrange(0, i as int + 1) =~= prev.push(x));
            assert forall|v: i32| out@.contains(v) <==> (old_out.contains(v) || v == x) by {
                if out@.contains(v) && v != x {
                    let j = choose|j: int| 0 <= j < out@.len() && out@[j] == v;
                    if out@.len() == old_out.len() {
                        assert(old_out[j] == v);
                    } else if j < p {
                        assert(old_out[j] == v);
                    } else {
                        assert(old_out[j - 1] == v);
                    }
                }
                if old_out.contains(v) {
                    let j = choose|j: int| 0 <= j < old_out.len() && old_out[j] == v;
                    if out@.len() == old_out.len() {
                        assert(out@[j] == v);
                    } else if j < p {
                        assert(out@[j] == v);
                    } else {
                        assert(out@[j + 1] == v);
                    }
                }
                if v == x {
                    assert(out@[p as int] == x);
                }
            }
            assert forall|v: i32| prev.push(x).contains(v) <==> (prev.contains(v) || v == x) by {
                if prev.push(x).contains(v) && v != x {
                    let j = choose|j: int| 0 <= j < prev.len() + 1 && prev.push(x)[j] == v;
                    assert(prev[j] == v);
                }
                if prev.contains(v) {
                    let j = choose|j: int| 0 <= j < prev.len() && prev[j] == v;
                    assert(prev.push(x)[j] == v);
                }
                if v == x {
                    assert(prev.push(x)[prev.len() as int] == x);
                }
            }
            assert forall|v: i32| out@.contains(v) <==> raw@.subrange(0, i as int + 1).contains(v) by {
                assert(old_out.contains(v) <==> prev.contains(v));
            }
            i = i + 1;
        }
        assert(raw@.subrange(0, i as int) =~= raw@);
        assert(raw@.contains(raw@[0]));
        assert(out@.contains(raw@[0]));
        Candidates { den, values: out }
    }
}

/// The integers `lo..=hi`.
pub fn int_range(lo: i32, hi: i32) -> (r: Vec<i32>)
    requires
        lo <= hi,
    ensures
        r@.len() == hi - lo + 1,
        forall|i: int| 0 <= i < r@.len() ==> r@[i] == lo + i,
{
    let mut v: Vec<i32> = Vec::new();
    let mut x: i32 = lo;
    v.push(lo);
    while x < hi
        invariant
            lo <= x <= hi,
            v@.len() == x - lo + 1,
            forall|i: int| 0 <= i < v@.len() ==> v@[i] == lo + i,
        decreases hi - x,
    {
        x = x + 1;
        v.push(x);
    }
    v
}

/// The symmetric list `0, ±1/2, ±1, ..., ±9/2`, in search order.
pub fn half_steps() -> (r: Candidates)
    ensures
        r.wf(),
        r.den == 2,
        forall|v: i32| r.values@.contains(v) <==> -9 <= v <= 9,
{
    let raw = int_range(-9, 9);
    assert forall|v: i32| raw@.contains(v) <==> -9 <= v <= 9 by {
        if -9 <= v <= 9 {
            assert(raw@[v + 9] == v);
        }
    }
    let r = Candidates::from_values(2, &raw);
    assert forall|v: i32| r.values@.contains(v) <==> -9 <= v <= 9 by {
        assert(r.values@.contains(v) <==> raw@.contains(v));
    }
    r
}

/// A numerator of the rational sweep: `0..=12` and the even numbers up to `24`.
pub open spec fn sweep_numerator(k: int) -> bool {
    0 <= k <= 24 && (k <= 12 || k % 2 == 0)
}

/// `k / d` over the denominator 6.
pub open spec fn sweep_value(k: int, d: int) -> int {
    k * (6int / d)
}

/// The rational sweep `±k/d` for each sweep numerator `k` and `d` in
/// `{1, 2, 3}`, over the common denominator 6, in search order.
pub fn rational_sweep() -> (r: Candidates)
    ensures
        r.wf(),
        r.den == 6,
        forall|v: i32| r.values@.contains(v) <==> exists|k: int, d: int| #![trigger sweep_value(k, d)]
            sweep_numerator(k) && 1 <= d <= 3 && (v == sweep_value(k, d) || v == -sweep_value(k, d)),
{
    let mut raw: Vec<i32> = Vec::new();
    let mut k: i32 = 0;
    while k <= 24
        invariant
            0 <= k <= 25,
            raw@.len() <= 6 * k,
            forall|v: i32| raw@.contains(v) <==> exists|j: int, d: int| #![trigger sweep_value(j, d)]
                sweep_numerator(j) && j < k && 1 <= d <= 3 && (v == sweep_value(j, d) || v == -sweep_value(j, d)),
        decreases 25 - k,
    {
        if k <= 12 || k % 2 == 0 {
            let ghost before = raw@;
            raw.push(k * 6);
            raw.push(-k * 6);
            raw.push(k * 3);
            raw.push(-k * 3);
            raw.push(k * 2);
            raw.push(-k * 2);
            assert forall|v: i32| raw@.contains(v) <==> (before.contains(v) || v == k * 6 || v == -k * 6 || v == k * 3 || v == -k * 3 || v == k * 2 || v == -k * 2) by {
                if raw@.contains(v) {
                    let j = choose|j: int| 0 <= j < raw@.len() && raw@[j] == v;
                    if j < before.len() {
                        assert(before[j] == v);
                    }
                }
                if before.contains(v) {
                    let j = choose|j: int| 0 <= j < before.len() && before[j] == v;
                    assert(raw@[j] == v);
                }
                let b = before.len() as int;
                assert(raw@[b] == k * 6 && raw@[b + 1] == -k * 6 && raw@[b + 2] == k * 3);
                assert(raw@[b + 3] == -k * 3 && raw@[b + 4] == k * 2 && raw@[b + 5] == -k * 2);
            }
            assert forall|v: i32| (exists|j: int, d: int| #![trigger sweep_value(j, d)]
                sweep_numerator(j) && j < k + 1 && 1 <= d <= 3 && (v == sweep_value(j, d) || v == -sweep_value(j, d))) implies raw@.contains(v) by {
                let (j, d) = choose|j: int, d: int| #![trigger sweep_value(j, d)]
                    sweep_numerator(j) && j < k + 1 && 1 <= d <= 3 && (v == sweep_value(j, d) || v == -sweep_value(j, d));
                if j < k {
                    assert(before.contains(v));
                } else {
                    assert(6int / 1int == 6 && 6int / 2int == 3 && 6int / 3int == 2);
                    assert(d == 1 || d == 2 || d == 3);
                }
            }
            assert forall|v: i32| raw@.contains(v) implies exists|j: int, d: int| #![trigger sweep_value(j, d)]
                sweep_numerator(j) && j < k + 1 && 1 <= d <= 3 && (v == sweep_value(j, d) || v == -sweep_value(j, d)) by {
                if !before.contains(v) {
                    assert(6int / 1int == 6 && 6int / 2int == 3 && 6int / 3int == 2);
                    if v == k * 6 || v == -k * 6 {
                        assert(sweep_numerator(k as int) && sweep_value(k as int, 1) == k * 6);
                    } else if v == k * 3 || v == -k * 3 {
                        assert(sweep_numerator(k as int) && sweep_value(k as int, 2) == k * 3);
                    } else {
                        assert(sweep_numerator(k as int) && sweep_value(k as int, 3) == k * 2);
                    }
                }
            }
        } else {
            assert forall|v: i32| raw@.contains(v) <==> exists|j: int, d: int| #![trigger sweep_value(j, d)]
                sweep_numerator(j) && j < k + 1 && 1 <= d <= 3 && (v == sweep_value(j, d) || v == -sweep_value(j, d)) by {
                if exists|j: int, d: int| #![trigger sweep_value(j, d)]
                    sweep_numerator(j) && j < k + 1 && 1 <= d <= 3 && (v == sweep_value(j, d) || v == -sweep_value(j, d)) {
                    let (j, d) = choose|j: int, d: int| #![trigger sweep_value(j, d)]
                        sweep_numerator(j) && j < k + 1 && 1 <= d <= 3 && (v == sweep_value(j, d) || v == -sweep_value(j, d));
                    assert(j < k);
                }
            }
        }
        k = k + 1;
    }
    assert(raw@.contains(0i32)) by {
        assert(sweep_numerator(0) && sweep_value(0, 1) == 0);
    }
    let r = Candidates::from_values(6, &raw);
    assert forall|v: i32| r.values@.contains(v) <==> exists|k: int, d: int| #![trigger sweep_value(k, d)]
        sweep_numerator(k) && 1 <= d <= 3 && (v == sweep_value(k, d) || v == -sweep_value(k, d)) by {
        assert(r.values@.contains(v) <==> raw@.contains(v));
        if exists|k: int, d: int| #![trigger sweep_value(k, d)]
            sweep_numerator(k) && 1 <= d <= 3 && (v == sweep_value(k, d) || v == -sweep_value(k, d)) {
            let (j, d) = choose|k: int, d: int| #![trigger sweep_value(k, d)]
                sweep_numerator(k) && 1 <= d <= 3 && (v == sweep_value(k, d) || v == -sweep_value(k, d));
            assert(sweep_numerator(j) && j < 25 && 1 <= d <= 3 && (v == sweep_value(j, d) || v == -sweep_value(j, d)));
        }
    }
    r
}

/// Whether `a` comes before `b` in search order.
pub fn before_exec(a: i32, b: i32) -> (r: bool)
    ensures
        r == before(a as int, b as int),
{
    let aa: i64 = if a < 0 { -(a as i64) } else { a as i64 };
    let ab: i64 = if b < 0 { -(b as i64) } else { b as i64 };
    aa < ab || (aa == ab && a < b)
}

} // verus!
