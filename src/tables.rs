//! Truth tables: all functions of a given arity in canonical order, and
//! the fixed-shape tables of three and four inputs.
use crate::encoding::{dec_to_binary, decode};
use crate::lattice::MAX_INPUTS;
use itertools::Itertools;
use vstd::arithmetic::power2::{lemma2_to64, pow2};
use vstd::prelude::*;

verus! {

/// Relies on itertools' `Itertools::multi_cartesian_product` over `len`
/// copies of `[false, true]`: it yields every choice of one item per factor
/// in lexicographic order, the last factor varying fastest.
#[verifier::external_body]
fn bool_vectors(len: usize) -> (r: Vec<Vec<bool>>)
    requires
        1 <= len <= 16,
    ensures
        r@.len() == pow2(len as nat),
        forall|i: int| 0 <= i < r@.len() ==> (#[trigger] r@[i])@ == decode(i as nat, len as nat),
{
    std::iter::repeat([false, true].into_iter()).take(len).multi_cartesian_product().collect_vec()
}

/// Every truth table of `n` inputs, in ascending canonical order: table `t`
/// has the outputs `decode(t, 2^n)`.
pub fn enumerate(n: usize) -> (r: Vec<Vec<bool>>)
    requires
        n <= MAX_INPUTS,
    ensures
        r@.len() == pow2(pow2(n as nat)),
        forall|t: int| 0 <= t < r@.len() ==> (#[trigger] r@[t])@ == decode(t as nat, pow2(n as nat)),
{
    proof {
        lemma2_to64();
    }
    let rows: usize = if n == 0 {
        1
    } else if n == 1 {
        2
    } else if n == 2 {
        4
    } else if n == 3 {
        8
    } else {
        16
    };
    bool_vectors(rows)
}

/// `if x { y } else { z }`, or all inputs false, or exactly one input false.
pub fn ternary_or_all_false_or_all_but_one_true(x: bool, y: bool, z: bool) -> (r: bool)
    ensures
        r == ((if x { y } else { z }) || (!x && !y && !z) || (!x && y && z) || (x && !y && z) || (x
            && y && !z)),
{
    (if x { y } else { z }) || (!x && !y && !z) || (!x && y && z) || (x && !y && z) || (x && y
        && !z)
}

/// The inputs of row `i` of a three-input table, `x` most significant.
pub open spec fn row3(i: int) -> (bool, bool, bool) {
    (i >= 4, (i / 2) % 2 == 1, i % 2 == 1)
}

/// The inputs of row `i` of a four-input table, first input most significant.
pub open spec fn row4(i: int) -> (bool, bool, bool, bool) {
    (i >= 8, (i / 4) % 2 == 1, (i / 2) % 2 == 1, i % 2 == 1)
}

/// The truth table of `function` over three inputs, rows in canonical order.
pub fn gen_3_input_truth_table<F: Fn(bool, bool, bool) -> bool>(function: F) -> (r: Vec<((bool, bool, bool), bool)>)
    requires
        forall|x: bool, y: bool, z: bool| function.requires((x, y, z)),
    ensures
        r@.len() == 8,
        forall|i: int| 0 <= i < 8 ==> (#[trigger] r@[i]).0 == row3(i) && function.ensures((r@[i].0.0, r@[i].0.1, r@[i].0.2), r@[i].1),
{
    let mut table: Vec<((bool, bool, bool), bool)> = Vec::new();
    let mut i: usize = 0;
    while i < 8
        invariant
            i <= 8,
            table@.len() == i,
            forall|x: bool, y: bool, z: bool| function.requires((x, y, z)),
            forall|j: int| 0 <= j < i ==> (#[trigger] table@[j]).0 == row3(j) && function.ensures((table@[j].0.0, table@[j].0.1, table@[j].0.2), table@[j].1),
        decreases 8 - i,
    {
        let x = i >= 4;
        let y = (i / 2) % 2 == 1;
        let z = i % 2 == 1;
        let out = function(x, y, z);
        table.push(((x, y, z), out));
        i = i + 1;
    }
    table
}

/// The outputs of a three-input table, in its row order.
pub fn table_outputs(table: &Vec<((bool, bool, bool), bool)>) -> (r: Vec<bool>)
    ensures
        r@.len() == table@.len(),
        forall|i: int| 0 <= i < r@.len() ==> r@[i] == (#[trigger] table@[i]).1,
{
    let mut out: Vec<bool> = Vec::new();
    let mut i: usize = 0;
    while i < table.len()
        invariant
            i <= table@.len(),
            out@.len() == i,
            forall|j: int| 0 <= j < i ==> out@[j] == (#[trigger] table@[j]).1,
        decreases table@.len() - i,
    {
        out.push(table[i].1);
        i = i + 1;
    }
    out
}

/// All 256 three-input truth tables in ascending canonical order; table `t`
/// gives row `i` the output `decode(t, 8)[i]`.
pub fn build_all_3_input_truth_tables() -> (r: Vec<[((bool, bool, bool), bool); 8]>)
    ensures
        r@.len() == 256,
        forall|t: int, i: int| 0 <= t < 256 && 0 <= i < 8 ==> (#[trigger] r@[t]@[i]) == (row3(i), decode(t as nat, 8)[i]),
{
    let mut tables: Vec<[((bool, bool, bool), bool); 8]> = Vec::new();
    let mut t: u64 = 0;
    while t < 256
        invariant
            t <= 256,
            tables@.len() == t,
            forall|s: int, i: int| 0 <= s < t && 0 <= i < 8 ==> (#[trigger] tables@[s]@[i]) == (row3(i), decode(s as nat, 8)[i]),
        decreases 256 - t,
    {
        let outs = dec_to_binary(t, 8);
        let mut table = [((false, false, false), false); 8];
        let mut i: usize = 0;
        while i < 8
            invariant
                i <= 8,
                outs@ == decode(t as nat, 8),
                forall|j: int| 0 <= j < i ==> (#[trigger] table@[j]) == (row3(j), decode(t as nat, 8)[j]),
            decreases 8 - i,
        {
            table[i] = ((i >= 4, (i / 2) % 2 == 1, i % 2 == 1), outs[i]);
            i = i + 1;
        }
        tables.push(table);
        t = t + 1;
    }
    tables
}

/// All 65536 four-input truth tables in ascending canonical order; table
/// `t` gives row `i` the output `decode(t, 16)[i]`.
pub fn build_all_4_input_truth_tables() -> (r: Vec<[((bool, bool, bool, bool), bool); 16]>)
    ensures
        r@.len() == 65536,
        forall|t: int, i: int| 0 <= t < 65536 && 0 <= i < 16 ==> (#[trigger] r@[t]@[i]) == (row4(i), decode(t as nat, 16)[i]),
{
    let mut tables: Vec<[((bool, bool, bool, bool), bool); 16]> = Vec::new();
    let mut t: u64 = 0;
    while t < 65536
        invariant
            t <= 65536,
            tables@.len() == t,
            forall|s: int, i: int| 0 <= s < t && 0 <= i < 16 ==> (#[trigger] tables@[s]@[i]) == (row4(i), decode(s as nat, 16)[i]),
        decreases 65536 - t,
    {
        let outs = dec_to_binary(t, 16);
        let mut table = [((false, false, false, false), false); 16];
        let mut i: usize = 0;
        while i < 16
            invariant
                i <= 16,
                outs@ == decode(t as nat, 16),
                forall|j: int| 0 <= j < i ==> (#[trigger] table@[j]) == (row4(j), decode(t as nat, 16)[j]),
            decreases 16 - i,
        {
            table[i] = ((i >= 8, (i / 4) % 2 == 1, (i / 2) % 2 == 1, i % 2 == 1), outs[i]);
            i = i + 1;
        }
        tables.push(table);
        t = t + 1;
    }
    tables
}

/// `"T"` for true and `"F"` for false.
pub fn fmt_bool(b: bool) -> (r: &'static str)
    ensures
        r@ == (if b { "T"@ } else { "F"@ }),
{
    if b {
        "T"
    } else {
        "F"
    }
}

} // verus!
