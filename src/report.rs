//! Batch runs and the joined per-function report.
use crate::activation::Activation;
use crate::encoding::{dec_to_binary, decode};
use crate::lattice::{Candidates, MAX_INPUTS};
use crate::search::{first_solution, input_rows, params_realize, realized_at, realizes, solve, tuple_count, valid_table, MatchMode, Params};
use crate::tables::{enumerate, gen_3_input_truth_table, table_outputs, ternary_or_all_false_or_all_but_one_true};
use vstd::arithmetic::power2::pow2;
use vstd::prelude::*;
use vstd::string::StrSliceExecFns;

verus! {

/// How a truth table was realized.
#[derive(Clone, Copy, Debug, PartialEq, Eq, Structural)]
pub enum MatchKind {
    Exact,
    SignOnly,
    NoSolution,
}

/// The outcome of the search for one truth table.
#[derive(Debug)]
pub struct MatchRecord {
    /// The table's canonical encoding.
    pub number: u64,
    pub kind: MatchKind,
    /// The tuple found, if any.
    pub params: Option<Params>,
}

/// No tuple of the lattice realizes `table` in `mode`.
pub open spec fn unrealizable(act: Activation, mode: MatchMode, c: Candidates, table: Seq<bool>, n: nat) -> bool {
    forall|k: nat| k < tuple_count(c.values@.len(), n) ==> !realized_at(act, mode, c, table, n, k)
}

/// Searches for an exact solution and, failing that, for a sign-only one.
pub fn solve_table(act: &Activation, table: &Vec<bool>, n: usize, c: &Candidates, number: u64) -> (r: MatchRecord)
    requires
        act.wf(),
        c.wf(),
        valid_table(table@, n as nat),
    ensures
        r.number == number,
        (r.kind == MatchKind::Exact) <== !unrealizable(*act, MatchMode::Exact, *c, table@, n as nat),
        (r.kind == MatchKind::SignOnly) <== unrealizable(*act, MatchMode::Exact, *c, table@, n as nat)
            && !unrealizable(*act, MatchMode::SignOnly, *c, table@, n as nat),
        (r.kind == MatchKind::NoSolution) <== unrealizable(*act, MatchMode::Exact, *c, table@, n as nat)
            && unrealizable(*act, MatchMode::SignOnly, *c, table@, n as nat),
        r.kind == MatchKind::NoSolution <==> r.params is None,
        r.kind == MatchKind::Exact ==> first_solution(*act, MatchMode::Exact, *c, table@, n as nat, r.params->0),
        r.kind == MatchKind::SignOnly ==> first_solution(*act, MatchMode::SignOnly, *c, table@, n as nat, r.params->0),
{
    match solve(act, table, n, c, MatchMode::Exact) {
        Some(p) => MatchRecord { number, kind: MatchKind::Exact, params: Some(p) },
        None => match solve(act, table, n, c, MatchMode::SignOnly) {
            Some(p) => MatchRecord { number, kind: MatchKind::SignOnly, params: Some(p) },
            None => MatchRecord { number, kind: MatchKind::NoSolution, params: None },
        },
    }
}

/// Aggregate counts of a batch run.
#[derive(Clone, Copy, Debug, PartialEq, Eq, Structural)]
pub struct BatchSummary {
    pub exact: u64,
    pub sign_only: u64,
    pub none: u64,
}

/// How many of `records` have the kind `kind`.
pub open spec fn kind_count(records: Seq<MatchRecord>, kind: MatchKind) -> nat
    decreases records.len(),
{
    if records.len() == 0 {
        0
    } else {
        kind_count(records.drop_last(), kind) + (if records.last().kind == kind {
            1nat
        } else {
            0nat
        })
    }
}

/// Runs the search over every truth table of `n` inputs, in canonical order.
pub fn solve_all_tables(act: &Activation, n: usize, c: &Candidates) -> (r: (Vec<MatchRecord>, BatchSummary))
    requires
        act.wf(),
        c.wf(),
        n <= MAX_INPUTS,
    ensures
        r.0@.len() == pow2(pow2(n as nat)),
        forall|t: int| 0 <= t < r.0@.len() ==> (#[trigger] r.0@[t]).number == t && {
            let table = decode(t as nat, pow2(n as nat));
            &&& (r.0@[t].kind == MatchKind::Exact) <== !unrealizable(*act, MatchMode::Exact, *c, table, n as nat)
            &&& (r.0@[t].kind == MatchKind::SignOnly) <== unrealizable(*act, MatchMode::Exact, *c, table, n as nat)
                && !unrealizable(*act, MatchMode::SignOnly, *c, table, n as nat)
            &&& (r.0@[t].kind == MatchKind::NoSolution) <== unrealizable(*act, MatchMode::Exact, *c, table, n as nat)
                && unrealizable(*act, MatchMode::SignOnly, *c, table, n as nat)
            &&& r.0@[t].kind == MatchKind::Exact ==> first_solution(*act, MatchMode::Exact, *c, table, n as nat, r.0@[t].params->0)
            &&& r.0@[t].kind == MatchKind::SignOnly ==> first_solution(*act, MatchMode::SignOnly, *c, table, n as nat, r.0@[t].params->0)
            &&& r.0@[t].kind == MatchKind::NoSolution <==> r.0@[t].params is None
        },
        r.1.exact == kind_count(r.0@, MatchKind::Exact),
        r.1.sign_only == kind_count(r.0@, MatchKind::SignOnly),
        r.1.none == kind_count(r.0@, MatchKind::NoSolution),
        r.1.exact + r.1.sign_only + r.1.none == pow2(pow2(n as nat)),
{
    let tables = enumerate(n);
    proof {
        crate::encoding::lemma_table_sizes(n as nat);
    }
    let mut records: Vec<MatchRecord> = Vec::new();
    let mut summary = BatchSummary { exact: 0, sign_only: 0, none: 0 };
    let mut t: usize = 0;
    while t < tables.len()
        invariant
            t <= tables@.len() == pow2(pow2(n as nat)) <= 65536,
            act.wf(),
            c.wf(),
            n <= MAX_INPUTS,
            pow2(n as nat) <= 16,
            forall|s: int| 0 <= s < tables@.len() ==> (#[trigger] tables@[s])@ == decode(s as nat, pow2(n as nat)),
            records@.len() == t,
            summary.exact + summary.sign_only + summary.none == t,
            summary.exact == kind_count(records@, MatchKind::Exact),
            summary.sign_only == kind_count(records@, MatchKind::SignOnly),
            summary.none == kind_count(records@, MatchKind::NoSolution),
            forall|s: int| 0 <= s < t ==> (#[trigger] records@[s]).number == s && {
                let table = decode(s as nat, pow2(n as nat));
                &&& (records@[s].kind == MatchKind::Exact) <== !unrealizable(*act, MatchMode::Exact, *c, table, n as nat)
                &&& (records@[s].kind == MatchKind::SignOnly) <== unrealizable(*act, MatchMode::Exact, *c, table, n as nat)
                    && !unrealizable(*act, MatchMode::SignOnly, *c, table, n as nat)
                &&& (records@[s].kind == MatchKind::NoSolution) <== unrealizable(*act, MatchMode::Exact, *c, table, n as nat)
                    && unrealizable(*act, MatchMode::SignOnly, *c, table, n as nat)
                &&& records@[s].kind == MatchKind::Exact ==> first_solution(*act, MatchMode::Exact, *c, table, n as nat, records@[s].params->0)
                &&& records@[s].kind == MatchKind::SignOnly ==> first_solution(*act, MatchMode::SignOnly, *c, table, n as nat, records@[s].params->0)
                &&& records@[s].kind == MatchKind::NoSolution <==> records@[s].params is None
            },
        decreases tables@.len() - t,
    {
        assert(tables@[t as int]@.len() == pow2(n as nat));
        let rec = solve_table(act, &tables[t], n, c, t as u64);
        match rec.kind {
            MatchKind::Exact => summary.exact = summary.exact + 1,
            MatchKind::SignOnly => summary.sign_only = summary.sign_only + 1,
            MatchKind::NoSolution => summary.none = summary.none + 1,
        }
        let ghost before = records@;
        records.push(rec);
        assert(records@.drop_last() =~= before);
        t = t + 1;
    }
    (records, summary)
}

/// Whether the unit with weights `(-1, -1, 2)` and bias `3` under the
/// half-scale activation reproduces, exactly, the function "ternary, or all
/// inputs false, or exactly one false".
pub fn sanity() -> (r: bool)
    ensures
        r == realizes(
            Activation { scale_num: 1, scale_den: 2, shift_num: 1, shift_den: 2 },
            MatchMode::Exact,
            seq![-1i32, -1i32, 2i32],
            3,
            1,
            Seq::new(8, |i: int| {
                let x = i >= 4;
                let y = (i / 2) % 2 == 1;
                let z = i % 2 == 1;
                (if x { y } else { z }) || (!x && !y && !z) || (!x && y && z) || (x && !y && z) || (x && y && !z)
            }),
            3,
        ),
{
    let act = Activation::half_scale();
    let rows = gen_3_input_truth_table(|x: bool, y: bool, z: bool| -> (o: bool)
        ensures
            o == ((if x { y } else { z }) || (!x && !y && !z) || (!x && y && z) || (x && !y && z) || (x && y && !z)),
        { ternary_or_all_false_or_all_but_one_true(x, y, z) });
    let table = table_outputs(&rows);
    let w: Vec<i32> = vec![-1, -1, 2];
    let inputs = input_rows(3);
    proof {
        vstd::arithmetic::power2::lemma2_to64();
        assert forall|i: int| 0 <= i < 8 implies table@[i] == {
            let x = i >= 4;
            let y = (i / 2) % 2 == 1;
            let z = i % 2 == 1;
            (if x { y } else { z }) || (!x && !y && !z) || (!x && y && z) || (x && !y && z) || (x && y && !z)
        } by {
            assert(rows@[i].0 == crate::tables::row3(i));
            assert(table@[i] == rows@[i].1);
        }
    }
    assert(table@ =~= Seq::new(8, |i: int| {
        let x = i >= 4;
        let y = (i / 2) % 2 == 1;
        let z = i % 2 == 1;
        (if x { y } else { z }) || (!x && !y && !z) || (!x && y && z) || (x && !y && z) || (x && y && !z)
    }));
    assert(w@ =~= seq![-1i32, -1i32, 2i32]);
    params_realize(&act, MatchMode::Exact, &w, 3, 1, &table, &inputs, 3)
}

/// The display form of one character of a formula.
pub open spec fn display_char(c: char) -> Seq<char> {
    if c == '*' {
        " AND "@
    } else if c == '+' {
        " OR "@
    } else {
        seq![c]
    }
}

/// A formula written with `*` for AND and `+` for OR, in display form.
pub open spec fn display_form(s: Seq<char>) -> Seq<char>
    decreases s.len(),
{
    if s.len() == 0 {
        seq![]
    } else {
        display_form(s.drop_last()) + display_char(s.last())
    }
}

/// Rewrites `*` as ` AND ` and `+` as ` OR `.
pub fn convert_formula(formula: &str) -> (r: String)
    ensures
        r@ == display_form(formula@),
{
    let len = formula.unicode_len();
    let mut out = String::new();
    let mut i: usize = 0;
    while i < len
        invariant
            i <= len == formula@.len(),
            out@ == display_form(formula@.subrange(0, i as int)),
        decreases len - i,
    {
        let c = formula.get_char(i);
        let ghost before = out@;
        if c == '*' {
            out.append(" AND ");
        } else if c == '+' {
            out.append(" OR ");
        } else {
            out.append(formula.substring_char(i, i + 1));
        }
        assert(formula@.subrange(0, i as int + 1).drop_last() =~= formula@.subrange(0, i as int));
        i = i + 1;
    }
    assert(formula@.subrange(0, len as int) =~= formula@);
    out
}

/// Finished lines and the line in progress after reading `s`: a line ends
/// at `'\n'`, and empty lines are dropped.
pub open spec fn split_lines(s: Seq<char>) -> (Seq<Seq<char>>, Seq<char>)
    decreases s.len(),
{
    if s.len() == 0 {
        (seq![], seq![])
    } else {
        let (done, cur) = split_lines(s.drop_last());
        if s.last() == '\n' {
            if cur.len() > 0 {
                (done.push(cur), seq![])
            } else {
                (done, seq![])
            }
        } else {
            (done, cur.push(s.last()))
        }
    }
}

/// The non-empty lines of `s`, in order.
pub open spec fn lines_of(s: Seq<char>) -> Seq<Seq<char>> {
    let (done, cur) = split_lines(s);
    if cur.len() > 0 {
        done.push(cur)
    } else {
        done
    }
}

pub open spec fn strings_view(v: Seq<String>) -> Seq<Seq<char>> {
    v.map_values(|s: String| s@)
}

/// The non-empty lines of a newline-delimited text.
pub fn formula_lines(text: &str) -> (r: Vec<String>)
    ensures
        strings_view(r@) == lines_of(text@),
{
    let len = text.unicode_len();
    let mut done: Vec<String> = Vec::new();
    let mut cur = String::new();
    let mut i: usize = 0;
    while i < len
        invariant
            i <= len == text@.len(),
            (strings_view(done@), cur@) == split_lines(text@.subrange(0, i as int)),
        decreases len - i,
    {
        let c = text.get_char(i);
        assert(text@.subrange(0, i as int + 1).drop_last() =~= text@.subrange(0, i as int));
        if c == '\n' {
            if cur.unicode_len() > 0 {
                let ghost before = done@;
                done.push(cur);
                assert(strings_view(done@) =~= strings_view(before).push(split_lines(text@.subrange(0, i as int)).1));
            }
            cur = String::new();
        } else {
            let piece = text.substring_char(i, i + 1);
            assert(piece@ =~= seq![c]);
            cur.append(piece);
        }
        i = i + 1;
    }
    assert(text@.subrange(0, len as int) =~= text@);
    if cur.unicode_len() > 0 {
        let ghost before = done@;
        let ghost last = cur@;
        done.push(cur);
        assert(strings_view(done@) =~= strings_view(before).push(last));
    }
    done
}

/// One record of the joined report.
#[derive(Debug)]
pub struct FunctionStats {
    /// The function's canonical encoding.
    pub number: u64,
    /// Its gate count.
    pub complexity: u8,
    /// How many samples fell into its basin.
    pub sample_count: u64,
    /// Its truth table, in canonical row order.
    pub truth_table: Vec<bool>,
    /// Its minimal formula, in display form.
    pub formula: String,
}

/// Companion data that disagrees with the number of functions.
#[derive(Clone, Copy, Debug, PartialEq, Eq, Structural)]
pub enum ReportError {
    ConfigurationMismatch,
}

/// Joins gate counts, sample counts and formulas of every function of `n`
/// inputs by canonical encoding. Each must hold exactly one entry per
/// function.
pub fn join_stats(n: usize, complexities: &Vec<u8>, samples: &Vec<u64>, formulas: &Vec<String>) -> (r: Result<
    Vec<FunctionStats>,
    ReportError,
>)
    requires
        n <= MAX_INPUTS,
    ensures
        r is Ok <==> (complexities@.len() == pow2(pow2(n as nat)) && samples@.len() == pow2(pow2(n as nat))
            && formulas@.len() == pow2(pow2(n as nat))),
        r matches Ok(v) ==> v@.len() == pow2(pow2(n as nat)) && forall|i: int| 0 <= i < v@.len() ==> {
            &&& (#[trigger] v@[i]).number == i
            &&& v@[i].complexity == complexities@[i]
            &&& v@[i].sample_count == samples@[i]
            &&& v@[i].truth_table@ == decode(i as nat, pow2(n as nat))
            &&& v@[i].formula@ == display_form(formulas@[i]@)
        },
{
    proof {
        crate::encoding::lemma_table_sizes(n as nat);
    }
    let tables: usize = if n == 0 {
        2
    } else if n == 1 {
        4
    } else if n == 2 {
        16
    } else if n == 3 {
        256
    } else {
        65536
    };
    let rows: usize = if n == 0 {
        1
    } else if n == 1 {
        2
    } else if n == 2 {
        4
    } else if n == 3 {
        8
    } else {
        16
    };
    proof {
        vstd::arithmetic::power2::lemma2_to64();
    }
    if complexities.len() != tables || samples.len() != tables || formulas.len() != tables {
        return Err(ReportError::ConfigurationMismatch);
    }
    let mut out: Vec<FunctionStats> = Vec::new();
    let mut i: usize = 0;
    while i < tables
        invariant
            i <= tables == pow2(pow2(n as nat)) <= 65536,
            rows == pow2(n as nat) <= 16,
            complexities@.len() == tables,
            samples@.len() == tables,
            formulas@.len() == tables,
            out@.len() == i,
            forall|j: int| 0 <= j < i ==> {
                &&& (#[trigger] out@[j]).number == j
                &&& out@[j].complexity == complexities@[j]
                &&& out@[j].sample_count == samples@[j]
                &&& out@[j].truth_table@ == decode(j as nat, pow2(n as nat))
                &&& out@[j].formula@ == display_form(formulas@[j]@)
            },
        decreases tables - i,
    {
        let rec = FunctionStats {
            number: i as u64,
            complexity: complexities[i],
            sample_count: samples[i],
            truth_table: dec_to_binary(i as u64, rows),
            formula: convert_formula(formulas[i].as_str()),
        };
        out.push(rec);
        i = i + 1;
    }
    Ok(out)
}

} // verus!
