//! The complexity oracle: the AND/OR gate count of a truth table's formula
//! after reduction through a decision diagram; NOT is free.
use crate::encoding::{decode, encode, lemma_decode_encode, lemma_encode_bound};
use crate::search::input_rows;
use crate::tables::enumerate;
use crate::lattice::MAX_INPUTS;
use boolean_expression::Expr;
use vstd::arithmetic::power2::pow2;
use vstd::prelude::*;

verus! {

#[verifier::external_type_specification]
#[verifier::reject_recursive_types(T)]
pub struct ExExpr<T: Clone + core::fmt::Debug + Eq + core::hash::Hash>(Expr<T>);

/// The value of `e` when each variable `v` has the value `env(v)`.
pub open spec fn holds(e: Expr<char>, env: spec_fn(char) -> bool) -> bool
    decreases e,
{
    match e {
        Expr::Terminal(v) => env(v),
        Expr::Const(b) => b,
        Expr::Not(x) => !holds(*x, env),
        Expr::And(a, b) => holds(*a, env) && holds(*b, env),
        Expr::Or(a, b) => holds(*a, env) || holds(*b, env),
    }
}

/// The number of AND and OR nodes of `e`.
pub open spec fn gates(e: Expr<char>) -> nat
    decreases e,
{
    match e {
        Expr::Terminal(_) => 0,
        Expr::Const(_) => 0,
        Expr::Not(x) => gates(*x),
        Expr::And(a, b) => gates(*a) + gates(*b) + 1,
        Expr::Or(a, b) => gates(*a) + gates(*b) + 1,
    }
}

/// `gates(e)`, saturating at `usize::MAX`.
pub fn expr_len(e: &Expr<char>) -> (r: usize)
    ensures
        r == (if gates(*e) <= usize::MAX { gates(*e) } else { usize::MAX as nat }),
    decreases e,
{
    match e {
        Expr::Terminal(_) => 0,
        Expr::Const(_) => 0,
        Expr::Not(x) => expr_len(x),
        Expr::And(a, b) => expr_len(a).saturating_add(expr_len(b)).saturating_add(1),
        Expr::Or(a, b) => expr_len(a).saturating_add(expr_len(b)).saturating_add(1),
    }
}

/// The variable of input `i`: `'a'` for the first, then `'b'`, and so on.
pub open spec fn var_name(i: int) -> char {
    if i == 0 {
        'a'
    } else if i == 1 {
        'b'
    } else if i == 2 {
        'c'
    } else if i == 3 {
        'd'
    } else if i == 4 {
        'e'
    } else if i == 5 {
        'f'
    } else {
        'g'
    }
}

/// Input `i` of a row as a literal: the variable, or its complement.
pub open spec fn literal(input: Seq<bool>, i: int) -> Expr<char> {
    if input[i] {
        Expr::Terminal(var_name(i))
    } else {
        Expr::Not(Box::new(Expr::Terminal(var_name(i))))
    }
}

/// `((true AND l0) AND l1) ... AND l(len-1)` over the literals of a row.
pub open spec fn minterm(input: Seq<bool>, len: nat) -> Expr<char>
    decreases len,
{
    if len == 0 {
        Expr::Const(true)
    } else {
        Expr::And(Box::new(minterm(input, (len - 1) as nat)), Box::new(literal(input, len - 1)))
    }
}

/// `((false OR m0) OR m1) ...` over the minterms of the true rows among the
/// first `k`.
pub open spec fn dnf(inputs: Seq<Seq<bool>>, output: Seq<bool>, k: nat) -> Expr<char>
    decreases k,
{
    if k == 0 {
        Expr::Const(false)
    } else if output[k - 1] {
        Expr::Or(
            Box::new(dnf(inputs, output, (k - 1) as nat)),
            Box::new(minterm(inputs[k - 1], inputs[k - 1].len())),
        )
    } else {
        dnf(inputs, output, (k - 1) as nat)
    }
}

/// Each row's inputs as a sequence.
pub open spec fn rows_view(inputs: Seq<Vec<bool>>) -> Seq<Seq<bool>> {
    inputs.map_values(|v: Vec<bool>| v@)
}

/// The formula that a reduced ordered decision diagram of `e` gives back.
pub uninterp spec fn bdd_simplified(e: Expr<char>) -> Expr<char>;

/// Relies on boolean_expression's `Expr::simplify_via_bdd`: it builds the
/// reduced, hash-consed decision diagram of `e` and reads a formula back
/// from it. The result depends on `e` alone and is equivalent to it; a
/// constant function reduces to the constant terminal, read back as `Const`.
#[verifier::external_body]
fn simplify_via_bdd(e: Expr<char>) -> (r: Expr<char>)
    ensures
        r == bdd_simplified(e),
        forall|env: spec_fn(char) -> bool| #[trigger] holds(r, env) == holds(e, env),
        (forall|env: spec_fn(char) -> bool| !#[trigger] holds(e, env)) ==> r == Expr::<char>::Const(false),
        (forall|env: spec_fn(char) -> bool| #[trigger] holds(e, env)) ==> r == Expr::<char>::Const(true),
{
    e.simplify_via_bdd()
}

fn var_name_exec(i: usize) -> (r: char)
    ensures
        r == var_name(i as int),
{
    if i == 0 {
        'a'
    } else if i == 1 {
        'b'
    } else if i == 2 {
        'c'
    } else if i == 3 {
        'd'
    } else if i == 4 {
        'e'
    } else if i == 5 {
        'f'
    } else {
        'g'
    }
}

fn minterm_exec(input: &Vec<bool>) -> (r: Expr<char>)
    ensures
        r == minterm(input@, input@.len()),
{
    let mut e: Expr<char> = Expr::Const(true);
    let mut i: usize = 0;
    while i < input.len()
        invariant
            i <= input@.len(),
            e == minterm(input@, i as nat),
        decreases input@.len() - i,
    {
        let lit = if input[i] {
            Expr::Terminal(var_name_exec(i))
        } else {
            Expr::Not(Box::new(Expr::Terminal(var_name_exec(i))))
        };
        e = Expr::And(Box::new(e), Box::new(lit));
        i = i + 1;
    }
    e
}

/// The canonical disjunctive normal form of the table whose row `i` has the
/// inputs `inputs[i]` and the output `output[i]`.
pub fn dnf_expr(inputs: &Vec<Vec<bool>>, output: &Vec<bool>) -> (r: Expr<char>)
    requires
        inputs@.len() == output@.len(),
    ensures
        r == dnf(rows_view(inputs@), output@, output@.len()),
{
    let ghost ins = rows_view(inputs@);
    let mut e: Expr<char> = Expr::Const(false);
    let mut i: usize = 0;
    while i < output.len()
        invariant
            i <= output@.len() == inputs@.len(),
            ins == rows_view(inputs@),
            e == dnf(ins, output@, i as nat),
        decreases output@.len() - i,
    {
        if output[i] {
            let m = minterm_exec(&inputs[i]);
            e = Expr::Or(Box::new(e), Box::new(m));
        }
        i = i + 1;
    }
    e
}

/// The disjunctive normal form of the table, reduced through a decision
/// diagram.
pub fn build_expr(inputs: &Vec<Vec<bool>>, output: &Vec<bool>) -> (r: Expr<char>)
    requires
        inputs@.len() == output@.len(),
    ensures
        r == bdd_simplified(dnf(rows_view(inputs@), output@, output@.len())),
        forall|env: spec_fn(char) -> bool| #[trigger] holds(r, env) == holds(
            dnf(rows_view(inputs@), output@, output@.len()),
            env,
        ),
        (forall|env: spec_fn(char) -> bool| !#[trigger] holds(dnf(rows_view(inputs@), output@, output@.len()), env))
            ==> r == Expr::<char>::Const(false),
        (forall|env: spec_fn(char) -> bool| #[trigger] holds(dnf(rows_view(inputs@), output@, output@.len()), env))
            ==> r == Expr::<char>::Const(true),
{
    simplify_via_bdd(dnf_expr(inputs, output))
}

/// The DNF of an `n`-input table in canonical row order.
pub open spec fn table_dnf(table: Seq<bool>, n: nat) -> Expr<char> {
    dnf(Seq::new(table.len(), |i: int| decode(i as nat, n)), table, table.len())
}

/// `x`, saturating at `usize::MAX`.
pub open spec fn saturated(x: nat) -> nat {
    if x <= usize::MAX {
        x
    } else {
        usize::MAX as nat
    }
}

/// Gate count of the `n`-input table `table`: AND and OR nodes of its
/// reduced formula, NOT free.
pub fn minimal_gate_count(table: &Vec<bool>, n: usize) -> (r: usize)
    requires
        n <= MAX_INPUTS,
        table@.len() == pow2(n as nat),
    ensures
        r == saturated(gates(bdd_simplified(table_dnf(table@, n as nat)))),
        // The constant functions need no gate.
        (forall|i: int| 0 <= i < table@.len() ==> !#[trigger] table@[i]) ==> r == 0,
        (forall|i: int| 0 <= i < table@.len() ==> #[trigger] table@[i]) ==> r == 0,
{
    let rows = input_rows(n);
    let ghost ins = Seq::new(table@.len(), |i: int| decode(i as nat, n as nat));
    assert(rows_view(rows@) =~= ins);
    let e = build_expr(&rows, table);
    proof {
        let d = table_dnf(table@, n as nat);
        if forall|i: int| 0 <= i < table@.len() ==> !#[trigger] table@[i] {
            lemma_dnf_all_false(ins, table@, table@.len());
            assert(e == Expr::<char>::Const(false));
        }
        if forall|i: int| 0 <= i < table@.len() ==> #[trigger] table@[i] {
            assert forall|env: spec_fn(char) -> bool| #[trigger] holds(d, env) by {
                let v = Seq::new(n as nat, |i: int| env(var_name(i)));
                let j = encode(v);
                lemma_encode_bound(v);
                lemma_decode_encode(v);
                assert(ins[j as int] =~= v);
                lemma_minterm_holds(v, n as nat, env);
                lemma_dnf_holds(ins, table@, table@.len(), j as int, env);
            }
            assert(e == Expr::<char>::Const(true));
        }
    }
    expr_len(&e)
}

proof fn lemma_dnf_all_false(inputs: Seq<Seq<bool>>, output: Seq<bool>, k: nat)
    requires
        k <= output.len(),
        forall|i: int| 0 <= i < k ==> !#[trigger] output[i],
    ensures
        dnf(inputs, output, k) == Expr::<char>::Const(false),
    decreases k,
{
    if k > 0 {
        lemma_dnf_all_false(inputs, output, (k - 1) as nat);
    }
}

proof fn lemma_minterm_holds(input: Seq<bool>, len: nat, env: spec_fn(char) -> bool)
    requires
        len <= input.len(),
        forall|i: int| 0 <= i < len ==> env(var_name(i)) == #[trigger] input[i],
    ensures
        holds(minterm(input, len), env),
    decreases len,
{
    if len > 0 {
        lemma_minterm_holds(input, (len - 1) as nat, env);
        let i = len - 1;
        let t = Expr::<char>::Terminal(var_name(i));
        assert(holds(t, env) == input[i]);
        if !input[i] {
            assert(holds(Expr::Not(Box::new(t)), env));
        }
        assert(holds(literal(input, i), env));
    }
}

proof fn lemma_dnf_holds(inputs: Seq<Seq<bool>>, output: Seq<bool>, k: nat, j: int, env: spec_fn(char) -> bool)
    requires
        0 <= j < k <= output.len(),
        output[j],
        holds(minterm(inputs[j], inputs[j].len()), env),
    ensures
        holds(dnf(inputs, output, k), env),
    decreases k,
{
    if j < k - 1 {
        lemma_dnf_holds(inputs, output, (k - 1) as nat, j, env);
    }
}

proof fn lemma_shifted_zero(j: nat)
    ensures
        crate::encoding::shifted(0, 2, j) == 0,
    decreases j,
{
    if j > 0 {
        lemma_shifted_zero((j - 1) as nat);
        crate::encoding::lemma_shifted_next(0, 2, (j - 1) as nat);
    }
}

/// Shifting `2^len - 1` right by `j <= len` bits leaves `2^(len - j) - 1`.
proof fn lemma_shifted_all_ones(len: nat, j: nat)
    requires
        j <= len,
    ensures
        crate::encoding::shifted((pow2(len) - 1) as nat, 2, j) == pow2((len - j) as nat) - 1,
    decreases j,
{
    vstd::arithmetic::power2::lemma_pow2_pos(len);
    if j > 0 {
        lemma_shifted_all_ones(len, (j - 1) as nat);
        crate::encoding::lemma_shifted_next((pow2(len) - 1) as nat, 2, (j - 1) as nat);
        vstd::arithmetic::power2::lemma_pow2_unfold((len - j + 1) as nat);
        vstd::arithmetic::power2::lemma_pow2_pos((len - j) as nat);
    }
}

/// Gate counts of every three-input function from its minimal formula,
/// indexed by canonical encoding: read-only reference data. The two constant
/// functions need no gate.
pub const THREE_INPUT_BOOLEAN_COMPLEXITIES: [u8; 256] = [
    0, 2, 2, 1, 2, 1, 4, 2, 2, 4, 1, 2, 1, 2, 2, 0,
    2, 1, 4, 2, 4, 2, 7, 4, 5, 4, 4, 3, 4, 3, 5, 2,
    2, 4, 1, 2, 5, 4, 4, 3, 4, 7, 2, 4, 4, 5, 3, 2,
    1, 2, 2, 0, 4, 3, 5, 2, 4, 5, 3, 2, 3, 4, 4, 1,
    2, 4, 5, 4, 1, 2, 4, 3, 4, 7, 4, 5, 2, 4, 3, 2,
    1, 2, 4, 3, 2, 0, 5, 2, 4, 5, 3, 4, 3, 2, 4, 1,
    4, 7, 4, 5, 4, 5, 3, 4, 7, 9, 5, 7, 5, 7, 4, 4,
    2, 4, 3, 2, 3, 2, 4, 1, 5, 7, 4, 4, 4, 4, 5, 2,
    2, 5, 4, 4, 4, 4, 7, 5, 1, 4, 2, 3, 2, 3, 4, 2,
    4, 4, 7, 5, 7, 5, 9, 7, 4, 3, 5, 4, 5, 4, 7, 4,
    1, 4, 2, 3, 4, 3, 5, 4, 2, 5, 0, 2, 3, 4, 2, 1,
    2, 3, 4, 2, 5, 4, 7, 4, 3, 4, 2, 1, 4, 5, 4, 2,
    1, 4, 4, 3, 2, 3, 5, 4, 2, 5, 3, 4, 0, 2, 2, 1,
    2, 3, 5, 4, 4, 2, 7, 4, 3, 4, 4, 5, 2, 1, 4, 2,
    2, 5, 3, 4, 3, 4, 4, 5, 4, 7, 2, 4, 2, 4, 1, 2,
    0, 2, 2, 1, 2, 1, 4, 2, 2, 4, 1, 2, 1, 2, 2, 0,
];

/// Reference gate count of the three-input function encoded `t`.
pub fn three_input_complexity(t: u8) -> (r: u8)
    ensures
        r == THREE_INPUT_BOOLEAN_COMPLEXITIES@[t as int],
        // The constant functions need no gate.
        t == 0 || t == 255 ==> r == 0,
{
    THREE_INPUT_BOOLEAN_COMPLEXITIES[t as usize]
}

/// Gate count of every function of `dimensions` inputs, indexed by
/// canonical encoding.
pub fn compute_boolean_complexities(dimensions: usize) -> (r: Vec<usize>)
    requires
        dimensions <= MAX_INPUTS,
    ensures
        r@.len() == pow2(pow2(dimensions as nat)),
        forall|t: int| 0 <= t < r@.len() ==> #[trigger] r@[t] == saturated(
            gates(bdd_simplified(table_dnf(decode(t as nat, pow2(dimensions as nat)), dimensions as nat))),
        ),
        // The constant functions, all false and all true, need no gate.
        r@[0] == 0,
        r@[r@.len() - 1] == 0,
{
    let outputs = enumerate(dimensions);
    proof {
        crate::encoding::lemma_table_sizes(dimensions as nat);
        vstd::arithmetic::power2::lemma_pow2_pos(pow2(dimensions as nat));
    }
    let mut lens: Vec<usize> = Vec::new();
    let mut t: usize = 0;
    while t < outputs.len()
        invariant
            t <= outputs@.len() == pow2(pow2(dimensions as nat)),
            dimensions <= MAX_INPUTS,
            lens@.len() == t,
            forall|s: int| 0 <= s < outputs@.len() ==> (#[trigger] outputs@[s])@ == decode(s as nat, pow2(dimensions as nat)),
            forall|s: int| 0 <= s < t ==> #[trigger] lens@[s] == saturated(
                gates(bdd_simplified(table_dnf(decode(s as nat, pow2(dimensions as nat)), dimensions as nat))),
            ),
            t > 0 ==> lens@[0] == 0,
            t == outputs@.len() ==> lens@[t - 1] == 0,
        decreases outputs@.len() - t,
    {
        proof {
            let rows = pow2(dimensions as nat);
            crate::encoding::lemma_table_sizes(dimensions as nat);
            if t == 0 {
                assert forall|i: int| 0 <= i < outputs@[t as int]@.len() implies !#[trigger] outputs@[t as int]@[i] by {
                    lemma_shifted_zero((rows - 1 - i) as nat);
                }
            }
            if t + 1 == outputs@.len() {
                assert forall|i: int| 0 <= i < outputs@[t as int]@.len() implies #[trigger] outputs@[t as int]@[i] by {
                    let j = (rows - 1 - i) as nat;
                    lemma_shifted_all_ones(rows, j);
                    vstd::arithmetic::power2::lemma_pow2_unfold((rows - j) as nat);
                }
            }
        }
        lens.push(minimal_gate_count(&outputs[t], dimensions));
        t = t + 1;
    }
    lens
}

} // verus!
