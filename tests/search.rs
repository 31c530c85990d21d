use ameo_solver::activation::Activation;
use ameo_solver::lattice::half_steps;
use ameo_solver::report::{sanity, solve_all_tables, solve_table, MatchKind};
use ameo_solver::search::{input_rows, row_sum, solve, MatchMode, Params};
use ameo_solver::tables::{gen_3_input_truth_table, table_outputs};

fn outputs_of(act: &Activation, p: &Params, n: usize) -> Vec<(i128, i128)> {
    let rows = input_rows(n);
    rows.iter()
        .map(|bits| {
            let r = act.activate(row_sum(&p.weights, p.bias, bits), p.den as i64);
            (r.num, r.den)
        })
        .collect()
}

fn ternary_table() -> Vec<bool> {
    table_outputs(&gen_3_input_truth_table(|x: bool, y: bool, z: bool| if x { y } else { z }))
}

#[test]
fn ternary_has_an_exact_solution() {
    let act = Activation::half_scale();
    let table = ternary_table();
    assert_eq!(table, vec![false, true, false, true, false, false, true, true]);
    let p = solve(&act, &table, 3, &half_steps(), MatchMode::Exact).expect("no solution");
    assert_eq!(p.den, 2);
    assert_eq!(p.weights, vec![-2, 6, 4]);
    assert_eq!(p.bias, -2);
    for (i, (num, den)) in outputs_of(&act, &p, 3).into_iter().enumerate() {
        let target = if table[i] { den } else { -den };
        assert!((num - target).abs() * 1_000_000 <= den);
    }
}

#[test]
fn most_significant_input_alone() {
    let act = Activation::canonical();
    let table = vec![false, false, false, false, true, true, true, true];
    let p = solve(&act, &table, 3, &half_steps(), MatchMode::Exact).expect("no solution");
    assert_eq!(p.weights, vec![2, 0, 0]);
    assert_eq!(p.bias, 0);
    assert_eq!(p.den, 2);
}

#[test]
fn constant_tables_need_only_a_bias() {
    for act in [Activation::canonical(), Activation::half_scale()] {
        for value in [false, true] {
            let table = vec![value; 8];
            let p = solve(&act, &table, 3, &half_steps(), MatchMode::Exact).expect("no solution");
            assert_eq!(p.weights, vec![0, 0, 0]);
            assert_ne!(p.bias, 0);
        }
    }
    let act = Activation::canonical();
    let p = solve(&act, &vec![true; 8], 3, &half_steps(), MatchMode::Exact).unwrap();
    assert_eq!(p.bias, 2);
    let p = solve(&act, &vec![false; 8], 3, &half_steps(), MatchMode::Exact).unwrap();
    assert_eq!(p.bias, -2);
}

#[test]
fn sign_only_fallback_avoids_zero_outputs() {
    let act = Activation::half_scale();
    let table = vec![false, false, false, true, true, false, false, false];
    assert!(solve(&act, &table, 3, &half_steps(), MatchMode::Exact).is_none());
    let p = solve(&act, &table, 3, &half_steps(), MatchMode::SignOnly).expect("no solution");
    assert_eq!(p.weights, vec![1, -1, -1]);
    assert_eq!(p.bias, 2);
    for (i, (num, _)) in outputs_of(&act, &p, 3).into_iter().enumerate() {
        assert_ne!(num, 0);
        assert_eq!(num > 0, table[i]);
    }
    let rec = solve_table(&act, &table, 3, &half_steps(), 24);
    assert_eq!(rec.kind, MatchKind::SignOnly);
    assert_eq!(rec.number, 24);
}

#[test]
fn unrealizable_table_has_no_solution() {
    let act = Activation::canonical();
    let table = ternary_table();
    assert!(solve(&act, &table, 3, &half_steps(), MatchMode::Exact).is_none());
    let rec = solve_table(&act, &table, 3, &half_steps(), 0);
    assert!(rec.kind != MatchKind::Exact);
}

#[test]
fn sanity_check_passes() {
    assert!(sanity());
}

#[test]
fn batch_over_two_input_tables() {
    let (records, summary) = solve_all_tables(&Activation::canonical(), 2, &half_steps());
    assert_eq!(records.len(), 16);
    for (t, r) in records.iter().enumerate() {
        assert_eq!(r.number, t as u64);
    }
    assert_eq!((summary.exact, summary.sign_only, summary.none), (14, 2, 0));
    let (_, summary) = solve_all_tables(&Activation::half_scale(), 2, &half_steps());
    assert_eq!((summary.exact, summary.sign_only, summary.none), (16, 0, 0));
}

#[test]
fn four_input_search_on_a_small_lattice() {
    use_small_lattice();
}

fn use_small_lattice() {
    let c = ameo_solver::lattice::Candidates::from_values(1, &vec![1, 0, -1]);
    assert_eq!(c.values, vec![0, -1, 1]);
    let act = Activation::canonical();
    // The second input alone: true on rows 4..8 and 12..16.
    let table: Vec<bool> = (0..16).map(|r| (r >> 2) & 1 == 1).collect();
    let p = solve(&act, &table, 4, &c, MatchMode::Exact).expect("no solution");
    assert_eq!(p.weights, vec![0, 1, 0, 0]);
    assert_eq!(p.bias, 0);
}

#[test]
fn zero_input_tables() {
    let act = Activation::canonical();
    let p = solve(&act, &vec![true], 0, &half_steps(), MatchMode::Exact).expect("no solution");
    assert!(p.weights.is_empty());
    assert_eq!(p.bias, 2);
    let rec = solve_table(&act, &vec![false], 0, &half_steps(), 0);
    assert_eq!(rec.kind, MatchKind::Exact);
}

#[test]
fn four_input_constant_and_first_input_tables() {
    let act = Activation::canonical();
    for value in [false, true] {
        let p = solve(&act, &vec![value; 16], 4, &half_steps(), MatchMode::Exact).expect("no solution");
        assert_eq!(p.weights, vec![0, 0, 0, 0]);
        assert_eq!(p.bias, if value { 2 } else { -2 });
    }
    let table: Vec<bool> = (0..16).map(|r| r >= 8).collect();
    let p = solve(&act, &table, 4, &half_steps(), MatchMode::Exact).expect("no solution");
    assert_eq!(p.weights, vec![2, 0, 0, 0]);
    assert_eq!(p.bias, 0);
}
