use ameo_solver::complexity::{
    compute_boolean_complexities, minimal_gate_count, three_input_complexity,
};
use ameo_solver::report::convert_formula;

#[test]
fn constant_functions_cost_nothing() {
    for n in 1..=3usize {
        let rows = 1usize << n;
        assert_eq!(minimal_gate_count(&vec![false; rows], n), 0);
        assert_eq!(minimal_gate_count(&vec![true; rows], n), 0);
    }
}

#[test]
fn gate_counts_of_small_functions() {
    // The first input alone.
    assert_eq!(minimal_gate_count(&vec![false, false, false, false, true, true, true, true], 3), 0);
    // a AND b.
    assert_eq!(minimal_gate_count(&vec![false, false, false, true], 2), 1);
    // a XOR b: two cubes of two literals.
    assert_eq!(minimal_gate_count(&vec![false, true, true, false], 2), 3);
}

#[test]
fn complexities_of_two_input_functions() {
    let c = compute_boolean_complexities(2);
    assert_eq!(c.len(), 16);
    assert_eq!(c[0], 0);
    assert_eq!(c[15], 0);
    assert_eq!(c[1], 1);
    assert_eq!(c[6], 3);
}

#[test]
fn reference_table_lookup() {
    assert_eq!(three_input_complexity(0), 0);
    assert_eq!(three_input_complexity(15), 0);
    assert_eq!(three_input_complexity(22), 7);
    assert_eq!(three_input_complexity(255), 0);
}

#[test]
fn convert_formula_display_form() {
    assert_eq!(convert_formula("a*b+c'"), "a AND b OR c'");
    assert_eq!(convert_formula(""), "");
    assert_eq!(convert_formula("abc"), "abc");
}

#[test]
fn reference_table_agrees_with_recomputation_on_constants() {
    let c = compute_boolean_complexities(3);
    assert_eq!(c.len(), 256);
    assert_eq!(c[0], three_input_complexity(0) as usize);
    assert_eq!(c[255], three_input_complexity(255) as usize);
}
