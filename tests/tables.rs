use ameo_solver::tables::{
    build_all_3_input_truth_tables, build_all_4_input_truth_tables, enumerate, fmt_bool,
    gen_3_input_truth_table, table_outputs, ternary_or_all_false_or_all_but_one_true,
};

#[test]
fn ternary_or_all_false_or_all_but_one_true_values() {
    assert!(ternary_or_all_false_or_all_but_one_true(false, false, false));
    assert!(ternary_or_all_false_or_all_but_one_true(false, true, true));
    assert!(!ternary_or_all_false_or_all_but_one_true(false, true, false));
    assert!(!ternary_or_all_false_or_all_but_one_true(true, false, false));
    assert!(ternary_or_all_false_or_all_but_one_true(true, true, true));
}

#[test]
fn gen_3_input_rows_in_canonical_order() {
    let t = gen_3_input_truth_table(|x: bool, y: bool, z: bool| x && !y && z);
    assert_eq!(t.len(), 8);
    assert_eq!(t[0], ((false, false, false), false));
    assert_eq!(t[1], ((false, false, true), false));
    assert_eq!(t[5], ((true, false, true), true));
    assert_eq!(t[7], ((true, true, true), false));
    assert_eq!(table_outputs(&t), vec![false, false, false, false, false, true, false, false]);
}

#[test]
fn all_three_input_tables() {
    let tables = build_all_3_input_truth_tables();
    assert_eq!(tables.len(), 256);
    assert!(tables[0].iter().all(|(_, o)| !o));
    assert!(tables[255].iter().all(|(_, o)| *o));
    // 5 = 00000101: rows 5 and 7 are true.
    let trues: Vec<usize> = (0..8).filter(|&i| tables[5][i].1).collect();
    assert_eq!(trues, vec![5, 7]);
    assert_eq!(tables[5][6].0, (true, true, false));
}

#[test]
fn all_four_input_tables() {
    let tables = build_all_4_input_truth_tables();
    assert_eq!(tables.len(), 65536);
    assert_eq!(tables[1][15], ((true, true, true, true), true));
    assert_eq!(tables[1][14].1, false);
    assert_eq!(tables[0x8000][0], ((false, false, false, false), true));
}

#[test]
fn enumerate_counts_and_order() {
    assert_eq!(enumerate(0), vec![vec![false], vec![true]]);
    let two = enumerate(2);
    assert_eq!(two.len(), 16);
    assert_eq!(two[6], vec![false, true, true, false]);
    assert_eq!(enumerate(3).len(), 256);
}

#[test]
fn fmt_bool_letters() {
    assert_eq!(fmt_bool(true), "T");
    assert_eq!(fmt_bool(false), "F");
}
