use ameo_solver::complexity::THREE_INPUT_BOOLEAN_COMPLEXITIES;
use ameo_solver::report::{formula_lines, join_stats, ReportError};

#[test]
fn formula_lines_drop_empty_lines() {
    let lines = formula_lines("a*b\n\nc+d\n");
    assert_eq!(lines, vec!["a*b".to_string(), "c+d".to_string()]);
    assert_eq!(formula_lines("x"), vec!["x".to_string()]);
    assert!(formula_lines("\n\n").is_empty());
}

#[test]
fn join_stats_aligns_by_encoding() {
    let complexities: Vec<u8> = (0..16).map(|i| (i % 5) as u8).collect();
    let samples: Vec<u64> = (0..16).map(|i| 100 + i as u64).collect();
    let formulas: Vec<String> = (0..16).map(|i| format!("a*b+{}", i)).collect();
    let stats = join_stats(2, &complexities, &samples, &formulas).expect("aligned");
    assert_eq!(stats.len(), 16);
    assert_eq!(stats[6].number, 6);
    assert_eq!(stats[6].complexity, 1);
    assert_eq!(stats[6].sample_count, 106);
    assert_eq!(stats[6].truth_table, vec![false, true, true, false]);
    assert_eq!(stats[6].formula, "a AND b OR 6");
}

#[test]
fn join_stats_rejects_misaligned_data() {
    let complexities: Vec<u8> = vec![0; 16];
    let samples: Vec<u64> = vec![0; 15];
    let formulas: Vec<String> = vec![String::new(); 16];
    assert_eq!(
        join_stats(2, &complexities, &samples, &formulas).unwrap_err(),
        ReportError::ConfigurationMismatch
    );
}

#[test]
fn joined_report_gives_constants_no_gate() {
    let complexities = THREE_INPUT_BOOLEAN_COMPLEXITIES.to_vec();
    let samples = vec![1u64; 256];
    let formulas: Vec<String> = (0..256).map(|i| format!("f{}", i)).collect();
    let stats = join_stats(3, &complexities, &samples, &formulas).expect("aligned");
    assert_eq!(stats[0].complexity, 0);
    assert_eq!(stats[255].complexity, 0);
    assert_eq!(stats[255].truth_table, vec![true; 8]);
}
