use ameo_solver::activation::Activation;
use ameo_solver::reverse::{count_histogram, reverse_sweep, tables_with_count, unique_tables};

#[test]
fn reverse_sweep_accounts_for_every_tuple() {
    let act = Activation::canonical();
    let r = reverse_sweep(&act, 3, -5, 5);
    assert_eq!(r.total, 14641);
    assert_eq!(r.counts.len(), 256);
    assert_eq!(r.ambiguous, 4681);
    let sum: u64 = r.counts.iter().sum();
    assert_eq!(sum + r.ambiguous, r.total);
    assert_eq!(r.counts.iter().filter(|&&c| c > 0).count(), 104);
    assert_eq!(r.counts[0], 225);
    assert_eq!(r.counts[255], 225);
}

#[test]
fn reverse_sweep_half_scale() {
    let act = Activation::half_scale();
    let r = reverse_sweep(&act, 3, -5, 5);
    assert_eq!(r.ambiguous, 7073);
    assert_eq!(r.counts.iter().filter(|&&c| c > 0).count(), 224);
    assert_eq!(r.counts[0], 138);
    let small = reverse_sweep(&act, 2, -2, 2);
    assert_eq!(small.total, 125);
    assert_eq!(small.ambiguous, 63);
    assert_eq!(small.counts.iter().sum::<u64>(), 62);
}

#[test]
fn reverse_sweep_single_point() {
    // Only the tuple of zeros: u = -0.5 gives output 0 on every row.
    let r = reverse_sweep(&Activation::canonical(), 2, 0, 0);
    assert_eq!(r.total, 1);
    assert_eq!(r.ambiguous, 1);
    assert!(r.counts.iter().all(|&c| c == 0));
}

#[test]
fn unique_tables_and_histogram() {
    let r = reverse_sweep(&Activation::canonical(), 3, -5, 5);
    assert_eq!(unique_tables(&r.counts), 104);
    let h = count_histogram(&r.counts);
    for w in h.windows(2) {
        assert!(w[0].0 > w[1].0);
    }
    assert_eq!(h.iter().map(|p| p.1).sum::<u64>(), 104);
    assert_eq!(h.iter().map(|p| p.0 * p.1).sum::<u64>(), 14641 - 4681);
    assert_eq!(h[0].0, *r.counts.iter().max().unwrap());
    assert_eq!(tables_with_count(&r.counts, 225), h[0].1);
}

#[test]
fn histogram_of_small_table() {
    let counts = vec![0, 3, 1, 3, 0, 1, 1];
    assert_eq!(unique_tables(&counts), 5);
    assert_eq!(count_histogram(&counts), vec![(3, 2), (1, 3)]);
    assert_eq!(count_histogram(&vec![0, 0]), Vec::<(u64, u64)>::new());
}
