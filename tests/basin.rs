use ameo_solver::activation::Activation;
use ameo_solver::basin::{basin_counts, BasinTally};
use ameo_solver::search::Params;
use rand::{Rng, SeedableRng};

fn draw(seed: u64, count: usize) -> Vec<Params> {
    let mut rng = rand_pcg::Pcg64::seed_from_u64(seed);
    (0..count)
        .map(|_| Params {
            weights: (0..3).map(|_| rng.gen_range(-40..=40)).collect(),
            bias: rng.gen_range(-40..=40),
            den: 8,
        })
        .collect()
}

#[test]
fn basin_tally_is_reproducible() {
    let act = Activation::canonical();
    let a = basin_counts(&act, 3, &draw(7, 2000));
    let b = basin_counts(&act, 3, &draw(7, 2000));
    assert_eq!(a, b);
    assert_eq!(a.len(), 256);
    assert_eq!(a.iter().sum::<u64>(), 2000);
}

#[test]
fn basin_tally_by_sign() {
    let act = Activation::canonical();
    let mut tally = BasinTally::new(3);
    // All weights zero, bias 1: u = 1, every output +1.
    tally.record(&act, &Params { weights: vec![0, 0, 0], bias: 1, den: 1 });
    // Bias 0: output 0 on every row, which is not positive.
    tally.record(&act, &Params { weights: vec![0, 0, 0], bias: 0, den: 1 });
    // x alone: positive exactly on the rows where x is true.
    tally.record(&act, &Params { weights: vec![1, 0, 0], bias: 0, den: 1 });
    assert_eq!(tally.total, 3);
    assert_eq!(tally.counts[255], 1);
    assert_eq!(tally.counts[0], 1);
    assert_eq!(tally.counts[0b0000_1111], 1);
}
