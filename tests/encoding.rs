use ameo_solver::encoding::{binary_to_dec, dec_to_binary, program_to_set};

#[test]
fn binary_to_dec_correctness() {
    let input = &[true, true, false, false];
    assert_eq!(binary_to_dec(input), 12);
}

#[test]
fn encode_decode_round_trip() {
    for n in 0..=10usize {
        for k in 0..(1u64 << n) {
            let bits = dec_to_binary(k, n);
            assert_eq!(bits.len(), n);
            assert_eq!(binary_to_dec(&bits), k);
        }
    }
}

#[test]
fn decode_is_most_significant_first() {
    assert_eq!(dec_to_binary(4, 3), vec![true, false, false]);
    assert_eq!(dec_to_binary(1, 3), vec![false, false, true]);
    assert_eq!(dec_to_binary(13, 4), vec![true, true, false, true]);
}

#[test]
fn encode_of_empty_and_full_width() {
    assert_eq!(binary_to_dec(&[]), 0);
    assert_eq!(binary_to_dec(&[true; 64]), u64::MAX);
}

#[test]
fn program_to_set_collects_true_rows() {
    let inputs = vec![
        vec![false, false],
        vec![false, true],
        vec![true, false],
        vec![true, true],
    ];
    let output = [false, true, true, false];
    assert_eq!(program_to_set(&inputs, &output), vec![1, 2]);
    assert_eq!(program_to_set(&inputs, &[false; 4]), Vec::<u64>::new());
}
