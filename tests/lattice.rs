use ameo_solver::lattice::{half_steps, int_range, rational_sweep, Candidates};

#[test]
fn half_steps_in_search_order() {
    let c = half_steps();
    assert_eq!(c.den, 2);
    assert_eq!(
        c.values,
        vec![0, -1, 1, -2, 2, -3, 3, -4, 4, -5, 5, -6, 6, -7, 7, -8, 8, -9, 9]
    );
}

#[test]
fn rational_sweep_in_search_order() {
    let c = rational_sweep();
    assert_eq!(c.den, 6);
    assert_eq!(c.values.len(), 73);
    assert_eq!(&c.values[..9], &[0, -2, 2, -3, 3, -4, 4, -6, 6]);
    assert_eq!(&c.values[70..], &[132, -144, 144]);
}

#[test]
fn from_values_orders_and_dedups() {
    let c = Candidates::from_values(1, &vec![3, -1, 0, 3, 1, -3, 0]);
    assert_eq!(c.values, vec![0, -1, 1, -3, 3]);
    let single = Candidates::from_values(4, &vec![7]);
    assert_eq!(single.values, vec![7]);
}

#[test]
fn int_range_is_inclusive() {
    assert_eq!(int_range(-2, 2), vec![-2, -1, 0, 1, 2]);
    assert_eq!(int_range(5, 5), vec![5]);
}
