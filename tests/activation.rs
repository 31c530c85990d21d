use ameo_solver::activation::{Activation, Ratio};

fn value(r: Ratio) -> (i128, i128) {
    (r.num, r.den)
}

#[test]
fn canonical_activation_values() {
    let act = Activation::canonical();
    // u = 1.5 * 1 - 0.5 = 1: the ramp is saturated at 1, output +1.
    let (n, d) = value(act.activate(1, 1));
    assert_eq!(n, d);
    // u = -2: output -1.
    let (n, d) = value(act.activate(-1, 1));
    assert_eq!(n, -d);
    // u = -0.5: ramp 0.5, output 0.
    let (n, _) = value(act.activate(0, 1));
    assert_eq!(n, 0);
    // u = 1.5 * (1/3) - 0.5 = 0: ramp 0, output -1.
    let (n, d) = value(act.activate(1, 3));
    assert_eq!(n, -d);
}

#[test]
fn half_scale_activation_values() {
    let act = Activation::half_scale();
    // x = 3: u = 1, output +1.
    let (n, d) = value(act.activate(3, 1));
    assert_eq!(n, d);
    // x = -1: u = -1, ramp 1, output +1.
    let (n, d) = value(act.activate(-1, 1));
    assert_eq!(n, d);
    // x = 1: u = 0, ramp 0, output -1.
    let (n, d) = value(act.activate(1, 1));
    assert_eq!(n, -d);
    // x = 2: u = 0.5, output 0.
    let (n, _) = value(act.activate(2, 1));
    assert_eq!(n, 0);
}

#[test]
fn activation_rises_on_each_rising_side() {
    let act = Activation::canonical();
    // Pre-activations at or above 0: x >= 1/3, over the denominator 6.
    let mut last = i128::MIN;
    for x in 2..40i64 {
        let r = act.activate(x, 6);
        assert!(r.num >= last);
        last = r.num;
    }
    // Pre-activations at or below -1: x <= -1/3.
    let mut last = i128::MIN;
    for x in -40..=-2i64 {
        let r = act.activate(x, 6);
        assert!(r.num >= last);
        last = r.num;
    }
}

#[test]
fn derivative_follows_the_ramp_pieces() {
    let act = Activation::canonical();
    // x = 0: u = -0.5 on the falling piece, slope -1, derivative 2 * 1.5 * -1.
    let r = act.derivative(0, 1);
    assert_eq!((r.num, r.den), (-6, 2));
    // x = 1: u = 1 on the rising piece.
    assert_eq!(act.derivative(1, 1).num, 6);
    // x = 2: u = 2.5, saturated.
    assert_eq!(act.derivative(2, 1).num, 0);
    // x = -1: u = -2, flat.
    assert_eq!(act.derivative(-1, 1).num, 0);
}
