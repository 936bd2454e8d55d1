use generic_newton::Newton;

// Convention pinned by these tests: the first produced value is the one
// *after* one update of the initial guess, and `nth(k)` produces the value
// after `k + 1` updates.

#[test]
fn is_generic() {
    let mut n = Newton::new(0, |x| x - 1, |_| 1);
    assert_eq!(n.nth(5).unwrap(), 1);

    let mut n = Newton::new(0., |x| x - 1., |_| 1.);
    assert_eq!(n.nth(5).unwrap(), 1.);

    let value = 1.0;
    let mut n = Newton::new(0., |x| x - value, |_| 1.);
    assert_eq!(n.nth(5).unwrap(), 1.);
}

#[test]
fn first_value_is_post_update() {
    // With guess 3 and f(x) = x*x - 2, the first produced value is
    // 3 - 7/6, not the guess itself.
    let mut n = Newton::new(3.0_f64, |x| x * x - 2.0, |x| 2.0 * x);
    let first = n.next().unwrap();
    assert_eq!(first, 3.0 - 7.0 / 6.0);
    assert_ne!(first, 3.0);
}

#[test]
fn exact_fixed_point() {
    // f(x) = x - c with derivative 1 lands on c after one update and stays
    // there exactly; no floating point is involved. The 6th produced value
    // (the value after 6 updates, under the post-update convention) is c.
    let c: i64 = 1;
    let mut n = Newton::new(0_i64, move |x| x - c, |_| 1_i64);
    assert_eq!(n.next().unwrap(), 1);
    for _ in 0..4 {
        assert_eq!(n.next().unwrap(), 1);
    }
    assert_eq!(n.next().unwrap(), 1);

    let mut m = Newton::new(0_i64, move |x| x - c, |_| 1_i64);
    assert_eq!(m.nth(5).unwrap(), 1);
}

#[test]
fn deterministic_trajectory() {
    // Stepping one instance N times gives the same values as pulling from
    // fresh instances built with the same guess and functions.
    let make = || Newton::new(3.0_f64, |x| x * x - 2.0, |x| 2.0 * x);

    let mut a = make();
    let mut first_run = Vec::new();
    for _ in 0..8 {
        first_run.push(a.next().unwrap());
    }

    let mut b = make();
    let mut second_run = Vec::new();
    for _ in 0..8 {
        second_run.push(b.next().unwrap());
    }
    assert_eq!(first_run, second_run);

    let mut c = make();
    assert_eq!(c.nth(7).unwrap(), first_run[7]);
}

#[test]
fn indexing_convention_replay() {
    // Symbolic replay: the k-th produced value equals applying the update
    // rule exactly k + 1 times to the initial guess.
    let f = |x: f64| x * x - 2.0;
    let df = |x: f64| 2.0 * x;
    let mut n = Newton::new(3.0_f64, f, df);

    let mut expected = 3.0_f64;
    for _ in 0..10 {
        expected = expected - f(expected) / df(expected);
        assert_eq!(n.next().unwrap(), expected);
    }
}

#[test]
fn never_exhausts() {
    // Even once the derivative is zero and the trajectory degenerates to
    // infinities or NaNs, every pull still yields a value.
    let mut n = Newton::new(1.0_f64, |_| 1.0, |_| 0.0);
    for _ in 0..10_000 {
        assert!(n.next().is_some());
    }

    // A converged trajectory keeps producing as well.
    let mut m = Newton::new(1.5_f64, |x| x * x - 2.0, |x| 2.0 * x);
    for _ in 0..10_000 {
        assert!(m.next().is_some());
    }
}

#[test]
fn error_shrinks_toward_root() {
    // From a guess near the simple root sqrt(2), the distance to the root
    // never grows — up to the last bit of precision once the trajectory has
    // converged — and ends below a tight tolerance.
    let root = 2.0_f64.sqrt();
    let mut n = Newton::new(1.5_f64, |x| x * x - 2.0, |x| 2.0 * x);
    let mut err = (1.5_f64 - root).abs();
    for _ in 0..20 {
        let x = n.next().unwrap();
        let e = (x - root).abs();
        assert!(e <= err || err < 1e-15);
        err = e;
    }
    assert!(err < 1e-12);
}

#[test]
fn convergence_example() {
    let mut n = Newton::new(
        0.5_f64,
        |x: f64| x.cos() - x.powi(3),
        |x: f64| -(x.sin() + 3. * x.powi(2)),
    );
    assert!((n.nth(1000).unwrap() - 0.865474033102).abs() < 1E-11);
}
