use lds_gen::ConfigError;
use lds_gen::Frac;
use lds_gen::sphere_n::InterpPos;
use lds_gen::sphere_n::Sphere3;
use lds_gen::sphere_n::SphereN;
use lds_gen::sphere_n::interp_locate;

use std::f64::consts::PI;

fn to_f64(f: Frac) -> f64 {
    f.num as f64 / f.den as f64
}

fn approx(a: f64, b: f64, eps: f64) {
    assert!((a - b).abs() <= eps, "{} vs {}", a, b);
}

// ---- The numeric mapping from draws to coordinates.
//
// The library hands out the scalar draws of each point as exact fractions;
// the angles and coordinates are a fixed floating-point mapping of those
// draws, driven by the angle tables below and by the verified segment
// search `interp_locate`.

fn linspace(start: f64, stop: f64, num: usize) -> Vec<f64> {
    if num == 1 {
        return vec![start];
    }
    let step = (stop - start) / (num as f64 - 1.0);
    (0..num).map(|i| start + i as f64 * step).collect()
}

/// Order-preserving key of a floating-point value: unsigned comparison of
/// the keys matches the numeric order of the values.
fn key(v: f64) -> u64 {
    let b = v.to_bits();
    if b >> 63 == 1 { !b } else { b | (1u64 << 63) }
}

/// Linear interpolation of `yp` at `x` over the non-decreasing abscissas
/// `xp`, clamped at both ends; the segment decision is the library's.
fn interp(x: f64, xp: &[f64], yp: &[f64]) -> f64 {
    let keys: Vec<u64> = xp.iter().map(|&v| key(v)).collect();
    match interp_locate(key(x), &keys) {
        InterpPos::Below => yp[0],
        InterpPos::Above => yp[yp.len() - 1],
        InterpPos::Within(i) => {
            let t = (x - xp[i]) / (xp[i + 1] - xp[i]);
            yp[i] + t * (yp[i + 1] - yp[i])
        }
    }
}

struct Tables {
    x: Vec<f64>,
    neg_cosine: Vec<f64>,
    sine: Vec<f64>,
    f2: Vec<f64>,
    half_pi: f64,
}

fn tables() -> Tables {
    let x = linspace(0.0, PI, 300);
    let neg_cosine: Vec<f64> = x.iter().map(|&v| -v.cos()).collect();
    let sine: Vec<f64> = x.iter().map(|&v| v.sin()).collect();
    let f2: Vec<f64> = x
        .iter()
        .zip(&neg_cosine)
        .zip(&sine)
        .map(|((&v, &nc), &s)| (v + nc * s) / 2.0)
        .collect();
    Tables { x, neg_cosine, sine, f2, half_pi: PI / 2.0 }
}

/// The inverse-distribution table for the polar angle at dimension `n`,
/// built by the recurrence from dimension `n - 2` upward.
fn get_tp(t: &Tables, n: usize) -> Vec<f64> {
    let mut cache: Vec<Vec<f64>> = Vec::new();
    while cache.len() <= n {
        let new_n = cache.len();
        let tp = if new_n == 0 {
            t.x.clone()
        } else if new_n == 1 {
            t.neg_cosine.clone()
        } else {
            let tp_minus2 = &cache[new_n - 2];
            (0..t.x.len())
                .map(|i| {
                    ((new_n - 1) as f64 * tp_minus2[i]
                        + t.neg_cosine[i] * t.sine[i].powi((new_n - 1) as i32))
                        / new_n as f64
                })
                .collect()
        };
        cache.push(tp);
    }
    cache[n].clone()
}

/// The three-coordinate point of the terminal sphere draws.
fn sphere2_point(v: Frac, c: Frac) -> Vec<f64> {
    let cosphi = 2.0 * to_f64(v) - 1.0;
    let sinphi = (1.0 - cosphi * cosphi).sqrt();
    let theta = to_f64(c) * std::f64::consts::TAU;
    vec![sinphi * theta.cos(), sinphi * theta.sin(), cosphi]
}

/// The point of a three-base draw: the outer draw picks the polar angle by
/// inverting the antiderivative table, the rest is the terminal point.
fn sphere3_point(t: &Tables, fracs: &[Frac]) -> Vec<f64> {
    let ti = t.half_pi * to_f64(fracs[0]);
    let xi = interp(ti, &t.f2, &t.x);
    let inner = sphere2_point(fracs[1], fracs[2]);
    let mut out: Vec<f64> = inner.iter().map(|&s| xi.sin() * s).collect();
    out.push(xi.cos());
    out
}

/// The point of a draw over any number of bases: each level inverts its
/// dimension table and wraps the inner point.
fn spheren_point(t: &Tables, fracs: &[Frac]) -> Vec<f64> {
    let m = fracs.len();
    if m == 3 {
        return sphere3_point(t, fracs);
    }
    let n = m - 1;
    let tp = get_tp(t, n);
    let tp_start = tp[0];
    let range = tp[tp.len() - 1] - tp_start;
    let ti = tp_start + range * to_f64(fracs[0]);
    let xi = interp(ti, &tp, &t.x);
    let inner = spheren_point(t, &fracs[1..]);
    let mut out: Vec<f64> = inner.iter().map(|&s| s * xi.sin()).collect();
    out.push(xi.cos());
    out
}

fn norm_sq(p: &[f64]) -> f64 {
    p.iter().map(|&v| v * v).sum()
}

// ---- Tests of the helper mapping itself.

#[test]
fn test_linspace() {
    let result = linspace(0.0, 1.0, 5);
    let expected = [0.0, 0.25, 0.5, 0.75, 1.0];
    assert_eq!(result.len(), 5);
    for i in 0..5 {
        approx(result[i], expected[i], 1e-10);
    }

    let result = linspace(0.0, 1.0, 1);
    assert_eq!(result, vec![0.0]);

    let result = linspace(-1.0, 1.0, 3);
    let expected = [-1.0, 0.0, 1.0];
    for i in 0..3 {
        approx(result[i], expected[i], 1e-10);
    }
}

#[test]
fn test_simple_interp() {
    let xp = vec![0.0, 1.0, 2.0, 3.0];
    let yp = vec![0.0, 2.0, 4.0, 6.0]; // the linear map y = 2 x

    approx(interp(0.5, &xp, &yp), 1.0, 1e-10);
    approx(interp(1.5, &xp, &yp), 3.0, 1e-10);
    approx(interp(-0.5, &xp, &yp), 0.0, 1e-10);
    approx(interp(3.5, &xp, &yp), 6.0, 1e-10);
    approx(interp(2.0, &xp, &yp), 4.0, 1e-10);
}

// The clamping rule, exactly: at or below the first abscissa the first
// ordinate comes back, at or above the last abscissa the last one.
#[test]
fn test_interp_boundary_clamp() {
    let xp = vec![1.0, 2.0, 4.0];
    let yp = vec![10.0, 20.0, 40.0];
    assert_eq!(interp(1.0, &xp, &yp), 10.0);
    assert_eq!(interp(0.5, &xp, &yp), 10.0);
    assert_eq!(interp(4.0, &xp, &yp), 40.0);
    assert_eq!(interp(7.5, &xp, &yp), 40.0);

    let keys = vec![10u64, 20, 20, 30];
    assert_eq!(interp_locate(10, &keys), InterpPos::Below);
    assert_eq!(interp_locate(5, &keys), InterpPos::Below);
    assert_eq!(interp_locate(30, &keys), InterpPos::Above);
    assert_eq!(interp_locate(31, &keys), InterpPos::Above);
    assert_eq!(interp_locate(15, &keys), InterpPos::Within(0));
    assert_eq!(interp_locate(20, &keys), InterpPos::Within(0));
    assert_eq!(interp_locate(25, &keys), InterpPos::Within(2));
}

#[test]
fn test_get_tp() {
    let t = tables();
    let tp0 = get_tp(&t, 0);
    assert_eq!(tp0.len(), 300);
    approx(tp0[0], 0.0, 1e-10);
    approx(tp0[tp0.len() - 1], PI, 1e-10);

    let tp1 = get_tp(&t, 1);
    assert_eq!(tp1.len(), 300);
    approx(tp1[0], -(0.0f64.cos()), 1e-10);
    approx(tp1[tp1.len() - 1], -(PI.cos()), 1e-10);

    let tp2 = get_tp(&t, 2);
    assert_eq!(tp2.len(), 300);

    // The tables that drive the lookups are finite, monotone and have
    // strictly increasing endpoints, so the lookup range is never empty.
    for n in 0..8 {
        let tp = get_tp(&t, n);
        assert_eq!(tp.len(), 300);
        assert!(tp.iter().all(|v| v.is_finite()));
        assert!(tp.windows(2).all(|w| w[0] <= w[1]));
        assert!(tp[0] < tp[tp.len() - 1]);
        // Rebuilding gives value-identical tables.
        assert_eq!(tp, get_tp(&t, n));
    }
}

// ---- Tests of the generators through the mapping.

#[test]
fn test_sphere3_basic() {
    let t = tables();
    let mut sgen = Sphere3::new(&[2, 3, 5]).unwrap();
    sgen.reseed(0);

    let point = sphere3_point(&t, &sgen.pop());
    assert_eq!(point.len(), 4);

    approx(norm_sq(&point), 1.0, 1e-10);

    for &coord in &point {
        assert!((-1.0..=1.0).contains(&coord));
    }
}

#[test]
fn test_sphere3_consistency() {
    let t = tables();
    let bases = [[2usize, 3, 5], [2, 5, 3], [3, 2, 7]];

    for base in bases {
        let mut sgen = Sphere3::new(&base).unwrap();
        sgen.reseed(0);

        for _i in 0..5 {
            let point = sphere3_point(&t, &sgen.pop());
            approx(norm_sq(&point), 1.0, 1e-10);
        }
    }
}

#[test]
fn test_sphere3_reseed() {
    let t = tables();
    let mut sgen = Sphere3::new(&[2, 3, 5]).unwrap();

    sgen.reseed(0);
    let seq1: Vec<Vec<f64>> = (0..3).map(|_| sphere3_point(&t, &sgen.pop())).collect();

    sgen.reseed(0);
    let seq2: Vec<Vec<f64>> = (0..3).map(|_| sphere3_point(&t, &sgen.pop())).collect();

    for i in 0..3 {
        for j in 0..4 {
            approx(seq1[i][j], seq2[i][j], 1e-10);
        }
    }

    sgen.reseed(1);
    let seq3: Vec<Vec<f64>> = (0..3).map(|_| sphere3_point(&t, &sgen.pop())).collect();

    let mut different = false;
    for i in 0..3 {
        for j in 0..4 {
            if (seq1[i][j] - seq3[i][j]).abs() > 1e-10 {
                different = true;
            }
        }
    }
    assert!(different, "Sequences with different seeds should be different");
}

#[test]
fn test_spheren_basic() {
    let t = tables();
    let mut sgen = SphereN::new(&[2, 3, 5, 7]).unwrap();
    sgen.reseed(0);

    let point = spheren_point(&t, &sgen.pop());
    assert_eq!(point.len(), 5);

    approx(norm_sq(&point), 1.0, 1e-10);
}

#[test]
fn test_spheren_higher_dimensions() {
    let t = tables();
    let mut sgen = SphereN::new(&[2, 3, 5, 7, 11]).unwrap();
    sgen.reseed(0);

    let point = spheren_point(&t, &sgen.pop());
    assert_eq!(point.len(), 6);

    approx(norm_sq(&point), 1.0, 1e-10);
}

#[test]
fn test_spheren_reseed() {
    let t = tables();
    let mut sgen = SphereN::new(&[2, 3, 5, 7]).unwrap();

    sgen.reseed(0);
    let seq1: Vec<Vec<f64>> = (0..3).map(|_| spheren_point(&t, &sgen.pop())).collect();

    sgen.reseed(0);
    let seq2: Vec<Vec<f64>> = (0..3).map(|_| spheren_point(&t, &sgen.pop())).collect();

    for i in 0..3 {
        for j in 0..5 {
            approx(seq1[i][j], seq2[i][j], 1e-10);
        }
    }
}

#[test]
fn test_comparison_with_python() {
    let t = tables();
    let expected_sphere3 = [
        0.2913440162992141,
        0.8966646826186098,
        -0.33333333333333337,
        6.123233995736766e-17,
    ];

    let expected_spheren = [
        0.4809684718990214,
        0.6031153874276115,
        -0.5785601510223212,
        0.2649326520763179,
        6.123233995736766e-17,
    ];

    let mut sgen3 = Sphere3::new(&[2, 3, 5]).unwrap();
    sgen3.reseed(0);
    let result3 = sphere3_point(&t, &sgen3.pop());

    for i in 0..4 {
        approx(result3[i], expected_sphere3[i], 1e-10);
    }

    let mut sgen_n = SphereN::new(&[2, 3, 5, 7]).unwrap();
    sgen_n.reseed(0);
    let result_n = spheren_point(&t, &sgen_n.pop());

    for i in 0..5 {
        approx(result_n[i], expected_spheren[i], 1e-10);
    }
}

#[test]
fn test_sphere3_insufficient_bases() {
    assert_eq!(Sphere3::new(&[2, 3]).unwrap_err(), ConfigError::TooFewBases);
}

#[test]
fn test_spheren_insufficient_bases() {
    assert_eq!(SphereN::new(&[2, 3]).unwrap_err(), ConfigError::TooFewBases);
    assert_eq!(SphereN::new(&[2, 1, 5]).unwrap_err(), ConfigError::BaseTooSmall);
}

// Unit norm across base lists and reseed values.
#[test]
fn test_unit_norm_many_seeds() {
    let t = tables();
    for seed in [0usize, 1, 2, 10, 100] {
        let mut g3 = Sphere3::new(&[3, 2, 7]).unwrap();
        g3.reseed(seed);
        for _i in 0..3 {
            approx(norm_sq(&sphere3_point(&t, &g3.pop())), 1.0, 1e-10);
        }
        let mut gn = SphereN::new(&[2, 3, 5, 7, 11, 13]).unwrap();
        gn.reseed(seed);
        for _i in 0..3 {
            let p = spheren_point(&t, &gn.pop());
            assert_eq!(p.len(), 7);
            approx(norm_sq(&p), 1.0, 1e-10);
        }
    }
}

// The inner draws of a chain are exactly the draws of the shorter chain,
// so the inner point is a valid lower-dimensional unit point of its own.
#[test]
fn test_spheren_inner_point() {
    let t = tables();
    let mut outer = SphereN::new(&[2, 3, 5, 7, 11]).unwrap();
    let mut inner = SphereN::new(&[3, 5, 7, 11]).unwrap();
    outer.reseed(0);
    inner.reseed(0);
    for _i in 0..5 {
        let of = outer.pop();
        let inf = inner.pop();
        assert_eq!(&of[1..], &inf[..]);
        let p = spheren_point(&t, &inf);
        assert_eq!(p.len(), 5);
        approx(norm_sq(&p), 1.0, 1e-10);
    }
}

// A draw never reproduces between different seeds: the raw fractions of
// the first point differ.
#[test]
fn test_spheren_seed_fractions_differ() {
    let mut g = SphereN::new(&[2, 3, 5, 7]).unwrap();
    g.reseed(4);
    let a = g.pop();
    g.reseed(9);
    let b = g.pop();
    assert!(a[0] != b[0]);
}

// Drawing a table from a seed ignores everything drawn before, and its
// rows are exactly the points a fresh generator pops after the same
// reseed.
#[test]
fn test_draws_from_matches_pop() {
    let mut a = SphereN::new(&[2, 3, 5, 7]).unwrap();
    let mut b = SphereN::new(&[2, 3, 5, 7]).unwrap();
    b.reseed(99);
    for _i in 0..4 {
        b.pop();
    }
    let table = b.draws_from(5, 6);
    assert_eq!(table.len(), 6);
    a.reseed(5);
    for row in &table {
        assert_eq!(*row, a.pop());
    }
}

// Drawing the same table twice in a row, each time from the same seed,
// yields identical sequences.
#[test]
fn test_draws_from_repeat_identical() {
    let mut g = SphereN::new(&[2, 3, 5, 7, 11]).unwrap();
    let first = g.draws_from(3, 5);
    let second = g.draws_from(3, 5);
    assert_eq!(first, second);
}
