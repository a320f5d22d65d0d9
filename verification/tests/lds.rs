use lds_gen::Circle;
use lds_gen::ConfigError;
use lds_gen::Frac;
use lds_gen::Halton;
use lds_gen::HaltonN;
use lds_gen::Sphere;
use lds_gen::Sphere3Hopf;
use lds_gen::VdCorput;
use lds_gen::lds::vdc;

const TWO_PI: f64 = std::f64::consts::TAU;

fn to_f64(f: Frac) -> f64 {
    f.num as f64 / f.den as f64
}

fn approx(a: f64, b: f64, eps: f64) {
    assert!((a - b).abs() <= eps, "{} vs {}", a, b);
}

#[test]
fn test_vdc() {
    assert_eq!(to_f64(vdc(1, 2)), 0.5);
    assert_eq!(to_f64(vdc(2, 2)), 0.25);
    assert_eq!(to_f64(vdc(3, 2)), 0.75);
    assert_eq!(to_f64(vdc(4, 2)), 0.125);
    assert_eq!(to_f64(vdc(5, 2)), 0.625);
}

#[test]
fn it_works() {
    let base: [usize; 5] = [2, 3, 5, 7, 11];

    let mut vgen = VdCorput::new(2).unwrap();
    vgen.reseed(10);
    for _i in 0..10 {
        vgen.pop();
    }
    let res = to_f64(vgen.pop());
    approx(res, 0.65625, 1e-6);

    let mut cgen = Circle::new(2).unwrap();
    cgen.reseed(10);
    for _i in 0..10 {
        cgen.pop();
    }
    // A circle draw v stands for the point (cos(2 pi v), sin(2 pi v)).
    let theta = to_f64(cgen.pop()) * TWO_PI;
    approx(theta.sin(), -0.8314696123025452, 1e-6);

    let mut hgen = Halton::new(2, 3).unwrap();
    hgen.reseed(10);
    for _i in 0..10 {
        hgen.pop();
    }
    let res = hgen.pop();
    approx(to_f64(res.0), 0.65625, 1e-6);

    let mut sgen = Sphere::new(&base).unwrap();
    sgen.reseed(10);
    for _i in 0..10 {
        sgen.pop();
    }
    // A sphere draw (v, c) stands for the point
    // (sin(phi) cos(theta), sin(phi) sin(theta), cos(phi)) with
    // cos(phi) = 2 v - 1 and theta = 2 pi c.
    let (v, c) = sgen.pop();
    let cosphi = 2.0 * to_f64(v) - 1.0;
    let sinphi = (1.0 - cosphi * cosphi).sqrt();
    let theta = to_f64(c) * TWO_PI;
    approx(sinphi * theta.sin(), 0.8722297870746605, 1e-6);

    let mut s3fgen = Sphere3Hopf::new(&base).unwrap();
    s3fgen.reseed(10);
    for _i in 0..10 {
        s3fgen.pop();
    }
    // Hopf draws (v0, v1, v2) stand for the point
    // (cos(eta) cos(psy), cos(eta) sin(psy), sin(eta) cos(phi + psy),
    //  sin(eta) sin(phi + psy)) with phi = 2 pi v0, psy = 2 pi v1 and
    // cos(eta) = sqrt(v2).
    let (v0, v1, v2) = s3fgen.pop();
    let _phi = to_f64(v0) * TWO_PI;
    let psy = to_f64(v1) * TWO_PI;
    let vd = to_f64(v2);
    let cos_eta = vd.sqrt();
    approx(cos_eta * psy.cos(), 0.23764785962349413, 1e-6);

    let mut hgen = HaltonN::new(5, &base).unwrap();
    hgen.reseed(10);
    for _i in 0..10 {
        hgen.pop_vec();
    }
    let res = hgen.pop_vec();
    approx(to_f64(res[0]), 0.65625, 1e-6);
}

// Every draw is a fraction in [0, 1) and denominators are powers of the
// base.
#[test]
fn test_draws_in_unit_interval() {
    for b in [2usize, 3, 5, 7, 11] {
        let mut g = VdCorput::new(b).unwrap();
        for _i in 0..100 {
            let f = g.pop();
            assert!(f.num < f.den);
            let mut d = f.den;
            while d > 1 {
                assert_eq!(d % b as u128, 0);
                d /= b as u128;
            }
        }
    }
}

// Reseeding is absolute: the same seed replays the same draws.
#[test]
fn test_vdcorput_reseed_replay() {
    let mut g = VdCorput::new(3).unwrap();
    g.reseed(7);
    let first: Vec<Frac> = (0..20).map(|_| g.pop()).collect();
    g.reseed(7);
    let second: Vec<Frac> = (0..20).map(|_| g.pop()).collect();
    assert_eq!(first, second);
}

// Distinct seeds give a distinct first draw.
#[test]
fn test_vdcorput_reseed_distinct() {
    let mut g = VdCorput::new(5).unwrap();
    g.reseed(3);
    let a = g.pop();
    g.reseed(8);
    let b = g.pop();
    assert!(a.num as u128 * b.den != b.num as u128 * a.den);
}

// The digit-reversal sequence never repeats a value.
#[test]
fn test_vdc_injective() {
    for b in [2usize, 3, 10] {
        let draws: Vec<Frac> = (1..200).map(|k| vdc(k, b)).collect();
        for i in 0..draws.len() {
            for j in 0..i {
                let (p, q) = (draws[i], draws[j]);
                assert!(p.num * q.den != q.num * p.den, "{} {} in base {}", i, j, b);
            }
        }
    }
}

// Bad bases are rejected at construction, never inside a draw.
#[test]
fn test_config_errors() {
    assert_eq!(VdCorput::new(1).unwrap_err(), ConfigError::BaseTooSmall);
    assert_eq!(VdCorput::new(0).unwrap_err(), ConfigError::BaseTooSmall);
    assert_eq!(Circle::new(1).unwrap_err(), ConfigError::BaseTooSmall);
    assert_eq!(Halton::new(2, 1).unwrap_err(), ConfigError::BaseTooSmall);
    assert_eq!(Sphere::new(&[2]).unwrap_err(), ConfigError::TooFewBases);
    assert_eq!(Sphere::new(&[2, 1]).unwrap_err(), ConfigError::BaseTooSmall);
    assert_eq!(Sphere3Hopf::new(&[2, 3]).unwrap_err(), ConfigError::TooFewBases);
    assert_eq!(Sphere3Hopf::new(&[2, 3, 1]).unwrap_err(), ConfigError::BaseTooSmall);
    assert_eq!(HaltonN::new(3, &[2, 3, 1, 7]).unwrap_err(), ConfigError::BaseTooSmall);
    assert!(HaltonN::new(3, &[2, 3, 5, 1]).is_ok());
    assert_eq!(
        lds_gen::lds_n1::HaltonN::new(&[2, 3, 1]).unwrap_err(),
        ConfigError::BaseTooSmall,
    );
    assert_eq!(
        lds_gen::lds_n1::SphereN2::new(&[2]).unwrap_err(),
        ConfigError::TooFewBases,
    );
}

// The slice-built Halton generator and the counted one draw alike.
#[test]
fn test_halton_n_variants_agree() {
    let base: [usize; 4] = [2, 3, 5, 7];
    let mut a = HaltonN::new(4, &base).unwrap();
    let mut b = lds_gen::lds_n1::HaltonN::new(&base).unwrap();
    a.reseed(4);
    b.reseed(4);
    for _i in 0..10 {
        assert_eq!(a.pop_vec(), b.pop());
    }
}

// The cylindrical chain draws one fraction per base, outermost first, and
// they equal the scalar draws of the same bases.
#[test]
fn test_cylin_n_draws() {
    let base: [usize; 4] = [2, 3, 5, 7];
    let mut c = lds_gen::lds_n2::CylinN::new(&base).unwrap();
    let mut singles: Vec<VdCorput> =
        base.iter().map(|&b| VdCorput::new(b).unwrap()).collect();
    for _i in 0..10 {
        let fracs = c.pop();
        assert_eq!(fracs.len(), 4);
        for (f, s) in fracs.iter().zip(singles.iter_mut()) {
            assert_eq!(*f, s.pop());
        }
    }
    assert_eq!(
        lds_gen::lds_n2::CylinN::new(&[2]).unwrap_err(),
        ConfigError::TooFewBases,
    );
    assert_eq!(
        lds_gen::lds_n2::CylinN::new(&[2, 3, 1]).unwrap_err(),
        ConfigError::BaseTooSmall,
    );
}
