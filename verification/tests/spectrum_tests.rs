use ocean_spectrum::grid::mirror_texel;
use ocean_spectrum::spectrum::{
    apply_checkerboard, is_zero_bits, negate, pack_spectrum_conjugates, ComplexBits,
    SpectrumTexel, SIGN_BIT,
};

fn complex(re: f32, im: f32) -> ComplexBits {
    ComplexBits { re: re.to_bits(), im: im.to_bits() }
}

fn unpacked(n: usize) -> Vec<SpectrumTexel> {
    (0..n * n)
        .map(|i| SpectrumTexel {
            amplitude: complex(i as f32 + 0.5, 1000.0 - 3.0 * i as f32),
            mirrored_conjugate: complex(f32::NAN, -7.0),
        })
        .collect()
}

#[test]
fn negate_flips_the_sign_of_the_number() {
    assert_eq!(SIGN_BIT, 0x8000_0000);
    for v in [0.0f32, -0.0, 1.5, -2.25, f32::MAX, f32::MIN_POSITIVE, f32::INFINITY] {
        assert_eq!(negate(v.to_bits()), (-v).to_bits());
        assert_eq!(negate(negate(v.to_bits())), v.to_bits());
    }
    assert_eq!(negate(0), 0x8000_0000);
    assert_eq!(negate(0x3f80_0000), 0xbf80_0000);
    assert!(f32::from_bits(negate(f32::NAN.to_bits())).is_nan());
}

#[test]
fn conjugate_negates_the_imaginary_part_only() {
    let z = complex(3.0, 4.0);
    assert_eq!(z.conjugate(), complex(3.0, -4.0));
    assert_eq!(z.conjugate().conjugate(), z);
    assert_eq!(complex(-1.0, 0.0).conjugate(), complex(-1.0, -0.0));
}

#[test]
fn packing_stores_the_conjugate_of_the_mirrored_amplitude() {
    let n = 8usize;
    let before = unpacked(n);
    let mut field = before.clone();
    pack_spectrum_conjugates(&mut field, n);
    for i in 0..n * n {
        assert_eq!(field[i].amplitude, before[i].amplitude);
        assert_eq!(field[i].mirrored_conjugate, before[mirror_texel(i, n)].amplitude.conjugate());
    }
    assert_eq!(field[1].mirrored_conjugate, complex(7.5, -979.0));
    assert_eq!(field[9].mirrored_conjugate, complex(63.5, -811.0));
}

#[test]
fn packed_field_is_hermitian() {
    for n in [1usize, 2, 8, 16] {
        let mut field = unpacked(n);
        pack_spectrum_conjugates(&mut field, n);
        for k in 0..n * n {
            let mirrored = mirror_texel(k, n);
            assert_eq!(field[mirrored].mirrored_conjugate, field[k].amplitude.conjugate());
            assert_eq!(field[k].mirrored_conjugate.conjugate(), field[mirrored].amplitude);
        }
    }
}

#[test]
fn packing_twice_changes_nothing_more() {
    let n = 8usize;
    let mut field = unpacked(n);
    pack_spectrum_conjugates(&mut field, n);
    let once = field.clone();
    pack_spectrum_conjugates(&mut field, n);
    assert_eq!(field, once);
}

#[test]
fn packing_an_empty_field_leaves_it_empty() {
    let mut field: Vec<SpectrumTexel> = Vec::new();
    pack_spectrum_conjugates(&mut field, 0);
    assert!(field.is_empty());
}

#[test]
fn self_mirrored_texel_holds_its_own_conjugate() {
    let n = 4usize;
    let mut field = unpacked(n);
    pack_spectrum_conjugates(&mut field, n);
    for i in [0usize, 2, 8, 10] {
        assert_eq!(field[i].mirrored_conjugate, field[i].amplitude.conjugate());
    }
}

#[test]
fn checkerboard_negates_every_other_value() {
    let n = 4usize;
    let before: Vec<u32> = (0..n * n).map(|i| (i as f32 + 1.0).to_bits()).collect();
    let mut values = before.clone();
    apply_checkerboard(&mut values, n);
    for y in 0..n {
        for x in 0..n {
            let v = i32::from(x as u8) + i32::from(y as u8);
            let sign = if v % 2 == 0 { 1.0f32 } else { -1.0 };
            let i = y * n + x;
            assert_eq!(f32::from_bits(values[i]), sign * f32::from_bits(before[i]));
        }
    }
    assert_eq!(f32::from_bits(values[0]), 1.0);
    assert_eq!(f32::from_bits(values[1]), -2.0);
    assert_eq!(f32::from_bits(values[4]), -5.0);
    assert_eq!(f32::from_bits(values[5]), 6.0);
    apply_checkerboard(&mut values, n);
    assert_eq!(values, before);
}

#[test]
fn zero_of_either_sign_is_zero() {
    assert!(is_zero_bits(0.0f32.to_bits()));
    assert!(is_zero_bits((-0.0f32).to_bits()));
    assert!(!is_zero_bits(f32::MIN_POSITIVE.to_bits()));
    assert!(!is_zero_bits(1));
    assert!(!is_zero_bits(f32::NAN.to_bits()));
}

#[test]
fn zero_spectrum_packs_and_recentres_to_zero() {
    let n = 8usize;
    let zero = complex(0.0, 0.0);
    let mut field = vec![SpectrumTexel { amplitude: zero, mirrored_conjugate: zero }; n * n];
    pack_spectrum_conjugates(&mut field, n);
    for texel in &field {
        assert_eq!(f32::from_bits(texel.mirrored_conjugate.re), 0.0);
        assert_eq!(f32::from_bits(texel.mirrored_conjugate.im), 0.0);
        assert!(is_zero_bits(texel.mirrored_conjugate.im));
    }
    let mut heights = vec![0u32; n * n];
    apply_checkerboard(&mut heights, n);
    assert!(heights.iter().all(|&h| f32::from_bits(h) == 0.0));
}
