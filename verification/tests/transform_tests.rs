use ocean_spectrum::spectrum::{apply_checkerboard, pack_spectrum_conjugates, ComplexBits, SpectrumTexel};
use ocean_spectrum::transform::{
    apply_stage, fft_pass, horizontal_fft, line_element, transform_field, transform_line,
    vertical_fft, FftPass,
};

type C = (f32, f32);

fn roots(n: usize) -> Vec<C> {
    (0..n / 2)
        .map(|k| {
            let angle = 2.0 * std::f64::consts::PI * k as f64 / n as f64;
            (angle.cos() as f32, angle.sin() as f32)
        })
        .collect()
}

fn butterfly_arithmetic(table: Vec<C>) -> impl Fn(C, C, u32) -> (C, C) {
    move |a: C, b: C, w: u32| {
        let r = table[w as usize];
        let t = (r.0 * b.0 - r.1 * b.1, r.0 * b.1 + r.1 * b.0);
        ((a.0 + t.0, a.1 + t.1), (a.0 - t.0, a.1 - t.1))
    }
}

/// The inverse transform by its definition, without the factor 1/n.
fn reference_line(input: &[C]) -> Vec<(f64, f64)> {
    let n = input.len();
    (0..n)
        .map(|p| {
            let mut sum = (0.0f64, 0.0f64);
            for (t, z) in input.iter().enumerate() {
                let angle = 2.0 * std::f64::consts::PI * ((p * t) % n) as f64 / n as f64;
                let (c, s) = (angle.cos(), angle.sin());
                sum.0 += z.0 as f64 * c - z.1 as f64 * s;
                sum.1 += z.0 as f64 * s + z.1 as f64 * c;
            }
            sum
        })
        .collect()
}

fn assert_close(got: &[C], want: &[(f64, f64)]) {
    let scale = want.iter().map(|z| z.0.hypot(z.1)).fold(1e-30, f64::max);
    for (g, w) in got.iter().zip(want) {
        let error = (g.0 as f64 - w.0).hypot(g.1 as f64 - w.1);
        assert!(error <= 1e-4 * scale);
    }
    assert_eq!(got.len(), want.len());
}

fn sample_line(n: usize) -> Vec<C> {
    (0..n)
        .map(|t| {
            let t = t as f32;
            ((0.37 * t).sin() + 0.1 * t, (0.11 * t * t).cos() - 0.5)
        })
        .collect()
}

#[test]
fn single_frequency_transforms_to_a_complex_wave() {
    let n = 256usize;
    let combine = butterfly_arithmetic(roots(n));
    for f in [0usize, 1, 5, 128, 255] {
        let mut line = vec![(0.0f32, 0.0f32); n];
        line[f] = (1.0, 0.0);
        transform_line(&mut line, 8, &combine);
        let want: Vec<(f64, f64)> = (0..n)
            .map(|p| {
                let angle = 2.0 * std::f64::consts::PI * ((p * f) % n) as f64 / n as f64;
                (angle.cos(), angle.sin())
            })
            .collect();
        assert_close(&line, &want);
    }
}

#[test]
fn constant_spectrum_transforms_to_a_single_peak() {
    let n = 64usize;
    let combine = butterfly_arithmetic(roots(n));
    let mut line = vec![(1.0f32, 0.0f32); n];
    transform_line(&mut line, 6, &combine);
    let mut want = vec![(0.0f64, 0.0f64); n];
    want[0] = (64.0, 0.0);
    assert_close(&line, &want);
}

#[test]
fn line_transform_matches_the_reference_transform() {
    for stages in 0..=8u32 {
        let n = 1usize << stages;
        let combine = butterfly_arithmetic(roots(n));
        let input = sample_line(n);
        let mut line = input.clone();
        transform_line(&mut line, stages, &combine);
        assert_close(&line, &reference_line(&input));
    }
}

#[test]
fn line_of_one_element_is_left_alone() {
    let combine = butterfly_arithmetic(roots(1));
    let mut line = vec![(3.0f32, -4.0f32)];
    transform_line(&mut line, 0, &combine);
    assert_eq!(line, vec![(3.0, -4.0)]);
}

#[test]
fn stage_hands_each_butterfly_to_the_arithmetic_once() {
    let tag = |a: u32, b: u32, w: u32| (1000 * w + 10 * a + b, 5000 + 1000 * w + 10 * a + b);
    let mut line: Vec<u32> = (0..8).collect();
    apply_stage(&mut line, 1, 3, &tag);
    assert_eq!(line, vec![2, 2013, 5002, 7013, 46, 2057, 5046, 7057]);
    let mut line: Vec<u32> = (0..8).collect();
    apply_stage(&mut line, 2, 3, &tag);
    assert_eq!(line, vec![4, 1015, 2026, 3037, 5004, 6015, 7026, 8037]);
}

#[test]
fn field_transform_matches_the_reference_transform() {
    let stages = 4u32;
    let n = 16usize;
    let combine = butterfly_arithmetic(roots(n));
    let input: Vec<C> = sample_line(n * n);
    let mut field = input.clone();
    transform_field(&mut field, stages, &combine);
    let mut rows: Vec<(f64, f64)> = Vec::new();
    for y in 0..n {
        rows.extend(reference_line(&input[y * n..(y + 1) * n]));
    }
    let rows32: Vec<C> = rows.iter().map(|z| (z.0 as f32, z.1 as f32)).collect();
    let mut want = vec![(0.0f64, 0.0f64); n * n];
    for x in 0..n {
        let column: Vec<C> = (0..n).map(|y| rows32[y * n + x]).collect();
        for (y, z) in reference_line(&column).into_iter().enumerate() {
            want[y * n + x] = z;
        }
    }
    assert_close(&field, &want);
}

#[test]
fn plane_wave_spectrum_transforms_to_a_plane_wave() {
    let stages = 5u32;
    let n = 32usize;
    let combine = butterfly_arithmetic(roots(n));
    let (fx, fy) = (3usize, 7usize);
    let mut field = vec![(0.0f32, 0.0f32); n * n];
    field[fy * n + fx] = (2.0, 0.0);
    transform_field(&mut field, stages, &combine);
    let want: Vec<(f64, f64)> = (0..n * n)
        .map(|i| {
            let (x, y) = (i % n, i / n);
            let angle = 2.0 * std::f64::consts::PI * ((x * fx + y * fy) % n) as f64 / n as f64;
            (2.0 * angle.cos(), 2.0 * angle.sin())
        })
        .collect();
    assert_close(&field, &want);
}

#[test]
fn two_passes_in_order_are_the_field_transform() {
    let stages = 3u32;
    let n = 8usize;
    let combine = butterfly_arithmetic(roots(n));
    let input = sample_line(n * n);
    let mut whole = input.clone();
    transform_field(&mut whole, stages, &combine);
    let mut stepwise = input.clone();
    horizontal_fft(&mut stepwise, stages, &combine);
    vertical_fft(&mut stepwise, stages, &combine);
    assert_eq!(whole, stepwise);
    let mut by_pass = input.clone();
    fft_pass(&mut by_pass, stages, FftPass::Horizontal, &combine);
    fft_pass(&mut by_pass, stages, FftPass::Vertical, &combine);
    assert_eq!(whole, by_pass);
}

#[test]
fn horizontal_pass_transforms_rows_and_vertical_pass_columns() {
    let stages = 3u32;
    let n = 8usize;
    let combine = butterfly_arithmetic(roots(n));
    let input = sample_line(n * n);
    let mut rows = input.clone();
    horizontal_fft(&mut rows, stages, &combine);
    for y in 0..n {
        let mut line = input[y * n..(y + 1) * n].to_vec();
        transform_line(&mut line, stages, &combine);
        assert_eq!(&rows[y * n..(y + 1) * n], &line[..]);
    }
    let mut columns = input.clone();
    vertical_fft(&mut columns, stages, &combine);
    for x in 0..n {
        let mut line: Vec<C> = (0..n).map(|y| input[y * n + x]).collect();
        transform_line(&mut line, stages, &combine);
        for y in 0..n {
            assert_eq!(columns[y * n + x], line[y]);
        }
    }
}

#[test]
fn line_element_addresses_rows_and_columns() {
    assert_eq!(line_element(FftPass::Horizontal, 2, 5, 8), 21);
    assert_eq!(line_element(FftPass::Vertical, 2, 5, 8), 42);
    assert_eq!(line_element(FftPass::Horizontal, 0, 0, 1), 0);
    for l in 0..8 {
        for i in 0..8 {
            assert_eq!(
                line_element(FftPass::Vertical, l, i, 8),
                line_element(FftPass::Horizontal, i, l, 8)
            );
        }
    }
}

#[test]
fn hermitian_spectrum_transforms_to_a_real_field() {
    let stages = 4u32;
    let n = 16usize;
    let combine = butterfly_arithmetic(roots(n));
    let mut texels: Vec<SpectrumTexel> = sample_line(n * n)
        .iter()
        .map(|z| SpectrumTexel {
            amplitude: ComplexBits { re: z.0.to_bits(), im: z.1.to_bits() },
            mirrored_conjugate: ComplexBits { re: 0, im: 0 },
        })
        .collect();
    pack_spectrum_conjugates(&mut texels, n);
    let mut field: Vec<C> = texels
        .iter()
        .map(|t| {
            (
                f32::from_bits(t.amplitude.re) + f32::from_bits(t.mirrored_conjugate.re),
                f32::from_bits(t.amplitude.im) + f32::from_bits(t.mirrored_conjugate.im),
            )
        })
        .collect();
    transform_field(&mut field, stages, &combine);
    let scale = field.iter().map(|z| z.0.abs()).fold(0.0f32, f32::max);
    assert!(scale > 1.0);
    for z in &field {
        assert!(z.1.abs() <= 1e-4 * scale);
    }
}

#[test]
fn zero_spectrum_gives_a_flat_ocean() {
    let stages = 5u32;
    let n = 32usize;
    let combine = butterfly_arithmetic(roots(n));
    let scale = 0.0f32;
    let zero = ComplexBits { re: 0, im: 0 };
    let mut spectrum: Vec<SpectrumTexel> = sample_line(n * n)
        .iter()
        .map(|z| SpectrumTexel {
            amplitude: ComplexBits { re: (scale * z.0).to_bits(), im: (scale * z.1).to_bits() },
            mirrored_conjugate: zero,
        })
        .collect();
    pack_spectrum_conjugates(&mut spectrum, n);
    let (cos, sin) = (0.8f32, 0.6f32);
    let mut field: Vec<C> = spectrum
        .iter()
        .map(|t| {
            let a = (f32::from_bits(t.amplitude.re), f32::from_bits(t.amplitude.im));
            let b = (
                f32::from_bits(t.mirrored_conjugate.re),
                f32::from_bits(t.mirrored_conjugate.im),
            );
            (
                a.0 * cos - a.1 * sin + b.0 * cos + b.1 * sin,
                a.0 * sin + a.1 * cos - b.0 * sin + b.1 * cos,
            )
        })
        .collect();
    transform_field(&mut field, stages, &combine);
    let mut heights: Vec<u32> = field.iter().map(|z| z.0.to_bits()).collect();
    apply_checkerboard(&mut heights, n);
    assert_eq!(heights.len(), n * n);
    for h in heights {
        assert_eq!(f32::from_bits(h), 0.0);
    }
}
