use ocean_spectrum::fft::{
    bit_reverse, bit_reverse_permute, butterfly, owning_butterfly, power_of_two, Butterfly,
};

#[test]
fn power_of_two_values() {
    assert_eq!(power_of_two(0), 1);
    assert_eq!(power_of_two(1), 2);
    assert_eq!(power_of_two(8), 256);
    assert_eq!(power_of_two(31), 0x8000_0000);
}

#[test]
fn bit_reverse_of_three_bits() {
    let expected = [0u32, 4, 2, 6, 1, 5, 3, 7];
    for (i, &r) in expected.iter().enumerate() {
        assert_eq!(bit_reverse(i as u32, 3), r);
    }
}

#[test]
fn bit_reverse_edge_widths() {
    assert_eq!(bit_reverse(0, 0), 0);
    assert_eq!(bit_reverse(12345, 0), 0);
    assert_eq!(bit_reverse(1, 1), 1);
    assert_eq!(bit_reverse(1, 8), 128);
    assert_eq!(bit_reverse(0b1101_0010, 8), 0b0100_1011);
    assert_eq!(bit_reverse(1, 32), 0x8000_0000);
    assert_eq!(bit_reverse(0x8000_0000, 32), 1);
    assert_eq!(bit_reverse(u32::MAX, 32), u32::MAX);
    assert_eq!(bit_reverse(0xffff_ff01, 8), 0x80);
}

#[test]
fn bit_reverse_agrees_with_the_machine_instruction() {
    for bits in 1..=16u32 {
        for i in (0..(1u32 << bits)).step_by(37) {
            assert_eq!(bit_reverse(i, bits), i.reverse_bits() >> (32 - bits));
        }
    }
}

#[test]
fn bit_reverse_is_an_involution_and_a_permutation() {
    let bits = 8u32;
    let mut seen = vec![false; 256];
    for i in 0..256u32 {
        let r = bit_reverse(i, bits);
        assert!(r < 256);
        assert_eq!(bit_reverse(r, bits), i);
        assert!(!seen[r as usize]);
        seen[r as usize] = true;
    }
}

#[test]
fn bit_reverse_permute_reorders_a_line() {
    let line: Vec<u32> = (10..18).collect();
    assert_eq!(bit_reverse_permute(&line, 3), vec![10, 14, 12, 16, 11, 15, 13, 17]);
    let single = vec![9u32];
    assert_eq!(bit_reverse_permute(&single, 0), vec![9]);
    let twice = bit_reverse_permute(&bit_reverse_permute(&line, 3), 3);
    assert_eq!(twice, line);
}

#[test]
fn butterflies_of_a_line_of_eight() {
    let b = |top, bottom, twiddle| Butterfly { top, bottom, twiddle };
    let stage0: Vec<Butterfly> = (0..4).map(|j| butterfly(0, j, 3)).collect();
    assert_eq!(stage0, vec![b(0, 1, 0), b(2, 3, 0), b(4, 5, 0), b(6, 7, 0)]);
    let stage1: Vec<Butterfly> = (0..4).map(|j| butterfly(1, j, 3)).collect();
    assert_eq!(stage1, vec![b(0, 2, 0), b(1, 3, 2), b(4, 6, 0), b(5, 7, 2)]);
    let stage2: Vec<Butterfly> = (0..4).map(|j| butterfly(2, j, 3)).collect();
    assert_eq!(stage2, vec![b(0, 4, 0), b(1, 5, 1), b(2, 6, 2), b(3, 7, 3)]);
}

#[test]
fn butterfly_of_a_line_of_two() {
    assert_eq!(butterfly(0, 0, 1), Butterfly { top: 0, bottom: 1, twiddle: 0 });
}

#[test]
fn butterflies_of_the_widest_line() {
    let last = butterfly(30, 0x3fff_ffff, 31);
    assert_eq!(last, Butterfly { top: 0x3fff_ffff, bottom: 0x7fff_ffff, twiddle: 0x3fff_ffff });
    let first = butterfly(0, 0x3fff_ffff, 31);
    assert_eq!(first, Butterfly { top: 0x7fff_fffe, bottom: 0x7fff_ffff, twiddle: 0 });
}

#[test]
fn every_position_belongs_to_one_butterfly_of_each_stage() {
    let stages = 8u32;
    let n = 256u32;
    for stage in 0..stages {
        let mut touched = vec![0u32; n as usize];
        for j in 0..n / 2 {
            let b = butterfly(stage, j, stages);
            assert!(b.top < b.bottom && b.bottom < n);
            assert_eq!(b.bottom - b.top, 1 << stage);
            assert!(b.twiddle < n / 2);
            touched[b.top as usize] += 1;
            touched[b.bottom as usize] += 1;
            assert_eq!(owning_butterfly(stage, b.top, stages), (j, true));
            assert_eq!(owning_butterfly(stage, b.bottom, stages), (j, false));
        }
        assert!(touched.iter().all(|&t| t == 1));
    }
}

#[test]
fn last_stage_uses_every_root_once() {
    let stages = 6u32;
    let roots: Vec<u32> = (0..32).map(|j| butterfly(stages - 1, j, stages).twiddle).collect();
    assert_eq!(roots, (0..32).collect::<Vec<u32>>());
    let first: Vec<u32> = (0..32).map(|j| butterfly(0, j, stages).twiddle).collect();
    assert!(first.iter().all(|&w| w == 0));
}
