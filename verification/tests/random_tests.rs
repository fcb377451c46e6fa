use ocean_spectrum::random::{mix, sample_words, SampleWords};

#[test]
fn mix_of_known_states() {
    assert_eq!(mix(0), 129708002);
    assert_eq!(mix(1), 2831084092);
    assert_eq!(mix(12345), 4099845390);
}

#[test]
fn mix_agrees_with_wrapping_arithmetic() {
    let reference = |input: u32| {
        let state = input.wrapping_mul(747796405).wrapping_add(2891336453);
        let word = ((state >> ((state >> 28) + 4)) ^ state).wrapping_mul(277803737);
        (word >> 22) ^ word
    };
    let mut state = 1u32;
    for _ in 0..2000 {
        assert_eq!(mix(state), reference(state));
        state = state.wrapping_mul(1664525).wrapping_add(1013904223);
    }
    assert_eq!(mix(u32::MAX), reference(u32::MAX));
}

#[test]
fn mix_maps_different_states_to_different_words() {
    let mut words: Vec<u32> = (0..5000u32).map(mix).collect();
    words.sort_unstable();
    words.dedup();
    assert_eq!(words.len(), 5000);
}

#[test]
fn sample_words_fold_seed_column_row_and_slot() {
    let words = sample_words(7, 3, 5, 2);
    let first = mix(mix(mix(mix(7) ^ 3) ^ 5) ^ 2);
    assert_eq!(words, SampleWords { first, second: mix(first) });
}

#[test]
fn sample_words_are_reproducible() {
    for seed in [0u32, 1, 99] {
        for slot in 0..8 {
            assert_eq!(sample_words(seed, 17, 250, slot), sample_words(seed, 17, 250, slot));
        }
    }
}

#[test]
fn samples_differ_along_each_coordinate() {
    let here = sample_words(42, 10, 20, 3);
    for other in 0..256u32 {
        if other != 10 {
            assert_ne!(sample_words(42, other, 20, 3).first, here.first);
        }
        if other != 20 {
            assert_ne!(sample_words(42, 10, other, 3).first, here.first);
        }
        if other != 3 {
            assert_ne!(sample_words(42, 10, 20, other).first, here.first);
        }
        if other != 42 {
            assert_ne!(sample_words(other, 10, 20, 3).first, here.first);
        }
    }
}
