use third_harmonic::hamiltonian::lower_diagonal_squares_of_hamiltonian_in_subspace_of;
use third_harmonic::layout::states_coeff;
use third_harmonic::moments::{coeff, moment_terms, MomentTerm};

#[test]
fn lower_diagonal_squares() {
    assert_eq!(lower_diagonal_squares_of_hamiltonian_in_subspace_of(0), Vec::<u128>::new());
    assert_eq!(lower_diagonal_squares_of_hamiltonian_in_subspace_of(1), vec![6]);
    assert_eq!(lower_diagonal_squares_of_hamiltonian_in_subspace_of(3), vec![18, 240, 504]);
    let big = lower_diagonal_squares_of_hamiltonian_in_subspace_of(u16::MAX);
    assert_eq!(big.len(), 65_535);
    assert_eq!(big[65_534], 196_603u128 * 196_604 * 196_605);
    assert!(big.iter().all(|&v| v > 0));
}

#[test]
fn coeff_reads_the_amplitude_of_its_state() {
    // Blocks of excitation numbers 2, 3, 4: 3 + 4 + 5 components.
    let state: Vec<i32> = (0..12).collect();
    assert_eq!(coeff(2, 0, &state, 2, 4, -1), 0);
    assert_eq!(coeff(0, 2, &state, 2, 4, -1), 2);
    assert_eq!(coeff(3, 0, &state, 2, 4, -1), 3);
    assert_eq!(coeff(1, 3, &state, 2, 4, -1), 10);
    assert_eq!(coeff(0, 4, &state, 2, 4, -1), 11);
    assert_eq!(coeff(1, 0, &state, 2, 4, -1), -1);
    assert_eq!(coeff(4, 1, &state, 2, 4, -1), -1);
}

#[test]
fn coeff_stays_in_the_block_of_its_excitation_number() {
    let idxs: Vec<u16> = (5..=20).collect();
    let labels = states_coeff(&idxs);
    let positions: Vec<usize> = (0..labels.len()).collect();
    for pump in 0..=20u16 {
        for third in 0..=20u16 {
            let exc = pump + third;
            if (5..=20).contains(&exc) {
                let at = coeff(pump, third, &positions, 5, 20, usize::MAX);
                assert_eq!(labels[at], exc);
            } else {
                assert_eq!(coeff(pump, third, &positions, 5, 20, usize::MAX), usize::MAX);
            }
        }
    }
}

#[test]
fn terms_of_the_pump_population() {
    let terms = moment_terms(1, 1, 0, 0, 1, 2);
    let expected = vec![
        MomentTerm { idx: 1, k: 0, pump: 1, pump_shifted: 1, signal_shifted: 0 },
        MomentTerm { idx: 2, k: 0, pump: 2, pump_shifted: 2, signal_shifted: 0 },
        MomentTerm { idx: 2, k: 1, pump: 1, pump_shifted: 1, signal_shifted: 3 },
    ];
    assert_eq!(terms, expected);
}

#[test]
fn terms_of_the_signal_population() {
    let terms = moment_terms(0, 0, 1, 1, 1, 2);
    let expected = vec![
        MomentTerm { idx: 1, k: 1, pump: 0, pump_shifted: 0, signal_shifted: 3 },
        MomentTerm { idx: 2, k: 1, pump: 1, pump_shifted: 1, signal_shifted: 3 },
        MomentTerm { idx: 2, k: 2, pump: 0, pump_shifted: 0, signal_shifted: 6 },
    ];
    assert_eq!(terms, expected);
}

#[test]
fn terms_of_the_pump_amplitude_shift_the_excitation() {
    let terms = moment_terms(1, 0, 0, 0, 3, 3);
    assert_eq!(terms.len(), 3);
    for t in &terms {
        assert_eq!(t.pump_shifted + t.signal_shifted / 3 + 1, t.idx);
    }
}

#[test]
fn signal_operators_off_the_lattice_give_no_term() {
    assert!(moment_terms(0, 0, 0, 1, 0, 10).is_empty());
    assert!(moment_terms(0, 0, 1, 2, 0, 10).is_empty());
    assert!(moment_terms(0, 0, 0, 2, 0, 10).is_empty());
    assert_eq!(moment_terms(0, 0, 0, 3, 0, 1).len(), 3);
}

#[test]
fn every_surviving_state_once_in_order() {
    let (pi1, pi2, sig1, sig2, start, end) = (2u16, 2u16, 1u16, 1u16, 3u16, 9u16);
    let terms = moment_terms(pi1, pi2, sig1, sig2, start, end);
    let mut expected = Vec::new();
    for idx in start..=end {
        for k in 0..=idx {
            if pi1 <= idx - k && sig1 <= k {
                expected.push((idx, k));
            }
        }
    }
    let got: Vec<(u16, u16)> = terms.iter().map(|t| (t.idx, t.k)).collect();
    assert_eq!(got, expected);
}

#[test]
fn empty_truncation_gives_no_term() {
    assert!(moment_terms(1, 1, 0, 0, 5, 4).is_empty());
    assert!(moment_terms(3, 3, 3, 3, 0, 5).is_empty());
}
