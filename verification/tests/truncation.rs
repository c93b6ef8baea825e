use third_harmonic::poisson::{poisson_support_len, relevant_poisson_distribution_indices};

/// Poisson probability of `k` photons for a mean `alpha_square`, computed as the
/// simulation does: by the factorial up to 93 photons, by Stirling's formula
/// beyond.
fn poisson_pmf(alpha_square: u16, k: u16) -> f64 {
    let mu = f64::from(alpha_square);
    if k <= 93 {
        let k = i32::from(k);
        mu.powi(k) * (-mu).exp() / (1..=k).map(f64::from).product::<f64>()
    } else {
        let k = f64::from(k);
        (k.mul_add(mu.ln(), -mu)
            - if k <= 1.0 {
                0.0
            } else {
                0.5_f64.mul_add((2.0 * std::f64::consts::PI * k).ln(), k.mul_add(k.ln(), -k))
            })
        .exp()
    }
}

fn mask(alpha_square: u16, pb_th: f64) -> Vec<bool> {
    (0..poisson_support_len(alpha_square)).map(|k| poisson_pmf(alpha_square, k) > pb_th).collect()
}

#[test]
fn support_is_eleven_times_the_mean() {
    assert_eq!(poisson_support_len(10), 110);
    assert_eq!(poisson_support_len(100), 1_100);
    assert_eq!(poisson_support_len(1_000), 11_000);
    assert_eq!(poisson_support_len(2_000), 22_000);
}

#[test]
fn fock_state_keeps_only_the_mean() {
    let above = vec![true; 30];
    assert_eq!(relevant_poisson_distribution_indices(&above, 10, true), vec![10]);
    assert_eq!(relevant_poisson_distribution_indices(&[], 2_000, true), vec![2_000]);
}

#[test]
fn photon_number_zero_is_never_relevant() {
    let above = vec![true, true, false, true, true, false];
    assert_eq!(relevant_poisson_distribution_indices(&above, 2, false), vec![1, 3, 4]);
    assert_eq!(relevant_poisson_distribution_indices(&[true], 1, false), Vec::<u16>::new());
}

#[test]
fn nothing_above_threshold_gives_no_index() {
    let above = vec![false; 110];
    assert!(relevant_poisson_distribution_indices(&above, 10, false).is_empty());
}

#[test]
fn relevant_indices_are_increasing_and_selected() {
    let above: Vec<bool> = (0..200u32).map(|i| i % 7 == 3 || i % 5 == 0).collect();
    let idxs = relevant_poisson_distribution_indices(&above, 20, false);
    for w in idxs.windows(2) {
        assert!(w[0] < w[1]);
    }
    for i in 1..200usize {
        assert_eq!(idxs.contains(&(i as u16)), above[i]);
    }
}

#[test]
fn relevant_indices_of_the_coherent_states() {
    // Threshold 1e-16, as the simulation uses.
    let cases: [(u16, usize, u16, u16); 4] =
        [(10, 45, 1, 45), (100, 163, 30, 192), (1_000, 509, 756, 1_264), (2_000, 717, 1_652, 2_368)];
    for (alpha_square, len, first, last) in cases {
        let idxs = relevant_poisson_distribution_indices(&mask(alpha_square, 1e-16), alpha_square, false);
        assert_eq!(idxs.len(), len);
        assert_eq!(idxs[0], first);
        assert_eq!(idxs[len - 1], last);
        let contiguous: Vec<u16> = (first..=last).collect();
        assert_eq!(idxs, contiguous);
    }
}
