use third_harmonic::alpha_square::{
    AlphaSquare, delta_t_of_alpha_square, end_t_of_alpha_square, MAX_DELTA_T_TICKS,
    MID_DELTA_T_TICKS, MIN_DELTA_T_TICKS, TICKS_PER_TIME_UNIT,
};

const ALL: [AlphaSquare; 4] = [AlphaSquare::U1e1, AlphaSquare::U1e2, AlphaSquare::U1e3, AlphaSquare::U2e3];

#[test]
fn values_of_the_variants() {
    let values: Vec<u16> = ALL.iter().map(|e| e.value()).collect();
    assert_eq!(values, vec![10, 100, 1000, 2000]);
}

#[test]
fn from_value_finds_each_variant_back() {
    for e in ALL {
        assert_eq!(AlphaSquare::from_value(e.value()), Some(e));
    }
}

#[test]
fn from_value_refuses_other_numbers() {
    for v in [0u16, 1, 11, 99, 101, 999, 1001, 1999, 2001, 5000, 10_000, u16::MAX] {
        assert_eq!(AlphaSquare::from_value(v), None);
    }
}

#[test]
fn time_step_constants_in_ticks() {
    // 0.000_1, 0.000_05 and 0.000_01 time units at a precision of 10^-6.
    assert_eq!(TICKS_PER_TIME_UNIT, 1_000_000);
    assert_eq!(MAX_DELTA_T_TICKS, 100);
    assert_eq!(MID_DELTA_T_TICKS, 50);
    assert_eq!(MIN_DELTA_T_TICKS, 10);
    assert_eq!(TICKS_PER_TIME_UNIT / MAX_DELTA_T_TICKS as u64, 10_000);
}

#[test]
fn delta_t_per_variant() {
    assert_eq!(delta_t_of_alpha_square(AlphaSquare::U1e1), 100);
    assert_eq!(delta_t_of_alpha_square(AlphaSquare::U1e2), 100);
    assert_eq!(delta_t_of_alpha_square(AlphaSquare::U1e3), 100);
    assert_eq!(delta_t_of_alpha_square(AlphaSquare::U2e3), 50);
}

#[test]
fn delta_t_never_grows_with_the_photon_number() {
    for a in ALL {
        for b in ALL {
            if a.value() <= b.value() {
                assert!(delta_t_of_alpha_square(b) <= delta_t_of_alpha_square(a));
            }
        }
    }
}

#[test]
fn end_t_per_variant() {
    // 0.5, 0.05, 0.016 and 0.011 time units.
    assert_eq!(end_t_of_alpha_square(AlphaSquare::U1e1), 500_000);
    assert_eq!(end_t_of_alpha_square(AlphaSquare::U1e2), 50_000);
    assert_eq!(end_t_of_alpha_square(AlphaSquare::U1e3), 16_000);
    assert_eq!(end_t_of_alpha_square(AlphaSquare::U2e3), 11_000);
}

#[test]
fn ticks_give_back_the_float_constants() {
    let t = TICKS_PER_TIME_UNIT as f64;
    assert_eq!(delta_t_of_alpha_square(AlphaSquare::U1e1) as f64 / t, 0.000_1);
    assert_eq!(delta_t_of_alpha_square(AlphaSquare::U2e3) as f64 / t, 0.000_1 / 2.);
    assert_eq!(MIN_DELTA_T_TICKS as f64 / t, 0.000_01);
    assert_eq!(end_t_of_alpha_square(AlphaSquare::U1e3) as f64 / t, 0.016);
    assert_eq!(end_t_of_alpha_square(AlphaSquare::U2e3) as f64 / t, 0.011);
}
