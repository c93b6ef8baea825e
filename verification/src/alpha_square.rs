use vstd::prelude::*;

verus! {

/// Number of clock ticks in one unit of the (dimensionless) evolution time.
/// A tick is the precision to which every time of the evolution is rounded:
/// a hundredth of the largest time step.
pub const TICKS_PER_TIME_UNIT: u64 = 1_000_000;

/// Largest time step, used up to a mean photon number of 1 000 (0.000_1).
pub const MAX_DELTA_T_TICKS: u32 = 100;

/// Time step used between the two thresholds (0.000_05).
pub const MID_DELTA_T_TICKS: u32 = MAX_DELTA_T_TICKS / 2;

/// Smallest time step, used from a mean photon number of 5 000 on (0.000_01).
pub const MIN_DELTA_T_TICKS: u32 = 10;

/// Mean (and variance) of the Poisson distribution of the pump photon number at
/// time zero: the squared modulus of the coherent-state amplitude.
#[derive(Debug, Clone, Copy, PartialEq, Eq, Structural)]
pub enum AlphaSquare {
    U1e1,
    U1e2,
    U1e3,
    U2e3,
}

/// The photon number that each variant stands for.
pub open spec fn alpha_square_value(e: AlphaSquare) -> u16 {
    match e {
        AlphaSquare::U1e1 => 10,
        AlphaSquare::U1e2 => 100,
        AlphaSquare::U1e3 => 1000,
        AlphaSquare::U2e3 => 2000,
    }
}

/// Time step, in ticks, for a mean photon number `v`: the largest step up to
/// 1 000, the smallest from 5 000 on, and the middle one in between.
pub open spec fn delta_t_ticks_of_value(v: int) -> u32 {
    if v <= 1000 {
        MAX_DELTA_T_TICKS
    } else if v >= 5000 {
        MIN_DELTA_T_TICKS
    } else {
        MID_DELTA_T_TICKS
    }
}

/// Total evolution time, in ticks, chosen to observe the dynamics up to the
/// first local maximum of the signal-mode population.
pub open spec fn end_t_ticks_spec(e: AlphaSquare) -> u32 {
    match e {
        AlphaSquare::U1e1 => 500_000,
        AlphaSquare::U1e2 => 50_000,
        AlphaSquare::U1e3 => 16_000,
        AlphaSquare::U2e3 => 11_000,
    }
}

impl AlphaSquare {
    /// The mean pump photon number of this variant.
    pub fn value(self) -> (v: u16)
        ensures
            v == alpha_square_value(self),
            self == AlphaSquare::U1e1 ==> v == 10,
            self == AlphaSquare::U1e2 ==> v == 100,
            self == AlphaSquare::U1e3 ==> v == 1000,
            self == AlphaSquare::U2e3 ==> v == 2000,
    {
        match self {
            AlphaSquare::U1e1 => 10,
            AlphaSquare::U1e2 => 100,
            AlphaSquare::U1e3 => 1000,
            AlphaSquare::U2e3 => 2000,
        }
    }

    /// The variant whose mean photon number is `v`, if there is one.
    pub fn from_value(v: u16) -> (r: Option<AlphaSquare>)
        ensures
            r matches Some(e) ==> alpha_square_value(e) == v,
            r is None <==> (forall|e: AlphaSquare| alpha_square_value(e) != v),
            r == (if v == 10 {
                Some(AlphaSquare::U1e1)
            } else if v == 100 {
                Some(AlphaSquare::U1e2)
            } else if v == 1000 {
                Some(AlphaSquare::U1e3)
            } else if v == 2000 {
                Some(AlphaSquare::U2e3)
            } else {
                None::<AlphaSquare>
            }),
    {
        if v == 10 {
            assert(alpha_square_value(AlphaSquare::U1e1) == v);
            Some(AlphaSquare::U1e1)
        } else if v == 100 {
            assert(alpha_square_value(AlphaSquare::U1e2) == v);
            Some(AlphaSquare::U1e2)
        } else if v == 1000 {
            assert(alpha_square_value(AlphaSquare::U1e3) == v);
            Some(AlphaSquare::U1e3)
        } else if v == 2000 {
            assert(alpha_square_value(AlphaSquare::U2e3) == v);
            Some(AlphaSquare::U2e3)
        } else {
            assert forall|e: AlphaSquare| alpha_square_value(e) != v by {
                match e {
                    AlphaSquare::U1e1 => {},
                    AlphaSquare::U1e2 => {},
                    AlphaSquare::U1e3 => {},
                    AlphaSquare::U2e3 => {},
                }
            }
            None
        }
    }
}

/// Time step of the evolution, in ticks, for `e_alpha_square`.
pub fn delta_t_of_alpha_square(e_alpha_square: AlphaSquare) -> (d: u32)
    ensures
        d == delta_t_ticks_of_value(alpha_square_value(e_alpha_square) as int),
        alpha_square_value(e_alpha_square) <= 1000 ==> d == 100,
        1000 < alpha_square_value(e_alpha_square) < 5000 ==> d == 50,
        alpha_square_value(e_alpha_square) >= 5000 ==> d == 10,
{
    let v = e_alpha_square.value();
    if v <= 1000 {
        MAX_DELTA_T_TICKS
    } else if v >= 5000 {
        MIN_DELTA_T_TICKS
    } else {
        MID_DELTA_T_TICKS
    }
}

/// Total time of the evolution, in ticks, for `e_alpha_square`.
pub fn end_t_of_alpha_square(e_alpha_square: AlphaSquare) -> (t: u32)
    ensures
        t == end_t_ticks_spec(e_alpha_square),
        e_alpha_square == AlphaSquare::U1e1 ==> t == 500_000,
        e_alpha_square == AlphaSquare::U1e2 ==> t == 50_000,
        e_alpha_square == AlphaSquare::U1e3 ==> t == 16_000,
        e_alpha_square == AlphaSquare::U2e3 ==> t == 11_000,
{
    match e_alpha_square {
        AlphaSquare::U1e1 => 500_000,
        AlphaSquare::U1e2 => 50_000,
        AlphaSquare::U1e3 => 16_000,
        AlphaSquare::U2e3 => 11_000,
    }
}

/// Each mean photon number names at most one variant, so that looking a variant
/// up by its own number (`AlphaSquare::from_value`) gives it back.
pub proof fn lemma_value_injective(a: AlphaSquare, b: AlphaSquare)
    ensures
        alpha_square_value(a) == alpha_square_value(b) <==> a == b,
{
}

/// A larger mean photon number never gets a larger time step.
pub proof fn lemma_delta_t_non_increasing(a: AlphaSquare, b: AlphaSquare)
    requires
        alpha_square_value(a) <= alpha_square_value(b),
    ensures
        delta_t_ticks_of_value(alpha_square_value(b) as int) <= delta_t_ticks_of_value(
            alpha_square_value(a) as int,
        ),
{
}

} // verus!
