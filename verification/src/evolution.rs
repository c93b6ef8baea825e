use vstd::prelude::*;
use crate::layout::{
    HAMIL_XTRA,
    layout_dim,
    coeff_layout,
    hilbert_space_dim,
    states_coeff,
    lemma_layout_ends,
};
use crate::poisson::{
    relevant_indices_spec,
    relevant_poisson_distribution_indices,
    lemma_indices_above_sorted,
};

verus! {

/// Why no evolution can be set up.
#[derive(Debug, Clone, Copy, PartialEq, Eq, Structural)]
pub enum EvolutionError {
    /// No photon number of the initial Poisson distribution has a probability
    /// above the threshold.
    NoRelevantIndex,
}

/// The integer skeleton of a state evolution: the relevant excitation numbers,
/// the layout of the state vector over them, and the time grid in ticks.
pub struct EvolutionLayout {
    pub relevant_idxs: Vec<u16>,
    pub hilbert_space_dim: usize,
    pub states_coeff: Vec<u16>,
    pub end_t: u64,
    pub time_ts: Vec<u64>,
}

/// The times `0, delta_t, 2 * delta_t, ..., step_cnt * delta_t`, in ticks.
pub fn time_grid(delta_t: u32, step_cnt: u16) -> (ts: Vec<u64>)
    ensures
        ts@.len() == step_cnt + 1,
        forall|i: int| 0 <= i <= step_cnt ==> #[trigger] ts@[i] == i * delta_t,
{
    let mut ts: Vec<u64> = Vec::new();
    let mut i: u32 = 0;
    while i <= step_cnt as u32
        invariant
            i <= step_cnt + 1,
            ts@.len() == i,
            forall|j: int| 0 <= j < i ==> #[trigger] ts@[j] == j * delta_t,
        decreases step_cnt + 1 - i,
    {
        proof {
            assert(i as u64 * delta_t as u64 <= 65535 * 0xffff_ffff) by (nonlinear_arith)
                requires
                    i <= 65535,
                    delta_t <= 0xffff_ffff,
            ;
        }
        ts.push(i as u64 * delta_t as u64);
        i = i + 1;
    }
    ts
}

/// Strictly increasing excitation numbers below `2^16` that leave out 0 are at
/// most `2^16 - 1`, so their Hilbert space dimension fits in 32 bits.
proof fn lemma_increasing_dim_bound(s: Seq<u16>)
    requires
        forall|j: int| 0 <= j < s.len() ==> 0 < #[trigger] s[j],
        forall|a: int, b: int| 0 <= a < b < s.len() ==> s[a] < s[b],
    ensures
        s.len() <= 65535,
        layout_dim(s) <= s.len() * 65536,
    decreases s.len(),
{
    if s.len() > 0 {
        let t = s.drop_last();
        lemma_increasing_dim_bound(t);
        assert forall|j: int| 0 <= j < s.len() implies #[trigger] s[j] >= j + 1 by {
            lemma_increasing_at_least(s, j);
        }
        assert(s[s.len() - 1] >= s.len());
    }
}

proof fn lemma_increasing_at_least(s: Seq<u16>, j: int)
    requires
        forall|j: int| 0 <= j < s.len() ==> 0 < #[trigger] s[j],
        forall|a: int, b: int| 0 <= a < b < s.len() ==> s[a] < s[b],
        0 <= j < s.len(),
    ensures
        s[j] >= j + 1,
    decreases j,
{
    if j > 0 {
        lemma_increasing_at_least(s, j - 1);
        assert(s[j - 1] < s[j]);
    }
}

impl EvolutionLayout {
    /// Sets up the evolution of the photon populations for a mean photon
    /// number `alpha_square`, steps of `delta_t` ticks and `step_cnt` steps,
    /// where `above_threshold[i]` tells whether the Poisson probability of
    /// photon number `i` lies above the threshold and `fock` asks for the Fock
    /// state of `alpha_square` photons instead of the coherent state.
    ///
    /// Fails when no photon number is relevant.
    pub fn new(
        alpha_square: u16,
        delta_t: u32,
        step_cnt: u16,
        above_threshold: &[bool],
        fock: bool,
    ) -> (r: Result<EvolutionLayout, EvolutionError>)
        requires
            above_threshold@.len() <= u16::MAX + 1,
        ensures
            r is Err <==> relevant_indices_spec(above_threshold@, alpha_square, fock).len() == 0,
            fock ==> (r matches Ok(l) && l.relevant_idxs@ == seq![alpha_square]
                && l.hilbert_space_dim == alpha_square + 1 && l.states_coeff@.len() == alpha_square
                + 1 && forall|p: int|
                0 <= p <= alpha_square ==> #[trigger] l.states_coeff@[p] == alpha_square),
            !fock ==> (r is Err <==> forall|i: int|
                0 < i < above_threshold@.len() ==> !#[trigger] above_threshold@[i]),
            r matches Err(e) ==> e == EvolutionError::NoRelevantIndex,
            r matches Ok(l) ==> {
                let idxs = relevant_indices_spec(above_threshold@, alpha_square, fock);
                &&& l.relevant_idxs@ == idxs
                &&& l.hilbert_space_dim == layout_dim(idxs)
                &&& l.states_coeff@ == coeff_layout(idxs)
                &&& l.states_coeff@.len() == l.hilbert_space_dim
                &&& l.states_coeff@[0] == l.relevant_idxs@[0]
                &&& l.states_coeff@.last() == l.relevant_idxs@.last()
                &&& l.end_t == delta_t * step_cnt
                &&& l.time_ts@.len() == step_cnt + 1
                &&& l.time_ts@[step_cnt as int] == l.end_t
                &&& forall|i: int| 0 <= i <= step_cnt ==> #[trigger] l.time_ts@[i] == i * delta_t
            },
    {
        proof {
            assert(delta_t as u64 * step_cnt as u64 <= 0xffff_ffff * 65535) by (nonlinear_arith)
                requires
                    step_cnt <= 65535,
                    delta_t <= 0xffff_ffff,
            ;
        }
        let end_t = delta_t as u64 * step_cnt as u64;
        let relevant_idxs = relevant_poisson_distribution_indices(above_threshold, alpha_square, fock);
        if relevant_idxs.len() == 0 {
            proof {
                if !fock {
                    assert forall|i: int|
                        0 < i < above_threshold@.len() implies !#[trigger] above_threshold@[i] by {
                        if above_threshold@[i] {
                            assert(relevant_idxs@.contains(i as u16));
                        }
                    }
                }
            }
            return Err(EvolutionError::NoRelevantIndex);
        }
        proof {
            if !fock {
                assert(0 < relevant_idxs@[0] < above_threshold@.len());
                assert(above_threshold@[relevant_idxs@[0] as int]);
            } else {
                let one = relevant_idxs@;
                assert(one.drop_last() =~= Seq::<u16>::empty());
                assert(coeff_layout(one.drop_last()) =~= Seq::<u16>::empty());
                assert(coeff_layout(one) =~= Seq::new((alpha_square + HAMIL_XTRA) as nat, |_i: int| alpha_square));
            }
        }
        proof {
            let s = relevant_idxs@;
            if fock {
                assert(s.drop_last() =~= Seq::<u16>::empty());
                assert(layout_dim(s.drop_last()) == 0);
                assert(layout_dim(s) == alpha_square + HAMIL_XTRA);
            } else {
                lemma_indices_above_sorted(above_threshold@, above_threshold@.len() as int);
                lemma_increasing_dim_bound(s);
                assert(s.len() * 65536 <= 65535 * 65536) by (nonlinear_arith)
                    requires
                        s.len() <= 65535,
                ;
            }
        }
        proof {
            lemma_layout_ends(relevant_idxs@);
        }
        let hilbert_space_dim = hilbert_space_dim(relevant_idxs.as_slice());
        let states_coeff = states_coeff(relevant_idxs.as_slice());
        let time_ts = time_grid(delta_t, step_cnt);
        Ok(EvolutionLayout { relevant_idxs, hilbert_space_dim, states_coeff, end_t, time_ts })
    }
}

} // verus!
