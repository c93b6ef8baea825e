use vstd::prelude::*;

verus! {

/// Square of the lower-diagonal entry `i` of the Hamiltonian of the subspace
/// with at most `n` pump photons: `(n - i) (3i + 1) (3i + 2) (3i + 3)`, the
/// coupling of `|n-i>_p |3i>_s` to `|n-i-1>_p |3i+3>_s`.
pub open spec fn lower_diagonal_square(n: int, i: int) -> int {
    (n - i) * (3 * i + 1) * (3 * i + 2) * (3 * i + 3)
}

/// Squares of the lower-diagonal entries of the Hamiltonian in the subspace
/// of at most `num_pump_max` pump photons, for the indices `0..num_pump_max`;
/// the entries themselves are their square roots.
pub fn lower_diagonal_squares_of_hamiltonian_in_subspace_of(num_pump_max: u16) -> (d: Vec<u128>)
    ensures
        d@.len() == num_pump_max,
        forall|i: int|
            0 <= i < num_pump_max ==> #[trigger] d@[i] == lower_diagonal_square(
                num_pump_max as int,
                i,
            ),
        forall|i: int|
            0 <= i < num_pump_max ==> #[trigger] d@[i] == (num_pump_max - i) * (3 * i + 1) * (3 * i
                + 2) * (3 * i + 3),
{
    let mut d: Vec<u128> = Vec::new();
    let mut i: u16 = 0;
    while i < num_pump_max
        invariant
            i <= num_pump_max,
            d@.len() == i,
            forall|j: int|
                0 <= j < i ==> #[trigger] d@[j] == (num_pump_max - j) * (3 * j + 1) * (3 * j + 2) * (3
                    * j + 3),
        decreases num_pump_max - i,
    {
        let a: u128 = (num_pump_max - i) as u128;
        let b: u128 = 3 * i as u128 + 1;
        let c: u128 = 3 * i as u128 + 2;
        let e: u128 = 3 * i as u128 + 3;
        proof {
            assert(a * b <= 0x1_0000 * 0x4_0000) by (nonlinear_arith)
                requires
                    a <= 0x1_0000,
                    b <= 0x4_0000,
            ;
            assert(a * b * c <= 0x1_0000 * 0x4_0000 * 0x4_0000) by (nonlinear_arith)
                requires
                    a * b <= 0x1_0000 * 0x4_0000,
                    c <= 0x4_0000,
            ;
            assert(a * b * c * e <= 0x1_0000 * 0x4_0000 * 0x4_0000 * 0x4_0000) by (nonlinear_arith)
                requires
                    a * b * c <= 0x1_0000 * 0x4_0000 * 0x4_0000,
                    e <= 0x4_0000,
            ;
        }
        d.push(a * b * c * e);
        i = i + 1;
    }
    d
}

/// Every coupling of the subspace is positive: the Hamiltonian connects each
/// basis state to the next one.
pub proof fn lemma_lower_diagonal_positive(n: int, i: int)
    requires
        0 <= i < n,
    ensures
        lower_diagonal_square(n, i) > 0,
{
    assert((n - i) * (3 * i + 1) * (3 * i + 2) * (3 * i + 3) > 0) by (nonlinear_arith)
        requires
            0 <= i < n,
    ;
}

/// Widening the subspace by one pump photon adds `(3i + 1)(3i + 2)(3i + 3)` to
/// every coupling square, and the last coupling of the subspace of `n` pump
/// photons is `1 * (3n - 2)(3n - 1)(3n)`: the couplings are the pump photon
/// count times the signal falling factorial.
pub proof fn lemma_lower_diagonal_widening(n: int, i: int)
    requires
        0 <= i < n,
    ensures
        lower_diagonal_square(n + 1, i) == lower_diagonal_square(n, i) + (3 * i + 1) * (3 * i + 2)
            * (3 * i + 3),
        lower_diagonal_square(n, n - 1) == (3 * n - 2) * (3 * n - 1) * (3 * n),
        lower_diagonal_square(n, 0) == 6 * n,
{
    assert((n + 1 - i) * (3 * i + 1) * (3 * i + 2) * (3 * i + 3) == (n - i) * (3 * i + 1) * (3 * i
        + 2) * (3 * i + 3) + (3 * i + 1) * (3 * i + 2) * (3 * i + 3)) by (nonlinear_arith);
    assert((n - (n - 1)) * (3 * (n - 1) + 1) * (3 * (n - 1) + 2) * (3 * (n - 1) + 3) == (3 * n - 2)
        * (3 * n - 1) * (3 * n)) by (nonlinear_arith);
    assert((n - 0) * (3 * 0 + 1) * (3 * 0 + 2) * (3 * 0 + 3) == 6 * n) by (nonlinear_arith);
}

} // verus!
