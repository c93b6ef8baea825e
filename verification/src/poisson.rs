use vstd::prelude::*;

verus! {

/// Number of photon numbers `k` over which the Poisson distribution is
/// tabulated: `0..11 * alpha_square`, that is mean plus ten times the variance.
pub fn poisson_support_len(alpha_square: u16) -> (n: u16)
    requires
        11 * alpha_square <= u16::MAX,
    ensures
        n == 11 * alpha_square,
{
    11 * alpha_square
}

/// The photon numbers `i` with `0 < i < n` whose probability lies above the
/// threshold, in increasing order, where `above[i]` tells whether the
/// probability of `i` does. Photon number 0 is always left out: the evolution
/// of an empty pump mode is trivial.
pub open spec fn indices_above(above: Seq<bool>, n: int) -> Seq<u16>
    decreases n,
{
    if n <= 0 {
        Seq::empty()
    } else if n - 1 > 0 && above[n - 1] {
        indices_above(above, n - 1).push((n - 1) as u16)
    } else {
        indices_above(above, n - 1)
    }
}

/// The relevant photon numbers: only `alpha_square` for a Fock initial state,
/// else those of the coherent state whose probability lies above the threshold.
pub open spec fn relevant_indices_spec(above: Seq<bool>, alpha_square: u16, fock: bool) -> Seq<u16> {
    if fock {
        seq![alpha_square]
    } else {
        indices_above(above, above.len() as int)
    }
}

/// Returns the photon numbers whose Poisson probability lies above the
/// threshold; `above_threshold[i]` tells whether the probability of `i` does.
/// With `fock` (a threshold of 1 or more) it returns only `alpha_square`.
pub fn relevant_poisson_distribution_indices(
    above_threshold: &[bool],
    alpha_square: u16,
    fock: bool,
) -> (r: Vec<u16>)
    requires
        above_threshold@.len() <= u16::MAX + 1,
    ensures
        r@ == relevant_indices_spec(above_threshold@, alpha_square, fock),
        fock ==> r@ == seq![alpha_square],
        !fock ==> forall|j: int|
            0 <= j < r@.len() ==> 0 < #[trigger] r@[j] < above_threshold@.len()
                && above_threshold@[r@[j] as int],
        !fock ==> forall|a: int, b: int| 0 <= a < b < r@.len() ==> r@[a] < r@[b],
        !fock ==> forall|i: int|
            0 < i < above_threshold@.len() && #[trigger] above_threshold@[i] ==> r@.contains(
                i as u16,
            ),
{
    if fock {
        let mut r: Vec<u16> = Vec::new();
        r.push(alpha_square);
        return r;
    }
    let mut r: Vec<u16> = Vec::new();
    let n = above_threshold.len();
    let mut i: usize = 0;
    while i < n
        invariant
            n == above_threshold@.len(),
            n <= u16::MAX + 1,
            i <= n,
            r@ == indices_above(above_threshold@, i as int),
        decreases n - i,
    {
        if above_threshold[i] && i > 0 {
            r.push(i as u16);
        }
        i = i + 1;
    }
    proof {
        lemma_indices_above_sorted(above_threshold@, n as int);
        assert forall|i: int|
            0 < i < above_threshold@.len() && #[trigger] above_threshold@[i] implies r@.contains(
            i as u16,
        ) by {
            lemma_indices_above_complete(above_threshold@, n as int, i);
        }
    }
    r
}

/// Every selected photon number lies in `1..n` and is selected, and the
/// selection is strictly increasing.
pub proof fn lemma_indices_above_sorted(above: Seq<bool>, n: int)
    requires
        0 <= n <= above.len(),
        n <= u16::MAX + 1,
    ensures
        forall|j: int|
            0 <= j < indices_above(above, n).len() ==> 0 < #[trigger] indices_above(above, n)[j] < n
                && above[indices_above(above, n)[j] as int],
        forall|a: int, b: int|
            0 <= a < b < indices_above(above, n).len() ==> indices_above(above, n)[a]
                < indices_above(above, n)[b],
    decreases n,
{
    if n > 0 {
        lemma_indices_above_sorted(above, n - 1);
        let prev = indices_above(above, n - 1);
        if n - 1 > 0 && above[n - 1] {
            let cur = prev.push((n - 1) as u16);
            assert(indices_above(above, n) == cur);
            assert forall|j: int| 0 <= j < cur.len() implies 0 < #[trigger] cur[j] < n
                && above[cur[j] as int] by {
                if j < prev.len() {
                    assert(cur[j] == prev[j]);
                }
            }
            assert forall|a: int, b: int| 0 <= a < b < cur.len() implies cur[a] < cur[b] by {
                assert(cur[a] == prev[a]);
                if b < prev.len() {
                    assert(cur[b] == prev[b]);
                }
            }
        }
    }
}

/// A photon number `i` with `0 < i < n` is selected exactly when its
/// probability lies above the threshold.
pub proof fn lemma_indices_above_complete(above: Seq<bool>, n: int, i: int)
    requires
        0 <= n <= above.len(),
        n <= u16::MAX + 1,
        0 < i < n,
    ensures
        indices_above(above, n).contains(i as u16) <==> above[i],
    decreases n,
{
    lemma_indices_above_sorted(above, n);
    if i < n - 1 {
        lemma_indices_above_complete(above, n - 1, i);
        lemma_indices_above_sorted(above, n - 1);
        if above[n - 1] {
            let prev = indices_above(above, n - 1);
            let grown = prev.push((n - 1) as u16);
            assert(grown.contains(i as u16) ==> prev.contains(i as u16)) by {
                if grown.contains(i as u16) {
                    let j = choose|j: int| 0 <= j < grown.len() && #[trigger] grown[j] == i as u16;
                    if j == prev.len() {
                    } else {
                        assert(prev[j] == i as u16);
                    }
                }
            }
            assert(prev.contains(i as u16) ==> grown.contains(i as u16)) by {
                if prev.contains(i as u16) {
                    let j = choose|j: int| 0 <= j < prev.len() && #[trigger] prev[j] == i as u16;
                    assert(grown[j] == i as u16);
                }
            }
        }
    } else {
        let prev = indices_above(above, n - 1);
        lemma_indices_above_sorted(above, n - 1);
        assert(!prev.contains(i as u16)) by {
            if prev.contains(i as u16) {
                let j = choose|j: int| 0 <= j < prev.len() && #[trigger] prev[j] == i as u16;
                assert(prev[j] < n - 1);
            }
        }
        if above[i] {
            assert(prev.push(i as u16)[prev.len() as int] == i as u16);
        }
    }
}

/// The relevant photon numbers: only `alpha_square` for a Fock state, whatever
/// the probabilities; otherwise exactly the `i` with `0 < i < n` whose
/// probability lies above the threshold, in strictly increasing order.
pub proof fn lemma_relevant_indices(above: Seq<bool>, alpha_square: u16, fock: bool)
    requires
        above.len() <= u16::MAX + 1,
    ensures
        fock ==> relevant_indices_spec(above, alpha_square, fock) == seq![alpha_square],
        !fock ==> {
            let r = relevant_indices_spec(above, alpha_square, fock);
            &&& forall|j: int|
                0 <= j < r.len() ==> 0 < #[trigger] r[j] < above.len() && above[r[j] as int]
            &&& forall|a: int, b: int| 0 <= a < b < r.len() ==> r[a] < r[b]
            &&& forall|i: int| 0 < i < above.len() && #[trigger] above[i] ==> r.contains(i as u16)
        },
{
    if !fock {
        lemma_indices_above_sorted(above, above.len() as int);
        assert forall|i: int| 0 < i < above.len() && #[trigger] above[i] implies relevant_indices_spec(
            above,
            alpha_square,
            fock,
        ).contains(i as u16) by {
            lemma_indices_above_complete(above, above.len() as int, i);
        }
    }
}

} // verus!
