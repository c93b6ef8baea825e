use vstd::prelude::*;
use crate::layout::{
    TWO_HAMIL_XTRA_MINUS_ONE,
    state_offset,
    state_offset_spec,
    layout_dim,
    coeff_layout,
    is_contiguous,
    lemma_contiguous_layout,
    lemma_coeff_layout_len,
    lemma_state_offset_closed_form,
};

verus! {

/// Position in the state vector of the amplitude of `|pump>_p |3 signal_third>_s`,
/// whose excitation number is `pump + signal_third`, when the first block is
/// that of excitation number `start`.
pub open spec fn coeff_index_spec(pump: int, signal_third: int, start: int) -> int {
    state_offset_spec(start, pump + signal_third) + signal_third
}

/// The amplitude of `|pump>_p |3 signal_third>_s` in `t_i_state`, a state
/// truncated to the excitation numbers `start..=end`; `zero` for the states
/// outside the truncation.
pub fn coeff<T: Copy>(
    pump_photon_cnt: u16,
    signal_photon_cnt_third: u16,
    t_i_state: &[T],
    start: u16,
    end: u16,
    zero: T,
) -> (c: T)
    requires
        pump_photon_cnt + signal_photon_cnt_third <= u16::MAX,
        start <= pump_photon_cnt + signal_photon_cnt_third <= end ==> {
            &&& start + pump_photon_cnt + signal_photon_cnt_third + TWO_HAMIL_XTRA_MINUS_ONE
                <= u16::MAX
            &&& coeff_index_spec(pump_photon_cnt as int, signal_photon_cnt_third as int, start as int)
                < t_i_state@.len()
        },
    ensures
        c == (if start <= pump_photon_cnt + signal_photon_cnt_third <= end {
            t_i_state@[coeff_index_spec(
                pump_photon_cnt as int,
                signal_photon_cnt_third as int,
                start as int,
            )]
        } else {
            zero
        }),
        start <= pump_photon_cnt + signal_photon_cnt_third <= end ==> c == t_i_state@[(
        pump_photon_cnt + signal_photon_cnt_third - start) * (pump_photon_cnt
            + signal_photon_cnt_third + start + 1) / 2 + signal_photon_cnt_third],
        !(start <= pump_photon_cnt + signal_photon_cnt_third <= end) ==> c == zero,
{
    let excitations = pump_photon_cnt + signal_photon_cnt_third;
    if start <= excitations && excitations <= end {
        let exc_ind = state_offset(start, excitations);
        let len = t_i_state.len();
        assert(exc_ind + signal_photon_cnt_third < len);
        t_i_state[exc_ind + signal_photon_cnt_third as usize]
    } else {
        zero
    }
}

/// In a state vector laid out over the excitation numbers `start..=end` without
/// a gap, `coeff` reads an amplitude inside the vector and inside the block of
/// the excitation number `pump + signal_third` of the state it asks for.
pub proof fn lemma_coeff_reads_own_block(
    idxs: Seq<u16>,
    pump: int,
    signal_third: int,
)
    requires
        is_contiguous(idxs),
        idxs.len() > 0,
        0 <= pump,
        0 <= signal_third,
        idxs[0] <= pump + signal_third <= idxs.last(),
    ensures
        (pump + signal_third - idxs[0]) * (pump + signal_third + idxs[0] + 1) / 2 + signal_third
            < coeff_layout(idxs).len(),
        coeff_layout(idxs)[(pump + signal_third - idxs[0]) * (pump + signal_third + idxs[0] + 1) / 2
            + signal_third] == pump + signal_third,
{
    lemma_contiguous_layout(idxs, pump + signal_third, signal_third);
    lemma_coeff_layout_len(idxs);
    lemma_state_offset_closed_form(idxs[0] as int, pump + signal_third);
}

/// One non-vanishing term of the moment
/// `<(a^dag)^pi2 a^pi1 (b^dag)^sig2 b^sig1>`: the basis state
/// `|idx - k>_p |3k>_s` of excitation number `idx`, which the operator maps to
/// `|pump_shifted>_p |signal_shifted>_s`.
#[derive(Debug, Clone, Copy, PartialEq, Eq, Structural)]
pub struct MomentTerm {
    pub idx: u16,
    pub k: u16,
    /// `idx - k`, the pump photons of the basis state.
    pub pump: u16,
    /// `idx - k + pi2 - pi1`, the pump photons after the operator.
    pub pump_shifted: u16,
    /// `sig2 - sig1 + 3k`, the signal photons after the operator.
    pub signal_shifted: u16,
}

/// The term of the basis state `|idx - k>_p |3k>_s`.
pub open spec fn moment_term(idx: int, k: int, pi1: int, pi2: int, sig1: int, sig2: int) -> MomentTerm {
    MomentTerm {
        idx: idx as u16,
        k: k as u16,
        pump: (idx - k) as u16,
        pump_shifted: (idx - k + pi2 - pi1) as u16,
        signal_shifted: (sig2 - sig1 + 3 * k) as u16,
    }
}

/// The annihilation operators do not send `|idx - k>_p |3k>_s` to zero.
pub open spec fn term_survives(idx: int, k: int, pi1: int, sig1: int) -> bool {
    pi1 <= idx - k && sig1 <= k
}

/// The surviving terms of excitation number `idx` with `k` in `0..kn`, by
/// increasing `k`.
pub open spec fn moment_row(idx: int, kn: int, pi1: int, pi2: int, sig1: int, sig2: int) -> Seq<
    MomentTerm,
>
    decreases kn,
{
    if kn <= 0 {
        Seq::empty()
    } else if term_survives(idx, kn - 1, pi1, sig1) {
        moment_row(idx, kn - 1, pi1, pi2, sig1, sig2).push(
            moment_term(idx, kn - 1, pi1, pi2, sig1, sig2),
        )
    } else {
        moment_row(idx, kn - 1, pi1, pi2, sig1, sig2)
    }
}

/// The surviving terms of the excitation numbers `start..n`, by increasing
/// excitation number, each with its `k` in `0..=idx`.
pub open spec fn moment_rows(start: int, n: int, pi1: int, pi2: int, sig1: int, sig2: int) -> Seq<
    MomentTerm,
>
    decreases n - start,
{
    if n <= start {
        Seq::empty()
    } else {
        moment_rows(start, n - 1, pi1, pi2, sig1, sig2) + moment_row(
            n - 1,
            n,
            pi1,
            pi2,
            sig1,
            sig2,
        )
    }
}

/// The terms of the moment over a state truncated to the excitation numbers
/// `start..=end`: none when `sig2 - sig1` is not a multiple of 3 (the operator
/// then leaves the space of states `|n>_p |3k>_s`).
pub open spec fn moment_terms_spec(pi1: int, pi2: int, sig1: int, sig2: int, start: int, end: int) -> Seq<
    MomentTerm,
> {
    if (sig2 - sig1) % 3 != 0 {
        Seq::empty()
    } else {
        moment_rows(start, end + 1, pi1, pi2, sig1, sig2)
    }
}

/// The shifted photon numbers of every surviving term fit in 16 bits: the
/// largest are those of `idx = end` with `k = sig1` and with `k = end - pi1`.
pub open spec fn moment_terms_fit(pi1: int, pi2: int, sig1: int, sig2: int, start: int, end: int) -> bool {
    ((sig2 - sig1) % 3 == 0 && start <= end && pi1 + sig1 <= end) ==> {
        &&& end - sig1 + pi2 <= u16::MAX
        &&& sig2 - sig1 + 3 * (end - pi1) <= u16::MAX
    }
}

/// The surviving terms of the moment `<(a^dag)^pi2 a^pi1 (b^dag)^sig2 b^sig1>`
/// over a state truncated to the excitation numbers `start..=end`, in the order
/// in which they are summed.
pub fn moment_terms(pi1: u16, pi2: u16, sig1: u16, sig2: u16, start: u16, end: u16) -> (terms: Vec<
    MomentTerm,
>)
    requires
        sig1 <= sig2,
        moment_terms_fit(pi1 as int, pi2 as int, sig1 as int, sig2 as int, start as int, end as int),
    ensures
        terms@ == moment_terms_spec(
            pi1 as int,
            pi2 as int,
            sig1 as int,
            sig2 as int,
            start as int,
            end as int,
        ),
        (sig2 - sig1) % 3 != 0 ==> terms@.len() == 0,
        forall|j: int|
            0 <= j < terms@.len() ==> {
                let t = #[trigger] terms@[j];
                &&& start <= t.idx <= end
                &&& t.k <= t.idx
                &&& pi1 <= t.idx - t.k
                &&& sig1 <= t.k
                &&& t.pump == t.idx - t.k
                &&& t.pump_shifted == t.idx - t.k + pi2 - pi1
                &&& t.signal_shifted == sig2 - sig1 + 3 * t.k
            },
        forall|a: int, b: int|
            0 <= a < b < terms@.len() ==> (terms@[a].idx < terms@[b].idx || (terms@[a].idx
                == terms@[b].idx && terms@[a].k < terms@[b].k)),
        (sig2 - sig1) % 3 == 0 ==> terms@.map_values(|t: MomentTerm| (t.idx as int, t.k as int)).to_set()
            == Set::new(
            |p: (int, int)|
                start <= p.0 <= end && 0 <= p.1 <= p.0 && pi1 <= p.0 - p.1 && sig1 <= p.1,
        ),
{
    proof {
        lemma_moment_terms(pi1, pi2, sig1, sig2, start, end);
    }
    let mut terms: Vec<MomentTerm> = Vec::new();
    if (sig2 - sig1) % 3 != 0 {
        return terms;
    }
    let ghost (gpi1, gpi2, gsig1, gsig2) = (pi1 as int, pi2 as int, sig1 as int, sig2 as int);
    let mut idx: u32 = start as u32;
    if start > end {
        return terms;
    }
    while idx <= end as u32
        invariant
            start <= idx <= end + 1,
            start <= end,
            sig1 <= sig2,
            (sig2 - sig1) % 3 == 0,
            moment_terms_fit(gpi1, gpi2, gsig1, gsig2, start as int, end as int),
            gpi1 == pi1 && gpi2 == pi2 && gsig1 == sig1 && gsig2 == sig2,
            terms@ == moment_rows(start as int, idx as int, gpi1, gpi2, gsig1, gsig2),
        decreases end + 1 - idx,
    {
        let mut k: u32 = 0;
        while k <= idx
            invariant
                start <= idx <= end,
                k <= idx + 1,
                sig1 <= sig2,
                (sig2 - sig1) % 3 == 0,
                moment_terms_fit(gpi1, gpi2, gsig1, gsig2, start as int, end as int),
                gpi1 == pi1 && gpi2 == pi2 && gsig1 == sig1 && gsig2 == sig2,
                terms@ == moment_rows(start as int, idx as int, gpi1, gpi2, gsig1, gsig2)
                    + moment_row(idx as int, k as int, gpi1, gpi2, gsig1, gsig2),
            decreases idx + 1 - k,
        {
            let idx_m_k = idx - k;
            let ghost before = terms@;
            if !(pi1 as u32 > idx_m_k || sig1 as u32 > k) {
                let idx_m_k_p_pi2_m_pi1 = idx_m_k + pi2 as u32 - pi1 as u32;
                let sig2_m_sig1_p_3k = (sig2 - sig1) as u32 + 3 * k;
                terms.push(
                    MomentTerm {
                        idx: idx as u16,
                        k: k as u16,
                        pump: idx_m_k as u16,
                        pump_shifted: idx_m_k_p_pi2_m_pi1 as u16,
                        signal_shifted: sig2_m_sig1_p_3k as u16,
                    },
                );
                assert(terms@ =~= before.push(moment_term(idx as int, k as int, gpi1, gpi2, gsig1, gsig2)));
            }
            k = k + 1;
        }
        idx = idx + 1;
    }
    terms
}

/// What every term of `moment_terms` is: a surviving basis state of the
/// truncation, mapped by the operator to the state of excitation number
/// `idx + pi2 - pi1 + (sig2 - sig1) / 3`.
pub open spec fn term_wf(t: MomentTerm, pi1: int, pi2: int, sig1: int, sig2: int, start: int, end: int) -> bool {
    &&& start <= t.idx <= end
    &&& t.k <= t.idx
    &&& t.pump == t.idx - t.k
    &&& term_survives(t.idx as int, t.k as int, pi1, sig1)
    &&& t.pump_shifted == t.pump + pi2 - pi1
    &&& t.signal_shifted == sig2 - sig1 + 3 * t.k
    &&& t.signal_shifted % 3 == 0
    &&& t.pump_shifted + t.signal_shifted / 3 == t.idx + pi2 - pi1 + (sig2 - sig1) / 3
}

/// Terms in strictly increasing order of `(idx, k)`.
pub open spec fn terms_increasing(ts: Seq<MomentTerm>) -> bool {
    forall|a: int, b: int|
        0 <= a < b < ts.len() ==> (ts[a].idx < ts[b].idx || (ts[a].idx == ts[b].idx && ts[a].k
            < ts[b].k))
}

proof fn lemma_row_wf(
    idx: int,
    kn: int,
    pi1: u16,
    pi2: u16,
    sig1: u16,
    sig2: u16,
    start: u16,
    end: u16,
)
    requires
        sig1 <= sig2,
        (sig2 - sig1) % 3 == 0,
        moment_terms_fit(pi1 as int, pi2 as int, sig1 as int, sig2 as int, start as int, end as int),
        start <= idx <= end,
        kn <= idx + 1,
    ensures
        forall|j: int|
            0 <= j < moment_row(idx, kn, pi1 as int, pi2 as int, sig1 as int, sig2 as int).len()
                ==> {
                let t = #[trigger] moment_row(
                    idx,
                    kn,
                    pi1 as int,
                    pi2 as int,
                    sig1 as int,
                    sig2 as int,
                )[j];
                &&& term_wf(t, pi1 as int, pi2 as int, sig1 as int, sig2 as int, start as int, end as int)
                &&& t.idx == idx
                &&& t.k < kn
            },
        terms_increasing(moment_row(idx, kn, pi1 as int, pi2 as int, sig1 as int, sig2 as int)),
        forall|k: int|
            0 <= k < kn && term_survives(idx, k, pi1 as int, sig1 as int) ==> moment_row(
                idx,
                kn,
                pi1 as int,
                pi2 as int,
                sig1 as int,
                sig2 as int,
            ).contains(#[trigger] moment_term(idx, k, pi1 as int, pi2 as int, sig1 as int, sig2 as int)),
    decreases kn,
{
    let (p1, p2, s1, s2) = (pi1 as int, pi2 as int, sig1 as int, sig2 as int);
    if kn > 0 {
        lemma_row_wf(idx, kn - 1, pi1, pi2, sig1, sig2, start, end);
        let prev = moment_row(idx, kn - 1, p1, p2, s1, s2);
        if term_survives(idx, kn - 1, p1, s1) {
            let k = kn - 1;
            let t = moment_term(idx, k, p1, p2, s1, s2);
            let cur = prev.push(t);
            assert(idx - k + p2 <= u16::MAX);
            assert(s2 - s1 + 3 * k <= u16::MAX);
            assert((s2 - s1 + 3 * k) % 3 == 0);
            assert((s2 - s1 + 3 * k) / 3 == (s2 - s1) / 3 + k);
            assert(term_wf(t, p1, p2, s1, s2, start as int, end as int));
            assert forall|j: int| 0 <= j < cur.len() implies {
                let u = #[trigger] cur[j];
                &&& term_wf(u, p1, p2, s1, s2, start as int, end as int)
                &&& u.idx == idx
                &&& u.k < kn
            } by {
                if j < prev.len() {
                    assert(cur[j] == prev[j]);
                }
            }
            assert forall|a: int, b: int| 0 <= a < b < cur.len() implies (cur[a].idx < cur[b].idx
                || (cur[a].idx == cur[b].idx && cur[a].k < cur[b].k)) by {
                assert(cur[a] == prev[a]);
                if b < prev.len() {
                    assert(cur[b] == prev[b]);
                }
            }
            assert forall|k2: int|
                0 <= k2 < kn && term_survives(idx, k2, p1, s1) implies cur.contains(
                #[trigger] moment_term(idx, k2, p1, p2, s1, s2),
            ) by {
                if k2 == k {
                    assert(cur[prev.len() as int] == t);
                } else {
                    assert(prev.contains(moment_term(idx, k2, p1, p2, s1, s2)));
                    let j = choose|j: int|
                        0 <= j < prev.len() && #[trigger] prev[j] == moment_term(
                            idx,
                            k2,
                            p1,
                            p2,
                            s1,
                            s2,
                        );
                    assert(cur[j] == prev[j]);
                }
            }
        }
    }
}

proof fn lemma_rows_wf(n: int, pi1: u16, pi2: u16, sig1: u16, sig2: u16, start: u16, end: u16)
    requires
        sig1 <= sig2,
        (sig2 - sig1) % 3 == 0,
        moment_terms_fit(pi1 as int, pi2 as int, sig1 as int, sig2 as int, start as int, end as int),
        start <= n <= end + 1,
    ensures
        forall|j: int|
            0 <= j < moment_rows(start as int, n, pi1 as int, pi2 as int, sig1 as int, sig2 as int).len()
                ==> {
                let t = #[trigger] moment_rows(
                    start as int,
                    n,
                    pi1 as int,
                    pi2 as int,
                    sig1 as int,
                    sig2 as int,
                )[j];
                &&& term_wf(t, pi1 as int, pi2 as int, sig1 as int, sig2 as int, start as int, end as int)
                &&& t.idx < n
            },
        terms_increasing(moment_rows(start as int, n, pi1 as int, pi2 as int, sig1 as int, sig2 as int)),
        forall|idx: int, k: int|
            start <= idx < n && 0 <= k <= idx && term_survives(idx, k, pi1 as int, sig1 as int)
                ==> moment_rows(start as int, n, pi1 as int, pi2 as int, sig1 as int, sig2 as int).contains(
                #[trigger] moment_term(idx, k, pi1 as int, pi2 as int, sig1 as int, sig2 as int),
            ),
    decreases n - start,
{
    let (p1, p2, s1, s2) = (pi1 as int, pi2 as int, sig1 as int, sig2 as int);
    if n > start {
        lemma_rows_wf(n - 1, pi1, pi2, sig1, sig2, start, end);
        lemma_row_wf(n - 1, n, pi1, pi2, sig1, sig2, start, end);
        let prev = moment_rows(start as int, n - 1, p1, p2, s1, s2);
        let row = moment_row(n - 1, n, p1, p2, s1, s2);
        let cur = prev + row;
        assert forall|j: int| 0 <= j < cur.len() implies {
            let t = #[trigger] cur[j];
            &&& term_wf(t, p1, p2, s1, s2, start as int, end as int)
            &&& t.idx < n
        } by {
            if j < prev.len() {
                assert(cur[j] == prev[j]);
            } else {
                assert(cur[j] == row[j - prev.len()]);
            }
        }
        assert forall|a: int, b: int| 0 <= a < b < cur.len() implies (cur[a].idx < cur[b].idx
            || (cur[a].idx == cur[b].idx && cur[a].k < cur[b].k)) by {
            if b < prev.len() {
                assert(cur[a] == prev[a]);
                assert(cur[b] == prev[b]);
            } else if a < prev.len() {
                assert(cur[a] == prev[a]);
                assert(cur[b] == row[b - prev.len()]);
            } else {
                assert(cur[a] == row[a - prev.len()]);
                assert(cur[b] == row[b - prev.len()]);
            }
        }
        assert forall|idx: int, k: int|
            start <= idx < n && 0 <= k <= idx && term_survives(idx, k, p1, s1) implies cur.contains(
            #[trigger] moment_term(idx, k, p1, p2, s1, s2),
        ) by {
            let t = moment_term(idx, k, p1, p2, s1, s2);
            if idx < n - 1 {
                assert(prev.contains(t));
                let j = choose|j: int| 0 <= j < prev.len() && #[trigger] prev[j] == t;
                assert(cur[j] == prev[j]);
            } else {
                assert(row.contains(t));
                let j = choose|j: int| 0 <= j < row.len() && #[trigger] row[j] == t;
                assert(cur[prev.len() + j] == row[j]);
            }
        }
    }
}

/// The terms of a moment are the surviving basis states of the truncation,
/// each exactly once, in increasing order of excitation number and then of
/// `k`: the pairs `(idx, k)` with `start <= idx <= end`, `0 <= k <= idx`,
/// `pi1 <= idx - k` and `sig1 <= k`. The operator maps each to
/// `|idx - k + pi2 - pi1>_p |sig2 - sig1 + 3k>_s`. There are none when
/// `sig2 - sig1` is not a multiple of 3.
pub proof fn lemma_moment_terms(pi1: u16, pi2: u16, sig1: u16, sig2: u16, start: u16, end: u16)
    requires
        sig1 <= sig2,
        moment_terms_fit(pi1 as int, pi2 as int, sig1 as int, sig2 as int, start as int, end as int),
    ensures
        ({
            let ts = moment_terms_spec(
                pi1 as int,
                pi2 as int,
                sig1 as int,
                sig2 as int,
                start as int,
                end as int,
            );
            &&& (sig2 - sig1) % 3 != 0 ==> ts.len() == 0
            &&& forall|j: int|
                0 <= j < ts.len() ==> {
                    let t = #[trigger] ts[j];
                    &&& start <= t.idx <= end
                    &&& t.k <= t.idx
                    &&& pi1 <= t.idx - t.k
                    &&& sig1 <= t.k
                    &&& t.pump == t.idx - t.k
                    &&& t.pump_shifted == t.idx - t.k + pi2 - pi1
                    &&& t.signal_shifted == sig2 - sig1 + 3 * t.k
                }
            &&& forall|a: int, b: int|
                0 <= a < b < ts.len() ==> (ts[a].idx < ts[b].idx || (ts[a].idx == ts[b].idx
                    && ts[a].k < ts[b].k))
            &&& (sig2 - sig1) % 3 == 0 ==> ts.map_values(|t: MomentTerm| (t.idx as int, t.k as int)).to_set()
                == Set::new(
                |p: (int, int)|
                    start <= p.0 <= end && 0 <= p.1 <= p.0 && pi1 <= p.0 - p.1 && sig1 <= p.1,
            )
        }),
{
    let (p1, p2, s1, s2) = (pi1 as int, pi2 as int, sig1 as int, sig2 as int);
    let ts = moment_terms_spec(p1, p2, s1, s2, start as int, end as int);
    if (sig2 - sig1) % 3 == 0 && start <= end {
        lemma_rows_wf((end + 1) as int, pi1, pi2, sig1, sig2, start, end);
        assert forall|j: int| 0 <= j < ts.len() implies {
            let t = #[trigger] ts[j];
            &&& start <= t.idx <= end
            &&& t.k <= t.idx
            &&& pi1 <= t.idx - t.k
            &&& sig1 <= t.k
            &&& t.pump == t.idx - t.k
            &&& t.pump_shifted == t.idx - t.k + pi2 - pi1
            &&& t.signal_shifted == sig2 - sig1 + 3 * t.k
        } by {
            assert(term_wf(ts[j], p1, p2, s1, s2, start as int, end as int));
        }
        let pairs = ts.map_values(|t: MomentTerm| (t.idx as int, t.k as int));
        let want = Set::new(
            |p: (int, int)| start <= p.0 <= end && 0 <= p.1 <= p.0 && pi1 <= p.0 - p.1 && sig1 <= p.1,
        );
        assert forall|p: (int, int)| #[trigger] want.contains(p) implies pairs.to_set().contains(p) by {
            let t = moment_term(p.0, p.1, p1, p2, s1, s2);
            assert(term_survives(p.0, p.1, p1, s1));
            assert(ts.contains(t));
            let j = choose|j: int| 0 <= j < ts.len() && ts[j] == t;
            assert(pairs[j] == p);
            assert(pairs.contains(p));
        }
        assert forall|p: (int, int)| #[trigger] pairs.to_set().contains(p) implies want.contains(p) by {
            assert(pairs.contains(p));
            let j = choose|j: int| 0 <= j < pairs.len() && pairs[j] == p;
            assert(term_wf(ts[j], p1, p2, s1, s2, start as int, end as int));
        }
        assert(pairs.to_set() =~= want);
    } else if (sig2 - sig1) % 3 == 0 {
        let pairs = ts.map_values(|t: MomentTerm| (t.idx as int, t.k as int));
        let want = Set::new(
            |p: (int, int)| start <= p.0 <= end && 0 <= p.1 <= p.0 && pi1 <= p.0 - p.1 && sig1 <= p.1,
        );
        assert(ts.len() == 0);
        assert forall|p: (int, int)| !#[trigger] want.contains(p) by {}
        assert forall|p: (int, int)| !#[trigger] pairs.to_set().contains(p) by {
            if pairs.to_set().contains(p) {
                assert(pairs.contains(p));
            }
        }
        assert(pairs.to_set() =~= want);
    }
}

} // verus!
