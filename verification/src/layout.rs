use vstd::prelude::*;

verus! {

/// Number of extra entries of a subspace Hamiltonian over its highest index:
/// the sub- and super-diagonals sit at offsets -1 and 1.
pub const HAMIL_XTRA: u16 = 1;

/// `2 * HAMIL_XTRA - 1`, the constant term of the closed form of the offsets.
pub const TWO_HAMIL_XTRA_MINUS_ONE: u16 = 2 * HAMIL_XTRA - 1;

/// Number of components of the state vector taken by the blocks of excitation
/// numbers `idx0..idx`: block `n` holds the `n + 1` states `|n-k>_p |3k>_s`.
pub open spec fn state_offset_spec(idx0: int, idx: int) -> int
    decreases idx - idx0,
{
    if idx <= idx0 {
        0
    } else {
        state_offset_spec(idx0, idx - 1) + idx
    }
}

/// The closed form of the block offsets: twice the offset is
/// `(idx - idx0) * (idx + idx0 + 1)`.
pub proof fn lemma_state_offset_closed_form(idx0: int, idx: int)
    requires
        0 <= idx0 <= idx,
    ensures
        2 * state_offset_spec(idx0, idx) == (idx - idx0) * (idx + idx0 + 1),
    decreases idx - idx0,
{
    if idx > idx0 {
        lemma_state_offset_closed_form(idx0, idx - 1);
        assert(((idx - 1) - idx0) * ((idx - 1) + idx0 + 1) + 2 * idx == (idx - idx0) * (idx + idx0
            + 1)) by (nonlinear_arith);
    } else {
        assert((idx - idx0) * (idx + idx0 + 1) == 0) by (nonlinear_arith)
            requires
                idx == idx0,
        ;
    }
}

/// Offset of the block of excitation number `idx` in a state vector whose first
/// block is that of `idx0`.
pub fn state_offset(idx0: u16, idx: u16) -> (r: usize)
    requires
        idx0 <= idx,
        idx + idx0 + TWO_HAMIL_XTRA_MINUS_ONE <= u16::MAX,
    ensures
        r == state_offset_spec(idx0 as int, idx as int),
        r == (idx - idx0) * (idx + idx0 + 1) / 2,
        2 * r == (idx - idx0) * (idx + idx0 + 1),
{
    let a: usize = (idx - idx0) as usize;
    let b: usize = (idx + idx0 + TWO_HAMIL_XTRA_MINUS_ONE) as usize;
    proof {
        lemma_state_offset_closed_form(idx0 as int, idx as int);
        assert(a * b <= 65535 * 65535) by (nonlinear_arith)
            requires
                a <= 65535,
                b <= 65535,
        ;
    }
    a * b / 2
}

/// Placement of the subspace of one relevant excitation number `idx`: its
/// Hamiltonian dimension and its columns in the state vector.
pub struct IdxItem {
    pub idx: usize,
    pub idx_dim: usize,
    pub idx_range: core::ops::Range<usize>,
}

impl IdxItem {
    /// The placement of `idx` in a state vector whose first block is `idx0`.
    pub fn new(idx0: u16, idx: u16) -> (item: IdxItem)
        requires
            idx0 <= idx,
            idx + idx0 + 2 * HAMIL_XTRA <= u16::MAX,
        ensures
            item.idx == idx,
            item.idx_dim == idx + HAMIL_XTRA,
            item.idx_range.start == state_offset_spec(idx0 as int, idx as int),
            item.idx_range.end == state_offset_spec(idx0 as int, idx + 1),
            2 * item.idx_range.start == (idx - idx0) * (idx + idx0 + 1),
            2 * item.idx_range.end == (idx + 1 - idx0) * (idx + idx0 + 2),
            item.idx_range.end - item.idx_range.start == idx + 1,
    {
        proof {
            lemma_state_offset_closed_form(idx0 as int, idx as int);
            lemma_state_offset_closed_form(idx0 as int, idx + 1);
        }
        IdxItem {
            idx: idx as usize,
            idx_dim: (idx + HAMIL_XTRA) as usize,
            idx_range: core::ops::Range { start: state_offset(idx0, idx), end: state_offset(idx0, idx + 1) },
        }
    }
}

/// The columns given to the subspace of `idx` are exactly as many as its
/// dimension, and they start where those of `idx - 1` end.
pub proof fn lemma_idx_range_matches_dim(idx0: int, idx: int)
    requires
        0 <= idx0 <= idx,
    ensures
        state_offset_spec(idx0, idx + 1) - state_offset_spec(idx0, idx) == idx + HAMIL_XTRA,
        idx > idx0 ==> state_offset_spec(idx0, idx) == state_offset_spec(idx0, idx - 1) + idx,
        state_offset_spec(idx0, idx0) == 0,
{
}

/// Dimension of the truncated Hilbert space spanned by the relevant excitation
/// numbers `idxs`: the block of `n` holds `n + HAMIL_XTRA` states.
pub open spec fn layout_dim(idxs: Seq<u16>) -> nat
    decreases idxs.len(),
{
    if idxs.len() == 0 {
        0
    } else {
        layout_dim(idxs.drop_last()) + (idxs.last() + HAMIL_XTRA) as nat
    }
}

/// The excitation number of each component of the state vector: the blocks of
/// the relevant excitation numbers one after the other, block `n` repeating `n`
/// over its `n + HAMIL_XTRA` components.
pub open spec fn coeff_layout(idxs: Seq<u16>) -> Seq<u16>
    decreases idxs.len(),
{
    if idxs.len() == 0 {
        Seq::empty()
    } else {
        coeff_layout(idxs.drop_last()) + Seq::new(
            (idxs.last() + HAMIL_XTRA) as nat,
            |_i: int| idxs.last(),
        )
    }
}

/// Relevant excitation numbers that follow one another without a gap.
pub open spec fn is_contiguous(idxs: Seq<u16>) -> bool {
    forall|j: int| 0 <= j < idxs.len() ==> #[trigger] idxs[j] == idxs[0] + j
}

/// The excitation labels fill exactly the Hilbert space dimension.
pub proof fn lemma_coeff_layout_len(idxs: Seq<u16>)
    ensures
        coeff_layout(idxs).len() == layout_dim(idxs),
    decreases idxs.len(),
{
    if idxs.len() > 0 {
        lemma_coeff_layout_len(idxs.drop_last());
    }
}

/// The layout of two runs of excitation numbers is the layout of the first
/// followed by that of the second.
pub proof fn lemma_layout_concat(a: Seq<u16>, b: Seq<u16>)
    ensures
        coeff_layout(a + b) == coeff_layout(a) + coeff_layout(b),
        layout_dim(a + b) == layout_dim(a) + layout_dim(b),
    decreases b.len(),
{
    if b.len() == 0 {
        assert(a + b =~= a);
        assert(coeff_layout(a) + coeff_layout(b) =~= coeff_layout(a));
    } else {
        lemma_layout_concat(a, b.drop_last());
        assert((a + b).drop_last() =~= a + b.drop_last());
        assert((a + b).last() == b.last());
        let rep = Seq::new((b.last() + HAMIL_XTRA) as nat, |_i: int| b.last());
        assert(coeff_layout(a + b) == coeff_layout(a + b.drop_last()) + rep);
        assert(coeff_layout(a) + coeff_layout(b.drop_last()) + rep =~= coeff_layout(a) + (
        coeff_layout(b.drop_last()) + rep));
    }
}

/// The `j`-th relevant excitation number `n` owns the `n + HAMIL_XTRA`
/// components that follow the blocks of the numbers before it.
pub proof fn lemma_layout_block(idxs: Seq<u16>, j: int, r: int)
    requires
        0 <= j < idxs.len(),
        0 <= r < idxs[j] + HAMIL_XTRA,
    ensures
        layout_dim(idxs.take(j)) + r < layout_dim(idxs),
        coeff_layout(idxs)[layout_dim(idxs.take(j)) + r] == idxs[j],
{
    let head = idxs.take(j);
    let one = seq![idxs[j]];
    let rest = idxs.skip(j + 1);
    assert(idxs =~= head + (one + rest));
    lemma_layout_concat(head, one + rest);
    lemma_layout_concat(one, rest);
    lemma_coeff_layout_len(head);
    lemma_coeff_layout_len(one);
    lemma_coeff_layout_len(rest);
    assert(one.drop_last() =~= Seq::<u16>::empty());
    assert(coeff_layout(one.drop_last()) =~= Seq::<u16>::empty());
    assert(coeff_layout(one) =~= Seq::new((idxs[j] + HAMIL_XTRA) as nat, |_i: int| idxs[j]));
    assert(coeff_layout(one)[r] == idxs[j]);
    assert(coeff_layout(idxs)[layout_dim(head) + r] == (coeff_layout(one) + coeff_layout(rest))[r]);
}

/// With contiguous relevant excitation numbers, the blocks before the `j`-th
/// one take `state_offset_spec(idxs[0], idxs[j])` components: the column range
/// of `IdxItem::new(idxs[0], idxs[j])` is exactly the block of `idxs[j]`, and
/// the ranges of all of them tile the state vector.
pub proof fn lemma_contiguous_offsets(idxs: Seq<u16>, j: int)
    requires
        is_contiguous(idxs),
        0 <= j <= idxs.len(),
    ensures
        layout_dim(idxs.take(j)) == state_offset_spec(idxs[0] as int, idxs[0] + j),
    decreases j,
{
    if j > 0 {
        lemma_contiguous_offsets(idxs, j - 1);
        assert(idxs.take(j).drop_last() =~= idxs.take(j - 1));
        assert(idxs[j - 1] == idxs[0] + (j - 1));
    }
}

/// Where the relevant excitation numbers run without a gap from `idxs[0]` to
/// their last, the state vector holds `state_offset_spec(first, last + 1)`
/// components, and the component `r` of the block of `n` lies at
/// `state_offset_spec(first, n) + r` and is labelled `n`.
pub proof fn lemma_contiguous_layout(idxs: Seq<u16>, n: int, r: int)
    requires
        is_contiguous(idxs),
        idxs.len() > 0,
        idxs[0] <= n <= idxs.last(),
        0 <= r < n + HAMIL_XTRA,
    ensures
        layout_dim(idxs) == state_offset_spec(idxs[0] as int, idxs.last() + 1),
        state_offset_spec(idxs[0] as int, n) + r < layout_dim(idxs),
        coeff_layout(idxs)[state_offset_spec(idxs[0] as int, n) + r] == n,
{
    let j = n - idxs[0];
    assert(idxs[j] == n);
    lemma_contiguous_offsets(idxs, j);
    lemma_contiguous_offsets(idxs, idxs.len() as int);
    assert(idxs.take(idxs.len() as int) =~= idxs);
    assert(idxs.last() == idxs[0] + (idxs.len() - 1));
    lemma_layout_block(idxs, j, r);
}

/// The state vector starts with the block of the first relevant excitation
/// number and ends with that of the last, so that its first and last labels
/// are the bounds of the truncation.
pub proof fn lemma_layout_ends(idxs: Seq<u16>)
    requires
        idxs.len() > 0,
    ensures
        coeff_layout(idxs).len() == layout_dim(idxs),
        layout_dim(idxs) > 0,
        coeff_layout(idxs)[0] == idxs[0],
        coeff_layout(idxs)[layout_dim(idxs) - 1] == idxs.last(),
{
    lemma_coeff_layout_len(idxs);
    lemma_layout_block(idxs, 0, 0);
    assert(idxs.take(0) =~= Seq::<u16>::empty());
    assert(layout_dim(Seq::<u16>::empty()) == 0);
    let j = idxs.len() - 1;
    lemma_layout_block(idxs, j, idxs[j] as int);
    assert(idxs.take(j) =~= idxs.drop_last());
}

/// Every component of the state vector is labelled with one of the relevant
/// excitation numbers.
pub proof fn lemma_coeff_layout_members(idxs: Seq<u16>)
    ensures
        forall|p: int|
            0 <= p < coeff_layout(idxs).len() ==> idxs.contains(#[trigger] coeff_layout(idxs)[p]),
    decreases idxs.len(),
{
    if idxs.len() > 0 {
        let prev = idxs.drop_last();
        lemma_coeff_layout_members(prev);
        lemma_coeff_layout_len(prev);
        let c = coeff_layout(idxs);
        assert forall|p: int| 0 <= p < c.len() implies idxs.contains(#[trigger] c[p]) by {
            if p < coeff_layout(prev).len() {
                assert(c[p] == coeff_layout(prev)[p]);
                let j = choose|j: int| 0 <= j < prev.len() && prev[j] == c[p];
                assert(idxs[j] == prev[j]);
            } else {
                assert(c[p] == idxs.last());
                assert(idxs[idxs.len() - 1] == idxs.last());
            }
        }
    }
}

/// With relevant excitation numbers running without a gap from `f = idxs[0]`
/// to `l`, the state vector has `(l + 1 - f)(l + f + 2) / 2` components, and
/// the component `p` is labelled with the `n` in `f..=l` such that
/// `(n - f)(n + f + 1) <= 2p < (n + 1 - f)(n + f + 2)`: the blocks of `f`,
/// `f + 1`, ..., `l` follow one another, block `n` of `n + 1` components.
pub proof fn lemma_contiguous_labels(idxs: Seq<u16>)
    requires
        idxs.len() > 0,
        forall|j: int| 0 <= j < idxs.len() ==> #[trigger] idxs[j] == idxs[0] + j,
    ensures
        2 * coeff_layout(idxs).len() == (idxs.last() + 1 - idxs[0]) * (idxs.last() + idxs[0] + 2),
        forall|p: int|
            0 <= p < coeff_layout(idxs).len() ==> {
                let n = #[trigger] coeff_layout(idxs)[p];
                &&& idxs[0] <= n <= idxs.last()
                &&& (n - idxs[0]) * (n + idxs[0] + 1) <= 2 * p
                &&& 2 * p < (n + 1 - idxs[0]) * (n + idxs[0] + 2)
            },
    decreases idxs.len(),
{
    let f = idxs[0] as int;
    let x = idxs.last() as int;
    let c = coeff_layout(idxs);
    let prev = idxs.drop_last();
    lemma_coeff_layout_len(idxs);
    lemma_coeff_layout_len(prev);
    assert(x == f + idxs.len() - 1);
    lemma_contiguous_offsets(idxs, idxs.len() - 1);
    assert(idxs.take(idxs.len() - 1) =~= prev);
    lemma_state_offset_closed_form(f, x);
    lemma_state_offset_closed_form(f, x + 1);
    assert(layout_dim(prev) == state_offset_spec(f, x));
    if idxs.len() > 1 {
        assert forall|j: int| 0 <= j < prev.len() implies #[trigger] prev[j] == prev[0] + j by {
            assert(prev[j] == idxs[j]);
        }
        lemma_contiguous_labels(prev);
    }
    assert forall|p: int| 0 <= p < c.len() implies {
        let n = #[trigger] c[p];
        &&& f <= n <= x
        &&& (n - f) * (n + f + 1) <= 2 * p
        &&& 2 * p < (n + 1 - f) * (n + f + 2)
    } by {
        if p < coeff_layout(prev).len() {
            assert(c[p] == coeff_layout(prev)[p]);
            assert(idxs.len() > 1);
            assert(prev.last() == x - 1);
        } else {
            assert(c[p] == x);
        }
    }
}

/// The Hilbert space dimension is the sum of `n + 1` over the relevant
/// excitation numbers `n`.
pub proof fn lemma_layout_dim_is_sum(idxs: Seq<u16>)
    ensures
        layout_dim(idxs) == idxs.fold_left(0int, |acc: int, x: u16| acc + x + 1),
    decreases idxs.len(),
{
    if idxs.len() > 0 {
        lemma_layout_dim_is_sum(idxs.drop_last());
    }
}

/// Dimension of the truncated Hilbert space of the relevant excitation numbers.
pub fn hilbert_space_dim(relevant_idxs: &[u16]) -> (d: usize)
    requires
        layout_dim(relevant_idxs@) <= usize::MAX,
    ensures
        d == layout_dim(relevant_idxs@),
        d == relevant_idxs@.fold_left(0int, |acc: int, x: u16| acc + x + 1),
        (relevant_idxs@.len() > 0 && forall|j: int|
            0 <= j < relevant_idxs@.len() ==> #[trigger] relevant_idxs@[j] == relevant_idxs@[0] + j)
            ==> 2 * d == (relevant_idxs@.last() + 1 - relevant_idxs@[0]) * (relevant_idxs@.last()
            + relevant_idxs@[0] + 2),
{
    let n = relevant_idxs.len();
    let mut d: usize = 0;
    let mut i: usize = 0;
    while i < n
        invariant
            n == relevant_idxs@.len(),
            i <= n,
            d == layout_dim(relevant_idxs@.take(i as int)),
            layout_dim(relevant_idxs@) <= usize::MAX,
        decreases n - i,
    {
        proof {
            let s = relevant_idxs@;
            assert(s.take(i + 1).drop_last() =~= s.take(i as int));
            assert(s =~= s.take(i + 1) + s.skip(i + 1));
            lemma_layout_concat(s.take(i + 1), s.skip(i + 1));
        }
        d = d + relevant_idxs[i] as usize + HAMIL_XTRA as usize;
        i = i + 1;
    }
    assert(relevant_idxs@.take(n as int) =~= relevant_idxs@);
    proof {
        lemma_coeff_layout_len(relevant_idxs@);
        lemma_layout_dim_is_sum(relevant_idxs@);
        if relevant_idxs@.len() > 0 && forall|j: int|
            0 <= j < relevant_idxs@.len() ==> #[trigger] relevant_idxs@[j] == relevant_idxs@[0] + j {
            lemma_contiguous_labels(relevant_idxs@);
        }
    }
    d
}

/// The excitation number of every component of the state vector.
pub fn states_coeff(relevant_idxs: &[u16]) -> (c: Vec<u16>)
    ensures
        c@ == coeff_layout(relevant_idxs@),
        c@.len() == relevant_idxs@.fold_left(0int, |acc: int, x: u16| acc + x + 1),
        forall|p: int| 0 <= p < c@.len() ==> relevant_idxs@.contains(#[trigger] c@[p]),
        (relevant_idxs@.len() > 0 && forall|j: int|
            0 <= j < relevant_idxs@.len() ==> #[trigger] relevant_idxs@[j] == relevant_idxs@[0] + j)
            ==> {
            let f = relevant_idxs@[0] as int;
            let l = relevant_idxs@.last() as int;
            &&& 2 * c@.len() == (l + 1 - f) * (l + f + 2)
            &&& forall|p: int|
                0 <= p < c@.len() ==> {
                    let n = #[trigger] c@[p];
                    &&& f <= n <= l
                    &&& (n - f) * (n + f + 1) <= 2 * p
                    &&& 2 * p < (n + 1 - f) * (n + f + 2)
                }
        },
{
    let n = relevant_idxs.len();
    let mut c: Vec<u16> = Vec::new();
    let mut i: usize = 0;
    while i < n
        invariant
            n == relevant_idxs@.len(),
            i <= n,
            c@ == coeff_layout(relevant_idxs@.take(i as int)),
        decreases n - i,
    {
        let idx = relevant_idxs[i];
        let reps: u32 = idx as u32 + HAMIL_XTRA as u32;
        let ghost before = c@;
        let mut r: u32 = 0;
        while r < reps
            invariant
                reps == idx + HAMIL_XTRA,
                r <= reps,
                c@ == before + Seq::new(r as nat, |_i: int| idx),
            decreases reps - r,
        {
            c.push(idx);
            r = r + 1;
            assert(c@ =~= before + Seq::new(r as nat, |_i: int| idx));
        }
        proof {
            let s = relevant_idxs@;
            assert(s.take(i + 1).drop_last() =~= s.take(i as int));
        }
        i = i + 1;
    }
    assert(relevant_idxs@.take(n as int) =~= relevant_idxs@);
    proof {
        lemma_coeff_layout_members(relevant_idxs@);
        lemma_coeff_layout_len(relevant_idxs@);
        lemma_layout_dim_is_sum(relevant_idxs@);
        if relevant_idxs@.len() > 0 && forall|j: int|
            0 <= j < relevant_idxs@.len() ==> #[trigger] relevant_idxs@[j] == relevant_idxs@[0] + j {
            lemma_contiguous_labels(relevant_idxs@);
        }
    }
    c
}

/// The number of worker chunks: `dim` split over `parallelism` workers,
/// rounded up.
pub fn chunk_size(dim: usize, parallelism: usize) -> (c: usize)
    requires
        parallelism > 0,
    ensures
        c == dim / parallelism + (if dim % parallelism == 0 { 0int } else { 1int }),
        c * parallelism >= dim,
        c * parallelism < dim + parallelism,
{
    let q = dim / parallelism;
    let m = dim % parallelism;
    proof {
        assert(q * parallelism + m == dim) by (nonlinear_arith)
            requires
                parallelism > 0,
                q == dim / parallelism,
                m == dim % parallelism,
        ;
        assert(m < parallelism);
        if m != 0 {
            assert(q < usize::MAX) by (nonlinear_arith)
                requires
                    q * parallelism + m == dim,
                    m > 0,
                    parallelism > 0,
                    dim <= usize::MAX,
            ;
            assert((q + 1) * parallelism == q * parallelism + parallelism) by (nonlinear_arith);
        }
    }
    if m != 0 {
        q + 1
    } else {
        q
    }
}

} // verus!
