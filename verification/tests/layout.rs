use third_harmonic::evolution::{time_grid, EvolutionError, EvolutionLayout};
use third_harmonic::layout::{chunk_size, hilbert_space_dim, state_offset, states_coeff, IdxItem, HAMIL_XTRA};

#[test]
fn offsets_of_the_blocks() {
    assert_eq!(state_offset(1, 1), 0);
    assert_eq!(state_offset(1, 2), 2);
    assert_eq!(state_offset(1, 3), 5);
    assert_eq!(state_offset(0, 4), 10);
    assert_eq!(state_offset(30, 31), 31);
    assert_eq!(state_offset(1_652, 2_369), 1_441_887);
}

#[test]
fn offsets_add_one_block_at_a_time() {
    for idx0 in [0u16, 1, 7, 100] {
        for idx in idx0..idx0 + 50 {
            assert_eq!(state_offset(idx0, idx + 1) - state_offset(idx0, idx), usize::from(idx + HAMIL_XTRA));
        }
    }
}

#[test]
fn idx_item_columns_match_its_dimension() {
    let item = IdxItem::new(30, 35);
    assert_eq!(item.idx, 35);
    assert_eq!(item.idx_dim, 36);
    assert_eq!(item.idx_range, 31 + 32 + 33 + 34 + 35..31 + 32 + 33 + 34 + 35 + 36);
    assert_eq!(item.idx_range.len(), item.idx_dim);
    let first = IdxItem::new(30, 30);
    assert_eq!(first.idx_range, 0..31);
}

#[test]
fn dimension_of_the_truncated_space() {
    assert_eq!(hilbert_space_dim(&[]), 0);
    assert_eq!(hilbert_space_dim(&[10]), 11);
    assert_eq!(hilbert_space_dim(&[1, 3, 4]), 2 + 4 + 5);
    let idxs: Vec<u16> = (1..=45).collect();
    assert_eq!(hilbert_space_dim(&idxs), 1_080);
}

#[test]
fn excitation_label_of_each_component() {
    assert_eq!(states_coeff(&[1, 3]), vec![1, 1, 3, 3, 3, 3]);
    assert_eq!(states_coeff(&[0]), vec![0]);
    assert!(states_coeff(&[]).is_empty());
}

#[test]
fn blocks_of_contiguous_indices_sit_at_their_offsets() {
    let idxs: Vec<u16> = (30..=60).collect();
    let coeff = states_coeff(&idxs);
    assert_eq!(coeff.len(), hilbert_space_dim(&idxs));
    assert_eq!(coeff.len(), state_offset(30, 61));
    for &idx in &idxs {
        let item = IdxItem::new(30, idx);
        assert!(coeff[item.idx_range.clone()].iter().all(|&c| c == idx));
    }
}

#[test]
fn chunks_round_up() {
    assert_eq!(chunk_size(10, 3), 4);
    assert_eq!(chunk_size(9, 3), 3);
    assert_eq!(chunk_size(0, 4), 0);
    assert_eq!(chunk_size(1, 8), 1);
    assert_eq!(chunk_size(717, 16), 45);
    assert_eq!(chunk_size(usize::MAX, 1), usize::MAX);
    for dim in 0..100usize {
        for p in 1..12usize {
            let c = chunk_size(dim, p);
            assert!(c * p >= dim && c * p < dim + p);
        }
    }
}

#[test]
fn time_grid_in_ticks() {
    assert_eq!(time_grid(100, 4), vec![0, 100, 200, 300, 400]);
    assert_eq!(time_grid(50, 0), vec![0]);
    let ts = time_grid(50, 219);
    assert_eq!(ts.len(), 220);
    assert_eq!(ts[219], 10_950);
}

#[test]
fn layout_of_a_coherent_state() {
    let above: Vec<bool> = (0..110u16).map(|k| (1..=45).contains(&k)).collect();
    let layout = EvolutionLayout::new(10, 100, 5_000, &above, false).unwrap();
    let idxs: Vec<u16> = (1..=45).collect();
    assert_eq!(layout.relevant_idxs, idxs);
    assert_eq!(layout.hilbert_space_dim, 1_080);
    assert_eq!(layout.states_coeff.len(), 1_080);
    assert_eq!(layout.states_coeff[0], 1);
    assert_eq!(layout.states_coeff[1_079], 45);
    assert_eq!(layout.end_t, 500_000);
    assert_eq!(layout.time_ts.len(), 5_001);
    assert_eq!(layout.time_ts[5_000], 500_000);
}

#[test]
fn layout_of_a_fock_state() {
    let layout = EvolutionLayout::new(100, 100, 500, &[false; 10], true).unwrap();
    assert_eq!(layout.relevant_idxs, vec![100]);
    assert_eq!(layout.hilbert_space_dim, 101);
    assert_eq!(layout.states_coeff, vec![100; 101]);
}

#[test]
fn no_relevant_index_is_an_error() {
    let r = EvolutionLayout::new(10, 100, 5_000, &[false; 110], false);
    assert!(matches!(r, Err(EvolutionError::NoRelevantIndex)));
    let only_zero = EvolutionLayout::new(10, 100, 5_000, &[true], false);
    assert!(matches!(only_zero, Err(EvolutionError::NoRelevantIndex)));
}
