use ternary_coordination::consensus::{disconnected_mixing_matrix, fully_connected_mixing_matrix};
use ternary_coordination::{ConsensusState, Ternary, TernaryMatrix};

#[test]
fn test_unanimous_agreement() {
    let state = ConsensusState::new(vec![Ternary::Pos, Ternary::Pos, Ternary::Pos]);
    assert!(state.is_unanimous());
    assert!(state.converged || state.is_unanimous());
}

#[test]
fn test_not_unanimous() {
    let state = ConsensusState::new(vec![Ternary::Pos, Ternary::Neg, Ternary::Zero]);
    assert!(!state.is_unanimous());
}

#[test]
fn test_majority_vote() {
    let state = ConsensusState::new(vec![Ternary::Pos, Ternary::Pos, Ternary::Neg]);
    assert_eq!(state.majority(), Ternary::Pos);
}

#[test]
fn test_majority_tie() {
    let state = ConsensusState::new(vec![Ternary::Pos, Ternary::Neg]);
    assert_eq!(state.majority(), Ternary::Zero);
}

#[test]
fn test_consensus_all_agree() {
    let mut state = ConsensusState::new(vec![Ternary::Pos, Ternary::Pos, Ternary::Pos]);
    let w = fully_connected_mixing_matrix(3);
    let rounds = state.run_to_convergence(&w, 10);
    assert_eq!(rounds, Some(0));
}

#[test]
fn test_consensus_simple_disagreement() {
    let mut state = ConsensusState::new(vec![Ternary::Pos, Ternary::Neg, Ternary::Zero]);
    let _w = fully_connected_mixing_matrix(3);
    let w = TernaryMatrix::identity(3);
    let rounds = state.run_to_convergence(&w, 10);
    assert_eq!(rounds, None);
}

#[test]
fn test_consensus_with_averaging() {
    let w = TernaryMatrix::from_i32_slice(3, 3, &[0, 1, 0, 0, 0, 1, 1, 0, 0]).unwrap();
    let mut state = ConsensusState::new(vec![Ternary::Pos, Ternary::Neg, Ternary::Zero]);
    state.step(&w);
    assert_eq!(state.votes, vec![Ternary::Neg, Ternary::Zero, Ternary::Pos]);
    state.step(&w);
    assert_eq!(state.votes, vec![Ternary::Zero, Ternary::Pos, Ternary::Neg]);
    state.step(&w);
    assert_eq!(state.votes, vec![Ternary::Pos, Ternary::Neg, Ternary::Zero]);
}

#[test]
fn test_disconnected_no_global_consensus() {
    let mut state = ConsensusState::new(vec![Ternary::Pos, Ternary::Neg, Ternary::Zero, Ternary::Zero]);
    let w = disconnected_mixing_matrix(4, 2);
    for _ in 0..10 {
        state.step(&w);
    }
    let mut state2 = ConsensusState::new(vec![Ternary::Pos, Ternary::Pos, Ternary::Neg, Ternary::Neg]);
    for _ in 0..10 {
        state2.step(&w);
    }
    assert!(!state2.converged, "disconnected graph should not converge globally");
}

#[test]
fn test_tally() {
    let state = ConsensusState::new(vec![Ternary::Neg, Ternary::Zero, Ternary::Pos, Ternary::Pos]);
    let (n, z, p) = state.tally();
    assert_eq!((n, z, p), (1, 1, 2));
}

#[test]
fn test_consensus_pipeline() {
    let votes = vec![Ternary::Pos, Ternary::Pos, Ternary::Zero];
    let mut state = ConsensusState::new(votes);
    let w = TernaryMatrix::from_i32_slice(3, 3, &[-1, 1, 1, 1, -1, 1, 1, 1, -1]).unwrap();
    state.step(&w);
    assert_eq!(state.votes[0], Ternary::Zero);
    assert_eq!(state.votes[1], Ternary::Zero);
    assert_eq!(state.votes[2], Ternary::Neg);
    assert!(!state.converged);
}

#[test]
fn test_step_rejects_wrong_size() {
    let mut state = ConsensusState::new(vec![Ternary::Pos, Ternary::Neg]);
    let before = state.clone();
    assert!(!state.step(&TernaryMatrix::identity(3)));
    assert_eq!(state, before);
    assert_eq!(state.run_to_convergence(&TernaryMatrix::identity(3), 5), None);
    assert_eq!(state, before);
}

#[test]
fn test_run_to_convergence_counts_rounds() {
    // All-ones 2 × 2: [1, -1] -> [0, 0] in one round.
    let w = TernaryMatrix::from_i32_slice(2, 2, &[1, 1, 1, 1]).unwrap();
    let mut state = ConsensusState::new(vec![Ternary::Pos, Ternary::Neg]);
    state.round = 4;
    assert_eq!(state.run_to_convergence(&w, 3), Some(1));
    assert_eq!(state.round, 5);
    assert_eq!(state.votes, vec![Ternary::Zero, Ternary::Zero]);
    assert!(state.converged);
    let mut other = ConsensusState::new(vec![Ternary::Pos, Ternary::Neg]);
    assert_eq!(other.run_to_convergence(&w, 0), None);
    assert_eq!(other.round, 0);
}

#[test]
fn test_fully_connected_shapes() {
    let w4 = fully_connected_mixing_matrix(4);
    assert_eq!(w4.data, vec![Ternary::Pos; 16]);
    let w2 = fully_connected_mixing_matrix(2);
    assert_eq!(w2.data, vec![Ternary::Pos, Ternary::Zero, Ternary::Zero, Ternary::Pos]);
    let w3 = fully_connected_mixing_matrix(3);
    assert_eq!(w3.get(0, 1), Ternary::Neg);
    assert_eq!(w3.get(1, 2), Ternary::Neg);
    assert_eq!(w3.get(2, 0), Ternary::Neg);
    assert_eq!(w3.get(0, 0), Ternary::Pos);
    assert_eq!(w3.get(0, 2), Ternary::Pos);
}

#[test]
fn test_row_stochastic_keeps_consensus() {
    for n in [1usize, 2, 3, 4, 5, 6] {
        let w = fully_connected_mixing_matrix(n);
        for r in 0..n {
            let mut sum = Ternary::Zero;
            for c in 0..n {
                sum = sum.add(w.get(r, c));
            }
            assert_eq!(sum, Ternary::Pos);
        }
        let mut state = ConsensusState::new(vec![Ternary::Neg; n]);
        assert!(state.step(&w));
        assert_eq!(state.votes, vec![Ternary::Neg; n]);
        assert!(state.converged);
    }
}

#[test]
fn test_disconnected_blocks() {
    let w = disconnected_mixing_matrix(3, 1);
    assert_eq!(
        w.data,
        vec![
            Ternary::Pos, Ternary::Zero, Ternary::Zero,
            Ternary::Zero, Ternary::Pos, Ternary::Pos,
            Ternary::Zero, Ternary::Pos, Ternary::Pos,
        ]
    );
}

#[test]
fn test_majority_values() {
    let s = ConsensusState::new(vec![Ternary::Neg, Ternary::Neg, Ternary::Zero]);
    assert_eq!(s.majority(), Ternary::Neg);
    let z = ConsensusState::new(vec![Ternary::Zero, Ternary::Zero, Ternary::Pos]);
    assert_eq!(z.majority(), Ternary::Zero);
    let e = ConsensusState::new(vec![]);
    assert_eq!(e.majority(), Ternary::Zero);
    assert!(e.is_unanimous());
    assert_eq!(e.tally(), (0, 0, 0));
}
