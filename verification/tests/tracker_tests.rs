use shbt_simulator::boundary::{feedback_denominator, unresolved_coordinates};
use shbt_simulator::braid::{commutator_sequence, BraidSequence};
use shbt_simulator::compiler::CircuitCompiler;
use shbt_simulator::engine::{classify_swap, SwapKind};
use shbt_simulator::error::SimError;
use shbt_simulator::mesh::mesh_lines_text;
use shbt_simulator::racah::{racah_term_args, racah_window, triangle_args};
use shbt_simulator::runner::{ProgramRunner, StepEvent};
use shbt_simulator::stabilizer::{StabilizerGenerator, StabilizerType, SurfaceCodeLattice};
use shbt_simulator::tracker::{
    x_flip_mask, z_check_parity, LieSectorType, StabilizerMeasurement, TopologicalTracker,
};

type Pos = (f64, f64);

fn tracker_with(qubits: usize, anyons: usize) -> TopologicalTracker<Pos> {
    let mut t = TopologicalTracker::new(qubits, None);
    for i in 0..anyons {
        assert_eq!(t.add_anyon((i as f64, 0.0), None), Ok(i));
    }
    t
}

fn xs(t: &TopologicalTracker<Pos>) -> Vec<f64> {
    (0..t.anyon_count()).map(|i| t.anyon_position(i).unwrap().0).collect()
}

#[test]
fn new_tracker_clamps_qubits_and_picks_sector() {
    let t: TopologicalTracker<Pos> = TopologicalTracker::new(0, None);
    assert_eq!(t.logical_qubits(), 1);
    assert_eq!(t.sector(), LieSectorType::SU2_26);
    let t: TopologicalTracker<Pos> = TopologicalTracker::new(3, Some(LieSectorType::SU3_8));
    assert_eq!(t.logical_qubits(), 3);
    assert_eq!(t.qudit_dim(), 3);
    assert_eq!(t.active_dim(), 27);
    let t: TopologicalTracker<Pos> = TopologicalTracker::new(9, Some(LieSectorType::SO10_312));
    assert_eq!(t.logical_qubits(), 1);
    assert_eq!(t.active_dim(), 16);
}

#[test]
fn braid_swaps_positions_and_records_worldlines() {
    let mut t = tracker_with(2, 4);
    assert_eq!(t.execute_braid(0, 3), Ok(0));
    assert_eq!(xs(&t), vec![3.0, 1.0, 2.0, 0.0]);
    assert_eq!(t.braid_depth(), 4);
    assert_eq!(t.current_time(), 1);
    assert_eq!(t.get_worldline_history(0).unwrap().len(), 2);
    assert_eq!(t.execute_braid(2, 9), Err(SimError::AnyonIndexOutOfBounds));
    assert_eq!(t.execute_braid(3, 1), Ok(1));
}

#[test]
fn double_exchange_restores_positions() {
    let mut t = tracker_with(1, 3);
    let before = xs(&t);
    t.execute_braid(0, 2).unwrap();
    t.execute_braid(0, 2).unwrap();
    assert_eq!(xs(&t), before);
}

#[test]
fn braid_plan_stops_at_first_bad_exchange() {
    let mut t = tracker_with(2, 4);
    let run = t.execute_braid_sequence(&vec![(0, 1), (0, 99), (1, 2)]);
    assert_eq!(run.targets, vec![0]);
    assert_eq!(run.error, Some(SimError::AnyonIndexOutOfBounds));
    assert_eq!(xs(&t), vec![1.0, 0.0, 2.0, 3.0]);
}

#[test]
fn gates_run_their_braid_words() {
    let c = CircuitCompiler::new();
    let mut t = tracker_with(2, 8);
    let run = c.compile_gate(&mut t, "H", 1).unwrap();
    assert_eq!(run.error, None);
    assert_eq!(run.targets, vec![1, 1, 1, 1, 1, 1]);
    // H on block 1: (4,5), (4,6), (5,6), (4,7), (5,7), (6,7).
    assert_eq!(xs(&t), vec![0.0, 1.0, 2.0, 3.0, 7.0, 6.0, 5.0, 4.0]);
    assert_eq!(c.compile_gate(&mut t, "Y", 0).map(|r| r.targets), Err(SimError::UnknownLogicalGate));
    assert_eq!(c.compile_gate(&mut t, "X", 2).map(|r| r.targets), Err(SimError::TargetExceedsTensorBounds));
    let mut small = tracker_with(2, 6);
    assert_eq!(
        c.compile_gate(&mut small, "T", 1).map(|r| r.targets),
        Err(SimError::InsufficientAnyonsForQubit)
    );
    assert_eq!(xs(&small), vec![0.0, 1.0, 2.0, 3.0, 4.0, 5.0]);
}

#[test]
fn cnot_checks_and_runs() {
    let c = CircuitCompiler::new();
    let mut t = tracker_with(2, 8);
    assert_eq!(c.compile_cnot(&mut t, 0, 0).map(|r| r.targets), Err(SimError::ControlEqualsTarget));
    assert_eq!(c.compile_cnot(&mut t, 0, 4).map(|r| r.targets), Err(SimError::QubitIndicesExceedBounds));
    let run = c.compile_cnot(&mut t, 0, 1).unwrap();
    assert_eq!(run.targets, vec![1, 1, 1, 1]);
    // (3,4), (2,4), (3,5), (2,5)
    assert_eq!(xs(&t), vec![0.0, 1.0, 4.0, 5.0, 2.0, 3.0, 6.0, 7.0]);
    let mut small = tracker_with(2, 7);
    assert_eq!(
        c.compile_cnot(&mut small, 1, 0).map(|r| r.targets),
        Err(SimError::InsufficientAnyonsForCnot)
    );
}

#[test]
fn synthesized_words_play_on_their_block() {
    let c = CircuitCompiler::new();
    let mut t = tracker_with(2, 8);
    let mut w = BraidSequence::new();
    assert!(w.push((0, 1)));
    assert!(w.push((2, 3)));
    let run = c.compile_arbitrary_phase(&mut t, &w, 1).unwrap();
    assert_eq!(run.targets, vec![1, 1]);
    assert_eq!(xs(&t), vec![0.0, 1.0, 2.0, 3.0, 5.0, 4.0, 7.0, 6.0]);
    let mut small = tracker_with(2, 5);
    assert_eq!(
        c.compile_arbitrary_phase_rx(&mut small, &w, 1).map(|r| r.targets),
        Err(SimError::InsufficientAnyonsForRx)
    );
    assert_eq!(
        c.compile_unitary_gate(&mut small, &w, 1).map(|r| r.targets),
        Err(SimError::InsufficientAnyonsForUnitary)
    );
    assert_eq!(
        c.compile_arbitrary_phase(&mut small, &w, 1).map(|r| r.targets),
        Err(SimError::InsufficientAnyonsForPhase)
    );
    let mut far = BraidSequence::new();
    assert!(far.push((0, 9)));
    let run = c.compile_unitary_gate(&mut t, &far, 0).unwrap();
    assert_eq!(run.error, Some(SimError::AnyonIndexOutOfBounds));
    assert!(run.targets.is_empty());
}

#[test]
fn cartan_layout_runs_and_records() {
    let c = CircuitCompiler::new();
    let mut t = tracker_with(2, 8);
    let empty = BraidSequence::new();
    let (run, word) = c.compile_two_qubit_gate_cartan(&mut t, &empty, &empty, &empty);
    assert_eq!(run.error, None);
    assert_eq!(run.targets.len(), 32);
    assert!(word.is_some());
    let mut short = tracker_with(1, 4);
    let (run, word) = c.compile_two_qubit_gate_cartan(&mut short, &empty, &empty, &empty);
    assert_eq!(run.error, Some(SimError::AnyonIndexOutOfBounds));
    assert_eq!(run.targets.len(), 6);
    assert!(word.is_none());
}

#[test]
fn noise_exchanges_a_stray_neighbour_pair() {
    let mut t = tracker_with(2, 4);
    assert!(t.inject_quasiparticle_noise(false, 5).is_none());
    let run = t.inject_quasiparticle_noise(true, 7).unwrap();
    assert_eq!(run.targets, vec![1]);
    assert_eq!(xs(&t), vec![3.0, 1.0, 2.0, 0.0]);
    let mut lone = tracker_with(1, 1);
    assert!(lone.inject_quasiparticle_noise(true, 0).is_none());
}

#[test]
fn fusion_tree_lowest_common_ancestor() {
    let mut t = tracker_with(2, 3);
    let p = t.fuse_nodes(0, 1, 2).unwrap();
    assert_eq!(p, 3);
    let q = t.fuse_nodes(p, 2, 0).unwrap();
    assert_eq!(q, 4);
    assert_eq!(t.calculate_lca(0, 1), Ok(3));
    assert_eq!(t.calculate_lca(1, 0), Ok(3));
    assert_eq!(t.calculate_lca(0, 2), Ok(4));
    assert_eq!(t.calculate_lca(2, 2), Ok(2));
    assert_eq!(t.calculate_lca(7, 2), Err(SimError::FirstLeafNotFound));
    assert_eq!(t.calculate_lca(2, 7), Err(SimError::SecondLeafNotFound));
}

#[test]
fn unfused_leaves_share_no_ancestor() {
    let t = tracker_with(1, 2);
    assert_eq!(t.calculate_lca(0, 1), Err(SimError::NoCommonAncestor));
}

#[test]
fn stabilizer_checks_register_and_toggle() {
    let mut t = tracker_with(2, 4);
    assert_eq!(t.add_stabilizer_check(true, vec![0, 2]), Ok(0));
    assert_eq!(t.add_stabilizer_check(false, vec![0, 1, 2, 3, 0]), Err(SimError::StabilizerWeightExceeded));
    assert_eq!(t.set_stabilizer_active(0, false), Ok(()));
    assert_eq!(t.set_stabilizer_active(3, false), Err(SimError::StabilizerIndexOutOfBounds));
    let s = t.stabilizer_for_measurement(0).unwrap();
    assert!(!s.is_active && s.is_x_type);
    assert_eq!(s.anyons, vec![0, 2]);
    assert!(matches!(t.stabilizer_for_measurement(1), Err(SimError::StabilizerIndexOutOfRange)));
}

#[test]
fn stabilizer_masks_and_parities() {
    assert_eq!(x_flip_mask(&vec![0, 2]), 0b11);
    assert_eq!(x_flip_mask(&vec![0, 1]), 0);
    assert!(z_check_parity(&vec![0, 2], 0b01));
    assert!(!z_check_parity(&vec![0, 2], 0b11));
}

#[test]
fn measurement_layout_and_mesh() {
    let t: TopologicalTracker<Pos> = TopologicalTracker::new(3, Some(LieSectorType::SU3_8));
    assert_eq!(t.measurement_layout(2), Ok((9, 27)));
    assert_eq!(t.measurement_layout(3), Err(SimError::TargetQubitOutOfBounds));
    assert_eq!(t.mesh_points_per_line(), Err(SimError::NoAnyons));
    let u = tracker_with(1, 2);
    assert_eq!(u.mesh_points_per_line(), Ok(1));
}

#[test]
fn lattice_holds_sixteen_generators() {
    let mut l = SurfaceCodeLattice::new();
    for _ in 0..16 {
        let g = StabilizerGenerator::new(StabilizerType::Plaquette, vec![0, 1, 2, 3]).unwrap();
        assert_eq!(l.add_stabilizer(g), Ok(()));
    }
    let g = StabilizerGenerator::new(StabilizerType::Vertex, vec![1]).unwrap();
    assert_eq!(l.add_stabilizer(g), Err(SimError::LatticeFull));
    assert_eq!(l.stabilizer_count(), 16);
    assert!(StabilizerGenerator::new(StabilizerType::Vertex, vec![0, 1, 2, 3, 4]).is_err());
}

#[test]
fn swaps_are_classified_by_pair_block() {
    assert_eq!(classify_swap(2, 2, 4), Ok(SwapKind::Phase { index: 2 }));
    assert_eq!(classify_swap(3, 2, 4), Ok(SwapKind::IntraNode { first: 2, second: 3 }));
    assert_eq!(classify_swap(1, 2, 4), Ok(SwapKind::InterNode { first: 1, second: 2 }));
    assert_eq!(classify_swap(1, 4, 4), Err(SimError::SwapIndexOutOfRange));
}

#[test]
fn racah_bookkeeping() {
    assert_eq!(triangle_args(3, 3, 2), Some((2, 1, 1, 5)));
    assert_eq!(triangle_args(3, 3, 8), None);
    assert_eq!(racah_window(3, 3, 3, 3, 0, 0), Some((3, 3)));
    assert_eq!(racah_term_args(3, 3, 3, 3, 0, 0, 3), (4, [0, 0, 0, 3, 0, 0]));
    assert_eq!(racah_window(3, 3, 3, 3, 2, 4), Some((5, 6)));
}

#[test]
fn runner_steps_through_a_program() {
    let c = CircuitCompiler::new();
    let program = c
        .parse_openqasm(
            "braid 0 1\nmeasure 0 -> 2\nif (2 == 1) { braid 2 3 }\nh q[0]\nrz(0.5) q[0]\n".to_string(),
        )
        .unwrap();
    let mut t = tracker_with(1, 4);
    let mut r = ProgramRunner::new();
    match r.advance(&c, &program, &mut t) {
        StepEvent::Braided(run) => assert_eq!(run.targets, vec![0]),
        _ => panic!("expected a braid"),
    }
    match r.advance(&c, &program, &mut t) {
        StepEvent::NeedsMeasurement { target, creg } => {
            assert_eq!((target, creg), (0, 2));
            r.record_outcome(creg, 0);
        }
        _ => panic!("expected a measurement"),
    }
    assert!(matches!(r.advance(&c, &program, &mut t), StepEvent::Skipped));
    match r.advance(&c, &program, &mut t) {
        StepEvent::Braided(run) => assert_eq!(run.targets.len(), 6),
        _ => panic!("expected a gate"),
    }
    assert!(matches!(r.advance(&c, &program, &mut t), StepEvent::NeedsSynthesis { step: 4 }));
    assert!(matches!(r.advance(&c, &program, &mut t), StepEvent::Finished));
    r.record_outcome(40, 1);
    assert_eq!(r.register(2), 0);
}

#[test]
fn runner_takes_the_conditional_when_the_register_matches() {
    let c = CircuitCompiler::new();
    let program = c.parse_openqasm("if (5 == 1) { braid 0 1 }\ncx q[0], q[0]".to_string()).unwrap();
    let mut t = tracker_with(1, 4);
    let mut r = ProgramRunner::new();
    r.record_outcome(5, 1);
    match r.advance(&c, &program, &mut t) {
        StepEvent::Braided(run) => assert_eq!(run.targets, vec![0]),
        _ => panic!("expected the conditional braid"),
    }
    assert!(matches!(r.advance(&c, &program, &mut t), StepEvent::Failed(SimError::ControlEqualsTarget)));
}

#[test]
fn plans_run_in_parts_match_the_joined_plan() {
    let mut a = tracker_with(2, 6);
    let mut b = tracker_with(2, 6);
    a.execute_braid_sequence(&vec![(0, 1), (2, 5)]);
    a.execute_braid_sequence(&vec![(1, 4), (3, 0)]);
    b.execute_braid_sequence(&vec![(0, 1), (2, 5), (1, 4), (3, 0)]);
    assert_eq!(xs(&a), xs(&b));
    for i in 0..6 {
        assert_eq!(a.get_worldline_history(i), b.get_worldline_history(i));
    }
    assert_eq!(a.current_time(), b.current_time());
}

#[test]
fn swap_classification_ignores_argument_order() {
    for (p, q) in [(0, 1), (1, 2), (3, 3), (0, 7)] {
        assert_eq!(classify_swap(p, q, 4), classify_swap(q, p, 4));
    }
}

#[test]
fn minimization_cancels_and_keeps_reduced_words() {
    let c = CircuitCompiler::new();
    let mut w = BraidSequence::new();
    for e in [(0, 1), (1, 0), (2, 3)] {
        assert!(w.push(e));
    }
    let m = c.minimize_sequence(w);
    assert_eq!(m.to_vec(), vec![(2, 3)]);
    let mut r = BraidSequence::new();
    assert!(r.push((0, 1)));
    assert!(r.push((2, 3)));
    assert_eq!(c.minimize_sequence(r).to_vec(), vec![(0, 1), (2, 3)]);
}

#[test]
fn commutator_words_drop_parts_that_do_not_fit() {
    let mut v = BraidSequence::new();
    assert!(v.push((0, 1)));
    assert!(v.push((1, 2)));
    let mut w = BraidSequence::new();
    assert!(w.push((2, 3)));
    let prev = BraidSequence::new();
    let r = commutator_sequence(&v, &w, &prev);
    assert_eq!(r.to_vec(), vec![(0, 1), (1, 2), (2, 3), (1, 2), (0, 1), (2, 3)]);
    let mut big = BraidSequence::new();
    for _ in 0..40 {
        assert!(big.push((0, 1)));
    }
    let r = commutator_sequence(&big, &w, &v);
    // big + w fit (41), big reversed would not, w reversed fits (42), v fits (44).
    assert_eq!(r.get_len(), 44);
}

#[test]
fn mesh_lines_section_lists_global_indices() {
    assert_eq!(mesh_lines_text(2, 3), "LINES 2 8\n3 0 1 2\n3 3 4 5\n");
    assert_eq!(mesh_lines_text(0, 5), "LINES 0 0\n");
}

#[test]
fn unresolved_coordinates_and_feedback_denominators() {
    let order = vec![(1, 1), (0, 0), (2, 2)];
    assert_eq!(unresolved_coordinates(&order, 0).len(), 9);
    assert_eq!(
        unresolved_coordinates(&order, 2),
        vec![(0, 1), (0, 2), (1, 0), (1, 2), (2, 0), (2, 1), (2, 2)]
    );
    assert_eq!(feedback_denominator(0, 0, (2, 2)), 5);
    assert_eq!(feedback_denominator(1, 2, (1, 2)), 1);
}

#[test]
fn stabilizer_measurements_by_kind() {
    let mut t = tracker_with(2, 4);
    t.add_stabilizer_check(true, vec![0, 2]).unwrap();
    t.add_stabilizer_check(false, vec![1, 3]).unwrap();
    t.add_stabilizer_check(true, vec![]).unwrap();
    assert!(matches!(t.stabilizer_measurement(0), Ok(StabilizerMeasurement::XFlip { mask: 0b11 })));
    match t.stabilizer_measurement(1) {
        Ok(StabilizerMeasurement::ZParity { anyons }) => assert_eq!(anyons, vec![1, 3]),
        _ => panic!("expected a Z-type check"),
    }
    assert!(matches!(t.stabilizer_measurement(2), Ok(StabilizerMeasurement::Inactive)));
    t.set_stabilizer_active(0, false).unwrap();
    assert!(matches!(t.stabilizer_measurement(0), Ok(StabilizerMeasurement::Inactive)));
    assert!(matches!(t.stabilizer_measurement(3), Err(SimError::StabilizerIndexOutOfRange)));
}
