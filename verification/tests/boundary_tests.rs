use shbt_simulator::baryogenesis::{benchmark_cost_delta, optimized_field_cost, standard_field_cost};
use shbt_simulator::boundary::{framing_defect, permutation_sign, Ratio, StaticBoundary};
use shbt_simulator::causal::{boundary_address, fnv1a_hash};
use shbt_simulator::decimal::normalize_decimal_string;
use shbt_simulator::projection::ProjectionReport;

#[test]
fn benchmark_framing_defect_zero() {
    let sb = StaticBoundary::new();
    assert_eq!(sb.framing_defect().num, 0);
}

#[test]
fn framing_defect_takes_the_larger_distance() {
    // 313 / 52 is 1/52 from an integer, 313 / 24 is 1/24 from one.
    assert_eq!(framing_defect(26, 8, 313), Ratio { num: 1, den: 24 });
    // 330 / 52 = 6 + 18/52, whose distance 18/52 beats 330 / 24 = 13.75 (6/24).
    assert_eq!(framing_defect(26, 8, 330), Ratio { num: 18, den: 52 });
}

#[test]
fn framing_defect_vanishes_on_divisible_branches() {
    assert_eq!(framing_defect(3, 2, 12).num, 0);
    assert_eq!(framing_defect(3, 2, 18).num, 0);
    assert_ne!(framing_defect(3, 2, 15).num, 0);
}

#[test]
fn benchmark_boundary_rationals() {
    let sb = StaticBoundary::new();
    assert_eq!(sb.benchmark_branch(), (26, 8, 312));
    assert_eq!(sb.charge_embedding(), [22, 23, 26]);
    assert_eq!(sb.i_l_star(), Ratio { num: 312, den: 52 });
    assert_eq!(sb.i_q_star(), Ratio { num: 312, den: 24 });
    assert_eq!(sb.c_dark(), Ratio { num: 834433, den: 362670 });
}

#[test]
fn conformal_weights_and_central_charges() {
    assert_eq!(StaticBoundary::su2_conformal_weight(2, 26), Ratio { num: 8, den: 112 });
    assert_eq!(StaticBoundary::su2_central_charge(26), Ratio { num: 78, den: 28 });
    assert_eq!(StaticBoundary::su3_conformal_weight(1, 0, 8), Ratio { num: 4, den: 33 });
    assert_eq!(StaticBoundary::su3_conformal_weight(1, 1, 8), Ratio { num: 9, den: 33 });
    assert_eq!(StaticBoundary::su3_central_charge(8), Ratio { num: 64, den: 11 });
}

#[test]
fn permutation_signs() {
    assert_eq!(permutation_sign((0, 1, 2)), 1);
    assert_eq!(permutation_sign((1, 0, 2)), -1);
    assert_eq!(permutation_sign((2, 0, 1)), 1);
    assert_eq!(permutation_sign((2, 1, 0)), -1);
}

#[test]
fn field_costs_at_benchmark_size() {
    let s = standard_field_cost(512);
    assert_eq!((s.operation_count, s.memory_bytes, s.peak_traced_bytes), (3673088, 6332416, 12664832));
    let o = optimized_field_cost(512);
    assert_eq!((o.operation_count, o.memory_bytes, o.peak_traced_bytes), (5632, 36864, 73728));
    let d = benchmark_cost_delta(512);
    assert_eq!(d.operation_delta, 3667456);
    assert_eq!(d.memory_delta_bytes, 6295552);
    assert_eq!(d.standard, s);
    assert_eq!(d.optimized, o);
}

#[test]
fn optimized_field_is_cheaper_for_one_particle() {
    let d = benchmark_cost_delta(1);
    assert_eq!((d.standard.operation_count, d.optimized.operation_count), (20, 11));
    assert_eq!((d.standard.memory_bytes, d.optimized.memory_bytes), (104, 72));
    assert!(d.operation_delta > 0 && d.memory_delta_bytes > 0);
}

#[test]
fn fnv1a_collapse_indices() {
    assert_eq!(fnv1a_hash("", 9), 5);
    assert_eq!(fnv1a_hash("a", 7), 5);
    assert_eq!(fnv1a_hash("a", 1), 0);
    assert_eq!(fnv1a_hash("local_property_packet|C[0,0]", 9), 7);
}

#[test]
fn boundary_addresses() {
    assert_eq!(boundary_address(0, 0), "C[0,0]");
    assert_eq!(boundary_address(3, 12), "C[3,12]");
    assert_eq!(boundary_address(107, 9), "C[107,9]");
}

#[test]
fn decimal_strings_become_positional() {
    assert_eq!(normalize_decimal_string("1.2345e2"), "123.45");
    assert_eq!(normalize_decimal_string("1.5e3"), "1500.0");
    assert_eq!(normalize_decimal_string("-2.5e-3"), "-0.0025");
    assert_eq!(normalize_decimal_string("12.5e-1"), "1.25");
    assert_eq!(normalize_decimal_string("42"), "42");
}

#[test]
fn projection_report_passes_only_when_every_check_does() {
    let ok = ProjectionReport::from_checks(9, true, true, true, true);
    assert!(ok.all_passed);
    assert_eq!(ok.projector_rank, 3);
    assert_eq!(ok.slice_count, 9);
    let bad = ProjectionReport::from_checks(9, true, false, true, true);
    assert!(!bad.all_passed);
}
