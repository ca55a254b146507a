use shbt_simulator::compiler::CircuitCompiler;
use shbt_simulator::error::SimError;
use shbt_simulator::qasm::{LogicalGateKind, QasmInstruction};

fn compile(text: &str) -> Result<Vec<String>, SimError> {
    let c = CircuitCompiler::new();
    let p = c.parse_openqasm(text.to_string())?;
    Ok((0..p.get_len()).map(|i| format!("{:?}", p.instruction(i))).collect())
}

#[test]
fn parses_basic_program() {
    let text = "OPENQASM 3;\ninclude \"stdgates.inc\";\nqubit[2] q;\nbit[2] c;\nbraid 0 1;\nmeasure 2 -> 3;\nmeasure_stabilizer 4 -> 5;\ndecode_and_correct;\n";
    let ops = compile(text).unwrap();
    assert_eq!(ops.len(), 4);
    assert_eq!(ops[0], "Braid { id_a: 0, id_b: 1 }");
    assert_eq!(ops[1], "Measure { target: 2, creg: 3 }");
    assert_eq!(ops[2], "MeasureStabilizer { stabilizer_idx: 4, creg: 5 }");
    assert_eq!(ops[3], "DecodeAndCorrect");
}

#[test]
fn parses_gates_and_rotations() {
    let c = CircuitCompiler::new();
    let p = c
        .parse_openqasm("h q[1];\ncx q[0], q[2];\nrz(0.25) q[3];\nrx(-1e-3) q[0]\nif (2 == 1) { braid 3 4 }".to_string())
        .unwrap();
    assert_eq!(p.get_len(), 5);
    match p.instruction(0) {
        QasmInstruction::LogicalGate { gate, target_qubit } => {
            assert_eq!(*gate, LogicalGateKind::H);
            assert_eq!(*target_qubit, 1);
        }
        _ => panic!("expected a gate"),
    }
    match p.instruction(1) {
        QasmInstruction::LogicalCNOT { control_qubit, target_qubit } => {
            assert_eq!((*control_qubit, *target_qubit), (0, 2));
        }
        _ => panic!("expected a cnot"),
    }
    match p.instruction(2) {
        QasmInstruction::RzPhase { angle_multiplier, target_qubit } => {
            assert_eq!(angle_multiplier, "0.25");
            assert_eq!(*target_qubit, 3);
        }
        _ => panic!("expected rz"),
    }
    match p.instruction(3) {
        QasmInstruction::RxPhase { angle_multiplier, target_qubit } => {
            assert_eq!(angle_multiplier, "-1e-3");
            assert_eq!(*target_qubit, 0);
        }
        _ => panic!("expected rx"),
    }
    match p.instruction(4) {
        QasmInstruction::ConditionalBraid { creg, val, id_a, id_b } => {
            assert_eq!((*creg, *val, *id_a, *id_b), (2, 1, 3, 4));
        }
        _ => panic!("expected conditional braid"),
    }
}

#[test]
fn reports_malformed_operands() {
    assert_eq!(compile("braid x 1"), Err(SimError::InvalidBraidIndexA));
    assert_eq!(compile("braid 1 y"), Err(SimError::InvalidBraidIndexB));
    assert_eq!(compile("measure a -> 1"), Err(SimError::InvalidMeasureTarget));
    assert_eq!(compile("measure_stabilizer 1 -> z"), Err(SimError::InvalidStabilizerCreg));
    assert_eq!(compile("if (c0 == 1) { braid 1 2 }"), Err(SimError::InvalidConditionRegister));
    assert_eq!(compile("if (0 == -1) { braid 1 2 }"), Err(SimError::InvalidConditionValue));
}

#[test]
fn refuses_programs_past_capacity() {
    let mut text = String::new();
    for _ in 0..128 {
        text.push_str("braid 0 1\n");
    }
    assert_eq!(compile(&text).unwrap().len(), 128);
    text.push_str("decode_and_correct\n");
    assert_eq!(compile(&text), Err(SimError::ProgramTooLong));
}

#[test]
fn unitary4_needs_thirty_two_literals() {
    let mut fields: Vec<String> = (0..32).map(|i| format!("{}.5", i)).collect();
    let ok = format!("unitary4({})", fields.join(", "));
    let ops = compile(&ok).unwrap();
    assert_eq!(ops.len(), 1);
    fields.pop();
    let short = format!("unitary4({})", fields.join(","));
    assert_eq!(compile(&short).unwrap().len(), 0);
}

#[test]
fn declarations_anywhere_compile_to_nothing() {
    let plain = compile("braid 0 1\nmeasure 2 -> 3\nh q[0]").unwrap();
    let dressed = compile("OPENQASM 3;\nbraid 0 1\n\nqubit[4] q;\nmeasure 2 -> 3\ninclude \"x\";\nbit[2] c;\nh q[0]\n").unwrap();
    assert_eq!(plain, dressed);
}

#[test]
fn programs_compile_line_by_line() {
    let first = compile("braid 0 1\ncx q[0], q[1]").unwrap();
    let second = compile("decode_and_correct\nrz(2.5) q[1]").unwrap();
    let both = compile("braid 0 1\ncx q[0], q[1]\ndecode_and_correct\nrz(2.5) q[1]").unwrap();
    assert_eq!(both, [first, second].concat());
    assert_eq!(compile("braid 0 1\nbraid z 1\nbraid 2 3"), Err(SimError::InvalidBraidIndexA));
}
