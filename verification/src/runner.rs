use vstd::prelude::*;

use crate::compiler::{cnot_check, cnot_plan, gate_kind_check, gate_offsets, shifted, CircuitCompiler};
use crate::error::SimError;
use crate::plan::{ran_plan, BraidRun};
use crate::qasm::{CompiledProgram, QasmInstruction, QasmOp};
use crate::tracker::TopologicalTracker;

verus! {

/// Number of classical registers a program can write.
pub const MAX_CLASSICAL_REGS: usize = 16;

/// What one step of a compiled program did, or what it needs from outside.
pub enum StepEvent {
    /// The step's exchanges ran (a braid, a taken conditional braid, a logical gate or a
    /// CNOT); an error in the run stops the program.
    Braided(BraidRun),
    /// A conditional braid whose register did not hold the value.
    Skipped,
    /// The step measures a logical qubit into a classical register.
    NeedsMeasurement { target: usize, creg: usize },
    /// The step measures a stabilizer check into a classical register.
    NeedsStabilizerMeasurement { stabilizer_idx: usize, creg: usize },
    /// The step runs the decoder.
    NeedsDecode,
    /// The step is a rotation or a two-qubit unitary whose braid word must be synthesized;
    /// `step` indexes the program's operation.
    NeedsSynthesis { step: usize },
    /// The step was refused.
    Failed(SimError),
    /// Every operation has run.
    Finished,
}

/// The classical side of a program run: the next operation and the registers.
pub struct ProgramRunner {
    step: usize,
    registers: Vec<u32>,
}

/// Whether a conditional braid on register `creg` against `val` fires.
pub open spec fn condition_holds(regs: Seq<u32>, creg: usize, val: u32) -> bool {
    creg < MAX_CLASSICAL_REGS && regs[creg as int] == val
}

/// The tracker is left as it was and the runner only advanced.
pub open spec fn untouched<P: Copy>(before: TopologicalTracker<P>, after: TopologicalTracker<P>) -> bool {
    after == before
}

/// What the step at the runner's position does, given the registers and the tracker
/// before and after it, and the event it gives.
pub open spec fn step_effect<P: Copy>(
    op: QasmOp,
    step: nat,
    regs: Seq<u32>,
    before: TopologicalTracker<P>,
    after: TopologicalTracker<P>,
    e: StepEvent,
) -> bool {
    let lq = before.spec_logical_qubits();
    let n = before.positions().len();
    match op {
        QasmOp::Braid { id_a, id_b } => e matches StepEvent::Braided(run) && ran_plan(
            before,
            after,
            seq![(id_a, id_b)],
            run,
        ),
        QasmOp::ConditionalBraid { creg, val, id_a, id_b } => if condition_holds(regs, creg, val) {
            e matches StepEvent::Braided(run) && ran_plan(before, after, seq![(id_a, id_b)], run)
        } else {
            e == StepEvent::Skipped && untouched(before, after)
        },
        QasmOp::Measure { target, creg } => e == StepEvent::NeedsMeasurement { target, creg }
            && untouched(before, after),
        QasmOp::MeasureStabilizer { stabilizer_idx, creg } => e
            == StepEvent::NeedsStabilizerMeasurement { stabilizer_idx, creg } && untouched(
            before,
            after,
        ),
        QasmOp::DecodeAndCorrect => e == StepEvent::NeedsDecode && untouched(before, after),
        QasmOp::LogicalGate { gate, target_qubit } => match gate_kind_check(
            lq,
            n,
            target_qubit as nat,
        ) {
            Err(err) => e == StepEvent::Failed(err) && untouched(before, after),
            Ok(_) => e matches StepEvent::Braided(run) && ran_plan(
                before,
                after,
                shifted(4 * target_qubit as nat, gate_offsets(gate)),
                run,
            ),
        },
        QasmOp::LogicalCNOT { control_qubit, target_qubit } => match cnot_check(
            lq,
            n,
            control_qubit as nat,
            target_qubit as nat,
        ) {
            Err(err) => e == StepEvent::Failed(err) && untouched(before, after),
            Ok(_) => e matches StepEvent::Braided(run) && ran_plan(
                before,
                after,
                cnot_plan(control_qubit as nat, target_qubit as nat),
                run,
            ),
        },
        _ => e == StepEvent::NeedsSynthesis { step: step as usize } && untouched(before, after),
    }
}

impl ProgramRunner {
    #[verifier::type_invariant]
    spec fn well_formed(self) -> bool {
        self.registers.len() == MAX_CLASSICAL_REGS
    }

    /// Index of the next operation.
    pub closed spec fn position(&self) -> nat {
        self.step as nat
    }

    /// The classical registers.
    pub closed spec fn registers(&self) -> Seq<u32> {
        self.registers@
    }

    /// A runner at the first operation, every register zero.
    pub fn new() -> (r: Self)
        ensures
            r.position() == 0,
            r.registers() == Seq::new(MAX_CLASSICAL_REGS as nat, |i: int| 0u32),
    {
        let mut registers: Vec<u32> = Vec::new();
        let mut i: usize = 0;
        while i < MAX_CLASSICAL_REGS
            invariant
                i <= MAX_CLASSICAL_REGS,
                registers@ == Seq::new(i as nat, |k: int| 0u32),
            decreases MAX_CLASSICAL_REGS - i,
        {
            registers.push(0);
            i = i + 1;
            assert(registers@ =~= Seq::new(i as nat, |k: int| 0u32));
        }
        ProgramRunner { step: 0, registers }
    }

    /// Stores a measurement outcome in register `creg`; a register past the last is
    /// ignored.
    pub fn record_outcome(&mut self, creg: usize, outcome: u32)
        ensures
            final(self).position() == old(self).position(),
            creg < MAX_CLASSICAL_REGS ==> final(self).registers() == old(self).registers().update(
                creg as int,
                outcome,
            ),
            creg >= MAX_CLASSICAL_REGS ==> final(self).registers() == old(self).registers(),
    {
        proof {
            use_type_invariant(&*self);
        }
        if creg < MAX_CLASSICAL_REGS {
            let mut registers = self.registers.clone();
            assert(registers@ =~= self.registers@);
            registers.set(creg, outcome);
            self.registers = registers;
        }
    }

    /// The value of register `creg`, which must exist.
    pub fn register(&self, creg: usize) -> (v: u32)
        requires
            creg < MAX_CLASSICAL_REGS,
        ensures
            v == self.registers()[creg as int],
    {
        proof {
            use_type_invariant(self);
        }
        self.registers[creg]
    }

    /// Runs the next operation of `program` on the tracker where it needs nothing from
    /// outside, as `step_effect` states, and moves to the operation after it; past the
    /// last operation, gives `Finished` and changes nothing.
    pub fn advance<P: Copy>(
        &mut self,
        compiler: &CircuitCompiler,
        program: &CompiledProgram,
        tracker: &mut TopologicalTracker<P>,
    ) -> (e: StepEvent)
        requires
            old(tracker).wf(),
        ensures
            final(tracker).wf(),
            final(self).registers() == old(self).registers(),
            old(self).position() >= program@.len() ==> e == StepEvent::Finished
                && final(self).position() == old(self).position() && *final(tracker)
                == *old(tracker),
            old(self).position() < program@.len() ==> {
                &&& final(self).position() == old(self).position() + 1
                &&& step_effect(
                    program@[old(self).position() as int],
                    old(self).position(),
                    old(self).registers(),
                    *old(tracker),
                    *final(tracker),
                    e,
                )
            },
    {
        proof {
            use_type_invariant(&*self);
        }
        let len = program.get_len();
        if self.step >= len {
            return StepEvent::Finished;
        }
        let step = self.step;
        self.step = step + 1;
        let ghost regs = self.registers@;
        match program.instruction(step) {
            QasmInstruction::Braid { id_a, id_b } => {
                let plan = vec![(*id_a, *id_b)];
                assert(plan@ =~= seq![(*id_a, *id_b)]);
                StepEvent::Braided(tracker.execute_braid_sequence(&plan))
            },
            QasmInstruction::ConditionalBraid { creg, val, id_a, id_b } => {
                if *creg < MAX_CLASSICAL_REGS && self.registers[*creg] == *val {
                    let plan = vec![(*id_a, *id_b)];
                    assert(plan@ =~= seq![(*id_a, *id_b)]);
                    StepEvent::Braided(tracker.execute_braid_sequence(&plan))
                } else {
                    StepEvent::Skipped
                }
            },
            QasmInstruction::Measure { target, creg } => StepEvent::NeedsMeasurement {
                target: *target,
                creg: *creg,
            },
            QasmInstruction::MeasureStabilizer { stabilizer_idx, creg } =>
                StepEvent::NeedsStabilizerMeasurement {
                stabilizer_idx: *stabilizer_idx,
                creg: *creg,
            },
            QasmInstruction::DecodeAndCorrect => StepEvent::NeedsDecode,
            QasmInstruction::LogicalGate { gate, target_qubit } => {
                match compiler.compile_gate_kind(tracker, *gate, *target_qubit) {
                    Ok(run) => StepEvent::Braided(run),
                    Err(err) => StepEvent::Failed(err),
                }
            },
            QasmInstruction::LogicalCNOT { control_qubit, target_qubit } => {
                match compiler.compile_cnot(tracker, *control_qubit, *target_qubit) {
                    Ok(run) => StepEvent::Braided(run),
                    Err(err) => StepEvent::Failed(err),
                }
            },
            _ => StepEvent::NeedsSynthesis { step },
        }
    }
}

} // verus!
