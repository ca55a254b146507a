use vstd::prelude::*;

use crate::braid::{BraidSequence, MAX_SK_STEPS};
use crate::error::SimError;
use crate::plan::{plan_in_range, ran_plan, BraidRun};
use crate::qasm::{parse_program, parse_program_exec, CompiledProgram, LogicalGateKind, QasmOp};
use crate::rewrite::{law_minimize_never_lengthens, minimize_exec, minimized_word};
use crate::text::chars_of;
use crate::tracker::TopologicalTracker;

verus! {

/// The logical gate a one-letter name selects: `H`, `T`, `X`.
pub open spec fn gate_named(name: Seq<char>) -> Option<LogicalGateKind> {
    if name == seq!['H'] {
        Some(LogicalGateKind::H)
    } else if name == seq!['T'] {
        Some(LogicalGateKind::T)
    } else if name == seq!['X'] {
        Some(LogicalGateKind::X)
    } else {
        None
    }
}

/// The exchanges of a logical gate within its qubit's block of four anyons.
pub open spec fn gate_offsets(g: LogicalGateKind) -> Seq<(usize, usize)> {
    match g {
        LogicalGateKind::H => seq![(0, 1), (0, 2), (1, 2), (0, 3), (1, 3), (2, 3)],
        LogicalGateKind::T => seq![(1, 2), (1, 3), (0, 2), (0, 3), (0, 3), (1, 3)],
        LogicalGateKind::X => seq![(0, 1), (2, 3), (0, 3), (1, 3), (0, 2), (1, 2)],
    }
}

/// A braid word moved to the block that starts at anyon `base`.
pub open spec fn shifted(base: nat, word: Seq<(usize, usize)>) -> Seq<(usize, usize)> {
    word.map_values(|p: (usize, usize)| ((base + p.0) as usize, (base + p.1) as usize))
}

/// Every exchange of the word stays a `usize` once moved to `base`.
pub open spec fn shift_fits(base: nat, word: Seq<(usize, usize)>) -> bool {
    forall|i: int|
        0 <= i < word.len() ==> base + (#[trigger] word[i]).0 <= usize::MAX && base + word[i].1
            <= usize::MAX
}

/// The four exchanges of a CNOT from qubit `c` to qubit `t`: the control block's last two
/// anyons around the target block's first two.
pub open spec fn cnot_plan(c: nat, t: nat) -> Seq<(usize, usize)> {
    seq![
        ((4 * c + 3) as usize, (4 * t) as usize),
        ((4 * c + 2) as usize, (4 * t) as usize),
        ((4 * c + 3) as usize, (4 * t + 1) as usize),
        ((4 * c + 2) as usize, (4 * t + 1) as usize),
    ]
}

/// Whether a logical gate may run: the qubit exists, its block of four anyons was added,
/// and the name selects a gate (see `gate_named`); gives that gate.
pub open spec fn gate_check(lq: nat, anyons: nat, name: Seq<char>, target: nat) -> Result<
    LogicalGateKind,
    SimError,
> {
    if target >= lq {
        Err(SimError::TargetExceedsTensorBounds)
    } else if 4 * target + 3 >= anyons {
        Err(SimError::InsufficientAnyonsForQubit)
    } else {
        match gate_named(name) {
            Some(g) => Ok(g),
            None => Err(SimError::UnknownLogicalGate),
        }
    }
}

/// Whether a logical gate of known kind may run: the qubit exists and its block of four
/// anyons was added.
pub open spec fn gate_kind_check(lq: nat, anyons: nat, target: nat) -> Result<(), SimError> {
    if target >= lq {
        Err(SimError::TargetExceedsTensorBounds)
    } else if 4 * target + 3 >= anyons {
        Err(SimError::InsufficientAnyonsForQubit)
    } else {
        Ok(())
    }
}

/// Whether a CNOT may run: both qubits exist, differ, and both blocks were added.
pub open spec fn cnot_check(lq: nat, anyons: nat, control: nat, target: nat) -> Result<(), SimError> {
    if control >= lq || target >= lq {
        Err(SimError::QubitIndicesExceedBounds)
    } else if control == target {
        Err(SimError::ControlEqualsTarget)
    } else if 4 * (if control > target {
        control
    } else {
        target
    }) + 3 >= anyons {
        Err(SimError::InsufficientAnyonsForCnot)
    } else {
        Ok(())
    }
}

/// Whether a synthesized single-qubit word may be played on a qubit: the qubit exists and
/// its block of four anyons was added (`shortage` otherwise).
pub open spec fn block_check(lq: nat, anyons: nat, target: nat, shortage: SimError) -> Result<
    (),
    SimError,
> {
    if target >= lq {
        Err(SimError::TargetExceedsTensorBounds)
    } else if 4 * target + 3 >= anyons {
        Err(shortage)
    } else {
        Ok(())
    }
}

/// The exchanges of the two-qubit Cartan layout on qubits 0 and 1: `H` on both blocks, a
/// CNOT, the `Rz` words of the first two angles on blocks 0 and 1, a CNOT, the `Rz` word
/// of the third angle on block 0, and `H` on both blocks again.
pub open spec fn cartan_plan(
    rz0: Seq<(usize, usize)>,
    rz1: Seq<(usize, usize)>,
    rz2: Seq<(usize, usize)>,
) -> Seq<(usize, usize)> {
    let h = gate_offsets(LogicalGateKind::H);
    shifted(0, h) + shifted(4, h) + cnot_plan(0, 1) + shifted(0, rz0) + shifted(4, rz1)
        + cnot_plan(0, 1) + shifted(0, rz2) + shifted(0, h) + shifted(4, h)
}

/// The word a plan records: its first `MAX_SK_STEPS` exchanges.
pub open spec fn recorded(plan: Seq<(usize, usize)>) -> Seq<(usize, usize)> {
    if plan.len() <= MAX_SK_STEPS {
        plan
    } else {
        plan.take(MAX_SK_STEPS as int)
    }
}

fn gate_of_name(name: &str) -> (g: Option<LogicalGateKind>)
    ensures
        g == gate_named(name@),
{
    let cs = chars_of(name);
    if cs.len() != 1 {
        return None;
    }
    let c = cs[0];
    assert(cs@ =~= seq![c]);
    if c == 'H' {
        Some(LogicalGateKind::H)
    } else if c == 'T' {
        Some(LogicalGateKind::T)
    } else if c == 'X' {
        Some(LogicalGateKind::X)
    } else {
        None
    }
}

fn gate_offsets_exec(g: LogicalGateKind) -> (v: Vec<(usize, usize)>)
    ensures
        v@ == gate_offsets(g),
{
    let v = match g {
        LogicalGateKind::H => vec![(0, 1), (0, 2), (1, 2), (0, 3), (1, 3), (2, 3)],
        LogicalGateKind::T => vec![(1, 2), (1, 3), (0, 2), (0, 3), (0, 3), (1, 3)],
        LogicalGateKind::X => vec![(0, 1), (2, 3), (0, 3), (1, 3), (0, 2), (1, 2)],
    };
    assert(v@ =~= gate_offsets(g));
    v
}

/// Appends `word` moved to `base` to `plan`.
fn push_shifted(plan: &mut Vec<(usize, usize)>, base: usize, word: &Vec<(usize, usize)>)
    requires
        shift_fits(base as nat, word@),
    ensures
        final(plan)@ == old(plan)@ + shifted(base as nat, word@),
{
    let ghost start = plan@;
    let mut i: usize = 0;
    while i < word.len()
        invariant
            i <= word@.len(),
            shift_fits(base as nat, word@),
            plan@ == start + shifted(base as nat, word@.take(i as int)),
        decreases word@.len() - i,
    {
        let (a, b) = word[i];
        assert(base + word@[i as int].0 <= usize::MAX && base + word@[i as int].1 <= usize::MAX);
        plan.push((base + a, base + b));
        i = i + 1;
        assert(shifted(base as nat, word@.take(i as int)) =~= shifted(
            base as nat,
            word@.take(i - 1),
        ).push(((base + a) as usize, (base + b) as usize)));
    }
    assert(word@.take(word@.len() as int) =~= word@);
}

fn push_cnot(plan: &mut Vec<(usize, usize)>, control: usize, target: usize)
    requires
        control < 64,
        target < 64,
    ensures
        final(plan)@ == old(plan)@ + cnot_plan(control as nat, target as nat),
{
    let c = control * 4;
    let t = target * 4;
    plan.push((c + 3, t));
    plan.push((c + 2, t));
    plan.push((c + 3, t + 1));
    plan.push((c + 2, t + 1));
    assert(final(plan)@ =~= old(plan)@ + cnot_plan(control as nat, target as nat));
}

/// The CircuitCompiler: braid-word minimization, the braid plans of logical gates and the
/// OpenQASM front end.
pub struct CircuitCompiler {}

impl CircuitCompiler {
    /// A compiler.
    pub fn new() -> (c: Self) {
        CircuitCompiler {  }
    }

    /// Minimizes a braid word: adjacent cancellation, far commutation and Yang-Baxter
    /// rewriting rounds, as `minimized_word` states.
    pub fn minimize_sequence(&self, seq: BraidSequence) -> (r: BraidSequence)
        ensures
            r@ == minimized_word(seq@),
    {
        let v = seq.to_vec();
        let m = minimize_exec(v);
        proof {
            law_minimize_never_lengthens(v@);
        }
        BraidSequence::from_vec(m)
    }

    /// Compiles an OpenQASM program, one statement per line, as `parse_program` states.
    pub fn parse_openqasm(&self, program_str: String) -> (r: Result<CompiledProgram, SimError>)
        ensures
            match r {
                Ok(p) => parse_program(program_str@) == Ok::<Seq<QasmOp>, SimError>(p@),
                Err(e) => parse_program(program_str@) == Err::<Seq<QasmOp>, SimError>(e),
            },
    {
        parse_program_exec(program_str.as_str())
    }

    /// Runs the logical gate named `gate_name` (`H`, `T` or `X`) on a qubit: its six
    /// exchanges within the qubit's block of four anyons. Refused, with the tracker
    /// untouched, as `gate_check` states.
    pub fn compile_gate<P: Copy>(
        &self,
        tracker: &mut TopologicalTracker<P>,
        gate_name: &str,
        target_qubit: usize,
    ) -> (r: Result<BraidRun, SimError>)
        requires
            old(tracker).wf(),
        ensures
            match gate_check(
                old(tracker).spec_logical_qubits(),
                old(tracker).positions().len(),
                gate_name@,
                target_qubit as nat,
            ) {
                Err(e) => r == Err::<BraidRun, SimError>(e) && *final(tracker) == *old(tracker),
                Ok(g) => r matches Ok(run) && run.error == None::<SimError> && ran_plan(
                    *old(tracker),
                    *final(tracker),
                    shifted(4 * target_qubit as nat, gate_offsets(g)),
                    run,
                ),
            },
    {
        if target_qubit >= tracker.logical_qubits() {
            return Err(SimError::TargetExceedsTensorBounds);
        }
        let base = target_qubit * 4;
        if base + 3 >= tracker.anyon_count() {
            return Err(SimError::InsufficientAnyonsForQubit);
        }
        let g = match gate_of_name(gate_name) {
            Some(g) => g,
            None => return Err(SimError::UnknownLogicalGate),
        };
        Ok(Self::run_gate(tracker, g, target_qubit))
    }

    /// Runs the logical gate `gate` on a qubit, as `compile_gate` does once the name is
    /// read. Refused, with the tracker untouched, as `gate_kind_check` states.
    pub fn compile_gate_kind<P: Copy>(
        &self,
        tracker: &mut TopologicalTracker<P>,
        gate: LogicalGateKind,
        target_qubit: usize,
    ) -> (r: Result<BraidRun, SimError>)
        requires
            old(tracker).wf(),
        ensures
            match gate_kind_check(
                old(tracker).spec_logical_qubits(),
                old(tracker).positions().len(),
                target_qubit as nat,
            ) {
                Err(e) => r == Err::<BraidRun, SimError>(e) && *final(tracker) == *old(tracker),
                Ok(_) => r matches Ok(run) && run.error == None::<SimError> && ran_plan(
                    *old(tracker),
                    *final(tracker),
                    shifted(4 * target_qubit as nat, gate_offsets(gate)),
                    run,
                ),
            },
    {
        if target_qubit >= tracker.logical_qubits() {
            return Err(SimError::TargetExceedsTensorBounds);
        }
        if target_qubit * 4 + 3 >= tracker.anyon_count() {
            return Err(SimError::InsufficientAnyonsForQubit);
        }
        Ok(Self::run_gate(tracker, gate, target_qubit))
    }

    fn run_gate<P: Copy>(tracker: &mut TopologicalTracker<P>, g: LogicalGateKind, target_qubit: usize) -> (run: BraidRun)
        requires
            old(tracker).wf(),
            target_qubit < old(tracker).spec_logical_qubits(),
            4 * target_qubit + 3 < old(tracker).positions().len(),
        ensures
            run.error == None::<SimError>,
            ran_plan(
                *old(tracker),
                *final(tracker),
                shifted(4 * target_qubit as nat, gate_offsets(g)),
                run,
            ),
    {
        proof {
            old(tracker).lemma_logical_qubits_bounded();
        }
        let base = target_qubit * 4;
        let offsets = gate_offsets_exec(g);
        let mut plan: Vec<(usize, usize)> = Vec::new();
        push_shifted(&mut plan, base, &offsets);
        assert(plan@ =~= shifted(base as nat, gate_offsets(g)));
        assert(plan_in_range(plan@, old(tracker).positions().len()));
        tracker.execute_braid_sequence(&plan)
    }

    /// Runs a CNOT from `control_qubit` to `target_qubit`: the four exchanges of
    /// `cnot_plan`. Refused, with the tracker untouched, as `cnot_check` states.
    pub fn compile_cnot<P: Copy>(
        &self,
        tracker: &mut TopologicalTracker<P>,
        control_qubit: usize,
        target_qubit: usize,
    ) -> (r: Result<BraidRun, SimError>)
        requires
            old(tracker).wf(),
        ensures
            match cnot_check(
                old(tracker).spec_logical_qubits(),
                old(tracker).positions().len(),
                control_qubit as nat,
                target_qubit as nat,
            ) {
                Err(e) => r == Err::<BraidRun, SimError>(e) && *final(tracker) == *old(tracker),
                Ok(_) => r matches Ok(run) && run.error == None::<SimError> && ran_plan(
                    *old(tracker),
                    *final(tracker),
                    cnot_plan(control_qubit as nat, target_qubit as nat),
                    run,
                ),
            },
    {
        let lq = tracker.logical_qubits();
        if control_qubit >= lq || target_qubit >= lq {
            return Err(SimError::QubitIndicesExceedBounds);
        }
        if control_qubit == target_qubit {
            return Err(SimError::ControlEqualsTarget);
        }
        let high = if control_qubit > target_qubit {
            control_qubit
        } else {
            target_qubit
        };
        if high * 4 + 3 >= tracker.anyon_count() {
            return Err(SimError::InsufficientAnyonsForCnot);
        }
        let mut plan: Vec<(usize, usize)> = Vec::new();
        push_cnot(&mut plan, control_qubit, target_qubit);
        assert(plan@ =~= cnot_plan(control_qubit as nat, target_qubit as nat));
        assert(plan_in_range(plan@, old(tracker).positions().len()));
        let run = tracker.execute_braid_sequence(&plan);
        Ok(run)
    }

    /// Whether a synthesized single-qubit word may be played on a qubit, as `block_check`
    /// states with `shortage`; lets a caller refuse before synthesizing the word.
    pub fn check_block<P: Copy>(
        tracker: &TopologicalTracker<P>,
        target_qubit: usize,
        shortage: SimError,
    ) -> (r: Result<(), SimError>)
        requires
            tracker.wf(),
        ensures
            r == block_check(
                tracker.spec_logical_qubits(),
                tracker.positions().len(),
                target_qubit as nat,
                shortage,
            ),
    {
        if target_qubit >= tracker.logical_qubits() {
            return Err(SimError::TargetExceedsTensorBounds);
        }
        if target_qubit * 4 + 3 >= tracker.anyon_count() {
            return Err(shortage);
        }
        Ok(())
    }

    /// Plays a synthesized single-qubit braid word on a qubit's block, refused as
    /// `block_check` states with `shortage`.
    fn play_on_block<P: Copy>(
        tracker: &mut TopologicalTracker<P>,
        word: &BraidSequence,
        target_qubit: usize,
        shortage: SimError,
    ) -> (r: Result<BraidRun, SimError>)
        requires
            old(tracker).wf(),
            target_qubit < old(tracker).spec_logical_qubits() ==> shift_fits(
                4 * target_qubit as nat,
                word@,
            ),
        ensures
            match block_check(
                old(tracker).spec_logical_qubits(),
                old(tracker).positions().len(),
                target_qubit as nat,
                shortage,
            ) {
                Err(e) => r == Err::<BraidRun, SimError>(e) && *final(tracker) == *old(tracker),
                Ok(_) => r matches Ok(run) && ran_plan(
                    *old(tracker),
                    *final(tracker),
                    shifted(4 * target_qubit as nat, word@),
                    run,
                ),
            },
    {
        if target_qubit >= tracker.logical_qubits() {
            return Err(SimError::TargetExceedsTensorBounds);
        }
        let base = target_qubit * 4;
        if base + 3 >= tracker.anyon_count() {
            return Err(shortage);
        }
        let w = word.to_vec();
        let mut plan: Vec<(usize, usize)> = Vec::new();
        push_shifted(&mut plan, base, &w);
        assert(plan@ =~= shifted(base as nat, word@));
        let run = tracker.execute_braid_sequence(&plan);
        Ok(run)
    }

    /// Plays the braid word synthesized for an `Rz` phase on a qubit's block; refused as
    /// `block_check` states, a missing block with `InsufficientAnyonsForPhase`.
    pub fn compile_arbitrary_phase<P: Copy>(
        &self,
        tracker: &mut TopologicalTracker<P>,
        word: &BraidSequence,
        target_qubit: usize,
    ) -> (r: Result<BraidRun, SimError>)
        requires
            old(tracker).wf(),
            target_qubit < old(tracker).spec_logical_qubits() ==> shift_fits(
                4 * target_qubit as nat,
                word@,
            ),
        ensures
            match block_check(
                old(tracker).spec_logical_qubits(),
                old(tracker).positions().len(),
                target_qubit as nat,
                SimError::InsufficientAnyonsForPhase,
            ) {
                Err(e) => r == Err::<BraidRun, SimError>(e) && *final(tracker) == *old(tracker),
                Ok(_) => r matches Ok(run) && ran_plan(
                    *old(tracker),
                    *final(tracker),
                    shifted(4 * target_qubit as nat, word@),
                    run,
                ),
            },
    {
        Self::play_on_block(tracker, word, target_qubit, SimError::InsufficientAnyonsForPhase)
    }

    /// Plays the braid word synthesized for an `Rx` rotation on a qubit's block; refused as
    /// `block_check` states, a missing block with `InsufficientAnyonsForRx`.
    pub fn compile_arbitrary_phase_rx<P: Copy>(
        &self,
        tracker: &mut TopologicalTracker<P>,
        word: &BraidSequence,
        target_qubit: usize,
    ) -> (r: Result<BraidRun, SimError>)
        requires
            old(tracker).wf(),
            target_qubit < old(tracker).spec_logical_qubits() ==> shift_fits(
                4 * target_qubit as nat,
                word@,
            ),
        ensures
            match block_check(
                old(tracker).spec_logical_qubits(),
                old(tracker).positions().len(),
                target_qubit as nat,
                SimError::InsufficientAnyonsForRx,
            ) {
                Err(e) => r == Err::<BraidRun, SimError>(e) && *final(tracker) == *old(tracker),
                Ok(_) => r matches Ok(run) && ran_plan(
                    *old(tracker),
                    *final(tracker),
                    shifted(4 * target_qubit as nat, word@),
                    run,
                ),
            },
    {
        Self::play_on_block(tracker, word, target_qubit, SimError::InsufficientAnyonsForRx)
    }

    /// Plays the braid word synthesized for a single-qubit unitary on a qubit's block;
    /// refused as `block_check` states, a missing block with
    /// `InsufficientAnyonsForUnitary`.
    pub fn compile_unitary_gate<P: Copy>(
        &self,
        tracker: &mut TopologicalTracker<P>,
        word: &BraidSequence,
        target_qubit: usize,
    ) -> (r: Result<BraidRun, SimError>)
        requires
            old(tracker).wf(),
            target_qubit < old(tracker).spec_logical_qubits() ==> shift_fits(
                4 * target_qubit as nat,
                word@,
            ),
        ensures
            match block_check(
                old(tracker).spec_logical_qubits(),
                old(tracker).positions().len(),
                target_qubit as nat,
                SimError::InsufficientAnyonsForUnitary,
            ) {
                Err(e) => r == Err::<BraidRun, SimError>(e) && *final(tracker) == *old(tracker),
                Ok(_) => r matches Ok(run) && ran_plan(
                    *old(tracker),
                    *final(tracker),
                    shifted(4 * target_qubit as nat, word@),
                    run,
                ),
            },
    {
        Self::play_on_block(tracker, word, target_qubit, SimError::InsufficientAnyonsForUnitary)
    }

    /// Runs the two-qubit Cartan layout of `cartan_plan` on qubits 0 and 1, given the `Rz`
    /// words synthesized for the three Cartan angles, and records what it ran. When every
    /// exchange ran, the recorded word (the first `MAX_SK_STEPS` exchanges), minimized, is
    /// given back.
    pub fn compile_two_qubit_gate_cartan<P: Copy>(
        &self,
        tracker: &mut TopologicalTracker<P>,
        rz0: &BraidSequence,
        rz1: &BraidSequence,
        rz2: &BraidSequence,
    ) -> (r: (BraidRun, Option<BraidSequence>))
        requires
            old(tracker).wf(),
            shift_fits(4, rz1@),
        ensures
            ran_plan(*old(tracker), *final(tracker), cartan_plan(rz0@, rz1@, rz2@), r.0),
            r.0.error is None ==> (r.1 matches Some(w) && w@ == minimized_word(
                recorded(cartan_plan(rz0@, rz1@, rz2@)),
            )),
            r.0.error is Some ==> r.1 is None,
    {
        let h = gate_offsets_exec(LogicalGateKind::H);
        let w0 = rz0.to_vec();
        let w1 = rz1.to_vec();
        let w2 = rz2.to_vec();
        let mut plan: Vec<(usize, usize)> = Vec::new();
        push_shifted(&mut plan, 0, &h);
        push_shifted(&mut plan, 4, &h);
        push_cnot(&mut plan, 0, 1);
        push_shifted(&mut plan, 0, &w0);
        push_shifted(&mut plan, 4, &w1);
        push_cnot(&mut plan, 0, 1);
        push_shifted(&mut plan, 0, &w2);
        push_shifted(&mut plan, 0, &h);
        push_shifted(&mut plan, 4, &h);
        assert(plan@ =~= cartan_plan(rz0@, rz1@, rz2@));
        let run = tracker.execute_braid_sequence(&plan);
        if run.error.is_some() {
            return (run, None);
        }
        let mut kept: Vec<(usize, usize)> = Vec::new();
        let mut i: usize = 0;
        while i < plan.len() && i < MAX_SK_STEPS
            invariant
                i <= plan@.len(),
                i <= MAX_SK_STEPS,
                kept@ == plan@.take(i as int),
            decreases plan@.len() - i,
        {
            kept.push(plan[i]);
            i = i + 1;
            assert(kept@ =~= plan@.take(i as int));
        }
        assert(kept@ =~= recorded(plan@));
        let word = self.minimize_sequence(BraidSequence::from_vec(kept));
        (run, Some(word))
    }
}

/// The two-qubit Cartan layout, exchange by exchange: `H` on block 0 (anyons 0-3) and on
/// block 1 (anyons 4-7), the CNOT exchanges `(3,4) (2,4) (3,5) (2,5)`, the first `Rz`
/// word on block 0, the second on block 1 (each exchange moved by four), the CNOT again,
/// the third `Rz` word on block 0, and `H` on blocks 0 and 1 again.
pub proof fn law_cartan_layout(
    rz0: Seq<(usize, usize)>,
    rz1: Seq<(usize, usize)>,
    rz2: Seq<(usize, usize)>,
)
    requires
        shift_fits(4, rz1),
    ensures
        ({
            let plan = cartan_plan(rz0, rz1, rz2);
            let h = seq![(0usize, 1usize), (0, 2), (1, 2), (0, 3), (1, 3), (2, 3)];
            let cx = seq![(3usize, 4usize), (2, 4), (3, 5), (2, 5)];
            let a = rz0.len() as int;
            let b = rz1.len() as int;
            let c = rz2.len() as int;
            &&& plan.len() == 32 + a + b + c
            &&& forall|k: int| 0 <= k < 6 ==> #[trigger] plan[k] == h[k]
            &&& forall|k: int|
                0 <= k < 6 ==> #[trigger] plan[6 + k].0 == h[k].0 + 4 && plan[6 + k].1 == h[k].1 + 4
            &&& forall|k: int| 0 <= k < 4 ==> #[trigger] plan[12 + k] == cx[k]
            &&& forall|k: int| 0 <= k < a ==> #[trigger] plan[16 + k] == rz0[k]
            &&& forall|k: int|
                0 <= k < b ==> #[trigger] plan[16 + a + k].0 == rz1[k].0 + 4 && plan[16 + a
                    + k].1 == rz1[k].1 + 4
            &&& forall|k: int| 0 <= k < 4 ==> #[trigger] plan[16 + a + b + k] == cx[k]
            &&& forall|k: int| 0 <= k < c ==> #[trigger] plan[20 + a + b + k] == rz2[k]
            &&& forall|k: int| 0 <= k < 6 ==> #[trigger] plan[20 + a + b + c + k] == h[k]
            &&& forall|k: int|
                0 <= k < 6 ==> #[trigger] plan[26 + a + b + c + k].0 == h[k].0 + 4 && plan[26 + a
                    + b + c + k].1 == h[k].1 + 4
        }),
{
    let hh = gate_offsets(LogicalGateKind::H);
    let p0 = shifted(0, hh);
    let p1 = shifted(4, hh);
    let p2 = cnot_plan(0, 1);
    let p3 = shifted(0, rz0);
    let p4 = shifted(4, rz1);
    let p5 = cnot_plan(0, 1);
    let p6 = shifted(0, rz2);
    let p7 = shifted(0, hh);
    let p8 = shifted(4, hh);
    let plan = cartan_plan(rz0, rz1, rz2);
    let a = rz0.len() as int;
    let b = rz1.len() as int;
    let c = rz2.len() as int;
    let q1 = p0 + p1;
    let q2 = q1 + p2;
    let q3 = q2 + p3;
    let q4 = q3 + p4;
    let q5 = q4 + p5;
    let q6 = q5 + p6;
    let q7 = q6 + p7;
    assert(plan == q7 + p8);
    assert(p0 =~= seq![(0usize, 1usize), (0, 2), (1, 2), (0, 3), (1, 3), (2, 3)]);
    assert(p7 =~= p0);
    assert(p1 =~= seq![(4usize, 5usize), (4, 6), (5, 6), (4, 7), (5, 7), (6, 7)]);
    assert(p8 =~= p1);
    assert(p2 =~= seq![(3usize, 4usize), (2, 4), (3, 5), (2, 5)]);
    assert(p5 =~= p2);
    assert(q7.len() == 26 + a + b + c);
    assert forall|k: int| 0 <= k < 6 implies #[trigger] plan[k] == p0[k] by {
        assert(plan[k] == q7[k] && q7[k] == q6[k] && q6[k] == q5[k] && q5[k] == q4[k]);
        assert(q4[k] == q3[k] && q3[k] == q2[k] && q2[k] == q1[k] && q1[k] == p0[k]);
    }
    assert forall|k: int| 0 <= k < 6 implies #[trigger] plan[6 + k] == p1[k] by {
        let i = 6 + k;
        assert(plan[i] == q7[i] && q7[i] == q6[i] && q6[i] == q5[i] && q5[i] == q4[i]);
        assert(q4[i] == q3[i] && q3[i] == q2[i] && q2[i] == q1[i] && q1[i] == p1[k]);
    }
    assert forall|k: int| 0 <= k < 4 implies #[trigger] plan[12 + k] == p2[k] by {
        let i = 12 + k;
        assert(plan[i] == q7[i] && q7[i] == q6[i] && q6[i] == q5[i] && q5[i] == q4[i]);
        assert(q4[i] == q3[i] && q3[i] == q2[i] && q2[i] == p2[k]);
    }
    assert forall|k: int| 0 <= k < a implies #[trigger] plan[16 + k] == rz0[k] by {
        let i = 16 + k;
        assert(plan[i] == q7[i] && q7[i] == q6[i] && q6[i] == q5[i] && q5[i] == q4[i]);
        assert(q4[i] == q3[i] && q3[i] == p3[k]);
        assert(p3[k] == ((0 + rz0[k].0) as usize, (0 + rz0[k].1) as usize));
    }
    assert forall|k: int| 0 <= k < b implies #[trigger] plan[16 + a + k].0 == rz1[k].0 + 4
        && plan[16 + a + k].1 == rz1[k].1 + 4 by {
        let i = 16 + a + k;
        assert(plan[i] == q7[i] && q7[i] == q6[i] && q6[i] == q5[i] && q5[i] == q4[i]);
        assert(q4[i] == p4[k]);
        assert(p4[k] == ((4 + rz1[k].0) as usize, (4 + rz1[k].1) as usize));
    }
    assert forall|k: int| 0 <= k < 4 implies #[trigger] plan[16 + a + b + k] == p5[k] by {
        let i = 16 + a + b + k;
        assert(plan[i] == q7[i] && q7[i] == q6[i] && q6[i] == q5[i] && q5[i] == p5[k]);
    }
    assert forall|k: int| 0 <= k < c implies #[trigger] plan[20 + a + b + k] == rz2[k] by {
        let i = 20 + a + b + k;
        assert(plan[i] == q7[i] && q7[i] == q6[i] && q6[i] == p6[k]);
        assert(p6[k] == ((0 + rz2[k].0) as usize, (0 + rz2[k].1) as usize));
    }
    assert forall|k: int| 0 <= k < 6 implies #[trigger] plan[20 + a + b + c + k] == p7[k] by {
        let i = 20 + a + b + c + k;
        assert(plan[i] == q7[i] && q7[i] == p7[k]);
    }
    assert forall|k: int| 0 <= k < 6 implies #[trigger] plan[26 + a + b + c + k] == p8[k] by {
        let i = 26 + a + b + c + k;
        assert(plan[i] == p8[k]);
    }
    let h = seq![(0usize, 1usize), (0, 2), (1, 2), (0, 3), (1, 3), (2, 3)];
    let cx = seq![(3usize, 4usize), (2, 4), (3, 5), (2, 5)];
    assert(p0 == h);
    assert forall|k: int| 0 <= k < 6 implies #[trigger] p1[k].0 == h[k].0 + 4 && p1[k].1 == h[k].1
        + 4 by {
        if k == 0 {
        } else if k == 1 {
        } else if k == 2 {
        } else if k == 3 {
        } else if k == 4 {
        } else {
        }
    }
    assert(p2 == cx);
    assert forall|k: int| 0 <= k < 6 implies #[trigger] plan[6 + k].0 == h[k].0 + 4 && plan[6
        + k].1 == h[k].1 + 4 by {
        assert(plan[6 + k] == p1[k]);
        assert(p1[k].0 == h[k].0 + 4);
    }
    assert forall|k: int| 0 <= k < 6 implies #[trigger] plan[26 + a + b + c + k].0 == h[k].0 + 4
        && plan[26 + a + b + c + k].1 == h[k].1 + 4 by {
        assert(plan[26 + a + b + c + k] == p1[k]);
        assert(p1[k].0 == h[k].0 + 4);
    }
}

} // verus!
