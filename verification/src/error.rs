use vstd::prelude::*;

verus! {

/// Why an operation of the simulator was refused.
#[derive(Debug, Clone, Copy, PartialEq, Eq, Structural)]
pub enum SimError {
    /// A stabilizer was given more than four targets.
    StabilizerWeightExceeded,
    /// The surface-code lattice already holds sixteen stabilizers.
    LatticeFull,
    /// A braid index lies past the end of the braid word.
    BraidIndexOutOfRange,
    /// A swap index lies past the end of the braiding engine's state vector.
    SwapIndexOutOfRange,
    /// The tracker already holds the maximum number of anyons.
    AnyonCapacityReached,
    /// A braid names an anyon that was never added.
    AnyonIndexOutOfBounds,
    /// The fusion tree already holds the maximum number of nodes.
    FusionCapacityReached,
    /// No fusion leaf carries the first anyon.
    FirstLeafNotFound,
    /// No fusion leaf carries the second anyon.
    SecondLeafNotFound,
    /// The two leaves share no ancestor.
    NoCommonAncestor,
    /// An anyon id lies past the anyons that were added.
    AnyonIdOutOfRange,
    /// A measured qubit lies past the logical qubits.
    TargetQubitOutOfBounds,
    /// The tracker holds no anyons.
    NoAnyons,
    /// A stabilizer index lies past the registered checks (activation).
    StabilizerIndexOutOfBounds,
    /// The tracker already holds sixty-four stabilizer checks.
    StabilizerCapacityReached,
    /// A stabilizer index lies past the registered checks (measurement).
    StabilizerIndexOutOfRange,
    /// An OpenQASM program holds more operations than a compiled program can.
    ProgramTooLong,
    /// `measure_stabilizer`: the stabilizer index is not a number.
    InvalidStabilizerIndex,
    /// `measure_stabilizer`: the classical register is not a number.
    InvalidStabilizerCreg,
    /// `braid`: the first anyon is not a number.
    InvalidBraidIndexA,
    /// `braid`: the second anyon is not a number.
    InvalidBraidIndexB,
    /// `measure`: the target is not a number.
    InvalidMeasureTarget,
    /// `measure`: the classical register is not a number.
    InvalidMeasureCreg,
    /// `if`: the condition register is not a number.
    InvalidConditionRegister,
    /// `if`: the compared value is not a number.
    InvalidConditionValue,
    /// conditional `braid`: the first anyon is not a number.
    InvalidConditionalBraidA,
    /// conditional `braid`: the second anyon is not a number.
    InvalidConditionalBraidB,
    /// A logical gate targets a qubit past the tensor product.
    TargetExceedsTensorBounds,
    /// Too few anyons were added for the targeted logical qubit.
    InsufficientAnyonsForQubit,
    /// The logical gate's name is none of `H`, `T`, `X`.
    UnknownLogicalGate,
    /// A CNOT names a qubit past the tensor product.
    QubitIndicesExceedBounds,
    /// A CNOT names the same qubit twice.
    ControlEqualsTarget,
    /// Too few anyons were added for the CNOT.
    InsufficientAnyonsForCnot,
    /// Too few anyons were added for an `Rz` phase on the targeted qubit.
    InsufficientAnyonsForPhase,
    /// Too few anyons were added for an `Rx` rotation on the targeted qubit.
    InsufficientAnyonsForRx,
    /// Too few anyons were added for a unitary gate on the targeted qubit.
    InsufficientAnyonsForUnitary,
}

} // verus!
