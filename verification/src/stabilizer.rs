use vstd::prelude::*;

use crate::error::SimError;

verus! {

/// Largest number of anyons one stabilizer generator acts on.
pub const MAX_GENERATOR_WEIGHT: usize = 4;

/// Largest number of generators a surface-code lattice holds.
pub const MAX_LATTICE_STABILIZERS: usize = 16;

/// The two kinds of surface-code stabilizer.
#[derive(Debug, Clone, Copy, PartialEq, Eq, Structural)]
pub enum StabilizerType {
    Plaquette,
    Vertex,
}

/// A stabilizer generator: its kind and the anyons (at most four) it acts on.
#[derive(Debug, Clone)]
pub struct StabilizerGenerator {
    op_type: StabilizerType,
    target_anyons: Vec<usize>,
}

impl StabilizerGenerator {
    /// The generator's kind.
    pub closed spec fn kind(&self) -> StabilizerType {
        self.op_type
    }

    /// The anyons the generator acts on.
    pub closed spec fn spec_targets(&self) -> Seq<usize> {
        self.target_anyons@
    }

    /// A generator of the given kind on `targets`; refused for more than four targets.
    pub fn new(op_type: StabilizerType, targets: Vec<usize>) -> (r: Result<Self, SimError>)
        ensures
            targets@.len() > MAX_GENERATOR_WEIGHT ==> r is Err && r->Err_0
                == SimError::StabilizerWeightExceeded,
            targets@.len() <= MAX_GENERATOR_WEIGHT ==> r is Ok && r->Ok_0.kind() == op_type
                && r->Ok_0.spec_targets() == targets@,
    {
        if targets.len() > MAX_GENERATOR_WEIGHT {
            return Err(SimError::StabilizerWeightExceeded);
        }
        Ok(StabilizerGenerator { op_type, target_anyons: targets })
    }

    /// The anyons the generator acts on.
    pub fn targets(&self) -> (t: Vec<usize>)
        ensures
            t@ == self.spec_targets(),
    {
        let mut t: Vec<usize> = Vec::new();
        let mut i: usize = 0;
        while i < self.target_anyons.len()
            invariant
                i <= self.target_anyons@.len(),
                t@ == self.target_anyons@.subrange(0, i as int),
            decreases self.target_anyons.len() - i,
        {
            t.push(self.target_anyons[i]);
            i = i + 1;
        }
        t
    }

    /// The generator's kind.
    pub fn op_type(&self) -> (k: StabilizerType)
        ensures
            k == self.kind(),
    {
        self.op_type
    }

    /// Changes the generator's kind.
    pub fn set_op_type(&mut self, op_type: StabilizerType)
        ensures
            final(self).kind() == op_type,
            final(self).spec_targets() == old(self).spec_targets(),
    {
        self.op_type = op_type;
    }

    /// Number of anyons the generator acts on.
    pub fn weight(&self) -> (w: usize)
        ensures
            w == self.spec_targets().len(),
    {
        self.target_anyons.len()
    }
}

/// A surface-code lattice: at most sixteen stabilizer generators, in order of addition.
pub struct SurfaceCodeLattice {
    stabilizers: Vec<StabilizerGenerator>,
    data_qubit_to_anyon_map: [usize; 16],
}

impl SurfaceCodeLattice {
    /// The generators, in order of addition: kind and targets.
    pub closed spec fn generators(&self) -> Seq<(StabilizerType, Seq<usize>)> {
        self.stabilizers@.map_values(|g: StabilizerGenerator| (g.kind(), g.spec_targets()))
    }

    /// Which anyon encodes each data qubit.
    pub closed spec fn qubit_map(&self) -> Seq<usize> {
        self.data_qubit_to_anyon_map@
    }

    /// Which anyon encodes each data qubit.
    pub fn data_qubit_to_anyon_map(&self) -> (m: [usize; 16])
        ensures
            m@ == self.qubit_map(),
    {
        self.data_qubit_to_anyon_map
    }

    /// An empty lattice.
    pub fn new() -> (l: Self)
        ensures
            l.generators() == Seq::<(StabilizerType, Seq<usize>)>::empty(),
            l.qubit_map() == Seq::new(16, |i: int| 0usize),
    {
        let l = SurfaceCodeLattice {
            stabilizers: Vec::new(),
            data_qubit_to_anyon_map: [0usize; 16],
        };
        assert(l.generators() =~= Seq::<(StabilizerType, Seq<usize>)>::empty());
        assert(l.data_qubit_to_anyon_map@ =~= Seq::new(16, |i: int| 0usize));
        l
    }

    /// Number of generators.
    pub fn stabilizer_count(&self) -> (n: usize)
        ensures
            n == self.generators().len(),
    {
        self.stabilizers.len()
    }

    /// Adds a generator; refused once sixteen are held.
    pub fn add_stabilizer(&mut self, stabilizer: StabilizerGenerator) -> (r: Result<(), SimError>)
        ensures
            old(self).generators().len() >= MAX_LATTICE_STABILIZERS ==> r == Err::<(), SimError>(
                SimError::LatticeFull,
            ) && final(self).generators() == old(self).generators(),
            old(self).generators().len() < MAX_LATTICE_STABILIZERS ==> r == Ok::<(), SimError>(())
                && final(self).generators() == old(self).generators().push(
                (stabilizer.kind(), stabilizer.spec_targets()),
            ),
            final(self).qubit_map() == old(self).qubit_map(),
    {
        if self.stabilizers.len() >= MAX_LATTICE_STABILIZERS {
            return Err(SimError::LatticeFull);
        }
        let ghost g = (stabilizer.kind(), stabilizer.spec_targets());
        self.stabilizers.push(stabilizer);
        assert(self.generators() =~= old(self).generators().push(g));
        Ok(())
    }
}

} // verus!
