use vstd::prelude::*;

verus! {

/// The integer cost of simulating one field over `particle_count` particles.
#[derive(Debug, Clone, Copy, PartialEq, Eq, Structural)]
pub struct FieldCost {
    pub particle_count: usize,
    pub operation_count: usize,
    pub memory_bytes: usize,
    pub peak_traced_bytes: usize,
}

/// Operations of the standard field: every pair of particles, `14 n^2 + 6 n`.
pub open spec fn standard_operations(n: nat) -> nat {
    14 * n * n + 6 * n
}

/// Memory of the standard field, in bytes: `80 n + 24 n^2`.
pub open spec fn standard_memory(n: nat) -> nat {
    80 * n + 24 * n * n
}

/// Operations of the optimized field: `11 n`.
pub open spec fn optimized_operations(n: nat) -> nat {
    11 * n
}

/// Memory of the optimized field, in bytes: `72 n`.
pub open spec fn optimized_memory(n: nat) -> nat {
    72 * n
}

/// The particle counts whose standard cost fits the machine's signed word, peak included.
pub open spec fn cost_fits(n: nat) -> bool {
    2 * standard_memory(n) <= isize::MAX && standard_operations(n) <= isize::MAX
}

proof fn lemma_costs_ordered(n: nat)
    ensures
        optimized_operations(n) <= standard_operations(n),
        optimized_memory(n) <= standard_memory(n),
        n >= 1 ==> optimized_operations(n) < standard_operations(n),
        n >= 1 ==> optimized_memory(n) < standard_memory(n),
{
    assert(14 * n * n >= 14 * n && 24 * n * n >= 0) by (nonlinear_arith);
}

/// Cost of the standard field: `14 n^2 + 6 n` operations, `80 n + 24 n^2` bytes, and a
/// traced peak of twice the memory.
pub fn standard_field_cost(particle_count: usize) -> (c: FieldCost)
    requires
        cost_fits(particle_count as nat),
    ensures
        c.particle_count == particle_count,
        c.operation_count == standard_operations(particle_count as nat),
        c.memory_bytes == standard_memory(particle_count as nat),
        c.peak_traced_bytes == 2 * standard_memory(particle_count as nat),
{
    let n = particle_count;
    proof {
        assert(n * n >= 0) by (nonlinear_arith);
        assert(14 * n * n == 14 * (n * n)) by (nonlinear_arith);
        assert(24 * n * n == 24 * (n * n)) by (nonlinear_arith);
    }
    let sq = n * n;
    let operation_count = sq * 14 + 6 * n;
    let memory_bytes = 80 * n + 24 * sq;
    FieldCost { particle_count: n, operation_count, memory_bytes, peak_traced_bytes: memory_bytes * 2 }
}

/// Cost of the optimized field: `11 n` operations, `72 n` bytes, and a traced peak of
/// twice the memory.
pub fn optimized_field_cost(particle_count: usize) -> (c: FieldCost)
    requires
        cost_fits(particle_count as nat),
    ensures
        c.particle_count == particle_count,
        c.operation_count == optimized_operations(particle_count as nat),
        c.memory_bytes == optimized_memory(particle_count as nat),
        c.peak_traced_bytes == 2 * optimized_memory(particle_count as nat),
{
    proof {
        lemma_costs_ordered(particle_count as nat);
    }
    let n = particle_count;
    FieldCost {
        particle_count: n,
        operation_count: n * 11,
        memory_bytes: 72 * n,
        peak_traced_bytes: 72 * n * 2,
    }
}

/// The integer part of a benchmark run: both field costs and what the optimized field
/// saves.
#[derive(Debug, Clone, Copy, PartialEq, Eq, Structural)]
pub struct CostDelta {
    pub standard: FieldCost,
    pub optimized: FieldCost,
    pub operation_delta: isize,
    pub memory_delta_bytes: isize,
}

/// Costs of a benchmark run over `particle_count` particles, which must be positive.
pub fn benchmark_cost_delta(particle_count: usize) -> (d: CostDelta)
    requires
        particle_count > 0,
        cost_fits(particle_count as nat),
    ensures
        d.standard == standard_field_cost_of(particle_count as nat),
        d.optimized == optimized_field_cost_of(particle_count as nat),
        d.operation_delta == standard_operations(particle_count as nat) - optimized_operations(
            particle_count as nat,
        ),
        d.memory_delta_bytes == standard_memory(particle_count as nat) - optimized_memory(
            particle_count as nat,
        ),
{
    let standard = standard_field_cost(particle_count);
    let optimized = optimized_field_cost(particle_count);
    proof {
        lemma_costs_ordered(particle_count as nat);
    }
    let operation_delta = standard.operation_count as isize - optimized.operation_count as isize;
    let memory_delta_bytes = standard.memory_bytes as isize - optimized.memory_bytes as isize;
    CostDelta { standard, optimized, operation_delta, memory_delta_bytes }
}

/// The standard field's cost as a value.
pub open spec fn standard_field_cost_of(n: nat) -> FieldCost {
    FieldCost {
        particle_count: n as usize,
        operation_count: standard_operations(n) as usize,
        memory_bytes: standard_memory(n) as usize,
        peak_traced_bytes: (2 * standard_memory(n)) as usize,
    }
}

/// The optimized field's cost as a value.
pub open spec fn optimized_field_cost_of(n: nat) -> FieldCost {
    FieldCost {
        particle_count: n as usize,
        operation_count: optimized_operations(n) as usize,
        memory_bytes: optimized_memory(n) as usize,
        peak_traced_bytes: (2 * optimized_memory(n)) as usize,
    }
}

/// For every positive particle count, the optimized field takes strictly fewer operations
/// and strictly fewer bytes than the standard one, so both savings are positive.
pub proof fn law_optimized_field_is_cheaper(particle_count: nat)
    requires
        particle_count >= 1,
    ensures
        optimized_operations(particle_count) < standard_operations(particle_count),
        optimized_memory(particle_count) < standard_memory(particle_count),
{
    lemma_costs_ordered(particle_count);
}

} // verus!
