use vstd::prelude::*;

use crate::error::SimError;

verus! {

/// What a swap of two basis states of the braiding engine applies.
#[derive(Debug, Clone, Copy, PartialEq, Eq, Structural)]
pub enum SwapKind {
    /// Both indices are the same state: a phase of `i` on it.
    Phase { index: usize },
    /// The two states share a pair block (`first / 2 == second / 2`): the diagonal
    /// R-phases.
    IntraNode { first: usize, second: usize },
    /// The states lie in different pair blocks: the full braid matrix.
    InterNode { first: usize, second: usize },
}

/// What swapping states `a` and `b` of a state vector of `len` entries applies; refused
/// when either index is past the vector.
pub open spec fn swap_kind_of(a: usize, b: usize, len: nat) -> Result<SwapKind, SimError> {
    if a >= len || b >= len {
        Err(SimError::SwapIndexOutOfRange)
    } else if a == b {
        Ok(SwapKind::Phase { index: a })
    } else {
        let first = if a < b {
            a
        } else {
            b
        };
        let second = if a < b {
            b
        } else {
            a
        };
        if first / 2 == second / 2 {
            Ok(SwapKind::IntraNode { first, second })
        } else {
            Ok(SwapKind::InterNode { first, second })
        }
    }
}

/// Classifies a swap of states `index_a` and `index_b` of a state vector of `len`
/// entries, as `swap_kind_of` states.
pub fn classify_swap(index_a: usize, index_b: usize, len: usize) -> (r: Result<SwapKind, SimError>)
    ensures
        r == swap_kind_of(index_a, index_b, len as nat),
{
    if index_a >= len || index_b >= len {
        return Err(SimError::SwapIndexOutOfRange);
    }
    if index_a == index_b {
        return Ok(SwapKind::Phase { index: index_a });
    }
    let (first, second) = if index_a < index_b {
        (index_a, index_b)
    } else {
        (index_b, index_a)
    };
    if first / 2 == second / 2 {
        Ok(SwapKind::IntraNode { first, second })
    } else {
        Ok(SwapKind::InterNode { first, second })
    }
}

/// A swap is classified the same whichever order its two indices are given in.
pub proof fn law_swap_kind_symmetric(a: usize, b: usize, len: nat)
    ensures
        swap_kind_of(a, b, len) == swap_kind_of(b, a, len),
{
}

} // verus!
