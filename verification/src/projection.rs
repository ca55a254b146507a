use vstd::prelude::*;

verus! {

/// Rank of the projector from the boundary block onto the three spatial directions.
pub const PROJECTOR_RANK: usize = 3;

/// Outcome of auditing a cascade of bulk metric slices.
#[derive(Debug, Clone, Copy, PartialEq, Eq, Structural)]
pub struct ProjectionReport {
    pub slice_count: usize,
    pub projector_rank: usize,
    pub symmetric: bool,
    pub trace_normalized: bool,
    pub positive_definite: bool,
    pub spatial_metric_shape: bool,
    pub all_passed: bool,
}

impl ProjectionReport {
    /// The report of an audit: the projector has rank three, and the audit passes exactly
    /// when every slice was symmetric, trace-normalized and positive definite and every
    /// spatial metric had the right shape.
    pub fn from_checks(
        slice_count: usize,
        symmetric: bool,
        trace_normalized: bool,
        positive_definite: bool,
        spatial_metric_shape: bool,
    ) -> (r: Self)
        ensures
            r.slice_count == slice_count,
            r.projector_rank == PROJECTOR_RANK,
            r.symmetric == symmetric,
            r.trace_normalized == trace_normalized,
            r.positive_definite == positive_definite,
            r.spatial_metric_shape == spatial_metric_shape,
            r.all_passed == (symmetric && trace_normalized && positive_definite
                && spatial_metric_shape),
    {
        ProjectionReport {
            slice_count,
            projector_rank: PROJECTOR_RANK,
            symmetric,
            trace_normalized,
            positive_definite,
            spatial_metric_shape,
            all_passed: symmetric && trace_normalized && positive_definite && spatial_metric_shape,
        }
    }
}

} // verus!
