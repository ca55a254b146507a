use vstd::prelude::*;

use crate::error::SimError;
use crate::tracker::{extend_trajectory, TopologicalTracker};

verus! {

/// Positions after exchanging the anyons at `a` and `b`.
pub open spec fn swapped<P>(pos: Seq<P>, a: usize, b: usize) -> Seq<P> {
    pos.update(a as int, pos[b as int]).update(b as int, pos[a as int])
}

/// Positions after every exchange of a plan, in order.
pub open spec fn positions_after<P>(pos: Seq<P>, plan: Seq<(usize, usize)>) -> Seq<P>
    decreases plan.len(),
{
    if plan.len() == 0 {
        pos
    } else {
        let p = positions_after(pos, plan.drop_last());
        swapped(p, plan.last().0, plan.last().1)
    }
}

/// Trajectory of anyon `i` after every exchange of a plan: each exchange offers the
/// anyon's new position to its worldline.
pub open spec fn trajectory_after<P>(traj: Seq<P>, pos: Seq<P>, plan: Seq<(usize, usize)>, i: int) -> Seq<P>
    decreases plan.len(),
{
    if plan.len() == 0 {
        traj
    } else {
        extend_trajectory(
            trajectory_after(traj, pos, plan.drop_last(), i),
            positions_after(pos, plan)[i],
        )
    }
}

/// The braid clock after `k` more braids, saturating at `u64::MAX`.
pub open spec fn time_after(t: nat, k: nat) -> nat {
    if t + k <= u64::MAX {
        t + k
    } else {
        u64::MAX as nat
    }
}

/// Whether an exchange names two anyons among the first `n`.
pub open spec fn pair_in_range(p: (usize, usize), n: nat) -> bool {
    p.0 < n && p.1 < n
}

/// The qudit a braid generator acts on: `min(id_a / 2, logical_qubits - 1)`.
pub open spec fn braid_target(id_a: usize, logical_qubits: nat) -> usize {
    if id_a / 2 < logical_qubits - 1 {
        (id_a / 2) as usize
    } else {
        (logical_qubits - 1) as usize
    }
}

/// The qudits the exchanges of a plan act on, in order.
pub open spec fn plan_targets(plan: Seq<(usize, usize)>, logical_qubits: nat) -> Seq<usize> {
    plan.map_values(|p: (usize, usize)| braid_target(p.0, logical_qubits))
}

/// `k` is the first exchange of the plan that names an anyon past the first `n`.
pub open spec fn first_bad_pair(plan: Seq<(usize, usize)>, n: nat, k: int) -> bool {
    &&& 0 <= k < plan.len()
    &&& !pair_in_range(plan[k], n)
    &&& forall|m: int| 0 <= m < k ==> pair_in_range(#[trigger] plan[m], n)
}

/// The tracker `after` is `before` with the exchanges of `done` executed in order.
pub open spec fn braided<P: Copy>(
    before: TopologicalTracker<P>,
    after: TopologicalTracker<P>,
    done: Seq<(usize, usize)>,
) -> bool {
    &&& after.wf()
    &&& after.spec_logical_qubits() == before.spec_logical_qubits()
    &&& after.spec_sector() == before.spec_sector()
    &&& after.spec_active_dim() == before.spec_active_dim()
    &&& after.nodes() == before.nodes()
    &&& after.spec_node_count() == before.spec_node_count()
    &&& after.checks() == before.checks()
    &&& after.positions() == positions_after(before.positions(), done)
    &&& after.spec_time() == time_after(before.spec_time(), done.len())
    &&& forall|i: int|
        0 <= i < before.positions().len() ==> #[trigger] after.trajectory(i) == trajectory_after(
            before.trajectory(i),
            before.positions(),
            done,
            i,
        )
}

proof fn lemma_positions_len<P>(pos: Seq<P>, plan: Seq<(usize, usize)>)
    requires
        forall|m: int| 0 <= m < plan.len() ==> pair_in_range(#[trigger] plan[m], pos.len()),
    ensures
        positions_after(pos, plan).len() == pos.len(),
    decreases plan.len(),
{
    if plan.len() > 0 {
        let init = plan.drop_last();
        assert forall|m: int| 0 <= m < init.len() implies pair_in_range(#[trigger] init[m], pos.len()) by {
            assert(init[m] == plan[m]);
        }
        lemma_positions_len(pos, init);
    }
}

/// What executing a plan of exchanges did: the qudits acted on by the exchanges that
/// ran, in order, and the error that stopped the plan, if one did.
pub struct BraidRun {
    pub targets: Vec<usize>,
    pub error: Option<SimError>,
}

/// Every exchange of the plan names two of the first `n` anyons.
pub open spec fn plan_in_range(plan: Seq<(usize, usize)>, n: nat) -> bool {
    forall|m: int| 0 <= m < plan.len() ==> pair_in_range(#[trigger] plan[m], n)
}

/// `after` and `run` are what executing `plan` on `before` gives: the whole plan when
/// every exchange names an added anyon; otherwise the exchanges before the first one
/// that does not, and `AnyonIndexOutOfBounds`.
pub open spec fn ran_plan<P: Copy>(
    before: TopologicalTracker<P>,
    after: TopologicalTracker<P>,
    plan: Seq<(usize, usize)>,
    run: BraidRun,
) -> bool {
    let n = before.positions().len();
    let lq = before.spec_logical_qubits();
    if plan_in_range(plan, n) {
        &&& braided(before, after, plan)
        &&& run.targets@ == plan_targets(plan, lq)
        &&& run.error == None::<SimError>
    } else {
        exists|k: int|
            #![trigger plan.take(k)]
            {
                &&& first_bad_pair(plan, n, k)
                &&& braided(before, after, plan.take(k))
                &&& run.targets@ == plan_targets(plan.take(k), lq)
                &&& run.error == Some(SimError::AnyonIndexOutOfBounds)
            }
    }
}

impl<P: Copy> TopologicalTracker<P> {
    /// Executes the exchanges of a plan in order and gives the qudits they act on. At the
    /// first exchange that names an anyon never added, stops with
    /// `AnyonIndexOutOfBounds`, the exchanges before it executed.
    pub fn execute_braid_sequence(&mut self, plan: &Vec<(usize, usize)>) -> (run: BraidRun)
        requires
            old(self).wf(),
        ensures
            ran_plan(*old(self), *final(self), plan@, run),
    {
        let ghost start = *self;
        let ghost n = start.positions().len();
        let mut targets: Vec<usize> = Vec::new();
        let mut j: usize = 0;
        proof {
            start.lemma_time_bounded();
            let e = plan@.take(0);
            assert(e =~= Seq::<(usize, usize)>::empty());
            assert(positions_after(start.positions(), e) == start.positions());
            assert forall|i: int| 0 <= i < n implies #[trigger] self.trajectory(i)
                == trajectory_after(start.trajectory(i), start.positions(), e, i) by {}
            assert(plan_targets(e, start.spec_logical_qubits()) =~= targets@);
        }
        while j < plan.len()
            invariant
                j <= plan@.len(),
                start == *old(self),
                start.wf(),
                n == start.positions().len(),
                forall|m: int| 0 <= m < j ==> pair_in_range(#[trigger] plan@[m], n),
                braided(start, *self, plan@.take(j as int)),
                targets@ == plan_targets(plan@.take(j as int), start.spec_logical_qubits()),
            decreases plan@.len() - j,
        {
            let (a, b) = plan[j];
            let ghost before = *self;
            let ghost done = plan@.take(j as int);
            let ghost next = plan@.take(j as int + 1);
            proof {
                lemma_positions_len(start.positions(), done);
            }
            match self.execute_braid(a, b) {
                Ok(t) => {
                    proof {
                        assert(next.drop_last() =~= done);
                        assert(next.last() == (a, b));
                        lemma_positions_len(start.positions(), next);
                        assert forall|i: int| 0 <= i < n implies #[trigger] self.trajectory(i)
                            == trajectory_after(start.trajectory(i), start.positions(), next, i) by {
                            assert(self.trajectory(i) == extend_trajectory(
                                before.trajectory(i),
                                self.positions()[i],
                            ));
                        }
                        assert(plan_targets(next, start.spec_logical_qubits()) =~= plan_targets(
                            done,
                            start.spec_logical_qubits(),
                        ).push(t));
                    }
                    targets.push(t);
                },
                Err(e) => {
                    let run = BraidRun { targets, error: Some(e) };
                    proof {
                        assert(!pair_in_range(plan@[j as int], n));
                        assert(!plan_in_range(plan@, n));
                        assert(first_bad_pair(plan@, n, j as int));
                    }
                    return run;
                },
            }
            j = j + 1;
        }
        assert(plan@.take(plan@.len() as int) =~= plan@);
        BraidRun { targets, error: None }
    }
}

impl<P: Copy> TopologicalTracker<P> {
    /// Offers one stray exchange of quasiparticle noise. When the noise fired and at least
    /// two anyons were added, anyon `stray_index % n` is exchanged with the next one,
    /// cyclically, and the run is given back (one correction to count); otherwise nothing
    /// changes.
    pub fn inject_quasiparticle_noise(&mut self, fired: bool, stray_index: usize) -> (r: Option<
        BraidRun,
    >)
        requires
            old(self).wf(),
        ensures
            (!fired || old(self).positions().len() < 2) ==> r is None && *final(self) == *old(
                self,
            ),
            (fired && old(self).positions().len() >= 2) ==> {
                let n = old(self).positions().len();
                let a = (stray_index as nat % n) as usize;
                let b = ((a + 1) % (n as int)) as usize;
                r matches Some(run) && run.error == None::<SimError> && ran_plan(
                    *old(self),
                    *final(self),
                    seq![(a, b)],
                    run,
                )
            },
    {
        let n = self.anyon_count();
        if !fired || n < 2 {
            return None;
        }
        let a = stray_index % n;
        let b = (a + 1) % n;
        let plan = vec![(a, b)];
        assert(plan@ =~= seq![(a, b)]);
        assert(plan_in_range(plan@, n as nat));
        Some(self.execute_braid_sequence(&plan))
    }
}

// ---------------------------------------------------------------------------
// Laws of exchange plans.
// ---------------------------------------------------------------------------

/// Exchanging the same two anyons twice puts every anyon back where it was.
pub proof fn law_double_exchange_restores_positions<P>(pos: Seq<P>, a: usize, b: usize)
    requires
        a < pos.len(),
        b < pos.len(),
    ensures
        positions_after(pos, seq![(a, b), (a, b)]) == pos,
{
    let plan = seq![(a, b), (a, b)];
    assert(plan.drop_last() =~= seq![(a, b)]);
    assert(seq![(a, b)].drop_last() =~= Seq::<(usize, usize)>::empty());
    assert(positions_after(pos, Seq::<(usize, usize)>::empty()) == pos);
    assert(seq![(a, b)].last() == (a, b));
    assert(positions_after(pos, seq![(a, b)]) == swapped(pos, a, b));
    assert(swapped(swapped(pos, a, b), a, b) =~= pos);
}

proof fn lemma_positions_compose<P>(pos: Seq<P>, p1: Seq<(usize, usize)>, p2: Seq<(usize, usize)>)
    ensures
        positions_after(pos, p1 + p2) == positions_after(positions_after(pos, p1), p2),
    decreases p2.len(),
{
    if p2.len() == 0 {
        assert(p1 + p2 =~= p1);
    } else {
        assert((p1 + p2).drop_last() =~= p1 + p2.drop_last());
        assert((p1 + p2).last() == p2.last());
        lemma_positions_compose(pos, p1, p2.drop_last());
    }
}

proof fn lemma_trajectory_compose<P>(
    traj: Seq<P>,
    pos: Seq<P>,
    p1: Seq<(usize, usize)>,
    p2: Seq<(usize, usize)>,
    i: int,
)
    ensures
        trajectory_after(traj, pos, p1 + p2, i) == trajectory_after(
            trajectory_after(traj, pos, p1, i),
            positions_after(pos, p1),
            p2,
            i,
        ),
    decreases p2.len(),
{
    if p2.len() == 0 {
        assert(p1 + p2 =~= p1);
    } else {
        assert((p1 + p2).drop_last() =~= p1 + p2.drop_last());
        lemma_trajectory_compose(traj, pos, p1, p2.drop_last(), i);
        lemma_positions_compose(pos, p1, p2);
    }
}

/// Executing one plan and then another leaves the tracker as executing the two plans
/// joined end to end.
pub proof fn law_plans_compose<P: Copy>(
    before: TopologicalTracker<P>,
    mid: TopologicalTracker<P>,
    after: TopologicalTracker<P>,
    p1: Seq<(usize, usize)>,
    p2: Seq<(usize, usize)>,
)
    requires
        braided(before, mid, p1),
        braided(mid, after, p2),
        plan_in_range(p1, before.positions().len()),
    ensures
        braided(before, after, p1 + p2),
{
    lemma_positions_len(before.positions(), p1);
    lemma_positions_compose(before.positions(), p1, p2);
    assert forall|i: int| 0 <= i < before.positions().len() implies #[trigger] after.trajectory(i)
        == trajectory_after(before.trajectory(i), before.positions(), p1 + p2, i) by {
        lemma_trajectory_compose(before.trajectory(i), before.positions(), p1, p2, i);
        assert(mid.trajectory(i) == trajectory_after(
            before.trajectory(i),
            before.positions(),
            p1,
            i,
        ));
    }
    before.lemma_time_bounded();
}

} // verus!
