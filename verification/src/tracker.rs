use vstd::prelude::*;

use crate::error::SimError;
use crate::worldline::AnyonWorldline;

verus! {

/// Largest number of logical qudits a tracker simulates.
pub const MAX_LOGICAL_QUBITS: usize = 4;

/// Largest number of anyons a tracker holds.
pub const MAX_ANYONS: usize = 32;

/// Number of slots of the fusion tree.
pub const MAX_FUSION_NODES: usize = 64;

/// Largest number of stabilizer checks a tracker holds.
pub const MAX_STACK_STABILIZERS: usize = 64;

/// Largest number of anyons one stabilizer check acts on.
pub const MAX_STABILIZER_WEIGHT: usize = 4;

/// The Lie sector whose braid generators act on the qudits.
#[derive(Debug, Clone, Copy, PartialEq, Eq, Structural)]
pub enum LieSectorType {
    SU2_26,
    SU3_8,
    SO10_312,
}

/// Dimension of one qudit in a sector.
pub open spec fn qudit_dim_of(s: LieSectorType) -> nat {
    match s {
        LieSectorType::SU2_26 => 2,
        LieSectorType::SU3_8 => 3,
        LieSectorType::SO10_312 => 16,
    }
}

/// `b` to the power `e`.
pub open spec fn power(b: nat, e: nat) -> nat
    decreases e,
{
    if e == 0 {
        1
    } else {
        b * power(b, (e - 1) as nat)
    }
}

/// A node of the fusion tree: a leaf carrying an anyon, or the fusion of two nodes.
#[derive(Debug, Clone, Copy, PartialEq, Eq, Structural)]
pub struct FusionNode {
    pub left_child: Option<usize>,
    pub right_child: Option<usize>,
    pub anyon_id: Option<usize>,
    pub topological_charge: u32,
    pub parent: Option<usize>,
}

impl FusionNode {
    /// A leaf carrying anyon `anyon_id` with the given charge.
    pub fn leaf(anyon_id: usize, charge: u32) -> (n: Self)
        ensures
            n == (FusionNode {
                left_child: None,
                right_child: None,
                anyon_id: Some(anyon_id),
                topological_charge: charge,
                parent: None,
            }),
    {
        FusionNode {
            left_child: None,
            right_child: None,
            anyon_id: Some(anyon_id),
            topological_charge: charge,
            parent: None,
        }
    }

    /// The fusion of nodes `left` and `right` into the given charge.
    pub fn internal(left: usize, right: usize, charge: u32) -> (n: Self)
        ensures
            n == (FusionNode {
                left_child: Some(left),
                right_child: Some(right),
                anyon_id: None,
                topological_charge: charge,
                parent: None,
            }),
    {
        FusionNode {
            left_child: Some(left),
            right_child: Some(right),
            anyon_id: None,
            topological_charge: charge,
            parent: None,
        }
    }
}

/// The empty slot of the fusion tree.
pub open spec fn empty_node() -> FusionNode {
    FusionNode {
        left_child: None,
        right_child: None,
        anyon_id: None,
        topological_charge: 0,
        parent: None,
    }
}

/// A stabilizer check on the tracker: X- or Z-type, on at most four anyons.
#[derive(Debug, Clone)]
pub struct StackStabilizer {
    pub is_active: bool,
    pub is_x_type: bool,
    pub anyons: Vec<usize>,
}

impl StackStabilizer {
    /// Number of anyons the check acts on.
    pub fn weight(&self) -> (w: usize)
        ensures
            w == self.anyons@.len(),
    {
        self.anyons.len()
    }
}

/// Parent links of the fusion tree lead upward: from a counted node to a later counted
/// node, from an uncounted slot to a counted node.
pub open spec fn parents_ascend(nodes: Seq<FusionNode>, count: int) -> bool {
    forall|i: int|
        0 <= i < nodes.len() ==> match (#[trigger] nodes[i]).parent {
            Some(p) => p < count && (i < count ==> i < p),
            None => true,
        }
}

/// Slot `i` with its parent link set to `p`; slots past the tree are left alone.
pub open spec fn with_parent(nodes: Seq<FusionNode>, i: usize, p: usize) -> Seq<FusionNode> {
    if i < nodes.len() {
        nodes.update(i as int, FusionNode { parent: Some(p), ..nodes[i as int] })
    } else {
        nodes
    }
}

/// The fusion tree after fusing slots `left` and `right` into slot `count`.
pub open spec fn fused_nodes(nodes: Seq<FusionNode>, count: nat, left: usize, right: usize, charge: u32) -> Seq<
    FusionNode,
> {
    with_parent(
        with_parent(
            nodes.update(
                count as int,
                FusionNode {
                    left_child: Some(left),
                    right_child: Some(right),
                    anyon_id: None,
                    topological_charge: charge,
                    parent: None,
                },
            ),
            left,
            count as usize,
        ),
        right,
        count as usize,
    )
}

/// A trajectory after one more point is offered: kept once full.
pub open spec fn extend_trajectory<P>(t: Seq<P>, p: P) -> Seq<P> {
    if t.len() < crate::worldline::WORLDLINE_DEPTH {
        t.push(p)
    } else {
        t
    }
}

/// The first counted slot, from `from` on, holding a leaf for anyon `id`.
pub open spec fn find_leaf(nodes: Seq<FusionNode>, count: int, id: usize, from: int) -> Option<int>
    decreases count - from,
{
    if from < 0 || from >= count || from >= nodes.len() {
        None
    } else if nodes[from].anyon_id == Some(id) {
        Some(from)
    } else {
        find_leaf(nodes, count, id, from + 1)
    }
}

/// The chain of slots from `i` up through its parent links.
pub open spec fn ancestry(nodes: Seq<FusionNode>, count: int, i: int) -> Seq<int>
    decreases count - i,
{
    if i < 0 || i >= count || i >= nodes.len() {
        Seq::empty()
    } else {
        match nodes[i].parent {
            Some(p) => if i < p && p < count {
                seq![i] + ancestry(nodes, count, p as int)
            } else {
                seq![i]
            },
            None => seq![i],
        }
    }
}

/// The first slot of `chain_b` that `chain_a` also holds.
pub open spec fn first_common(chain_b: Seq<int>, chain_a: Seq<int>) -> Option<int>
    decreases chain_b.len(),
{
    if chain_b.len() == 0 {
        None
    } else if chain_a.contains(chain_b[0]) {
        Some(chain_b[0])
    } else {
        first_common(chain_b.drop_first(), chain_a)
    }
}

/// The lowest common ancestor of the leaves of two anyons: the first slot on the second
/// leaf's chain that the first leaf's chain holds.
pub open spec fn lowest_common_ancestor(nodes: Seq<FusionNode>, count: int, id_a: usize, id_b: usize) -> Result<
    usize,
    SimError,
> {
    match find_leaf(nodes, count, id_a, 0) {
        None => Err(SimError::FirstLeafNotFound),
        Some(na) => match find_leaf(nodes, count, id_b, 0) {
            None => Err(SimError::SecondLeafNotFound),
            Some(nb) => match first_common(ancestry(nodes, count, nb), ancestry(nodes, count, na)) {
                Some(x) => Ok(x as usize),
                None => Err(SimError::NoCommonAncestor),
            },
        },
    }
}

/// The state-vector index mask that an X-type check flips: bit `a / 2` toggled once for
/// each anyon `a` the check acts on.
pub open spec fn flip_mask(anyons: Seq<usize>) -> usize
    decreases anyons.len(),
{
    if anyons.len() == 0 {
        0
    } else {
        flip_mask(anyons.drop_last()) ^ (1usize << (anyons.last() / 2) as usize)
    }
}

/// Whether basis state `i` has an odd number of set bits among the qubits `a / 2` of the
/// anyons `a` a Z-type check acts on (a qubit named twice counts twice).
pub open spec fn odd_parity(anyons: Seq<usize>, i: usize) -> bool
    decreases anyons.len(),
{
    if anyons.len() == 0 {
        false
    } else {
        odd_parity(anyons.drop_last(), i) != (i & (1usize << (anyons.last() / 2) as usize) != 0)
    }
}

/// Every anyon of the check names a qubit that is a valid bit position of a `usize`.
pub open spec fn qubits_fit(anyons: Seq<usize>) -> bool {
    forall|k: int| 0 <= k < anyons.len() ==> (#[trigger] anyons[k]) / 2 < usize::BITS
}

/// The mask an X-type check flips.
pub fn x_flip_mask(anyons: &Vec<usize>) -> (m: usize)
    requires
        qubits_fit(anyons@),
    ensures
        m == flip_mask(anyons@),
{
    let mut mask: usize = 0;
    let mut k: usize = 0;
    while k < anyons.len()
        invariant
            k <= anyons@.len(),
            qubits_fit(anyons@),
            mask == flip_mask(anyons@.subrange(0, k as int)),
        decreases anyons.len() - k,
    {
        let qubit = anyons[k] / 2;
        assert(anyons@.subrange(0, k + 1).drop_last() == anyons@.subrange(0, k as int));
        mask = mask ^ (1usize << qubit);
        k = k + 1;
    }
    assert(anyons@.subrange(0, anyons@.len() as int) == anyons@);
    mask
}

/// Whether a Z-type check gives basis state `i` the sign `-1`.
pub fn z_check_parity(anyons: &Vec<usize>, i: usize) -> (odd: bool)
    requires
        qubits_fit(anyons@),
    ensures
        odd == odd_parity(anyons@, i),
{
    let mut parity = false;
    let mut k: usize = 0;
    while k < anyons.len()
        invariant
            k <= anyons@.len(),
            qubits_fit(anyons@),
            parity == odd_parity(anyons@.subrange(0, k as int), i),
        decreases anyons.len() - k,
    {
        let qubit = anyons[k] / 2;
        assert(anyons@.subrange(0, k + 1).drop_last() == anyons@.subrange(0, k as int));
        if (i & (1usize << qubit)) != 0 {
            parity = !parity;
        }
        k = k + 1;
    }
    assert(anyons@.subrange(0, anyons@.len() as int) == anyons@);
    parity
}

/// What measuring a stabilizer check does to the state vector.
pub enum StabilizerMeasurement {
    /// The check is inactive or acts on no anyon: the outcome is 0 and nothing changes.
    Inactive,
    /// An X-type check: basis state `i` is paired with `i ^ mask`.
    XFlip { mask: usize },
    /// A Z-type check: basis states with odd parity over these anyons' qubits flip sign.
    ZParity { anyons: Vec<usize> },
}

/// The discrete state of the topological tracker: anyon positions and worldlines, the
/// fusion tree and the stabilizer checks. `P` is the type of a position.
pub struct TopologicalTracker<P: Copy> {
    logical_qubits: usize,
    sector: LieSectorType,
    qudit_dim: usize,
    active_dim: usize,
    positions: Vec<P>,
    worldlines: Vec<AnyonWorldline<P>>,
    fusion_nodes: Vec<FusionNode>,
    node_count: usize,
    stabilizers: Vec<StackStabilizer>,
    current_time: u64,
}

impl<P: Copy> TopologicalTracker<P> {
    /// The tracker's invariant: dimensions agree with the sector, every anyon has a
    /// worldline, the fusion tree has all its slots and its parent links ascend, and every
    /// stabilizer check acts on at most four anyons.
    pub closed spec fn wf(&self) -> bool {
        &&& 1 <= self.logical_qubits <= MAX_LOGICAL_QUBITS
        &&& self.qudit_dim == qudit_dim_of(self.sector)
        &&& self.active_dim == power(self.qudit_dim as nat, self.logical_qubits as nat)
        &&& self.positions.len() == self.worldlines.len()
        &&& self.positions.len() <= MAX_ANYONS
        &&& forall|i: int| 0 <= i < self.worldlines.len() ==> (#[trigger] self.worldlines@[i]).anyon() == i
        &&& self.fusion_nodes.len() == MAX_FUSION_NODES
        &&& self.node_count <= MAX_FUSION_NODES
        &&& parents_ascend(self.fusion_nodes@, self.node_count as int)
        &&& self.stabilizers.len() <= MAX_STACK_STABILIZERS
        &&& forall|i: int| 0 <= i < self.stabilizers.len() ==> (#[trigger] self.stabilizers@[i]).anyons.len() <= MAX_STABILIZER_WEIGHT
    }

    pub closed spec fn spec_logical_qubits(&self) -> nat {
        self.logical_qubits as nat
    }

    pub closed spec fn spec_sector(&self) -> LieSectorType {
        self.sector
    }

    pub closed spec fn spec_qudit_dim(&self) -> nat {
        self.qudit_dim as nat
    }

    pub closed spec fn spec_active_dim(&self) -> nat {
        self.active_dim as nat
    }

    /// Positions of the anyons, by id.
    pub closed spec fn positions(&self) -> Seq<P> {
        self.positions@
    }

    /// Recorded trajectory of anyon `i`.
    pub closed spec fn trajectory(&self, i: int) -> Seq<P> {
        self.worldlines@[i].points()
    }

    /// The slots of the fusion tree.
    pub closed spec fn nodes(&self) -> Seq<FusionNode> {
        self.fusion_nodes@
    }

    /// Number of slots of the fusion tree in use.
    pub closed spec fn spec_node_count(&self) -> nat {
        self.node_count as nat
    }

    /// The stabilizer checks, in order of registration: activity, type and anyons.
    pub closed spec fn checks(&self) -> Seq<(bool, bool, Seq<usize>)> {
        self.stabilizers@.map_values(|s: StackStabilizer| (s.is_active, s.is_x_type, s.anyons@))
    }

    /// Number of braids executed, saturating.
    pub closed spec fn spec_time(&self) -> nat {
        self.current_time as nat
    }

    /// A tracker simulates at most `MAX_LOGICAL_QUBITS` qudits.
    pub proof fn lemma_logical_qubits_bounded(&self)
        requires
            self.wf(),
        ensures
            1 <= self.spec_logical_qubits() <= MAX_LOGICAL_QUBITS,
    {
    }

    /// The braid clock is a `u64`.
    pub proof fn lemma_time_bounded(&self)
        ensures
            self.spec_time() <= u64::MAX,
    {
    }

    /// A tracker for `logical_qubits` qudits of the given sector (`SU2_26` when none is
    /// given); a qudit count of zero or above `MAX_LOGICAL_QUBITS` becomes one.
    pub fn new(logical_qubits: usize, sector: Option<LieSectorType>) -> (t: Self)
        ensures
            t.wf(),
            t.spec_sector() == (match sector {
                Some(s) => s,
                None => LieSectorType::SU2_26,
            }),
            t.spec_logical_qubits() == (if logical_qubits == 0 || logical_qubits
                > MAX_LOGICAL_QUBITS {
                1
            } else {
                logical_qubits as nat
            }),
            t.spec_qudit_dim() == qudit_dim_of(t.spec_sector()),
            t.spec_active_dim() == power(t.spec_qudit_dim(), t.spec_logical_qubits()),
            t.positions() == Seq::<P>::empty(),
            t.nodes() == Seq::new(MAX_FUSION_NODES as nat, |i: int| empty_node()),
            t.spec_node_count() == 0,
            t.checks() == Seq::<(bool, bool, Seq<usize>)>::empty(),
            t.spec_time() == 0,
    {
        let sec = match sector {
            Some(s) => s,
            None => LieSectorType::SU2_26,
        };
        let q_dim: usize = match sec {
            LieSectorType::SU2_26 => 2,
            LieSectorType::SU3_8 => 3,
            LieSectorType::SO10_312 => 16,
        };
        let lq = if logical_qubits == 0 || logical_qubits > MAX_LOGICAL_QUBITS {
            1
        } else {
            logical_qubits
        };
        let mut active_dim: usize = 1;
        let mut k: usize = 0;
        while k < lq
            invariant
                k <= lq <= MAX_LOGICAL_QUBITS,
                q_dim <= 16,
                active_dim == power(q_dim as nat, k as nat),
                active_dim <= power(16, k as nat),
            decreases lq - k,
        {
            proof {
                lemma_power_16_bound(k as nat);
                assert(power(q_dim as nat, (k + 1) as nat) == q_dim * power(q_dim as nat, k as nat));
                assert(power(16, (k + 1) as nat) == 16 * power(16, k as nat));
                assert(active_dim * q_dim <= power(16, k as nat) * 16) by (nonlinear_arith)
                    requires
                        active_dim <= power(16, k as nat),
                        q_dim <= 16,
                ;
            }
            active_dim = active_dim * q_dim;
            k = k + 1;
        }
        let empty = FusionNode {
            left_child: None,
            right_child: None,
            anyon_id: None,
            topological_charge: 0,
            parent: None,
        };
        let mut fusion_nodes: Vec<FusionNode> = Vec::new();
        while fusion_nodes.len() < MAX_FUSION_NODES
            invariant
                fusion_nodes@.len() <= MAX_FUSION_NODES,
                empty == empty_node(),
                forall|i: int| 0 <= i < fusion_nodes@.len() ==> fusion_nodes@[i] == empty_node(),
            decreases MAX_FUSION_NODES - fusion_nodes.len(),
        {
            fusion_nodes.push(empty);
        }
        assert(fusion_nodes@ == Seq::new(MAX_FUSION_NODES as nat, |i: int| empty_node()));
        let t = TopologicalTracker {
            logical_qubits: lq,
            sector: sec,
            qudit_dim: q_dim,
            active_dim,
            positions: Vec::new(),
            worldlines: Vec::new(),
            fusion_nodes,
            node_count: 0,
            stabilizers: Vec::new(),
            current_time: 0,
        };
        assert(t.checks() == Seq::<(bool, bool, Seq<usize>)>::empty());
        t
    }

    /// Adds an anyon at `pos` with a fusion leaf of the given charge (0 when none), while
    /// the fusion tree has room; refused once `MAX_ANYONS` anyons are held.
    pub fn add_anyon(&mut self, pos: P, charge: Option<u32>) -> (r: Result<usize, SimError>)
        requires
            old(self).wf(),
        ensures
            final(self).wf(),
            final(self).spec_logical_qubits() == old(self).spec_logical_qubits(),
            final(self).spec_sector() == old(self).spec_sector(),
            final(self).spec_active_dim() == old(self).spec_active_dim(),
            final(self).checks() == old(self).checks(),
            final(self).spec_time() == old(self).spec_time(),
            old(self).positions().len() >= MAX_ANYONS ==> r == Err::<usize, SimError>(
                SimError::AnyonCapacityReached,
            ) && *final(self) == *old(self),
            old(self).positions().len() < MAX_ANYONS ==> {
                &&& r == Ok::<usize, SimError>(old(self).positions().len() as usize)
                &&& final(self).positions() == old(self).positions().push(pos)
                &&& final(self).trajectory(old(self).positions().len() as int) == seq![pos]
                &&& forall|i: int|
                    0 <= i < old(self).positions().len() ==> final(self).trajectory(i) == old(
                        self,
                    ).trajectory(i)
                &&& old(self).spec_node_count() < MAX_FUSION_NODES ==> {
                    &&& final(self).nodes() == old(self).nodes().update(
                        old(self).spec_node_count() as int,
                        FusionNode {
                            left_child: None,
                            right_child: None,
                            anyon_id: Some(old(self).positions().len() as usize),
                            topological_charge: match charge {
                                Some(c) => c,
                                None => 0,
                            },
                            parent: None,
                        },
                    )
                    &&& final(self).spec_node_count() == old(self).spec_node_count() + 1
                }
                &&& old(self).spec_node_count() >= MAX_FUSION_NODES ==> {
                    &&& final(self).nodes() == old(self).nodes()
                    &&& final(self).spec_node_count() == old(self).spec_node_count()
                }
            },
    {
        if self.positions.len() >= MAX_ANYONS {
            return Err(SimError::AnyonCapacityReached);
        }
        let id = self.positions.len();
        self.positions.push(pos);
        let mut w = AnyonWorldline::zeroed(id, pos);
        w.push(pos);
        self.worldlines.push(w);
        if self.node_count < MAX_FUSION_NODES {
            let leaf_charge = match charge {
                Some(c) => c,
                None => 0,
            };
            self.fusion_nodes.set(self.node_count, FusionNode::leaf(id, leaf_charge));
            self.node_count = self.node_count + 1;
        }
        proof {
            assert forall|i: int| 0 <= i < self.worldlines.len() implies (
            #[trigger] self.worldlines@[i]).anyon() == i by {}
        }
        Ok(id)
    }

    /// Exchanges anyons `id_a` and `id_b`, advances the clock and records every anyon's
    /// position on its worldline; gives the qudit the braid generator acts on:
    /// `min(id_a / 2, logical_qubits - 1)`.
    pub fn execute_braid(&mut self, id_a: usize, id_b: usize) -> (r: Result<usize, SimError>)
        requires
            old(self).wf(),
        ensures
            final(self).wf(),
            final(self).spec_logical_qubits() == old(self).spec_logical_qubits(),
            final(self).spec_sector() == old(self).spec_sector(),
            final(self).spec_active_dim() == old(self).spec_active_dim(),
            final(self).nodes() == old(self).nodes(),
            final(self).spec_node_count() == old(self).spec_node_count(),
            final(self).checks() == old(self).checks(),
            (id_a >= old(self).positions().len() || id_b >= old(self).positions().len()) ==> r
                == Err::<usize, SimError>(SimError::AnyonIndexOutOfBounds) && *final(self)
                == *old(self),
            (id_a < old(self).positions().len() && id_b < old(self).positions().len()) ==> {
                &&& r == Ok::<usize, SimError>(
                    if id_a / 2 < old(self).spec_logical_qubits() - 1 {
                        (id_a / 2) as usize
                    } else {
                        (old(self).spec_logical_qubits() - 1) as usize
                    },
                )
                &&& final(self).positions() == old(self).positions().update(
                    id_a as int,
                    old(self).positions()[id_b as int],
                ).update(id_b as int, old(self).positions()[id_a as int])
                &&& final(self).spec_time() == if old(self).spec_time() < u64::MAX {
                    old(self).spec_time() + 1
                } else {
                    old(self).spec_time()
                }
                &&& forall|i: int|
                    0 <= i < old(self).positions().len() ==> #[trigger] final(self).trajectory(i)
                        == extend_trajectory(old(self).trajectory(i), final(self).positions()[i])
            },
    {
        let n = self.positions.len();
        if id_a >= n || id_b >= n {
            return Err(SimError::AnyonIndexOutOfBounds);
        }
        let mut positions = Vec::new();
        std::mem::swap(&mut positions, &mut self.positions);
        let mut worldlines = Vec::new();
        std::mem::swap(&mut worldlines, &mut self.worldlines);
        let ghost old_ws = worldlines@;
        let pa = positions[id_a];
        let pb = positions[id_b];
        positions.set(id_a, pb);
        positions.set(id_b, pa);
        let mut i: usize = 0;
        while i < n
            invariant
                i <= n == positions@.len() == worldlines@.len() == old_ws.len(),
                forall|j: int| 0 <= j < n ==> (#[trigger] worldlines@[j]).anyon() == j,
                forall|j: int|
                    0 <= j < i ==> (#[trigger] worldlines@[j]).points() == extend_trajectory(
                        old_ws[j].points(),
                        positions@[j],
                    ),
                forall|j: int| i <= j < n ==> (#[trigger] worldlines@[j]).points() == old_ws[j].points(),
            decreases n - i,
        {
            let p = positions[i];
            worldlines[i].push(p);
            i = i + 1;
        }
        self.positions = positions;
        self.worldlines = worldlines;
        self.current_time = if self.current_time < u64::MAX {
            self.current_time + 1
        } else {
            self.current_time
        };
        let half = id_a / 2;
        let last = self.logical_qubits - 1;
        Ok(
            if half < last {
                half
            } else {
                last
            },
        )
    }

    /// Fuses slots `left` and `right` into a new internal node of the given charge, whose
    /// slot becomes the parent of both (slots past the tree are ignored as children);
    /// refused once every slot is in use. A child may not be the slot the new node takes.
    pub fn fuse_nodes(&mut self, left: usize, right: usize, charge: u32) -> (r: Result<
        usize,
        SimError,
    >)
        requires
            old(self).wf(),
            left != old(self).spec_node_count(),
            right != old(self).spec_node_count(),
        ensures
            final(self).wf(),
            final(self).spec_logical_qubits() == old(self).spec_logical_qubits(),
            final(self).spec_sector() == old(self).spec_sector(),
            final(self).spec_active_dim() == old(self).spec_active_dim(),
            final(self).positions() == old(self).positions(),
            forall|i: int| #[trigger] final(self).trajectory(i) == old(self).trajectory(i),
            final(self).checks() == old(self).checks(),
            final(self).spec_time() == old(self).spec_time(),
            old(self).spec_node_count() >= MAX_FUSION_NODES ==> r == Err::<usize, SimError>(
                SimError::FusionCapacityReached,
            ) && final(self).nodes() == old(self).nodes() && final(self).spec_node_count()
                == old(self).spec_node_count(),
            old(self).spec_node_count() < MAX_FUSION_NODES ==> {
                let p = old(self).spec_node_count() as usize;
                &&& r == Ok::<usize, SimError>(p)
                &&& final(self).spec_node_count() == old(self).spec_node_count() + 1
                &&& final(self).nodes() == fused_nodes(
                    old(self).nodes(),
                    old(self).spec_node_count(),
                    left,
                    right,
                    charge,
                )
            },
    {
        if self.node_count >= MAX_FUSION_NODES {
            return Err(SimError::FusionCapacityReached);
        }
        let parent_idx = self.node_count;
        self.fusion_nodes.set(parent_idx, FusionNode::internal(left, right, charge));
        if left < MAX_FUSION_NODES {
            let node = self.fusion_nodes[left];
            self.fusion_nodes.set(left, FusionNode { parent: Some(parent_idx), ..node });
        }
        if right < MAX_FUSION_NODES {
            let node = self.fusion_nodes[right];
            self.fusion_nodes.set(right, FusionNode { parent: Some(parent_idx), ..node });
        }
        self.node_count = self.node_count + 1;
        Ok(parent_idx)
    }

    /// The lowest common ancestor of the leaves of two anyons, as
    /// `lowest_common_ancestor` states.
    pub fn calculate_lca(&self, id_a: usize, id_b: usize) -> (r: Result<usize, SimError>)
        requires
            self.wf(),
        ensures
            r == lowest_common_ancestor(
                self.nodes(),
                self.spec_node_count() as int,
                id_a,
                id_b,
            ),
    {
        let node_a = match self.find_leaf_exec(id_a) {
            Some(n) => n,
            None => { return Err(SimError::FirstLeafNotFound); },
        };
        let node_b = match self.find_leaf_exec(id_b) {
            Some(n) => n,
            None => { return Err(SimError::SecondLeafNotFound); },
        };
        let path_a = self.ancestry_exec(node_a);
        let path_b = self.ancestry_exec(node_b);
        let ghost chain_a = ancestry(self.fusion_nodes@, self.node_count as int, node_a as int);
        let ghost chain_b = ancestry(self.fusion_nodes@, self.node_count as int, node_b as int);
        let mut k: usize = 0;
        assert(chain_b.subrange(0, chain_b.len() as int) == chain_b);
        while k < path_b.len()
            invariant
                k <= path_b@.len() == chain_b.len(),
                find_leaf(self.fusion_nodes@, self.node_count as int, id_a, 0) == Some(node_a as int),
                find_leaf(self.fusion_nodes@, self.node_count as int, id_b, 0) == Some(node_b as int),
                chain_a == ancestry(self.fusion_nodes@, self.node_count as int, node_a as int),
                chain_b == ancestry(self.fusion_nodes@, self.node_count as int, node_b as int),
                forall|j: int| 0 <= j < path_b@.len() ==> path_b@[j] as int == chain_b[j],
                forall|j: int| 0 <= j < path_a@.len() ==> path_a@[j] as int == chain_a[j],
                path_a@.len() == chain_a.len(),
                first_common(chain_b.subrange(k as int, chain_b.len() as int), chain_a)
                    == first_common(chain_b, chain_a),
            decreases path_b.len() - k,
        {
            let x = path_b[k];
            let mut found = false;
            let mut j: usize = 0;
            while j < path_a.len()
                invariant
                    j <= path_a@.len() == chain_a.len(),
                    forall|t: int| 0 <= t < path_a@.len() ==> path_a@[t] as int == chain_a[t],
                    found == exists|t: int| 0 <= t < j && chain_a[t] == x as int,
                decreases path_a.len() - j,
            {
                assert(path_a@[j as int] as int == chain_a[j as int]);
                if path_a[j] == x {
                    found = true;
                }
                j = j + 1;
            }
            let ghost rest = chain_b.subrange(k as int, chain_b.len() as int);
            assert(rest[0] == x as int);
            if found {
                assert(chain_a.contains(x as int));
                assert(rest.len() > 0);
                assert(first_common(rest, chain_a) == Some(x as int));
                assert(first_common(chain_b, chain_a) == Some(x as int));
                return Ok(x);
            }
            assert(!chain_a.contains(x as int));
            assert(rest.drop_first() == chain_b.subrange(k + 1, chain_b.len() as int));
            k = k + 1;
        }
        Err(SimError::NoCommonAncestor)
    }

    fn find_leaf_exec(&self, id: usize) -> (r: Option<usize>)
        requires
            self.wf(),
        ensures
            match r {
                Some(n) => find_leaf(self.fusion_nodes@, self.node_count as int, id, 0) == Some(
                    n as int,
                ) && n < self.node_count,
                None => find_leaf(self.fusion_nodes@, self.node_count as int, id, 0) is None,
            },
    {
        let mut i: usize = 0;
        while i < self.node_count
            invariant
                self.wf(),
                i <= self.node_count,
                find_leaf(self.fusion_nodes@, self.node_count as int, id, i as int) == find_leaf(
                    self.fusion_nodes@,
                    self.node_count as int,
                    id,
                    0,
                ),
            decreases self.node_count - i,
        {
            if self.fusion_nodes[i].anyon_id == Some(id) {
                return Some(i);
            }
            i = i + 1;
        }
        None
    }

    fn ancestry_exec(&self, start: usize) -> (path: Vec<usize>)
        requires
            self.wf(),
            start < self.node_count,
        ensures
            path@.len() == ancestry(self.fusion_nodes@, self.node_count as int, start as int).len(),
            forall|j: int|
                0 <= j < path@.len() ==> path@[j] as int == ancestry(
                    self.fusion_nodes@,
                    self.node_count as int,
                    start as int,
                )[j],
    {
        let ghost nodes = self.fusion_nodes@;
        let ghost count = self.node_count as int;
        let ghost whole = ancestry(nodes, count, start as int);
        let mut path: Vec<usize> = Vec::new();
        let mut cur = start;
        let ghost done: Seq<int> = Seq::empty();
        loop
            invariant_except_break
                cur < self.node_count,
                done + ancestry(nodes, count, cur as int) == whole,
            invariant
                self.wf(),
                nodes == self.fusion_nodes@,
                count == self.node_count,
                path@.len() == done.len(),
                forall|j: int| 0 <= j < path@.len() ==> path@[j] as int == done[j],
            ensures
                done == whole,
            decreases count - cur,
        {
            path.push(cur);
            let ghost here = ancestry(nodes, count, cur as int);
            proof {
                done = done.push(cur as int);
            }
            match self.fusion_nodes[cur].parent {
                Some(p) => {
                    assert(p < count && cur < p);
                    assert(here == seq![cur as int] + ancestry(nodes, count, p as int));
                    assert(done + ancestry(nodes, count, p as int) == whole);
                    cur = p;
                },
                None => {
                    assert(here == seq![cur as int]);
                    assert(done == whole);
                    break;
                },
            }
        }
        path
    }

    /// Position of anyon `id`.
    pub fn anyon_position(&self, id: usize) -> (r: Result<P, SimError>)
        requires
            self.wf(),
        ensures
            id < self.positions().len() ==> r == Ok::<P, SimError>(self.positions()[id as int]),
            id >= self.positions().len() ==> r == Err::<P, SimError>(SimError::AnyonIdOutOfRange),
    {
        if id >= self.positions.len() {
            return Err(SimError::AnyonIdOutOfRange);
        }
        Ok(self.positions[id])
    }

    /// The recorded trajectory of anyon `id`, oldest point first.
    pub fn get_worldline_history(&self, id: usize) -> (r: Result<Vec<P>, SimError>)
        requires
            self.wf(),
        ensures
            id < self.positions().len() ==> r is Ok && r->Ok_0@ == self.trajectory(id as int),
            id >= self.positions().len() ==> r == Err::<Vec<P>, SimError>(
                SimError::AnyonIdOutOfRange,
            ),
    {
        if id >= self.positions.len() {
            return Err(SimError::AnyonIdOutOfRange);
        }
        Ok(self.worldlines[id].history())
    }

    /// Number of points per worldline in a spacetime mesh: the length of the first
    /// anyon's trajectory; refused when no anyon was added.
    pub fn mesh_points_per_line(&self) -> (r: Result<usize, SimError>)
        requires
            self.wf(),
        ensures
            self.positions().len() == 0 ==> r == Err::<usize, SimError>(SimError::NoAnyons),
            self.positions().len() > 0 ==> r == Ok::<usize, SimError>(
                self.trajectory(0).len() as usize,
            ),
    {
        if self.positions.len() == 0 {
            return Err(SimError::NoAnyons);
        }
        Ok(self.worldlines[0].head_idx())
    }

    /// The layout of qudit `target` in the state vector: `(stride, block)` with stride the
    /// qudit dimension to the `target`, block the dimension to `target + 1`; refused past
    /// the logical qudits.
    pub fn measurement_layout(&self, target: usize) -> (r: Result<(usize, usize), SimError>)
        requires
            self.wf(),
        ensures
            target >= self.spec_logical_qubits() ==> r == Err::<(usize, usize), SimError>(
                SimError::TargetQubitOutOfBounds,
            ),
            target < self.spec_logical_qubits() ==> r == Ok::<(usize, usize), SimError>(
                (
                    power(self.spec_qudit_dim(), target as nat) as usize,
                    power(self.spec_qudit_dim(), (target + 1) as nat) as usize,
                ),
            ),
    {
        if target >= self.logical_qubits {
            return Err(SimError::TargetQubitOutOfBounds);
        }
        let d = self.qudit_dim;
        let mut stride: usize = 1;
        let mut k: usize = 0;
        while k < target
            invariant
                k <= target < self.logical_qubits <= MAX_LOGICAL_QUBITS,
                d <= 16,
                stride == power(d as nat, k as nat),
                stride <= power(16, k as nat),
            decreases target - k,
        {
            proof {
                lemma_power_16_bound(k as nat);
                assert(power(d as nat, (k + 1) as nat) == d * power(d as nat, k as nat));
                assert(power(16, (k + 1) as nat) == 16 * power(16, k as nat));
                assert(stride * d <= power(16, k as nat) * 16) by (nonlinear_arith)
                    requires
                        stride <= power(16, k as nat),
                        d <= 16,
                ;
            }
            stride = stride * d;
            k = k + 1;
        }
        proof {
            lemma_power_16_bound(k as nat);
            assert(power(d as nat, (k + 1) as nat) == d * power(d as nat, k as nat));
            assert(stride * d <= 65536 * 16) by (nonlinear_arith)
                requires
                    stride <= 65536,
                    d <= 16,
            ;
        }
        Ok((stride, stride * d))
    }

    /// Sets whether stabilizer check `idx` is active.
    pub fn set_stabilizer_active(&mut self, idx: usize, active: bool) -> (r: Result<(), SimError>)
        requires
            old(self).wf(),
        ensures
            final(self).wf(),
            idx >= old(self).checks().len() ==> r == Err::<(), SimError>(
                SimError::StabilizerIndexOutOfBounds,
            ) && *final(self) == *old(self),
            idx < old(self).checks().len() ==> r == Ok::<(), SimError>(()) && final(self).checks()
                == old(self).checks().update(
                idx as int,
                (active, old(self).checks()[idx as int].1, old(self).checks()[idx as int].2),
            ),
            final(self).positions() == old(self).positions(),
            forall|i: int| #[trigger] final(self).trajectory(i) == old(self).trajectory(i),
            final(self).nodes() == old(self).nodes(),
            final(self).spec_node_count() == old(self).spec_node_count(),
            final(self).spec_logical_qubits() == old(self).spec_logical_qubits(),
            final(self).spec_active_dim() == old(self).spec_active_dim(),
            final(self).spec_time() == old(self).spec_time(),
            final(self).spec_sector() == old(self).spec_sector(),
    {
        if idx >= self.stabilizers.len() {
            return Err(SimError::StabilizerIndexOutOfBounds);
        }
        let mut stabilizers = Vec::new();
        std::mem::swap(&mut stabilizers, &mut self.stabilizers);
        let ghost before = stabilizers@;
        let mut st = stabilizers.remove(idx);
        st.is_active = active;
        stabilizers.insert(idx, st);
        assert(stabilizers@ == before.update(idx as int, st));
        self.stabilizers = stabilizers;
        assert(self.checks() =~= old(self).checks().update(
            idx as int,
            (active, old(self).checks()[idx as int].1, old(self).checks()[idx as int].2),
        ));
        Ok(())
    }

    /// Registers an active stabilizer check on the given anyons; refused once
    /// `MAX_STACK_STABILIZERS` checks are held or for more than four anyons.
    pub fn add_stabilizer_check(&mut self, is_x_type: bool, anyons: Vec<usize>) -> (r: Result<
        usize,
        SimError,
    >)
        requires
            old(self).wf(),
        ensures
            final(self).wf(),
            old(self).checks().len() >= MAX_STACK_STABILIZERS ==> r == Err::<usize, SimError>(
                SimError::StabilizerCapacityReached,
            ) && *final(self) == *old(self),
            old(self).checks().len() < MAX_STACK_STABILIZERS && anyons@.len()
                > MAX_STABILIZER_WEIGHT ==> r == Err::<usize, SimError>(
                SimError::StabilizerWeightExceeded,
            ) && *final(self) == *old(self),
            old(self).checks().len() < MAX_STACK_STABILIZERS && anyons@.len()
                <= MAX_STABILIZER_WEIGHT ==> r == Ok::<usize, SimError>(
                old(self).checks().len() as usize,
            ) && final(self).checks() == old(self).checks().push((true, is_x_type, anyons@)),
            final(self).positions() == old(self).positions(),
            forall|i: int| #[trigger] final(self).trajectory(i) == old(self).trajectory(i),
            final(self).nodes() == old(self).nodes(),
            final(self).spec_node_count() == old(self).spec_node_count(),
            final(self).spec_logical_qubits() == old(self).spec_logical_qubits(),
            final(self).spec_active_dim() == old(self).spec_active_dim(),
            final(self).spec_time() == old(self).spec_time(),
            final(self).spec_sector() == old(self).spec_sector(),
    {
        if self.stabilizers.len() >= MAX_STACK_STABILIZERS {
            return Err(SimError::StabilizerCapacityReached);
        }
        if anyons.len() > MAX_STABILIZER_WEIGHT {
            return Err(SimError::StabilizerWeightExceeded);
        }
        let idx = self.stabilizers.len();
        let ghost before = self.stabilizers@;
        self.stabilizers.push(StackStabilizer { is_active: true, is_x_type, anyons });
        assert(self.checks() =~= old(self).checks().push((true, is_x_type, anyons@)));
        Ok(idx)
    }

    /// Stabilizer check `idx`, for a measurement; refused past the registered checks.
    pub fn stabilizer_for_measurement(&self, idx: usize) -> (r: Result<&StackStabilizer, SimError>)
        requires
            self.wf(),
        ensures
            idx >= self.checks().len() ==> r == Err::<&StackStabilizer, SimError>(
                SimError::StabilizerIndexOutOfRange,
            ),
            idx < self.checks().len() ==> r is Ok && (r->Ok_0.is_active, r->Ok_0.is_x_type,
            r->Ok_0.anyons@) == self.checks()[idx as int] && r->Ok_0.anyons@.len()
                <= MAX_STABILIZER_WEIGHT,
    {
        if idx >= self.stabilizers.len() {
            return Err(SimError::StabilizerIndexOutOfRange);
        }
        Ok(&self.stabilizers[idx])
    }

    /// What measuring stabilizer check `idx` does to the state vector: nothing (outcome
    /// 0) for an inactive or empty check, a flip of the basis index by `flip_mask` for an
    /// X-type check, a sign by `odd_parity` over its anyons for a Z-type one; refused past
    /// the registered checks.
    pub fn stabilizer_measurement(&self, idx: usize) -> (r: Result<StabilizerMeasurement, SimError>)
        requires
            self.wf(),
            idx < self.checks().len() && self.checks()[idx as int].0 ==> qubits_fit(
                self.checks()[idx as int].2,
            ),
        ensures
            idx >= self.checks().len() ==> r == Err::<StabilizerMeasurement, SimError>(
                SimError::StabilizerIndexOutOfRange,
            ),
            idx < self.checks().len() ==> {
                let c = self.checks()[idx as int];
                if !c.0 || c.2.len() == 0 {
                    r matches Ok(StabilizerMeasurement::Inactive)
                } else if c.1 {
                    r matches Ok(StabilizerMeasurement::XFlip { mask }) && mask == flip_mask(c.2)
                } else {
                    r matches Ok(StabilizerMeasurement::ZParity { anyons }) && anyons@ == c.2
                }
            },
    {
        let st = match self.stabilizer_for_measurement(idx) {
            Ok(st) => st,
            Err(e) => return Err(e),
        };
        if !st.is_active || st.weight() == 0 {
            return Ok(StabilizerMeasurement::Inactive);
        }
        if st.is_x_type {
            Ok(StabilizerMeasurement::XFlip { mask: x_flip_mask(&st.anyons) })
        } else {
            Ok(StabilizerMeasurement::ZParity { anyons: st.anyons.clone() })
        }
    }

    /// Number of logical qudits.
    pub fn logical_qubits(&self) -> (n: usize)
        requires
            self.wf(),
        ensures
            n == self.spec_logical_qubits(),
            1 <= n <= MAX_LOGICAL_QUBITS,
    {
        self.logical_qubits
    }

    /// The sector of the braid generators.
    pub fn sector(&self) -> (s: LieSectorType)
        requires
            self.wf(),
        ensures
            s == self.spec_sector(),
    {
        self.sector
    }

    /// Dimension of one qudit.
    pub fn qudit_dim(&self) -> (d: usize)
        requires
            self.wf(),
        ensures
            d == self.spec_qudit_dim(),
            d == qudit_dim_of(self.spec_sector()),
    {
        self.qudit_dim
    }

    /// Dimension of the simulated state space: the qudit dimension to the number of qudits.
    pub fn active_dim(&self) -> (d: usize)
        requires
            self.wf(),
        ensures
            d == self.spec_active_dim(),
            d == power(self.spec_qudit_dim(), self.spec_logical_qubits()),
    {
        self.active_dim
    }

    /// Number of anyons added.
    pub fn anyon_count(&self) -> (n: usize)
        requires
            self.wf(),
        ensures
            n == self.positions().len(),
            n <= MAX_ANYONS,
    {
        self.positions.len()
    }

    /// Number of fusion-tree slots in use.
    pub fn braid_depth(&self) -> (n: usize)
        requires
            self.wf(),
        ensures
            n == self.spec_node_count(),
    {
        self.node_count
    }

    /// Number of braids executed, saturating at `u64::MAX`.
    pub fn current_time(&self) -> (t: u64)
        requires
            self.wf(),
        ensures
            t == self.spec_time(),
    {
        self.current_time
    }
}

// ---------------------------------------------------------------------------
// Laws of the fusion tree.
// ---------------------------------------------------------------------------

/// The slots of a chain ascend strictly and lie in `[i, count)`.
proof fn lemma_ancestry(nodes: Seq<FusionNode>, count: int, i: int)
    requires
        0 <= i < count <= nodes.len(),
    ensures
        ancestry(nodes, count, i).len() > 0,
        ancestry(nodes, count, i)[0] == i,
        forall|j: int, k: int|
            0 <= j < k < ancestry(nodes, count, i).len() ==> #[trigger] ancestry(nodes, count, i)[j]
                < #[trigger] ancestry(nodes, count, i)[k],
        forall|j: int|
            0 <= j < ancestry(nodes, count, i).len() ==> i <= #[trigger] ancestry(nodes, count, i)[j]
                < count,
    decreases count - i,
{
    let c = ancestry(nodes, count, i);
    match nodes[i].parent {
        Some(p) => {
            if i < p && p < count {
                lemma_ancestry(nodes, count, p as int);
                let rest = ancestry(nodes, count, p as int);
                assert(c == seq![i] + rest);
                assert forall|j: int, k: int| 0 <= j < k < c.len() implies #[trigger] c[j]
                    < #[trigger] c[k] by {
                    if j > 0 {
                        assert(c[j] == rest[j - 1] && c[k] == rest[k - 1]);
                    } else {
                        assert(c[k] == rest[k - 1]);
                    }
                }
                assert forall|j: int| 0 <= j < c.len() implies i <= #[trigger] c[j] < count by {
                    if j > 0 {
                        assert(c[j] == rest[j - 1]);
                    }
                }
            }
        },
        None => {},
    }
}

/// The first slot of an ascending chain `b` held by `a` is the least slot both hold.
proof fn lemma_first_common(b: Seq<int>, a: Seq<int>)
    requires
        forall|j: int, k: int| 0 <= j < k < b.len() ==> #[trigger] b[j] < #[trigger] b[k],
    ensures
        match first_common(b, a) {
            Some(x) => b.contains(x) && a.contains(x) && forall|y: int|
                b.contains(y) && a.contains(y) ==> x <= y,
            None => forall|y: int| b.contains(y) ==> !a.contains(y),
        },
    decreases b.len(),
{
    if b.len() > 0 {
        let t = b.drop_first();
        assert forall|j: int, k: int| 0 <= j < k < t.len() implies #[trigger] t[j] < #[trigger] t[k] by {
            assert(t[j] == b[j + 1] && t[k] == b[k + 1]);
        }
        lemma_first_common(t, a);
        if a.contains(b[0]) {
            assert(b.contains(b[0]));
            assert forall|y: int| b.contains(y) && a.contains(y) implies b[0] <= y by {
                let j = choose|j: int| 0 <= j < b.len() && b[j] == y;
                if j > 0 {
                    assert(b[0] < b[j]);
                }
            }
        } else {
            match first_common(t, a) {
                Some(x) => {
                    assert(t.contains(x));
                    let j = choose|j: int| 0 <= j < t.len() && t[j] == x;
                    assert(b[j + 1] == x);
                    assert forall|y: int| b.contains(y) && a.contains(y) implies x <= y by {
                        let jy = choose|jy: int| 0 <= jy < b.len() && b[jy] == y;
                        assert(jy > 0);
                        assert(t[jy - 1] == y);
                    }
                },
                None => {
                    assert forall|y: int| b.contains(y) implies !a.contains(y) by {
                        let jy = choose|jy: int| 0 <= jy < b.len() && b[jy] == y;
                        if jy > 0 {
                            assert(t[jy - 1] == y);
                        }
                    }
                },
            }
        }
    }
}

/// `find_leaf` gives a counted slot that holds the anyon's leaf.
proof fn lemma_find_leaf(nodes: Seq<FusionNode>, count: int, id: usize, from: int)
    requires
        0 <= from,
    ensures
        match find_leaf(nodes, count, id, from) {
            Some(n) => from <= n < count && n < nodes.len() && nodes[n].anyon_id == Some(id)
                && forall|j: int| from <= j < n ==> (#[trigger] nodes[j]).anyon_id != Some(id),
            None => forall|j: int|
                from <= j < count && j < nodes.len() ==> (#[trigger] nodes[j]).anyon_id != Some(id),
        },
    decreases count - from,
{
    if from < count && from < nodes.len() && nodes[from].anyon_id != Some(id) {
        lemma_find_leaf(nodes, count, id, from + 1);
    }
}

/// An anyon's leaf is its own lowest common ancestor with itself.
pub proof fn law_lca_of_same_anyon<P: Copy>(t: TopologicalTracker<P>, id: usize)
    requires
        t.wf(),
        find_leaf(t.nodes(), t.spec_node_count() as int, id, 0) is Some,
    ensures
        lowest_common_ancestor(t.nodes(), t.spec_node_count() as int, id, id) == Ok::<
            usize,
            SimError,
        >(find_leaf(t.nodes(), t.spec_node_count() as int, id, 0)->Some_0 as usize),
{
    let nodes = t.nodes();
    let count = t.spec_node_count() as int;
    lemma_find_leaf(nodes, count, id, 0);
    let n = find_leaf(nodes, count, id, 0)->Some_0;
    lemma_ancestry(nodes, count, n);
    let c = ancestry(nodes, count, n);
    assert(c.contains(c[0]));
}

/// The lowest common ancestor does not depend on the order of the two anyons.
pub proof fn law_lca_symmetric<P: Copy>(t: TopologicalTracker<P>, id_a: usize, id_b: usize)
    requires
        t.wf(),
        find_leaf(t.nodes(), t.spec_node_count() as int, id_a, 0) is Some,
        find_leaf(t.nodes(), t.spec_node_count() as int, id_b, 0) is Some,
    ensures
        lowest_common_ancestor(t.nodes(), t.spec_node_count() as int, id_a, id_b)
            == lowest_common_ancestor(t.nodes(), t.spec_node_count() as int, id_b, id_a),
{
    let nodes = t.nodes();
    let count = t.spec_node_count() as int;
    lemma_find_leaf(nodes, count, id_a, 0);
    lemma_find_leaf(nodes, count, id_b, 0);
    let na = find_leaf(nodes, count, id_a, 0)->Some_0;
    let nb = find_leaf(nodes, count, id_b, 0)->Some_0;
    lemma_ancestry(nodes, count, na);
    lemma_ancestry(nodes, count, nb);
    let ca = ancestry(nodes, count, na);
    let cb = ancestry(nodes, count, nb);
    lemma_first_common(cb, ca);
    lemma_first_common(ca, cb);
    match first_common(cb, ca) {
        Some(x) => {
            match first_common(ca, cb) {
                Some(y) => {
                    assert(x <= y && y <= x);
                },
                None => {
                    assert(!cb.contains(x));
                },
            }
        },
        None => {
            match first_common(ca, cb) {
                Some(y) => {
                    assert(!ca.contains(y));
                },
                None => {},
            }
        },
    }
}

proof fn lemma_find_leaf_at(nodes: Seq<FusionNode>, count: int, id: usize, from: int, n: int)
    requires
        0 <= from <= n < count,
        n < nodes.len(),
        nodes[n].anyon_id == Some(id),
        forall|j: int| from <= j < n ==> (#[trigger] nodes[j]).anyon_id != Some(id),
    ensures
        find_leaf(nodes, count, id, from) == Some(n),
    decreases n - from,
{
    if from < n {
        lemma_find_leaf_at(nodes, count, id, from + 1, n);
    }
}

/// Fusing the leaves of two distinct anyons makes the new node their lowest common
/// ancestor.
pub proof fn law_fused_leaves_meet<P: Copy>(
    t: TopologicalTracker<P>,
    id_a: usize,
    id_b: usize,
    charge: u32,
)
    requires
        t.wf(),
        t.spec_node_count() < MAX_FUSION_NODES,
        find_leaf(t.nodes(), t.spec_node_count() as int, id_a, 0) is Some,
        find_leaf(t.nodes(), t.spec_node_count() as int, id_b, 0) is Some,
        find_leaf(t.nodes(), t.spec_node_count() as int, id_a, 0) != find_leaf(
            t.nodes(),
            t.spec_node_count() as int,
            id_b,
            0,
        ),
    ensures
        ({
            let left = find_leaf(t.nodes(), t.spec_node_count() as int, id_a, 0)->Some_0 as usize;
            let right = find_leaf(t.nodes(), t.spec_node_count() as int, id_b, 0)->Some_0 as usize;
            lowest_common_ancestor(
                fused_nodes(t.nodes(), t.spec_node_count(), left, right, charge),
                (t.spec_node_count() + 1) as int,
                id_a,
                id_b,
            ) == Ok::<usize, SimError>(t.spec_node_count() as usize)
        }),
{
    let nodes = t.nodes();
    let c = t.spec_node_count() as int;
    lemma_find_leaf(nodes, c, id_a, 0);
    lemma_find_leaf(nodes, c, id_b, 0);
    let l = find_leaf(nodes, c, id_a, 0)->Some_0;
    let r = find_leaf(nodes, c, id_b, 0)->Some_0;
    let f = fused_nodes(nodes, c as nat, l as usize, r as usize, charge);
    assert(nodes.len() == MAX_FUSION_NODES);
    assert forall|j: int| 0 <= j < c implies (#[trigger] f[j]).anyon_id == nodes[j].anyon_id by {}
    lemma_find_leaf_at(f, c + 1, id_a, 0, l);
    lemma_find_leaf_at(f, c + 1, id_b, 0, r);
    assert(f[c].parent is None);
    assert(ancestry(f, c + 1, c) == seq![c]);
    assert(f[l].parent == Some(c as usize));
    assert(f[r].parent == Some(c as usize));
    assert(ancestry(f, c + 1, l) == seq![l] + seq![c]);
    assert(ancestry(f, c + 1, r) == seq![r] + seq![c]);
    let ca = ancestry(f, c + 1, l);
    let cb = ancestry(f, c + 1, r);
    assert(!ca.contains(r)) by {
        if ca.contains(r) {
            let j = choose|j: int| 0 <= j < ca.len() && ca[j] == r;
            assert(j == 0 || j == 1);
        }
    }
    assert(ca.contains(c)) by {
        assert(ca[1] == c);
    }
    assert(cb.drop_first() == seq![c]);
    assert(first_common(cb.drop_first(), ca) == Some(c));
}

proof fn lemma_power_16_bound(k: nat)
    requires
        k <= MAX_LOGICAL_QUBITS,
    ensures
        power(16, k) <= 65536,
        power(16, k) >= 1,
{
    assert(power(16, 0) == 1);
    assert(power(16, 1) == 16);
    assert(power(16, 2) == 256);
    assert(power(16, 3) == 4096);
    assert(power(16, 4) == 65536);
}

/// Fusing slots `left` and `right` into slot `count` links both children to the new
/// node, whether each child is a leaf or an internal node: their parent becomes `count`,
/// the new node records both children and no anyon, and every other slot is untouched.
pub proof fn law_fusion_links_both_children(
    nodes: Seq<FusionNode>,
    count: nat,
    left: usize,
    right: usize,
    charge: u32,
)
    requires
        count < nodes.len(),
        left < nodes.len(),
        right < nodes.len(),
        left != count,
        right != count,
    ensures
        ({
            let after = fused_nodes(nodes, count, left, right, charge);
            &&& after.len() == nodes.len()
            &&& after[left as int].parent == Some(count as usize)
            &&& after[right as int].parent == Some(count as usize)
            &&& after[left as int].anyon_id == nodes[left as int].anyon_id
            &&& after[right as int].anyon_id == nodes[right as int].anyon_id
            &&& after[count as int].left_child == Some(left)
            &&& after[count as int].right_child == Some(right)
            &&& after[count as int].anyon_id is None
            &&& after[count as int].topological_charge == charge
            &&& forall|i: int|
                0 <= i < nodes.len() && i != left && i != right && i != count ==> #[trigger] after[i]
                    == nodes[i]
        }),
{
}

} // verus!
