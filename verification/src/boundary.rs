use vstd::prelude::*;

verus! {

/// Lepton level of the benchmark branch.
pub const LEPTON_LEVEL: u32 = 26;

/// Quark level of the benchmark branch.
pub const QUARK_LEVEL: u32 = 8;

/// Parent level of the benchmark branch.
pub const PARENT_LEVEL: u32 = 312;

/// Numerator of the dark central charge.
pub const C_DARK_NUM: u32 = 834433;

/// Denominator of the dark central charge.
pub const C_DARK_DEN: u32 = 362670;

/// An exact fraction `num / den`, not necessarily in lowest terms.
#[derive(Debug, Clone, Copy, PartialEq, Eq, Structural)]
pub struct Ratio {
    pub num: u128,
    pub den: u128,
}

/// Distance, in units of `1 / b`, from `a / b` to the nearest integer.
pub open spec fn distance_numerator(a: nat, b: nat) -> nat {
    let r = a % b;
    if r <= b - r {
        r
    } else {
        (b - r) as nat
    }
}

/// The framing defect of a branch: the larger of the distances from `K / (2 k_l)` and
/// `K / (3 k_q)` to the nearest integers (the second on a tie).
pub open spec fn framing_defect_of(lepton: nat, quark: nat, parent: nat) -> (nat, nat) {
    let b1 = 2 * lepton;
    let b2 = 3 * quark;
    let n1 = distance_numerator(parent, b1);
    let n2 = distance_numerator(parent, b2);
    if n1 * b2 > n2 * b1 {
        (n1, b1)
    } else {
        (n2, b2)
    }
}

/// The static boundary of a branch `(k_l, k_q, K)`: its levels and the exact rational
/// quantities they determine.
pub struct StaticBoundary {
    benchmark_branch: (u32, u32, u32),
    lepton_level: u32,
    quark_level: u32,
    parent_level: u32,
    charge_embedding: [u32; 3],
}

impl StaticBoundary {
    #[verifier::type_invariant]
    closed spec fn well_formed(&self) -> bool {
        &&& self.lepton_level >= 4
        &&& self.quark_level > 0
        &&& self.benchmark_branch == (self.lepton_level, self.quark_level, self.parent_level)
    }

    pub closed spec fn levels(&self) -> (nat, nat, nat) {
        (self.lepton_level as nat, self.quark_level as nat, self.parent_level as nat)
    }

    /// The boundary of the benchmark branch `(26, 8, 312)`, with the charge embedding
    /// `(k_l - 4, k_l - 3, k_l)`.
    pub fn new() -> (b: Self)
        ensures
            b.levels() == (26nat, 8nat, 312nat),
    {
        StaticBoundary {
            benchmark_branch: (LEPTON_LEVEL, QUARK_LEVEL, PARENT_LEVEL),
            lepton_level: LEPTON_LEVEL,
            quark_level: QUARK_LEVEL,
            parent_level: PARENT_LEVEL,
            charge_embedding: [LEPTON_LEVEL - 4, LEPTON_LEVEL - 3, LEPTON_LEVEL],
        }
    }

    /// The branch `(k_l, k_q, K)`.
    pub fn benchmark_branch(&self) -> (b: (u32, u32, u32))
        ensures
            (b.0 as nat, b.1 as nat, b.2 as nat) == self.levels(),
    {
        (self.lepton_level, self.quark_level, self.parent_level)
    }

    /// The SU(2) labels that carry the visible charges: `(k_l - 4, k_l - 3, k_l)`.
    pub fn charge_embedding(&self) -> (e: [u32; 3])
        ensures
            e@ == seq![
                (self.levels().0 - 4) as u32,
                (self.levels().0 - 3) as u32,
                self.levels().0 as u32,
            ],
    {
        proof {
            use_type_invariant(self);
        }
        let e = [self.lepton_level - 4, self.lepton_level - 3, self.lepton_level];
        assert(e@ == seq![e[0], e[1], e[2]]);
        e
    }

    /// `K / (2 k_l)`.
    pub fn i_l_star(&self) -> (r: Ratio)
        ensures
            r.num == self.levels().2 && r.den == 2 * self.levels().0,
    {
        Ratio { num: self.parent_level as u128, den: 2 * self.lepton_level as u128 }
    }

    /// `K / (3 k_q)`.
    pub fn i_q_star(&self) -> (r: Ratio)
        ensures
            r.num == self.levels().2 && r.den == 3 * self.levels().1,
    {
        Ratio { num: self.parent_level as u128, den: 3 * self.quark_level as u128 }
    }

    /// The dark central charge `834433 / 362670`.
    pub fn c_dark(&self) -> (r: Ratio)
        ensures
            r.num == C_DARK_NUM && r.den == C_DARK_DEN,
    {
        Ratio { num: C_DARK_NUM as u128, den: C_DARK_DEN as u128 }
    }

    /// The framing defect of the branch, exactly, as `framing_defect_of` states.
    pub fn framing_defect(&self) -> (r: Ratio)
        ensures
            (r.num as nat, r.den as nat) == framing_defect_of(
                self.levels().0,
                self.levels().1,
                self.levels().2,
            ),
    {
        proof {
            use_type_invariant(self);
        }
        framing_defect(self.lepton_level, self.quark_level, self.parent_level)
    }

    /// Conformal weight `h = l (l + 2) / (4 (k + 2))` of the SU(2)_k primary of label `l`.
    pub fn su2_conformal_weight(label: u32, level: u32) -> (r: Ratio)
        requires
            label + 2 <= u32::MAX,
            4 * (level + 2) <= u32::MAX,
        ensures
            r.num == label * (label + 2),
            r.den == 4 * (level + 2),
    {
        let l = label as u128;
        proof {
            assert(l * (l + 2) <= 0xffff_ffff * 0x1_0000_0001) by (nonlinear_arith)
                requires
                    l <= 0xffff_ffff,
            ;
        }
        Ratio { num: l * (l + 2), den: 4 * (level as u128 + 2) }
    }

    /// Central charge `c = 3 k / (k + 2)` of SU(2)_k.
    pub fn su2_central_charge(level: u32) -> (r: Ratio)
        requires
            3 * level <= u32::MAX,
            level + 2 <= u32::MAX,
        ensures
            r.num == 3 * level,
            r.den == level + 2,
    {
        Ratio { num: 3 * level as u128, den: level as u128 + 2 }
    }

    /// Conformal weight `h = (p^2 + q^2 + p q + 3 p + 3 q) / (3 (k + 3))` of the SU(3)_k
    /// primary of Dynkin labels `(p, q)`.
    pub fn su3_conformal_weight(p: u32, q: u32, level: u32) -> (r: Ratio)
        requires
            3 * (level + 3) <= u32::MAX,
        ensures
            r.num == p * p + q * q + p * q + 3 * p + 3 * q,
            r.den == 3 * (level + 3),
    {
        let pp = p as u128;
        let qq = q as u128;
        proof {
            assert(pp * pp <= 0xffff_ffff * 0xffff_ffff) by (nonlinear_arith)
                requires
                    pp <= 0xffff_ffff,
            ;
            assert(qq * qq <= 0xffff_ffff * 0xffff_ffff) by (nonlinear_arith)
                requires
                    qq <= 0xffff_ffff,
            ;
            assert(pp * qq <= 0xffff_ffff * 0xffff_ffff) by (nonlinear_arith)
                requires
                    pp <= 0xffff_ffff,
                    qq <= 0xffff_ffff,
            ;
        }
        Ratio { num: pp * pp + qq * qq + pp * qq + 3 * pp + 3 * qq, den: 3 * (level as u128 + 3) }
    }

    /// Central charge `c = 8 k / (k + 3)` of SU(3)_k.
    pub fn su3_central_charge(level: u32) -> (r: Ratio)
        requires
            8 * level <= u32::MAX,
            level + 3 <= u32::MAX,
        ensures
            r.num == 8 * level,
            r.den == level + 3,
    {
        Ratio { num: 8 * level as u128, den: level as u128 + 3 }
    }
}

fn distance_numerator_exec(a: u128, b: u128) -> (n: u128)
    requires
        b > 0,
    ensures
        n == distance_numerator(a as nat, b as nat),
        n <= b,
{
    let r = a % b;
    if r <= b - r {
        r
    } else {
        b - r
    }
}

/// The framing defect of a branch with positive levels, exactly, as `framing_defect_of`
/// states.
pub fn framing_defect(lepton: u32, quark: u32, parent: u32) -> (r: Ratio)
    requires
        lepton > 0,
        quark > 0,
    ensures
        (r.num as nat, r.den as nat) == framing_defect_of(lepton as nat, quark as nat, parent as nat),
{
    let b1 = 2 * lepton as u128;
    let b2 = 3 * quark as u128;
    let n1 = distance_numerator_exec(parent as u128, b1);
    let n2 = distance_numerator_exec(parent as u128, b2);
    proof {
        assert(n1 * b2 <= b1 * b2) by (nonlinear_arith)
            requires
                n1 <= b1,
        ;
        assert(b1 * b2 <= 0x2_0000_0000 * 0x3_0000_0000) by (nonlinear_arith)
            requires
                b1 <= 0x2_0000_0000,
                b2 <= 0x3_0000_0000,
        ;
        assert(n2 * b1 <= b2 * b1) by (nonlinear_arith)
            requires
                n2 <= b2,
        ;
        assert(b2 * b1 == b1 * b2) by (nonlinear_arith);
    }
    if n1 * b2 > n2 * b1 {
        Ratio { num: n1, den: b1 }
    } else {
        Ratio { num: n2, den: b2 }
    }
}

/// Absolute value of an integer.
pub open spec fn abs_int(x: int) -> int {
    if x >= 0 {
        x
    } else {
        -x
    }
}

/// `distance_numerator(a, b) / b` is the distance from `a / b` to the nearest integer: some
/// integer `m` has `|a - m b|` equal to it, and no integer has less.
pub proof fn law_distance_is_to_nearest_integer(a: nat, b: nat)
    requires
        b > 0,
    ensures
        exists|m: int| #[trigger] abs_int(a - m * b) == distance_numerator(a, b),
        forall|m: int| distance_numerator(a, b) <= #[trigger] abs_int(a - m * b),
{
    let q = (a / b) as int;
    let r = (a % b) as int;
    assert(a == q * b + r && 0 <= r < b) by (nonlinear_arith)
        requires
            b > 0,
            q == a / b,
            r == a % b,
    ;
    let d = distance_numerator(a, b) as int;
    if r <= b - r {
        assert(abs_int(a - q * b) == d);
    } else {
        assert(a - (q + 1) * b == r - b) by (nonlinear_arith)
            requires
                a == q * b + r,
        ;
        assert(abs_int(a - (q + 1) * b) == d);
    }
    assert forall|m: int| d <= #[trigger] abs_int(a - m * b) by {
        assert(a - m * b == r + (q - m) * b) by (nonlinear_arith)
            requires
                a == q * b + r,
        ;
        if m <= q {
            assert((q - m) * b >= 0) by (nonlinear_arith)
                requires
                    m <= q,
                    b > 0,
            ;
        } else {
            assert((q - m) * b <= -b) by (nonlinear_arith)
                requires
                    m > q,
                    b > 0,
            ;
        }
    }
}

/// The framing defect is the larger of the two distances, `K / (2 k_l)` and
/// `K / (3 k_q)` to their nearest integers: as a fraction it is at least each of them and
/// equals one of them.
pub proof fn law_framing_defect_is_larger_distance(lepton: nat, quark: nat, parent: nat)
    requires
        lepton > 0,
        quark > 0,
    ensures
        ({
            let fd = framing_defect_of(lepton, quark, parent);
            let d1 = distance_numerator(parent, 2 * lepton);
            let d2 = distance_numerator(parent, 3 * quark);
            &&& fd.0 * (2 * lepton) >= d1 * fd.1
            &&& fd.0 * (3 * quark) >= d2 * fd.1
            &&& (fd == (d1, 2 * lepton) || fd == (d2, 3 * quark))
        }),
{
    let b1 = 2 * lepton;
    let b2 = 3 * quark;
    let n1 = distance_numerator(parent, b1);
    let n2 = distance_numerator(parent, b2);
    assert(n1 * b2 == b2 * n1 && n2 * b1 == b1 * n2 && n1 * b1 == b1 * n1 && n2 * b2 == b2 * n2)
        by (nonlinear_arith);
}

/// A branch is free of framing defect exactly when `2 k_l` and `3 k_q` both divide `K`.
pub proof fn law_framing_defect_zero_iff_divisible(lepton: nat, quark: nat, parent: nat)
    requires
        lepton > 0,
        quark > 0,
    ensures
        (framing_defect_of(lepton, quark, parent).0 == 0) <==> (parent % (2 * lepton) == 0
            && parent % (3 * quark) == 0),
{
    let b1 = 2 * lepton;
    let b2 = 3 * quark;
    let n1 = distance_numerator(parent, b1);
    let n2 = distance_numerator(parent, b2);
    assert(n1 == 0 <==> parent % b1 == 0);
    assert(n2 == 0 <==> parent % b2 == 0);
    if n1 * b2 > n2 * b1 {
        assert(n1 > 0) by (nonlinear_arith)
            requires
                n1 * b2 > n2 * b1,
        ;
        assert(n2 * b1 < n1 * b2);
        if n2 == 0 {
        }
    } else {
        if n2 == 0 {
            assert(n1 * b2 <= 0);
            assert(n1 == 0) by (nonlinear_arith)
                requires
                    n1 * b2 <= 0,
                    b2 > 0,
            ;
        }
    }
}

/// Sign of a permutation of three positions: `1` for an even number of inversions,
/// `-1` for an odd number.
pub open spec fn permutation_sign_of(p: (usize, usize, usize)) -> int {
    let inv = (if p.0 > p.1 {
        1int
    } else {
        0int
    }) + (if p.0 > p.2 {
        1int
    } else {
        0int
    }) + (if p.1 > p.2 {
        1int
    } else {
        0int
    });
    if inv % 2 == 0 {
        1
    } else {
        -1
    }
}

/// Sign of a permutation of three positions, as `permutation_sign_of` states.
pub fn permutation_sign(permutation: (usize, usize, usize)) -> (s: i32)
    ensures
        s == permutation_sign_of(permutation),
{
    let p = [permutation.0, permutation.1, permutation.2];
    let mut inversions: u32 = 0;
    let mut i: usize = 0;
    while i < 3
        invariant
            i <= 3,
            p@ == seq![permutation.0, permutation.1, permutation.2],
            inversions == (if i > 0 && p[0] > p[1] {
                1int
            } else {
                0int
            }) + (if i > 0 && p[0] > p[2] {
                1int
            } else {
                0int
            }) + (if i > 1 && p[1] > p[2] {
                1int
            } else {
                0int
            }),
        decreases 3 - i,
    {
        let mut j = i + 1;
        while j < 3
            invariant
                i < 3,
                i + 1 <= j <= 3,
                p@ == seq![permutation.0, permutation.1, permutation.2],
                inversions == (if i > 0 && p[0] > p[1] {
                    1int
                } else {
                    0int
                }) + (if i > 0 && p[0] > p[2] {
                    1int
                } else {
                    0int
                }) + (if i > 1 && p[1] > p[2] {
                    1int
                } else {
                    0int
                }) + (if i == 0 && j > 1 && p[0] > p[1] {
                    1int
                } else {
                    0int
                }) + (if i == 0 && j > 2 && p[0] > p[2] {
                    1int
                } else {
                    0int
                }) + (if i == 1 && j > 2 && p[1] > p[2] {
                    1int
                } else {
                    0int
                }),
            decreases 3 - j,
        {
            if p[i] > p[j] {
                inversions = inversions + 1;
            }
            j = j + 1;
        }
        i = i + 1;
    }
    if inversions % 2 == 0 {
        1
    } else {
        -1
    }
}

/// The nine coordinates of the 3x3 boundary block, row by row.
pub open spec fn block_coordinates() -> Seq<(usize, usize)> {
    seq![(0, 0), (0, 1), (0, 2), (1, 0), (1, 1), (1, 2), (2, 0), (2, 1), (2, 2)]
}

/// The coordinates of `cs`, in order, that `done` does not hold.
pub open spec fn without(cs: Seq<(usize, usize)>, done: Seq<(usize, usize)>) -> Seq<(usize, usize)>
    decreases cs.len(),
{
    if cs.len() == 0 {
        Seq::empty()
    } else {
        let r = without(cs.drop_last(), done);
        if done.contains(cs.last()) {
            r
        } else {
            r.push(cs.last())
        }
    }
}

fn holds(done: &Vec<(usize, usize)>, n: usize, c: (usize, usize)) -> (r: bool)
    requires
        n <= done@.len(),
    ensures
        r == done@.take(n as int).contains(c),
{
    let mut k: usize = 0;
    while k < n
        invariant
            k <= n <= done@.len(),
            forall|m: int| 0 <= m < k ==> done@[m] != c,
        decreases n - k,
    {
        let d = done[k];
        if d.0 == c.0 && d.1 == c.1 {
            assert(done@.take(n as int)[k as int] == c);
            return true;
        }
        k = k + 1;
    }
    assert forall|m: int| 0 <= m < done@.take(n as int).len() implies done@.take(n as int)[m] != c by {
        assert(done@.take(n as int)[m] == done@[m]);
    }
    false
}

/// The block coordinates that the first `n` steps of a resolution order have not yet
/// resolved, row by row.
pub fn unresolved_coordinates(sequence: &Vec<(usize, usize)>, n: usize) -> (v: Vec<(usize, usize)>)
    requires
        n <= sequence@.len(),
    ensures
        v@ == without(block_coordinates(), sequence@.take(n as int)),
{
    let all: Vec<(usize, usize)> = vec![(0, 0), (0, 1), (0, 2), (1, 0), (1, 1), (1, 2), (2, 0), (2, 1), (2, 2)];
    assert(all@ =~= block_coordinates());
    let mut v: Vec<(usize, usize)> = Vec::new();
    let mut k: usize = 0;
    while k < all.len()
        invariant
            k <= all@.len(),
            n <= sequence@.len(),
            v@ == without(all@.take(k as int), sequence@.take(n as int)),
        decreases all@.len() - k,
    {
        let c = all[k];
        assert(all@.take(k + 1).drop_last() =~= all@.take(k as int));
        assert(all@.take(k + 1).last() == c);
        if !holds(sequence, n, c) {
            v.push(c);
        }
        k = k + 1;
    }
    assert(all@.take(all@.len() as int) =~= all@);
    v
}

/// Weight denominator of the feedback that coordinate `(i, j)` sends to `target`:
/// one more than their Manhattan distance.
pub open spec fn feedback_denominator_of(i: int, j: int, target: (usize, usize)) -> int {
    let di = if i >= target.0 {
        i - target.0
    } else {
        target.0 - i
    };
    let dj = if j >= target.1 {
        j - target.1
    } else {
        target.1 - j
    };
    1 + di + dj
}

/// The feedback weight denominator, as `feedback_denominator_of` states, for coordinates
/// of the 3x3 block.
pub fn feedback_denominator(i: usize, j: usize, target: (usize, usize)) -> (d: u32)
    requires
        i < 3 && j < 3 && target.0 < 3 && target.1 < 3,
    ensures
        d == feedback_denominator_of(i as int, j as int, target),
{
    let di = if i >= target.0 {
        i - target.0
    } else {
        target.0 - i
    };
    let dj = if j >= target.1 {
        j - target.1
    } else {
        target.1 - j
    };
    (1 + di + dj) as u32
}

} // verus!
