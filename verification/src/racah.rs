use vstd::prelude::*;

verus! {

/// Whether `x` is an `i32`.
pub open spec fn fits_i32(x: int) -> bool {
    i32::MIN <= x <= i32::MAX
}

/// Every partial sum the triangle coefficient of `(a, b, c)` computes is an `i32`.
pub open spec fn triangle_sums_fit(a: int, b: int, c: int) -> bool {
    &&& fits_i32(a + b)
    &&& fits_i32(a + b - c)
    &&& fits_i32(a - b)
    &&& fits_i32(a - b + c)
    &&& fits_i32(-a)
    &&& fits_i32(-a + b)
    &&& fits_i32(-a + b + c)
    &&& fits_i32(a + b + c)
}

/// The triangle `(a, b, c)` of doubled spins is admissible: no side exceeds the sum of
/// the other two, and the perimeter is not negative.
pub open spec fn triangle_admissible(a: int, b: int, c: int) -> bool {
    a + b - c >= 0 && a - b + c >= 0 && -a + b + c >= 0 && a + b + c >= 0
}

/// The q-factorial arguments of the triangle coefficient of an admissible triangle:
/// `(a+b-c)/2`, `(a-b+c)/2`, `(-a+b+c)/2` over the numerator and `(a+b+c)/2 + 1` under it.
pub open spec fn triangle_args_of(a: int, b: int, c: int) -> Option<(nat, nat, nat, nat)> {
    if triangle_admissible(a, b, c) {
        Some(
            (
                ((a + b - c) / 2) as nat,
                ((a - b + c) / 2) as nat,
                ((-a + b + c) / 2) as nat,
                ((a + b + c) / 2 + 1) as nat,
            ),
        )
    } else {
        None
    }
}

/// The q-factorial arguments of the triangle coefficient of `(a, b, c)`, as
/// `triangle_args_of` states; `None` where the coefficient vanishes for want of an
/// admissible triangle.
pub fn triangle_args(a: i32, b: i32, c: i32) -> (r: Option<(u32, u32, u32, u32)>)
    requires
        triangle_sums_fit(a as int, b as int, c as int),
    ensures
        match r {
            Some(t) => triangle_args_of(a as int, b as int, c as int) == Some(
                (t.0 as nat, t.1 as nat, t.2 as nat, t.3 as nat),
            ),
            None => triangle_args_of(a as int, b as int, c as int) is None,
        },
{
    let ab_c = a + b - c;
    let a_bc = a - b + c;
    let nabc = -a + b + c;
    let abc = a + b + c;
    if ab_c < 0 || a_bc < 0 || nabc < 0 || abc < 0 {
        return None;
    }
    Some(((ab_c / 2) as u32, (a_bc / 2) as u32, (nabc / 2) as u32, (abc / 2 + 1) as u32))
}

/// The four triangles of the 6j symbol `{a b e; c d f}`: `(a, b, e)`, `(c, d, e)`,
/// `(a, c, f)`, `(b, d, f)`.
pub open spec fn six_j_admissible(a: int, b: int, c: int, d: int, e: int, f: int) -> bool {
    &&& triangle_admissible(a, b, e)
    &&& triangle_admissible(c, d, e)
    &&& triangle_admissible(a, c, f)
    &&& triangle_admissible(b, d, f)
}

/// The sums the Racah window of a 6j symbol computes are `i32`s.
pub open spec fn racah_sums_fit(a: int, b: int, c: int, d: int, e: int, f: int) -> bool {
    &&& fits_i32(a + b + e)
    &&& fits_i32(a + c + f)
    &&& fits_i32(b + d + f)
    &&& fits_i32(a + b + c + d)
    &&& fits_i32(a + e + c + f)
    &&& fits_i32(b + e + d + f)
}

/// The summation window `[zmin, zmax]` of the Racah formula: `zmin` is the largest of the
/// half-perimeters of `(a, b, e)`, `(a, c, f)`, `(b, d, f)`, `zmax` the smallest of
/// `(a+b+c+d)/2`, `(a+e+c+f)/2`, `(b+e+d+f)/2`; `None` when it is empty.
pub open spec fn racah_window_of(a: int, b: int, c: int, d: int, e: int, f: int) -> Option<(int, int)> {
    let x1 = (a + b + e) / 2;
    let x2 = (a + c + f) / 2;
    let x3 = (b + d + f) / 2;
    let y1 = (a + b + c + d) / 2;
    let y2 = (a + e + c + f) / 2;
    let y3 = (b + e + d + f) / 2;
    let zmin = if x1 >= x2 && x1 >= x3 {
        x1
    } else if x2 >= x3 {
        x2
    } else {
        x3
    };
    let zmax = if y1 <= y2 && y1 <= y3 {
        y1
    } else if y2 <= y3 {
        y2
    } else {
        y3
    };
    if zmin > zmax {
        None
    } else {
        Some((zmin, zmax))
    }
}

proof fn lemma_admissible_labels_nonnegative(a: int, b: int, c: int, d: int, e: int, f: int)
    requires
        six_j_admissible(a, b, c, d, e, f),
    ensures
        a >= 0 && b >= 0 && c >= 0 && d >= 0 && e >= 0 && f >= 0,
{
}

/// The Racah summation window of an admissible 6j symbol, as `racah_window_of` states.
pub fn racah_window(a: i32, b: i32, c: i32, d: i32, e: i32, f: i32) -> (r: Option<(i32, i32)>)
    requires
        six_j_admissible(a as int, b as int, c as int, d as int, e as int, f as int),
        racah_sums_fit(a as int, b as int, c as int, d as int, e as int, f as int),
    ensures
        match r {
            Some(w) => racah_window_of(a as int, b as int, c as int, d as int, e as int, f as int)
                == Some((w.0 as int, w.1 as int)),
            None => racah_window_of(a as int, b as int, c as int, d as int, e as int, f as int) is None,
        },
{
    proof {
        lemma_admissible_labels_nonnegative(a as int, b as int, c as int, d as int, e as int, f as int);
    }
    let x1 = (a + b + e) / 2;
    let x2 = (a + c + f) / 2;
    let x3 = (b + d + f) / 2;
    let y1 = (a + b + c + d) / 2;
    let y2 = (a + e + c + f) / 2;
    let y3 = (b + e + d + f) / 2;
    let zmin = if x1 >= x2 && x1 >= x3 {
        x1
    } else if x2 >= x3 {
        x2
    } else {
        x3
    };
    let zmax = if y1 <= y2 && y1 <= y3 {
        y1
    } else if y2 <= y3 {
        y2
    } else {
        y3
    };
    if zmin > zmax {
        None
    } else {
        Some((zmin, zmax))
    }
}

/// The q-factorial arguments of the Racah term at `z` in the window: `z + 1` over the
/// term, and `z - x1`, `z - x2`, `z - x3`, `y1 - z`, `y2 - z`, `y3 - z` under it.
pub open spec fn racah_term_args_of(a: int, b: int, c: int, d: int, e: int, f: int, z: int) -> (
    nat,
    Seq<nat>,
) {
    (
        (z + 1) as nat,
        seq![
            (z - (a + b + e) / 2) as nat,
            (z - (a + c + f) / 2) as nat,
            (z - (b + d + f) / 2) as nat,
            ((a + b + c + d) / 2 - z) as nat,
            ((a + e + c + f) / 2 - z) as nat,
            ((b + e + d + f) / 2 - z) as nat,
        ],
    )
}

/// The q-factorial arguments of the Racah term at `z`, which must lie in the window, as
/// `racah_term_args_of` states; every one is a natural number there.
pub fn racah_term_args(a: i32, b: i32, c: i32, d: i32, e: i32, f: i32, z: i32) -> (r: (u32, [u32; 6]))
    requires
        six_j_admissible(a as int, b as int, c as int, d as int, e as int, f as int),
        racah_sums_fit(a as int, b as int, c as int, d as int, e as int, f as int),
        racah_window_of(a as int, b as int, c as int, d as int, e as int, f as int) matches Some(w)
            && w.0 <= z <= w.1,
    ensures
        (r.0 as nat, r.1@.map_values(|x: u32| x as nat)) == racah_term_args_of(
            a as int,
            b as int,
            c as int,
            d as int,
            e as int,
            f as int,
            z as int,
        ),
{
    proof {
        lemma_admissible_labels_nonnegative(a as int, b as int, c as int, d as int, e as int, f as int);
    }
    let x1 = (a + b + e) / 2;
    let x2 = (a + c + f) / 2;
    let x3 = (b + d + f) / 2;
    let y1 = (a + b + c + d) / 2;
    let y2 = (a + e + c + f) / 2;
    let y3 = (b + e + d + f) / 2;
    let args = [
        (z - x1) as u32,
        (z - x2) as u32,
        (z - x3) as u32,
        (y1 - z) as u32,
        (y2 - z) as u32,
        (y3 - z) as u32,
    ];
    let r = ((z + 1) as u32, args);
    assert(r.1@.map_values(|x: u32| x as nat) =~= racah_term_args_of(
        a as int,
        b as int,
        c as int,
        d as int,
        e as int,
        f as int,
        z as int,
    ).1);
    r
}

} // verus!
