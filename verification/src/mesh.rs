use vstd::prelude::*;

use crate::text::{decimal_of, push_decimal, string_from_chars};

verus! {

/// One polyline of the spacetime mesh: the point count, then the global indices of the
/// points of worldline `a`, each after a space, and a line break.
pub open spec fn mesh_line(a: nat, points_per_line: nat) -> Seq<char> {
    decimal_of(points_per_line) + mesh_indices(a, points_per_line, points_per_line) + seq!['\n']
}

/// ` a*p+0 a*p+1 ... a*p+(t-1)`: the first `t` global indices of worldline `a`.
pub open spec fn mesh_indices(a: nat, points_per_line: nat, t: nat) -> Seq<char>
    decreases t,
{
    if t == 0 {
        Seq::empty()
    } else {
        mesh_indices(a, points_per_line, (t - 1) as nat) + seq![' '] + decimal_of(
            (a * points_per_line + (t - 1)) as nat,
        )
    }
}

/// The polylines of the first `k` worldlines.
pub open spec fn mesh_lines(k: nat, points_per_line: nat) -> Seq<char>
    decreases k,
{
    if k == 0 {
        Seq::empty()
    } else {
        mesh_lines((k - 1) as nat, points_per_line) + mesh_line((k - 1) as nat, points_per_line)
    }
}

/// The `LINES` section of the spacetime mesh: its header `LINES n n*(p+1)` and one
/// polyline per worldline.
pub open spec fn mesh_lines_section(anyon_count: nat, points_per_line: nat) -> Seq<char> {
    seq!['L', 'I', 'N', 'E', 'S', ' '] + decimal_of(anyon_count) + seq![' '] + decimal_of(
        anyon_count * (points_per_line + 1),
    ) + seq!['\n'] + mesh_lines(anyon_count, points_per_line)
}

/// The `LINES` section of the spacetime mesh of `anyon_count` worldlines of
/// `points_per_line` points each, as `mesh_lines_section` states.
pub fn mesh_lines_text(anyon_count: usize, points_per_line: usize) -> (s: String)
    requires
        points_per_line < usize::MAX,
        anyon_count * (points_per_line + 1) <= usize::MAX,
    ensures
        s@ == mesh_lines_section(anyon_count as nat, points_per_line as nat),
{
    let mut v: Vec<char> = Vec::new();
    v.push('L');
    v.push('I');
    v.push('N');
    v.push('E');
    v.push('S');
    v.push(' ');
    push_decimal(&mut v, anyon_count);
    v.push(' ');
    proof {
        assert(anyon_count * (points_per_line + 1) <= usize::MAX);
    }
    push_decimal(&mut v, anyon_count * (points_per_line + 1));
    v.push('\n');
    let ghost head = v@;
    assert(head =~= seq!['L', 'I', 'N', 'E', 'S', ' '] + decimal_of(anyon_count as nat) + seq![' ']
        + decimal_of((anyon_count * (points_per_line + 1)) as nat) + seq!['\n']);
    let mut a: usize = 0;
    while a < anyon_count
        invariant
            a <= anyon_count,
            anyon_count * (points_per_line + 1) <= usize::MAX,
            v@ == head + mesh_lines(a as nat, points_per_line as nat),
        decreases anyon_count - a,
    {
        let ghost before = v@;
        proof {
            assert(a * points_per_line + points_per_line <= anyon_count * (points_per_line + 1))
                by (nonlinear_arith)
                requires
                    a < anyon_count,
            ;
        }
        push_decimal(&mut v, points_per_line);
        let mut t: usize = 0;
        while t < points_per_line
            invariant
                t <= points_per_line,
                a < anyon_count,
                a * points_per_line + points_per_line <= usize::MAX,
                v@ == before + decimal_of(points_per_line as nat) + mesh_indices(
                    a as nat,
                    points_per_line as nat,
                    t as nat,
                ),
            decreases points_per_line - t,
        {
            v.push(' ');
            push_decimal(&mut v, a * points_per_line + t);
            t = t + 1;
            assert(v@ =~= before + decimal_of(points_per_line as nat) + mesh_indices(
                a as nat,
                points_per_line as nat,
                t as nat,
            ));
        }
        v.push('\n');
        a = a + 1;
        assert(v@ =~= head + mesh_lines(a as nat, points_per_line as nat));
    }
    string_from_chars(&v)
}

} // verus!
