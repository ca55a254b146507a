use vstd::prelude::*;

verus! {

/// An exchange of two anyons, written as the pair of their indices.
pub type Exchange = (usize, usize);

/// Two exchanges name the same pair of anyons, in either order.
pub open spec fn same_exchange(a: Exchange, b: Exchange) -> bool {
    (a.0 == b.0 && a.1 == b.1) || (a.0 == b.1 && a.1 == b.0)
}

/// The Artin generator an exchange stands for: its smaller anyon index.
pub open spec fn generator(a: Exchange) -> int {
    if a.0 <= a.1 {
        a.0 as int
    } else {
        a.1 as int
    }
}

/// Distance between the generators of two exchanges.
pub open spec fn generator_distance(a: Exchange, b: Exchange) -> int {
    let d = generator(a) - generator(b);
    if d >= 0 {
        d
    } else {
        -d
    }
}

/// One left-to-right sweep that drops every adjacent pair naming the same exchange;
/// the sweep resumes after each dropped pair.
pub open spec fn cancel_adjacent(s: Seq<Exchange>) -> Seq<Exchange>
    decreases s.len(),
{
    if s.len() < 2 {
        s
    } else if same_exchange(s[0], s[1]) {
        cancel_adjacent(s.subrange(2, s.len() as int))
    } else {
        seq![s[0]] + cancel_adjacent(s.subrange(1, s.len() as int))
    }
}

/// The sweep of `cancel_adjacent` drops at least one pair.
pub open spec fn cancels_somewhere(s: Seq<Exchange>) -> bool
    decreases s.len(),
{
    if s.len() < 2 {
        false
    } else if same_exchange(s[0], s[1]) {
        true
    } else {
        cancels_somewhere(s.subrange(1, s.len() as int))
    }
}

/// Far commutation applies at window `i`: the first two generators are at least two
/// apart and the third exchange repeats the first.
pub open spec fn commutes_at(s: Seq<Exchange>, i: int) -> bool {
    generator_distance(s[i], s[i + 1]) >= 2 && same_exchange(s[i], s[i + 2])
}

/// In-place sweep over windows `i, i+1, ...` swapping the first two exchanges wherever
/// far commutation applies; the flag records whether any swap happened.
pub open spec fn commute_sweep(s: Seq<Exchange>, i: int, changed: bool) -> (Seq<Exchange>, bool)
    decreases s.len() - i,
{
    if 0 <= i && i + 2 < s.len() {
        if commutes_at(s, i) {
            commute_sweep(s.update(i, s[i + 1]).update(i + 1, s[i]), i + 1, true)
        } else {
            commute_sweep(s, i + 1, changed)
        }
    } else {
        (s, changed)
    }
}

/// The Yang-Baxter relation applies at window `i`: the outer exchanges agree and the
/// middle generator is a neighbour of theirs.
pub open spec fn braid_relation_at(s: Seq<Exchange>, i: int) -> bool {
    same_exchange(s[i], s[i + 2]) && generator_distance(s[i], s[i + 1]) == 1
}

/// In-place sweep rewriting each matching window `(a, b, a')` to `(b, a, b)`.
pub open spec fn braid_relation_sweep(s: Seq<Exchange>, i: int, changed: bool) -> (
    Seq<Exchange>,
    bool,
)
    decreases s.len() - i,
{
    if 0 <= i && i + 2 < s.len() {
        if braid_relation_at(s, i) {
            braid_relation_sweep(
                s.update(i, s[i + 1]).update(i + 1, s[i]).update(i + 2, s[i + 1]),
                i + 1,
                true,
            )
        } else {
            braid_relation_sweep(s, i + 1, changed)
        }
    } else {
        (s, changed)
    }
}

/// Upper bound on the number of rewriting rounds.
pub const MAX_MINIMIZE_PASSES: usize = 100;

/// Rewriting rounds from round `passes` on: each round applies the cancellation sweep,
/// the commutation sweep and the braid-relation sweep, and another round follows while
/// one of them changed the word and fewer than `MAX_MINIMIZE_PASSES` rounds ran.
pub open spec fn minimize_from(s: Seq<Exchange>, passes: int) -> Seq<Exchange>
    decreases MAX_MINIMIZE_PASSES - passes,
{
    if passes >= MAX_MINIMIZE_PASSES {
        s
    } else {
        let s1 = cancel_adjacent(s);
        let c1 = cancels_somewhere(s);
        let r2 = commute_sweep(s1, 0, false);
        let r3 = braid_relation_sweep(r2.0, 0, false);
        if c1 || r2.1 || r3.1 {
            minimize_from(r3.0, passes + 1)
        } else {
            r3.0
        }
    }
}

/// The word that braid-word minimization produces.
pub open spec fn minimized_word(s: Seq<Exchange>) -> Seq<Exchange> {
    minimize_from(s, 0)
}

fn same_exchange_exec(a: Exchange, b: Exchange) -> (r: bool)
    ensures
        r == same_exchange(a, b),
{
    (a.0 == b.0 && a.1 == b.1) || (a.0 == b.1 && a.1 == b.0)
}

fn generator_exec(a: Exchange) -> (g: usize)
    ensures
        g == generator(a),
{
    if a.0 <= a.1 {
        a.0
    } else {
        a.1
    }
}

fn generator_distance_exec(a: Exchange, b: Exchange) -> (d: usize)
    ensures
        d == generator_distance(a, b),
{
    let ga = generator_exec(a);
    let gb = generator_exec(b);
    if ga > gb {
        ga - gb
    } else {
        gb - ga
    }
}

/// The cancellation sweep, with whether it dropped anything.
pub fn cancel_adjacent_exec(s: &Vec<Exchange>) -> (r: (Vec<Exchange>, bool))
    ensures
        r.0@ == cancel_adjacent(s@),
        r.1 == cancels_somewhere(s@),
{
    let n = s.len();
    let mut out: Vec<Exchange> = Vec::new();
    let mut changed = false;
    let mut read: usize = 0;
    assert(s@.subrange(0, n as int) == s@);
    while read < n
        invariant
            n == s@.len(),
            read <= n,
            out@ + cancel_adjacent(s@.subrange(read as int, n as int)) == cancel_adjacent(s@),
            cancels_somewhere(s@) == (changed || cancels_somewhere(
                s@.subrange(read as int, n as int),
            )),
        decreases n - read,
    {
        let ghost rest = s@.subrange(read as int, n as int);
        if read + 1 < n && same_exchange_exec(s[read], s[read + 1]) {
            proof {
                assert(rest.subrange(2, rest.len() as int) == s@.subrange(
                    read + 2,
                    n as int,
                ));
            }
            read = read + 2;
            changed = true;
        } else {
            proof {
                assert(rest.subrange(1, rest.len() as int) == s@.subrange(
                    read + 1,
                    n as int,
                ));
                if rest.len() < 2 {
                    assert(s@.subrange(read + 1, n as int).len() == 0);
                    assert(rest == seq![rest[0]]);
                }
            }
            out.push(s[read]);
            read = read + 1;
            proof {
                assert(out@ + cancel_adjacent(s@.subrange(read as int, n as int)) == (out@.drop_last() + seq![rest[0]]) + cancel_adjacent(s@.subrange(read as int, n as int)));
            }
        }
    }
    assert(s@.subrange(n as int, n as int).len() == 0);
    (out, changed)
}

/// The commutation sweep, in place, with whether it swapped anything.
pub fn commute_sweep_exec(s: &mut Vec<Exchange>) -> (changed: bool)
    ensures
        (final(s)@, changed) == commute_sweep(old(s)@, 0, false),
{
    let n = s.len();
    let mut changed = false;
    let mut i: usize = 0;
    while n >= 2 && i < n - 2
        invariant
            n == s@.len(),
            i <= n,
            commute_sweep(s@, i as int, changed) == commute_sweep(old(s)@, 0, false),
        decreases n - i,
    {
        let a = s[i];
        let b = s[i + 1];
        if generator_distance_exec(a, b) >= 2 {
            let c = s[i + 2];
            if same_exchange_exec(a, c) {
                s.set(i, b);
                s.set(i + 1, a);
                changed = true;
            }
        }
        i = i + 1;
    }
    changed
}

/// The braid-relation sweep, in place, with whether it rewrote anything.
pub fn braid_relation_sweep_exec(s: &mut Vec<Exchange>) -> (changed: bool)
    ensures
        (final(s)@, changed) == braid_relation_sweep(old(s)@, 0, false),
{
    let n = s.len();
    let mut changed = false;
    let mut i: usize = 0;
    while n >= 2 && i < n - 2
        invariant
            n == s@.len(),
            i <= n,
            braid_relation_sweep(s@, i as int, changed) == braid_relation_sweep(
                old(s)@,
                0,
                false,
            ),
        decreases n - i,
    {
        let a = s[i];
        let b = s[i + 1];
        let c = s[i + 2];
        if same_exchange_exec(a, c) && generator_distance_exec(a, b) == 1 {
            s.set(i, b);
            s.set(i + 1, a);
            s.set(i + 2, b);
            changed = true;
        }
        i = i + 1;
    }
    changed
}

/// Braid-word minimization: rewriting rounds until a round changes nothing or
/// `MAX_MINIMIZE_PASSES` rounds ran.
pub fn minimize_exec(s: Vec<Exchange>) -> (r: Vec<Exchange>)
    ensures
        r@ == minimized_word(s@),
{
    let mut cur = s;
    let mut changed = true;
    let mut passes: usize = 0;
    while changed && passes < MAX_MINIMIZE_PASSES
        invariant
            passes <= MAX_MINIMIZE_PASSES,
            changed ==> minimize_from(cur@, passes as int) == minimized_word(s@),
            !changed ==> cur@ == minimized_word(s@),
        decreases MAX_MINIMIZE_PASSES - passes,
    {
        let ghost before = cur@;
        let (s1, c1) = cancel_adjacent_exec(&cur);
        cur = s1;
        let c2 = commute_sweep_exec(&mut cur);
        let c3 = braid_relation_sweep_exec(&mut cur);
        changed = c1 || c2 || c3;
        passes = passes + 1;
        proof {
            if !changed {
                assert(minimize_from(before, (passes - 1) as int) == cur@);
            }
        }
    }
    cur
}

/// Every exchange of `t` occurs in `s`.
pub open spec fn drawn_from(t: Seq<Exchange>, s: Seq<Exchange>) -> bool {
    forall|k: int| 0 <= k < t.len() ==> s.contains(#[trigger] t[k])
}

proof fn lemma_cancel_adjacent(s: Seq<Exchange>)
    ensures
        cancel_adjacent(s).len() <= s.len(),
        drawn_from(cancel_adjacent(s), s),
        !cancels_somewhere(s) ==> cancel_adjacent(s) == s,
    decreases s.len(),
{
    if s.len() < 2 {
        assert forall|k: int| 0 <= k < s.len() implies s.contains(#[trigger] s[k]) by {}
    } else {
        let r = s.subrange(if same_exchange(s[0], s[1]) { 2 } else { 1 }, s.len() as int);
        lemma_cancel_adjacent(r);
        let c = cancel_adjacent(r);
        assert forall|k: int| 0 <= k < c.len() implies s.contains(#[trigger] c[k]) by {
            let j = choose|j: int| 0 <= j < r.len() && r[j] == c[k];
            assert(s[j + s.len() - r.len()] == c[k]);
        }
        if !same_exchange(s[0], s[1]) {
            let t = cancel_adjacent(s);
            assert(t == seq![s[0]] + c);
            assert forall|k: int| 0 <= k < t.len() implies s.contains(#[trigger] t[k]) by {
                if k == 0 {
                    assert(s[0] == t[k]);
                } else {
                    assert(t[k] == c[k - 1]);
                }
            }
            if !cancels_somewhere(s) {
                assert(s == seq![s[0]] + r);
            }
        }
    }
}

proof fn lemma_commute_sweep(s: Seq<Exchange>, i: int, changed: bool)
    requires
        0 <= i,
    ensures
        commute_sweep(s, i, changed).0.len() == s.len(),
        drawn_from(commute_sweep(s, i, changed).0, s),
        !changed && (forall|j: int| i <= j && j + 2 < s.len() ==> !#[trigger] commutes_at(s, j))
            ==> commute_sweep(s, i, changed) == (s, false),
    decreases s.len() - i,
{
    if i + 2 < s.len() {
        if commutes_at(s, i) {
            let t = s.update(i, s[i + 1]).update(i + 1, s[i]);
            lemma_commute_sweep(t, i + 1, true);
            let r = commute_sweep(t, i + 1, true).0;
            assert forall|k: int| 0 <= k < r.len() implies s.contains(#[trigger] r[k]) by {
                assert(t.contains(r[k]));
                let j = choose|j: int| 0 <= j < t.len() && t[j] == r[k];
                if j == i {
                    assert(s[i + 1] == r[k]);
                } else if j == i + 1 {
                    assert(s[i] == r[k]);
                } else {
                    assert(s[j] == r[k]);
                }
            }
        } else {
            lemma_commute_sweep(s, i + 1, changed);
        }
    } else {
        assert forall|k: int| 0 <= k < s.len() implies s.contains(#[trigger] s[k]) by {}
    }
}

proof fn lemma_braid_relation_sweep(s: Seq<Exchange>, i: int, changed: bool)
    requires
        0 <= i,
    ensures
        braid_relation_sweep(s, i, changed).0.len() == s.len(),
        drawn_from(braid_relation_sweep(s, i, changed).0, s),
        !changed && (forall|j: int| i <= j && j + 2 < s.len() ==> !#[trigger] braid_relation_at(s, j))
            ==> braid_relation_sweep(s, i, changed) == (s, false),
    decreases s.len() - i,
{
    if i + 2 < s.len() {
        if braid_relation_at(s, i) {
            let t = s.update(i, s[i + 1]).update(i + 1, s[i]).update(i + 2, s[i + 1]);
            lemma_braid_relation_sweep(t, i + 1, true);
            let r = braid_relation_sweep(t, i + 1, true).0;
            assert forall|k: int| 0 <= k < r.len() implies s.contains(#[trigger] r[k]) by {
                assert(t.contains(r[k]));
                let j = choose|j: int| 0 <= j < t.len() && t[j] == r[k];
                if j == i || j == i + 2 {
                    assert(s[i + 1] == r[k]);
                } else if j == i + 1 {
                    assert(s[i] == r[k]);
                } else {
                    assert(s[j] == r[k]);
                }
            }
        } else {
            lemma_braid_relation_sweep(s, i + 1, changed);
        }
    } else {
        assert forall|k: int| 0 <= k < s.len() implies s.contains(#[trigger] s[k]) by {}
    }
}

proof fn lemma_drawn_from_trans(a: Seq<Exchange>, b: Seq<Exchange>, c: Seq<Exchange>)
    requires
        drawn_from(a, b),
        drawn_from(b, c),
    ensures
        drawn_from(a, c),
{
    assert forall|k: int| 0 <= k < a.len() implies c.contains(#[trigger] a[k]) by {
        assert(b.contains(a[k]));
        let j = choose|j: int| 0 <= j < b.len() && b[j] == a[k];
        assert(c.contains(b[j]));
    }
}

proof fn lemma_minimize_from(s: Seq<Exchange>, passes: int)
    ensures
        minimize_from(s, passes).len() <= s.len(),
        drawn_from(minimize_from(s, passes), s),
    decreases MAX_MINIMIZE_PASSES - passes,
{
    if passes >= MAX_MINIMIZE_PASSES {
        assert forall|k: int| 0 <= k < s.len() implies s.contains(#[trigger] s[k]) by {}
    } else {
        let s1 = cancel_adjacent(s);
        let r2 = commute_sweep(s1, 0, false);
        let r3 = braid_relation_sweep(r2.0, 0, false);
        lemma_cancel_adjacent(s);
        lemma_commute_sweep(s1, 0, false);
        lemma_braid_relation_sweep(r2.0, 0, false);
        lemma_drawn_from_trans(r2.0, s1, s);
        lemma_drawn_from_trans(r3.0, r2.0, s);
        if cancels_somewhere(s) || r2.1 || r3.1 {
            lemma_minimize_from(r3.0, passes + 1);
            lemma_drawn_from_trans(minimize_from(r3.0, passes + 1), r3.0, s);
        }
    }
}

/// Minimization never lengthens a braid word.
pub proof fn law_minimize_never_lengthens(s: Seq<Exchange>)
    ensures
        minimized_word(s).len() <= s.len(),
{
    lemma_minimize_from(s, 0);
}

/// Minimization only reorders, drops or repeats exchanges that the word already holds:
/// every exchange of the result occurs in the input.
pub proof fn law_minimize_uses_input_exchanges(s: Seq<Exchange>)
    ensures
        drawn_from(minimized_word(s), s),
{
    lemma_minimize_from(s, 0);
}

/// A word on which no cancellation, far commutation or braid relation applies is
/// already minimal: minimization returns it unchanged.
pub proof fn law_minimize_fixes_reduced_words(s: Seq<Exchange>)
    requires
        forall|j: int| 0 <= j && j + 1 < s.len() ==> !same_exchange(#[trigger] s[j], s[j + 1]),
        forall|j: int| 0 <= j && j + 2 < s.len() ==> !#[trigger] commutes_at(s, j),
        forall|j: int| 0 <= j && j + 2 < s.len() ==> !#[trigger] braid_relation_at(s, j),
    ensures
        minimized_word(s) == s,
{
    lemma_no_cancellation(s, 0);
    assert(s.subrange(0, s.len() as int) == s);
    lemma_cancel_adjacent(s);
    assert(cancel_adjacent(s) == s);
    lemma_commute_sweep(s, 0, false);
    assert(commute_sweep(s, 0, false) == (s, false));
    lemma_braid_relation_sweep(s, 0, false);
    assert(braid_relation_sweep(s, 0, false) == (s, false));
    assert(minimize_from(s, 0) == s);
}

proof fn lemma_no_cancellation(s: Seq<Exchange>, from: int)
    requires
        0 <= from <= s.len(),
        forall|j: int| 0 <= j && j + 1 < s.len() ==> !same_exchange(#[trigger] s[j], s[j + 1]),
    ensures
        !cancels_somewhere(s.subrange(from, s.len() as int)),
    decreases s.len() - from,
{
    let r = s.subrange(from, s.len() as int);
    if r.len() >= 2 {
        assert(r[0] == s[from] && r[1] == s[from + 1]);
        lemma_no_cancellation(s, from + 1);
        assert(r.subrange(1, r.len() as int) == s.subrange(from + 1, s.len() as int));
    }
}

/// One rewriting round: the cancellation sweep, then the far-commutation sweep, then the
/// braid-relation sweep; with whether any of the three rewrote the word.
pub open spec fn rewrite_round(s: Seq<Exchange>) -> (Seq<Exchange>, bool) {
    let s1 = cancel_adjacent(s);
    let r2 = commute_sweep(s1, 0, false);
    let r3 = braid_relation_sweep(r2.0, 0, false);
    (r3.0, cancels_somewhere(s) || r2.1 || r3.1)
}

/// The word after `n` rewriting rounds.
pub open spec fn rewrite_rounds(s: Seq<Exchange>, n: nat) -> Seq<Exchange>
    decreases n,
{
    if n == 0 {
        s
    } else {
        rewrite_rounds(rewrite_round(s).0, (n - 1) as nat)
    }
}

/// No rewrite applies to the word: no adjacent pair names the same exchange, and no
/// window admits far commutation or the braid relation.
pub open spec fn is_reduced(s: Seq<Exchange>) -> bool {
    &&& forall|j: int| 0 <= j && j + 1 < s.len() ==> !same_exchange(#[trigger] s[j], s[j + 1])
    &&& forall|j: int| 0 <= j && j + 2 < s.len() ==> !#[trigger] commutes_at(s, j)
    &&& forall|j: int| 0 <= j && j + 2 < s.len() ==> !#[trigger] braid_relation_at(s, j)
}

proof fn lemma_no_cancel_no_pair(s: Seq<Exchange>)
    requires
        !cancels_somewhere(s),
    ensures
        forall|j: int| 0 <= j && j + 1 < s.len() ==> !same_exchange(#[trigger] s[j], s[j + 1]),
    decreases s.len(),
{
    if s.len() >= 2 {
        let t = s.subrange(1, s.len() as int);
        lemma_no_cancel_no_pair(t);
        assert forall|j: int| 0 <= j && j + 1 < s.len() implies !same_exchange(#[trigger] s[j], s[j + 1]) by {
            if j > 0 {
                assert(t[j - 1] == s[j] && t[j] == s[j + 1]);
            }
        }
    }
}

proof fn lemma_commute_flag(s: Seq<Exchange>, i: int, changed: bool)
    requires
        0 <= i,
    ensures
        changed ==> commute_sweep(s, i, changed).1,
        !commute_sweep(s, i, changed).1 ==> commute_sweep(s, i, changed).0 == s && forall|j: int|
            i <= j && j + 2 < s.len() ==> !#[trigger] commutes_at(s, j),
    decreases s.len() - i,
{
    if i + 2 < s.len() {
        if commutes_at(s, i) {
            let t = s.update(i, s[i + 1]).update(i + 1, s[i]);
            lemma_commute_flag(t, i + 1, true);
        } else {
            lemma_commute_flag(s, i + 1, changed);
        }
    }
}

proof fn lemma_braid_flag(s: Seq<Exchange>, i: int, changed: bool)
    requires
        0 <= i,
    ensures
        changed ==> braid_relation_sweep(s, i, changed).1,
        !braid_relation_sweep(s, i, changed).1 ==> braid_relation_sweep(s, i, changed).0 == s
            && forall|j: int| i <= j && j + 2 < s.len() ==> !#[trigger] braid_relation_at(s, j),
    decreases s.len() - i,
{
    if i + 2 < s.len() {
        if braid_relation_at(s, i) {
            let t = s.update(i, s[i + 1]).update(i + 1, s[i]).update(i + 2, s[i + 1]);
            lemma_braid_flag(t, i + 1, true);
        } else {
            lemma_braid_flag(s, i + 1, changed);
        }
    }
}

proof fn lemma_quiet_round(s: Seq<Exchange>)
    requires
        !rewrite_round(s).1,
    ensures
        rewrite_round(s).0 == s,
        is_reduced(s),
{
    lemma_cancel_adjacent(s);
    lemma_no_cancel_no_pair(s);
    let s1 = cancel_adjacent(s);
    lemma_commute_flag(s1, 0, false);
    let r2 = commute_sweep(s1, 0, false);
    lemma_braid_flag(r2.0, 0, false);
}

proof fn lemma_rounds_of_quiet_word(s: Seq<Exchange>, n: nat)
    requires
        !rewrite_round(s).1,
    ensures
        rewrite_rounds(s, n) == s,
    decreases n,
{
    lemma_quiet_round(s);
    if n > 0 {
        lemma_rounds_of_quiet_word(s, (n - 1) as nat);
    }
}

proof fn lemma_minimize_from_rounds(s: Seq<Exchange>, passes: int)
    requires
        0 <= passes <= MAX_MINIMIZE_PASSES,
    ensures
        minimize_from(s, passes) == rewrite_rounds(s, (MAX_MINIMIZE_PASSES - passes) as nat),
        is_reduced(minimize_from(s, passes)) || forall|k: nat|
            k < MAX_MINIMIZE_PASSES - passes ==> #[trigger] rewrite_round(rewrite_rounds(s, k)).1,
    decreases MAX_MINIMIZE_PASSES - passes,
{
    if passes < MAX_MINIMIZE_PASSES {
        let r = rewrite_round(s);
        if r.1 {
            lemma_minimize_from_rounds(r.0, passes + 1);
            let n = (MAX_MINIMIZE_PASSES - passes) as nat;
            assert(rewrite_rounds(s, n) == rewrite_rounds(r.0, (n - 1) as nat));
            if !is_reduced(minimize_from(s, passes)) {
                assert forall|k: nat| k < n implies #[trigger] rewrite_round(rewrite_rounds(s, k)).1 by {
                    if k > 0 {
                        assert(rewrite_rounds(s, k) == rewrite_rounds(r.0, (k - 1) as nat));
                        assert(rewrite_round(rewrite_rounds(r.0, (k - 1) as nat)).1);
                    }
                }
            }
        } else {
            lemma_quiet_round(s);
            lemma_rounds_of_quiet_word(s, (MAX_MINIMIZE_PASSES - passes) as nat);
        }
    }
}

/// Minimization is `MAX_MINIMIZE_PASSES` rewriting rounds applied in turn: stopping early,
/// once a round rewrites nothing, gives the same word, since every further round would
/// leave it as it is.
pub proof fn law_minimize_runs_every_round(s: Seq<Exchange>)
    ensures
        minimized_word(s) == rewrite_rounds(s, MAX_MINIMIZE_PASSES as nat),
{
    lemma_minimize_from_rounds(s, 0);
}

/// The minimized word is reduced (no adjacent pair names the same exchange, and no far
/// commutation or braid relation applies), unless every one of the `MAX_MINIMIZE_PASSES`
/// rounds still rewrote the word.
pub proof fn law_minimized_word_is_reduced(s: Seq<Exchange>)
    ensures
        is_reduced(minimized_word(s)) || forall|k: nat|
            k < MAX_MINIMIZE_PASSES ==> #[trigger] rewrite_round(rewrite_rounds(s, k)).1,
{
    lemma_minimize_from_rounds(s, 0);
}

} // verus!
