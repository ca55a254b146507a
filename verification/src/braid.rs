use vstd::prelude::*;

use crate::error::SimError;

verus! {

/// Largest number of exchanges a braid word may hold.
pub const MAX_SK_STEPS: usize = 64;

/// A braid word: a bounded sequence of anyon exchanges `(a, b)`.
pub struct BraidSequence {
    braids: Vec<(usize, usize)>,
}

impl View for BraidSequence {
    type V = Seq<(usize, usize)>;

    closed spec fn view(&self) -> Seq<(usize, usize)> {
        self.braids@
    }
}

impl BraidSequence {
    #[verifier::type_invariant]
    spec fn bounded(self) -> bool {
        self.braids.len() <= MAX_SK_STEPS
    }

    /// The empty braid word.
    pub fn new() -> (s: Self)
        ensures
            s@ == Seq::<(usize, usize)>::empty(),
    {
        BraidSequence { braids: Vec::new() }
    }

    /// Number of exchanges in the word.
    pub fn get_len(&self) -> (n: usize)
        ensures
            n == self@.len(),
            n <= MAX_SK_STEPS,
    {
        proof { use_type_invariant(self); }
        self.braids.len()
    }

    /// The exchanges of the word, in order.
    pub fn to_vec(&self) -> (v: Vec<(usize, usize)>)
        ensures
            v@ == self@,
            v@.len() <= MAX_SK_STEPS,
    {
        proof { use_type_invariant(self); }
        let mut v: Vec<(usize, usize)> = Vec::new();
        let mut i: usize = 0;
        while i < self.braids.len()
            invariant
                i <= self.braids@.len(),
                v@ == self.braids@.subrange(0, i as int),
            decreases self.braids.len() - i,
        {
            v.push(self.braids[i]);
            i = i + 1;
        }
        v
    }

    /// The word holding `braids`, which must fit.
    pub fn from_vec(braids: Vec<(usize, usize)>) -> (s: Self)
        requires
            braids@.len() <= MAX_SK_STEPS,
        ensures
            s@ == braids@,
    {
        BraidSequence { braids }
    }

    /// The exchange at position `idx`, or an error past the end of the word.
    pub fn get_braid(&self, idx: usize) -> (r: Result<(usize, usize), SimError>)
        ensures
            idx < self@.len() ==> r == Ok::<(usize, usize), SimError>(self@[idx as int]),
            idx >= self@.len() ==> r == Err::<(usize, usize), SimError>(
                SimError::BraidIndexOutOfRange,
            ),
    {
        if idx >= self.braids.len() {
            return Err(SimError::BraidIndexOutOfRange);
        }
        Ok(self.braids[idx])
    }

    /// Appends one exchange; refused (returning `false`, word unchanged) when full.
    pub fn push(&mut self, swap: (usize, usize)) -> (pushed: bool)
        ensures
            pushed == (old(self)@.len() < MAX_SK_STEPS),
            pushed ==> final(self)@ == old(self)@.push(swap),
            !pushed ==> final(self)@ == old(self)@,
    {
        proof { use_type_invariant(&*self); }
        if self.braids.len() < MAX_SK_STEPS {
            let mut braids = Vec::new();
            std::mem::swap(&mut braids, &mut self.braids);
            braids.push(swap);
            self.braids = braids;
            true
        } else {
            false
        }
    }

    /// Empties the word.
    pub fn clear(&mut self)
        ensures
            final(self)@ == Seq::<(usize, usize)>::empty(),
    {
        self.braids = Vec::new();
    }

    /// Appends `other` in order when the result fits; otherwise leaves the word unchanged.
    pub fn append(&mut self, other: &BraidSequence) -> (ok: bool)
        ensures
            ok == (old(self)@.len() + other@.len() <= MAX_SK_STEPS),
            ok ==> final(self)@ == old(self)@ + other@,
            !ok ==> final(self)@ == old(self)@,
    {
        proof {
            use_type_invariant(&*self);
            use_type_invariant(other);
        }
        if self.braids.len() + other.braids.len() <= MAX_SK_STEPS {
            let mut braids = Vec::new();
            std::mem::swap(&mut braids, &mut self.braids);
            let ghost start = braids@;
            let mut i: usize = 0;
            while i < other.braids.len()
                invariant
                    i <= other.braids.len(),
                    start == old(self)@,
                    braids@ == start + other.braids@.subrange(0, i as int),
                decreases other.braids.len() - i,
            {
                braids.push(other.braids[i]);
                i = i + 1;
                proof {
                    assert(other.braids@.subrange(0, i as int) == other.braids@.subrange(
                        0,
                        (i - 1) as int,
                    ).push(other.braids@[i - 1]));
                }
            }
            assert(other.braids@.subrange(0, other.braids@.len() as int) == other.braids@);
            self.braids = braids;
            true
        } else {
            false
        }
    }

    /// Appends `other` in reverse order when the result fits; otherwise leaves the word
    /// unchanged.
    pub fn append_inverse(&mut self, other: &BraidSequence) -> (ok: bool)
        ensures
            ok == (old(self)@.len() + other@.len() <= MAX_SK_STEPS),
            ok ==> final(self)@ == old(self)@ + other@.reverse(),
            !ok ==> final(self)@ == old(self)@,
    {
        proof {
            use_type_invariant(&*self);
            use_type_invariant(other);
        }
        if self.braids.len() + other.braids.len() <= MAX_SK_STEPS {
            let mut braids = Vec::new();
            std::mem::swap(&mut braids, &mut self.braids);
            let ghost start = braids@;
            let n = other.braids.len();
            let mut i: usize = n;
            while i > 0
                invariant
                    i <= n,
                    n == other.braids@.len(),
                    start == old(self)@,
                    braids@ == start + other.braids@.subrange(i as int, n as int).reverse(),
                decreases i,
            {
                i = i - 1;
                braids.push(other.braids[i]);
                proof {
                    let o = other.braids@;
                    assert(o.subrange(i as int, n as int).reverse() == o.subrange(
                        (i + 1) as int,
                        n as int,
                    ).reverse().push(o[i as int]));
                }
            }
            assert(other.braids@.subrange(0, n as int) == other.braids@);
            self.braids = braids;
            true
        } else {
            false
        }
    }
}

/// A word after appending `other` when the result fits in `MAX_SK_STEPS` exchanges;
/// otherwise the word unchanged.
pub open spec fn append_if_fits(word: Seq<(usize, usize)>, other: Seq<(usize, usize)>) -> Seq<
    (usize, usize),
> {
    if word.len() + other.len() <= MAX_SK_STEPS {
        word + other
    } else {
        word
    }
}

/// The word of one Solovay-Kitaev refinement: `v`, `w`, `v` reversed, `w` reversed and
/// then the previous approximation, each part kept only when it still fits.
pub open spec fn commutator_word(
    v: Seq<(usize, usize)>,
    w: Seq<(usize, usize)>,
    prev: Seq<(usize, usize)>,
) -> Seq<(usize, usize)> {
    append_if_fits(
        append_if_fits(
            append_if_fits(append_if_fits(append_if_fits(Seq::empty(), v), w), v.reverse()),
            w.reverse(),
        ),
        prev,
    )
}

/// Assembles the word of one Solovay-Kitaev refinement from the words of the balanced
/// group commutator's factors and the previous approximation, as `commutator_word`
/// states.
pub fn commutator_sequence(v: &BraidSequence, w: &BraidSequence, prev: &BraidSequence) -> (r:
    BraidSequence)
    ensures
        r@ == commutator_word(v@, w@, prev@),
{
    let mut r = BraidSequence::new();
    r.append(v);
    r.append(w);
    r.append_inverse(v);
    r.append_inverse(w);
    r.append(prev);
    r
}

} // verus!
