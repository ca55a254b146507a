use vstd::prelude::*;

verus! {

/// Largest number of points a worldline records.
pub const WORLDLINE_DEPTH: usize = 128;

/// The recorded trajectory of one anyon: at most `WORLDLINE_DEPTH` points, oldest first.
pub struct AnyonWorldline<P: Copy> {
    id: usize,
    history: Vec<P>,
    origin: P,
}

impl<P: Copy> AnyonWorldline<P> {
    #[verifier::type_invariant]
    spec fn bounded(self) -> bool {
        self.history.len() <= WORLDLINE_DEPTH
    }

    /// The anyon this worldline belongs to.
    pub closed spec fn anyon(&self) -> usize {
        self.id
    }

    /// The recorded points, oldest first.
    pub closed spec fn points(&self) -> Seq<P> {
        self.history@
    }

    /// Where the anyon stands before anything is recorded.
    pub closed spec fn start(&self) -> P {
        self.origin
    }

    /// An empty worldline for anyon `id`, reporting `origin` until a point is recorded.
    pub fn zeroed(id: usize, origin: P) -> (w: Self)
        ensures
            w.anyon() == id,
            w.points() == Seq::<P>::empty(),
            w.start() == origin,
    {
        AnyonWorldline { id, history: Vec::new(), origin }
    }

    /// Records a point; a full worldline keeps its points unchanged.
    pub fn push(&mut self, coord: P)
        ensures
            final(self).anyon() == old(self).anyon(),
            final(self).start() == old(self).start(),
            old(self).points().len() < WORLDLINE_DEPTH ==> final(self).points() == old(
                self,
            ).points().push(coord),
            old(self).points().len() >= WORLDLINE_DEPTH ==> final(self).points() == old(
                self,
            ).points(),
    {
        proof { use_type_invariant(&*self); }
        if self.history.len() < WORLDLINE_DEPTH {
            let mut h = Vec::new();
            std::mem::swap(&mut h, &mut self.history);
            h.push(coord);
            self.history = h;
        }
    }

    /// The latest recorded point, or the origin when none is recorded.
    pub fn current(&self) -> (c: P)
        ensures
            self.points().len() == 0 ==> c == self.start(),
            self.points().len() > 0 ==> c == self.points().last(),
    {
        if self.history.len() == 0 {
            self.origin
        } else {
            self.history[self.history.len() - 1]
        }
    }

    /// The anyon this worldline belongs to.
    pub fn id(&self) -> (i: usize)
        ensures
            i == self.anyon(),
    {
        self.id
    }

    /// Number of recorded points.
    pub fn head_idx(&self) -> (n: usize)
        ensures
            n == self.points().len(),
            n <= WORLDLINE_DEPTH,
    {
        proof { use_type_invariant(self); }
        self.history.len()
    }

    /// The recorded points, oldest first.
    pub fn history(&self) -> (h: Vec<P>)
        ensures
            h@ == self.points(),
    {
        let mut h: Vec<P> = Vec::new();
        let mut i: usize = 0;
        while i < self.history.len()
            invariant
                i <= self.history@.len(),
                h@ == self.history@.subrange(0, i as int),
            decreases self.history.len() - i,
        {
            h.push(self.history[i]);
            i = i + 1;
        }
        h
    }
}

} // verus!
