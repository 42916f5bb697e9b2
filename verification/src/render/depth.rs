use vstd::prelude::*;

verus! {

// ---------------------------------------------------------------------------
// Depth buffer
// ---------------------------------------------------------------------------

/// What a depth buffer holds: its row width and one depth per screen cell.
pub struct ZBufferView<D> {
    pub width: nat,
    pub depths: Seq<D>,
}

/// One depth per screen cell; a cell is drawn only by the nearest surface seen so far.
/// The depth type is left to the caller, with the comparison that says which of two
/// depths is nearer.
pub struct ZBuffer<D> {
    depths: Vec<D>,
    width: usize,
}

impl<D> View for ZBuffer<D> {
    type V = ZBufferView<D>;

    closed spec fn view(&self) -> ZBufferView<D> {
        ZBufferView { width: self.width as nat, depths: self.depths@ }
    }
}

/// Fills a fresh vector with `n` copies of `value`.
fn filled<D: Copy>(value: D, n: usize) -> (v: Vec<D>)
    ensures
        v@ == Seq::new(n as nat, |i: int| value),
{
    let mut v: Vec<D> = Vec::new();
    let mut i: usize = 0;
    while i < n
        invariant
            i <= n,
            v@ == Seq::new(i as nat, |j: int| value),
        decreases n - i,
    {
        v.push(value);
        i = i + 1;
        assert(v@ =~= Seq::new(i as nat, |j: int| value));
    }
    v
}

impl<D: Copy> ZBuffer<D> {
    /// A depth buffer for a screen of `size.0` columns and `size.1` rows, every cell at
    /// the depth `far`.
    pub fn new(size: (u16, u16), far: D) -> (zb: Self)
        ensures
            zb@.width == size.0,
            zb@.depths == Seq::new(size.0 as nat * size.1 as nat, |i: int| far),
    {
        assert(size.0 as nat * size.1 as nat <= u32::MAX) by (nonlinear_arith)
            requires
                size.0 <= u16::MAX,
                size.1 <= u16::MAX,
        ;
        let n: usize = size.0 as usize * size.1 as usize;
        ZBuffer { depths: filled(far, n), width: size.0 as usize }
    }

    /// Refits the buffer to a screen of the given size, every cell back at depth `far`.
    pub fn resize(&mut self, size: (u16, u16), far: D)
        ensures
            final(self)@.width == size.0,
            final(self)@.depths == Seq::new(size.0 as nat * size.1 as nat, |i: int| far),
    {
        *self = ZBuffer::new(size, far);
    }

    /// Puts every cell back at depth `far`.
    pub fn reset(&mut self, far: D)
        ensures
            final(self)@.width == old(self)@.width,
            final(self)@.depths == Seq::new(old(self)@.depths.len(), |i: int| far),
    {
        let n = self.depths.len();
        let mut i: usize = 0;
        while i < n
            invariant
                i <= n,
                self.depths@.len() == n,
                self.width == old(self).width,
                forall|j: int| 0 <= j < i ==> self.depths@[j] == far,
            decreases n - i,
        {
            self.depths.set(i, far);
            i = i + 1;
        }
        assert(self.depths@ =~= Seq::new(n as nat, |i: int| far));
    }

    /// The number of cells.
    pub fn len(&self) -> (n: usize)
        ensures
            n == self@.depths.len(),
    {
        self.depths.len()
    }

    /// The depth of cell `idx`.
    pub fn depth(&self, idx: usize) -> (d: D)
        requires
            idx < self@.depths.len(),
        ensures
            d == self@.depths[idx as int],
    {
        self.depths[idx]
    }

    /// The depth test: when cell `idx` exists and `nearer(z, depth)` holds of its
    /// present depth, the cell takes the depth `z` and the answer is `true`; otherwise
    /// nothing changes and the answer is `false`.
    pub fn test_and_set_idx<F: Fn(D, D) -> bool>(&mut self, idx: usize, z: D, nearer: &F) -> (hit:
        bool)
        requires
            idx < old(self)@.depths.len() ==> call_requires(*nearer, (z, old(self)@.depths[idx as int])),
        ensures
            final(self)@.width == old(self)@.width,
            idx >= old(self)@.depths.len() ==> !hit && final(self)@.depths == old(self)@.depths,
            idx < old(self)@.depths.len() ==> call_ensures(
                *nearer,
                (z, old(self)@.depths[idx as int]),
                hit,
            ),
            hit ==> final(self)@.depths == old(self)@.depths.update(idx as int, z),
            !hit ==> final(self)@.depths == old(self)@.depths,
    {
        if idx >= self.depths.len() {
            return false;
        }
        let current = self.depths[idx];
        if nearer(z, current) {
            self.depths.set(idx, z);
            true
        } else {
            false
        }
    }
}



} // verus!
