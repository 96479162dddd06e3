//! Two-dimensional ground-truth grid world of obstacle cells.
use vstd::prelude::*;

verus! {

/// A 2D grid world; cell size is interpreted by the caller's resolution.
pub struct World {
    width: usize,
    height: usize,
    /// Row-major occupancy.
    occ: Vec<bool>,
}

/// The number of `false` entries of `s`.
pub open spec fn count_free(s: Seq<bool>) -> nat
    decreases s.len(),
{
    if s.len() == 0 {
        0
    } else {
        count_free(s.drop_last()) + if s.last() {
            0nat
        } else {
            1nat
        }
    }
}

/// Marking one entry blocked frees one cell fewer exactly when it was free.
proof fn lemma_count_free_update(s: Seq<bool>, i: int)
    requires
        0 <= i < s.len(),
    ensures
        count_free(s.update(i, true)) == count_free(s) - (if s[i] {
            0int
        } else {
            1int
        }),
    decreases s.len(),
{
    let t = s.update(i, true);
    if i == s.len() - 1 {
        assert(t.drop_last() =~= s.drop_last());
    } else {
        assert(t.drop_last() =~= s.drop_last().update(i, true));
        lemma_count_free_update(s.drop_last(), i);
    }
}

proof fn lemma_index_in_bounds(x: int, y: int, w: int, h: int)
    by (nonlinear_arith)
    requires
        0 <= x < w,
        0 <= y < h,
    ensures
        0 <= y * w + x < w * h,
{
}

proof fn lemma_index_injective(x1: int, y1: int, x2: int, y2: int, w: int)
    by (nonlinear_arith)
    requires
        0 <= x1 < w,
        0 <= x2 < w,
        0 <= y1,
        0 <= y2,
        y1 * w + x1 == y2 * w + x2,
    ensures
        x1 == x2 && y1 == y2,
{
    if y1 < y2 {
        assert(y1 * w + w <= y2 * w);
    } else if y2 < y1 {
        assert(y2 * w + w <= y1 * w);
    }
}

impl World {
    /// Well-formedness: one occupancy entry per cell.
    #[verifier::type_invariant]
    pub closed spec fn wf(&self) -> bool {
        &&& self.occ@.len() == self.width * self.height
        &&& self.width * self.height <= usize::MAX
    }

    pub closed spec fn spec_width(&self) -> int {
        self.width as int
    }

    pub closed spec fn spec_height(&self) -> int {
        self.height as int
    }

    /// Whether `(x, y)` is a cell of the world.
    pub open spec fn spec_in_bounds(&self, x: int, y: int) -> bool {
        0 <= x < self.spec_width() && 0 <= y < self.spec_height()
    }

    /// Whether cell `(x, y)` (inside the world) holds an obstacle.
    pub closed spec fn cell(&self, x: int, y: int) -> bool {
        self.occ@[y * self.width + x]
    }

    /// Whether `(x, y)` is blocked: an obstacle cell, or outside the world.
    pub open spec fn blocked(&self, x: int, y: int) -> bool {
        !self.spec_in_bounds(x, y) || self.cell(x, y)
    }

    /// Number of obstacle-free cells.
    pub closed spec fn spec_free_cells(&self) -> nat {
        count_free(self.occ@)
    }

    /// An empty world of `width` x `height` cells.
    pub fn new(width: usize, height: usize) -> (w: Self)
        requires
            width * height <= usize::MAX,
        ensures
            w.wf(),
            w.spec_width() == width,
            w.spec_height() == height,
            forall|x: int, y: int| w.spec_in_bounds(x, y) ==> !#[trigger] w.cell(x, y),
            w.spec_free_cells() == width * height,
    {
        let n = width * height;
        let mut occ: Vec<bool> = Vec::new();
        let mut i: usize = 0;
        while i < n
            invariant
                i <= n,
                occ@.len() == i,
                forall|j: int| 0 <= j < i ==> !#[trigger] occ@[j],
                count_free(occ@) == i,
            decreases n - i,
        {
            proof {
                assert(occ@.push(false).drop_last() == occ@);
            }
            occ.push(false);
            i = i + 1;
        }
        let w = World { width, height, occ };
        assert forall|x: int, y: int| w.spec_in_bounds(x, y) implies !#[trigger] w.cell(x, y) by {
            lemma_index_in_bounds(x, y, width as int, height as int);
        }
        w
    }

    pub fn width(&self) -> (r: usize)
        ensures
            r == self.spec_width(),
    {
        self.width
    }

    pub fn height(&self) -> (r: usize)
        ensures
            r == self.spec_height(),
    {
        self.height
    }

    /// Whether `(x, y)` is a cell of the world.
    pub fn in_bounds(&self, x: i32, y: i32) -> (b: bool)
        ensures
            b == self.spec_in_bounds(x as int, y as int),
    {
        x >= 0 && y >= 0 && (x as usize) < self.width && (y as usize) < self.height
    }

    /// Places an obstacle at cell `(x, y)`; cells outside the world are ignored.
    pub fn set_obstacle(&mut self, x: usize, y: usize)
        ensures
            final(self).wf(),
            final(self).spec_width() == old(self).spec_width(),
            final(self).spec_height() == old(self).spec_height(),
            forall|a: int, b: int|
                final(self).spec_in_bounds(a, b) ==> #[trigger] final(self).cell(a, b) == (old(
                    self,
                ).cell(a, b) || (a == x && b == y)),
            final(self).spec_free_cells() == old(self).spec_free_cells() - (if old(
                self,
            ).spec_in_bounds(x as int, y as int) && !old(self).cell(x as int, y as int) {
                1int
            } else {
                0int
            }),
    {
        proof {
            use_type_invariant(&*self);
        }
        if x < self.width && y < self.height {
            proof {
                lemma_index_in_bounds(x as int, y as int, self.width as int, self.height as int);
            }
            let i = y * self.width + x;
            let ghost prev = *self;
            let mut taken = World { width: 0, height: 0, occ: Vec::new() };
            std::mem::swap(self, &mut taken);
            proof {
                use_type_invariant(&taken);
            }
            let World { width, height, mut occ } = taken;
            proof {
                lemma_count_free_update(occ@, i as int);
            }
            occ.set(i, true);
            *self = World { width, height, occ };
            proof {
                assert forall|a: int, b: int| self.spec_in_bounds(a, b) implies #[trigger] self.cell(
                    a,
                    b,
                ) == (prev.cell(a, b) || (a == x && b == y)) by {
                    lemma_index_in_bounds(a, b, self.width as int, self.height as int);
                    if b * self.width + a == i {
                        lemma_index_injective(a, b, x as int, y as int, self.width as int);
                    }
                }
            }
        }
    }

    /// Whether cell `(x, y)` is blocked; cells outside the world count as obstacles.
    pub fn is_obstacle(&self, x: i32, y: i32) -> (b: bool)
        ensures
            b == self.blocked(x as int, y as int),
    {
        proof {
            use_type_invariant(self);
        }
        if !self.in_bounds(x, y) {
            return true;
        }
        proof {
            lemma_index_in_bounds(x as int, y as int, self.width as int, self.height as int);
        }
        self.occ[y as usize * self.width + x as usize]
    }

    /// Number of obstacle-free cells.
    pub fn free_cells(&self) -> (n: usize)
        ensures
            n == self.spec_free_cells(),
    {
        proof {
            use_type_invariant(self);
        }
        let mut n: usize = 0;
        let mut i: usize = 0;
        while i < self.occ.len()
            invariant
                i <= self.occ@.len(),
                n == count_free(self.occ@.subrange(0, i as int)),
                n <= i,
            decreases self.occ@.len() - i,
        {
            proof {
                assert(self.occ@.subrange(0, i + 1).drop_last() == self.occ@.subrange(0, i as int));
            }
            if !self.occ[i] {
                n = n + 1;
            }
            i = i + 1;
        }
        assert(self.occ@.subrange(0, self.occ@.len() as int) == self.occ@);
        n
    }

    /// Places obstacles on every cell of `xs` x `ys` that lies inside the world.
    pub fn wall(&mut self, xs: std::ops::Range<usize>, ys: std::ops::Range<usize>)
        ensures
            final(self).wf(),
            final(self).spec_width() == old(self).spec_width(),
            final(self).spec_height() == old(self).spec_height(),
            forall|a: int, b: int|
                final(self).spec_in_bounds(a, b) ==> #[trigger] final(self).cell(a, b) == (old(
                    self,
                ).cell(a, b) || (xs.start <= a < xs.end && ys.start <= b < ys.end)),
    {
        proof {
            use_type_invariant(&*self);
        }
        let ghost orig = *self;
        let mut x = xs.start;
        while x < xs.end
            invariant
                self.wf(),
                self.spec_width() == orig.spec_width(),
                self.spec_height() == orig.spec_height(),
                xs.start <= x,
                x <= xs.end || x == xs.start,
                forall|a: int, b: int|
                    self.spec_in_bounds(a, b) ==> #[trigger] self.cell(a, b) == (orig.cell(a, b)
                        || (xs.start <= a < x && ys.start <= b < ys.end)),
            decreases xs.end - x,
        {
            let mut y = ys.start;
            while y < ys.end
                invariant
                    self.wf(),
                    self.spec_width() == orig.spec_width(),
                    self.spec_height() == orig.spec_height(),
                    xs.start <= x < xs.end,
                    ys.start <= y,
                    y <= ys.end || y == ys.start,
                    forall|a: int, b: int|
                        self.spec_in_bounds(a, b) ==> #[trigger] self.cell(a, b) == (orig.cell(a, b)
                            || (xs.start <= a < x && ys.start <= b < ys.end) || (a == x && ys.start
                            <= b < y)),
                decreases ys.end - y,
            {
                self.set_obstacle(x, y);
                y = y + 1;
            }
            x = x + 1;
        }
    }
}

} // verus!
