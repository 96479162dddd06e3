//! Voxel states of a 3D occupancy grid: indexing, state queries, statistics,
//! frontier detection and obstacle inflation.
use vstd::prelude::*;

verus! {

/// Voxel (cell) coordinates.
#[derive(Debug, Clone, Copy, PartialEq, Eq, Structural, Hash)]
pub struct Index3 {
    pub x: i32,
    pub y: i32,
    pub z: i32,
}

impl Index3 {
    pub fn new(x: i32, y: i32, z: i32) -> (r: Self)
        ensures
            r == (Index3 { x, y, z }),
    {
        Index3 { x, y, z }
    }
}

/// State of one voxel.
#[derive(Debug, Clone, Copy, PartialEq, Eq, Structural)]
pub enum CellState {
    /// Free (traversable).
    Free,
    /// Occupied (obstacle).
    Occupied,
    /// Unknown (not observed yet).
    Unknown,
}

/// The spec-level cell at integer coordinates.
pub open spec fn cell(x: int, y: int, z: int) -> Index3 {
    Index3 { x: x as i32, y: y as i32, z: z as i32 }
}

/// The number of entries of `s` equal to `st`.
pub open spec fn count_state(s: Seq<CellState>, st: CellState) -> nat
    decreases s.len(),
{
    if s.len() == 0 {
        0
    } else {
        count_state(s.drop_last(), st) + if s.last() == st {
            1nat
        } else {
            0nat
        }
    }
}

/// The cells `(0..x, y, z)` satisfying `f`, in increasing `x`.
pub open spec fn row_scan(f: spec_fn(Index3) -> bool, y: int, z: int, x: int) -> Seq<Index3>
    decreases x,
{
    if x <= 0 {
        Seq::empty()
    } else {
        let prev = row_scan(f, y, z, x - 1);
        if f(cell(x - 1, y, z)) {
            prev.push(cell(x - 1, y, z))
        } else {
            prev
        }
    }
}

/// The cells of rows `0..y` of plane `z` satisfying `f`, row by row.
pub open spec fn plane_scan(f: spec_fn(Index3) -> bool, sx: int, z: int, y: int) -> Seq<Index3>
    decreases y,
{
    if y <= 0 {
        Seq::empty()
    } else {
        plane_scan(f, sx, z, y - 1) + row_scan(f, y - 1, z, sx)
    }
}

/// The cells of planes `0..z` satisfying `f`, plane by plane.
pub open spec fn volume_scan(f: spec_fn(Index3) -> bool, sx: int, sy: int, z: int) -> Seq<
    Index3,
>
    decreases z,
{
    if z <= 0 {
        Seq::empty()
    } else {
        volume_scan(f, sx, sy, z - 1) + plane_scan(f, sx, z - 1, sy)
    }
}

/// Whether `n` is one of the 26 neighbours of `i`.
pub open spec fn neighbours(i: Index3, n: Index3) -> bool {
    &&& -1 <= n.x - i.x <= 1
    &&& -1 <= n.y - i.y <= 1
    &&& -1 <= n.z - i.z <= 1
    &&& n != i
}

/// Whether `c` lies in the same plane as `j`, within Euclidean distance `r`.
pub open spec fn within_disk(c: Index3, j: Index3, r: int) -> bool {
    &&& c.z == j.z
    &&& (c.x - j.x) * (c.x - j.x) + (c.y - j.y) * (c.y - j.y) <= r * r
}

/// The states of the voxels of a `size_x` x `size_y` x `size_z` grid, stored
/// x-fastest, then y, then z.
pub struct StateGrid {
    sx: usize,
    sy: usize,
    sz: usize,
    cells: Vec<CellState>,
}

proof fn lemma_flat_bounds(x: int, y: int, z: int, sx: int, sy: int, sz: int)
    by (nonlinear_arith)
    requires
        0 <= x < sx,
        0 <= y < sy,
        0 <= z < sz,
    ensures
        0 <= z * sy + y < sy * sz,
        0 <= (z * sy + y) * sx + x < sx * sy * sz,
        sy * sz <= sx * sy * sz,
{
    assert(z * sy + y <= (sz - 1) * sy + (sy - 1));
    assert((z * sy + y) * sx <= (sy * sz - 1) * sx);
}

proof fn lemma_row_major_injective(a: int, i: int, b: int, j: int, w: int)
    by (nonlinear_arith)
    requires
        0 <= i < w,
        0 <= j < w,
        0 <= a,
        0 <= b,
        a * w + i == b * w + j,
    ensures
        a == b && i == j,
{
    if a < b {
        assert(a * w + w <= b * w);
    } else if b < a {
        assert(b * w + w <= a * w);
    }
}

/// The number of voxels of a grid, computed without overflow.
fn voxel_count(size_x: usize, size_y: usize, size_z: usize) -> (n: u128)
    requires
        size_x <= i32::MAX,
        size_y <= i32::MAX,
        size_z <= i32::MAX,
    ensures
        n == size_x * size_y * size_z,
{
    proof {
        assert(size_x * size_y <= 0x7fff_ffff * 0x7fff_ffff) by (nonlinear_arith)
            requires
                size_x <= 0x7fff_ffff,
                size_y <= 0x7fff_ffff,
        ;
        assert(size_x * size_y * size_z <= 0x7fff_ffff * 0x7fff_ffff * 0x7fff_ffff) by (
        nonlinear_arith)
            requires
                size_x * size_y <= 0x7fff_ffff * 0x7fff_ffff,
                size_z <= 0x7fff_ffff,
        ;
    }
    let xy: u128 = size_x as u128 * size_y as u128;
    xy * size_z as u128
}

proof fn lemma_disk_bounds(a: int, b: int, r: int)
    by (nonlinear_arith)
    requires
        0 <= r,
        a * a + b * b <= r * r,
    ensures
        -r <= a <= r,
        -r <= b <= r,
{
    if a > r || a < -r {
        assert(a * a > r * r);
    }
    if b > r || b < -r {
        assert(b * b > r * r);
    }
}

impl StateGrid {
    /// Well-formedness: one state per voxel, and every voxel addressable by
    /// `i32` coordinates.
    #[verifier::type_invariant]
    pub closed spec fn wf(&self) -> bool {
        &&& self.sx <= i32::MAX
        &&& self.sy <= i32::MAX
        &&& self.sz <= i32::MAX
        &&& self.sx * self.sy * self.sz <= usize::MAX
        &&& self.cells@.len() == self.sx * self.sy * self.sz
    }

    pub closed spec fn spec_size_x(&self) -> int {
        self.sx as int
    }

    pub closed spec fn spec_size_y(&self) -> int {
        self.sy as int
    }

    pub closed spec fn spec_size_z(&self) -> int {
        self.sz as int
    }

    /// Whether `i` lies inside the grid.
    pub open spec fn contains(&self, i: Index3) -> bool {
        &&& 0 <= i.x < self.spec_size_x()
        &&& 0 <= i.y < self.spec_size_y()
        &&& 0 <= i.z < self.spec_size_z()
    }

    /// Storage position of voxel `i`.
    pub open spec fn flat_spec(&self, i: Index3) -> int {
        (i.z * self.spec_size_y() + i.y) * self.spec_size_x() + i.x
    }

    /// The states in storage order.
    pub closed spec fn states(&self) -> Seq<CellState> {
        self.cells@
    }

    /// State of voxel `i`; `None` outside the grid.
    pub open spec fn state_at(&self, i: Index3) -> Option<CellState> {
        if self.contains(i) {
            Some(self.states()[self.flat_spec(i)])
        } else {
            None
        }
    }

    proof fn lemma_flat_in_range(&self, i: Index3)
        requires
            self.wf(),
            self.contains(i),
        ensures
            0 <= self.flat_spec(i) < self.states().len(),
            0 <= i.z * self.spec_size_y() + i.y <= usize::MAX,
    {
        lemma_flat_bounds(
            i.x as int,
            i.y as int,
            i.z as int,
            self.sx as int,
            self.sy as int,
            self.sz as int,
        );
    }

    proof fn lemma_flat_injective(&self, a: Index3, b: Index3)
        requires
            self.wf(),
            self.contains(a),
            self.contains(b),
            self.flat_spec(a) == self.flat_spec(b),
        ensures
            a == b,
    {
        let sx = self.sx as int;
        let sy = self.sy as int;
        assert(0 <= a.z * sy + a.y) by (nonlinear_arith)
            requires
                0 <= a.z,
                0 <= a.y,
                0 <= sy,
        ;
        assert(0 <= b.z * sy + b.y) by (nonlinear_arith)
            requires
                0 <= b.z,
                0 <= b.y,
                0 <= sy,
        ;
        lemma_row_major_injective(
            a.z * sy + a.y,
            a.x as int,
            b.z * sy + b.y,
            b.x as int,
            sx,
        );
        lemma_row_major_injective(a.z as int, a.y as int, b.z as int, b.y as int, sy);
    }

    /// A grid of `size_x` x `size_y` x `size_z` voxels, all `Unknown`.
    pub fn new(size_x: usize, size_y: usize, size_z: usize) -> (g: Self)
        requires
            size_x <= i32::MAX,
            size_y <= i32::MAX,
            size_z <= i32::MAX,
            size_x * size_y * size_z <= usize::MAX,
        ensures
            g.wf(),
            g.spec_size_x() == size_x,
            g.spec_size_y() == size_y,
            g.spec_size_z() == size_z,
            forall|i: Index3| g.contains(i) ==> #[trigger] g.state_at(i) == Some(CellState::Unknown),
    {
        let n = voxel_count(size_x, size_y, size_z) as usize;
        let mut cells: Vec<CellState> = Vec::new();
        let mut k: usize = 0;
        while k < n
            invariant
                k <= n,
                cells@.len() == k,
                forall|j: int| 0 <= j < k ==> #[trigger] cells@[j] == CellState::Unknown,
            decreases n - k,
        {
            cells.push(CellState::Unknown);
            k = k + 1;
        }
        let g = StateGrid { sx: size_x, sy: size_y, sz: size_z, cells };
        assert forall|i: Index3| g.contains(i) implies #[trigger] g.state_at(i) == Some(
            CellState::Unknown,
        ) by {
            g.lemma_flat_in_range(i);
        }
        g
    }

    /// A grid holding `states` in storage order (x fastest, then y, then z);
    /// `None` when the number of states is not the number of voxels.
    pub fn from_states(size_x: usize, size_y: usize, size_z: usize, states: Vec<CellState>) -> (r:
        Option<Self>)
        requires
            size_x <= i32::MAX,
            size_y <= i32::MAX,
            size_z <= i32::MAX,
        ensures
            r is Some <==> size_x * size_y * size_z == states@.len(),
            r matches Some(g) ==> {
                &&& g.wf()
                &&& g.spec_size_x() == size_x
                &&& g.spec_size_y() == size_y
                &&& g.spec_size_z() == size_z
                &&& g.states() == states@
            },
    {
        let n = voxel_count(size_x, size_y, size_z);
        if n == states.len() as u128 {
            Some(StateGrid { sx: size_x, sy: size_y, sz: size_z, cells: states })
        } else {
            None
        }
    }

    pub fn size_x(&self) -> (r: usize)
        ensures
            r == self.spec_size_x(),
    {
        self.sx
    }

    pub fn size_y(&self) -> (r: usize)
        ensures
            r == self.spec_size_y(),
    {
        self.sy
    }

    pub fn size_z(&self) -> (r: usize)
        ensures
            r == self.spec_size_z(),
    {
        self.sz
    }

    /// Storage position of voxel `i`; `None` outside the grid.
    fn flat(&self, i: Index3) -> (r: Option<usize>)
        requires
            self.wf(),
        ensures
            r is Some <==> self.contains(i),
            r matches Some(f) ==> f == self.flat_spec(i) && f < self.states().len(),
    {
        if i.x < 0 || i.y < 0 || i.z < 0 {
            return None;
        }
        let x = i.x as usize;
        let y = i.y as usize;
        let z = i.z as usize;
        if x >= self.sx || y >= self.sy || z >= self.sz {
            return None;
        }
        proof {
            self.lemma_flat_in_range(i);
        }
        Some((z * self.sy + y) * self.sx + x)
    }

    /// State of voxel `i`; `None` outside the grid.
    pub fn state(&self, i: Index3) -> (r: Option<CellState>)
        ensures
            r == self.state_at(i),
    {
        proof {
            use_type_invariant(self);
        }
        match self.flat(i) {
            Some(f) => Some(self.cells[f]),
            None => None,
        }
    }

    /// Sets the state of voxel `i`; returns whether `i` lies inside the grid
    /// (outside it nothing changes).
    pub fn set_state(&mut self, i: Index3, st: CellState) -> (ok: bool)
        ensures
            final(self).wf(),
            ok == old(self).contains(i),
            final(self).spec_size_x() == old(self).spec_size_x(),
            final(self).spec_size_y() == old(self).spec_size_y(),
            final(self).spec_size_z() == old(self).spec_size_z(),
            forall|j: Index3| #[trigger]
                final(self).state_at(j) == if j == i && ok {
                    Some(st)
                } else {
                    old(self).state_at(j)
                },
    {
        proof {
            use_type_invariant(&*self);
        }
        match self.flat(i) {
            Some(f) => {
                let ghost prev = *self;
                let mut taken = StateGrid { sx: 0, sy: 0, sz: 0, cells: Vec::new() };
                std::mem::swap(self, &mut taken);
                proof {
                    use_type_invariant(&taken);
                }
                let StateGrid { sx, sy, sz, mut cells } = taken;
                cells.set(f, st);
                *self = StateGrid { sx, sy, sz, cells };
                proof {
                    assert forall|j: Index3| #[trigger]
                        self.state_at(j) == if j == i {
                            Some(st)
                        } else {
                            prev.state_at(j)
                        } by {
                        if self.contains(j) {
                            self.lemma_flat_in_range(j);
                            if self.flat_spec(j) == f {
                                self.lemma_flat_injective(i, j);
                            }
                        }
                    }
                }
                true
            },
            None => false,
        }
    }

    /// The cells satisfying `f`, in storage order (x fastest, then y, then z).
    pub open spec fn scan(&self, f: spec_fn(Index3) -> bool) -> Seq<Index3> {
        volume_scan(f, self.spec_size_x(), self.spec_size_y(), self.spec_size_z())
    }

    /// Whether some neighbour of `i` is unknown.
    pub open spec fn has_unknown_neighbour(&self, i: Index3) -> bool {
        exists|n: Index3| neighbours(i, n) && #[trigger] self.state_at(n) == Some(CellState::Unknown)
    }

    /// A frontier voxel: free, with an unknown neighbour (a candidate target
    /// for exploration).
    pub open spec fn is_frontier(&self, i: Index3) -> bool {
        self.state_at(i) == Some(CellState::Free) && self.has_unknown_neighbour(i)
    }

    /// Whether some occupied voxel lies within distance `r` of `j` in its plane.
    pub open spec fn covered(&self, j: Index3, r: int) -> bool {
        exists|c: Index3| within_disk(c, j, r) && #[trigger] self.state_at(c) == Some(
            CellState::Occupied,
        )
    }

    /// Every voxel index, in storage order.
    pub fn all_cells(&self) -> (v: Vec<Index3>)
        ensures
            v@ == self.scan(|i: Index3| true),
    {
        proof {
            use_type_invariant(self);
        }
        let ghost f = |i: Index3| true;
        let nx = self.sx as i32;
        let ny = self.sy as i32;
        let nz = self.sz as i32;
        let mut v: Vec<Index3> = Vec::new();
        let mut z: i32 = 0;
        while z < nz
            invariant
                self.wf(),
                f == (|i: Index3| true),
                nx == self.sx,
                ny == self.sy,
                nz == self.sz,
                0 <= z <= nz,
                v@ == volume_scan(f, nx as int, ny as int, z as int),
            decreases nz - z,
        {
            let mut y: i32 = 0;
            while y < ny
                invariant
                    self.wf(),
                    f == (|i: Index3| true),
                    nx == self.sx,
                    ny == self.sy,
                    nz == self.sz,
                    0 <= z < nz,
                    0 <= y <= ny,
                    v@ == volume_scan(f, nx as int, ny as int, z as int) + plane_scan(
                        f,
                        nx as int,
                        z as int,
                        y as int,
                    ),
                decreases ny - y,
            {
                let mut x: i32 = 0;
                while x < nx
                    invariant
                        self.wf(),
                        f == (|i: Index3| true),
                        nx == self.sx,
                        ny == self.sy,
                        nz == self.sz,
                        0 <= z < nz,
                        0 <= y < ny,
                        0 <= x <= nx,
                        v@ == volume_scan(f, nx as int, ny as int, z as int) + plane_scan(
                            f,
                            nx as int,
                            z as int,
                            y as int,
                        ) + row_scan(f, y as int, z as int, x as int),
                    decreases nx - x,
                {
                    v.push(Index3::new(x, y, z));
                    proof {
                        let a = volume_scan(f, nx as int, ny as int, z as int) + plane_scan(
                            f,
                            nx as int,
                            z as int,
                            y as int,
                        );
                        let r = row_scan(f, y as int, z as int, x as int);
                        assert(cell(x as int, y as int, z as int) == Index3 { x, y, z });
                        assert(f(cell(x as int, y as int, z as int)));
                        assert(row_scan(f, y as int, z as int, x + 1) == r.push(
                            cell(x as int, y as int, z as int),
                        ));
                        assert((a + r).push(cell(x as int, y as int, z as int)) =~= a + r.push(
                            cell(x as int, y as int, z as int),
                        ));
                    }
                    x = x + 1;
                }
                proof {
                    let a = volume_scan(f, nx as int, ny as int, z as int);
                    let p = plane_scan(f, nx as int, z as int, y as int);
                    let r = row_scan(f, y as int, z as int, nx as int);
                    assert(a + p + r =~= a + (p + r));
                }
                y = y + 1;
            }
            proof {
                let a = volume_scan(f, nx as int, ny as int, z as int);
                let p = plane_scan(f, nx as int, z as int, ny as int);
                assert(a + p =~= volume_scan(f, nx as int, ny as int, z + 1));
            }
            z = z + 1;
        }
        v
    }

    /// Whether some neighbour of `i` is unknown (scanning the 26 neighbours).
    fn unknown_neighbour(&self, i: Index3) -> (b: bool)
        requires
            self.wf(),
            self.contains(i),
        ensures
            b == self.has_unknown_neighbour(i),
    {
        let mut dz: i32 = -1;
        while dz <= 1
            invariant
                self.wf(),
                self.contains(i),
                -1 <= dz <= 2,
                forall|n: Index3|
                    neighbours(i, n) && n.z - i.z < dz ==> #[trigger] self.state_at(n) != Some(
                        CellState::Unknown,
                    ),
            decreases 2 - dz,
        {
            let mut dy: i32 = -1;
            while dy <= 1
                invariant
                    self.wf(),
                    self.contains(i),
                    -1 <= dz <= 1,
                    -1 <= dy <= 2,
                    forall|n: Index3|
                        neighbours(i, n) && (n.z - i.z < dz || (n.z - i.z == dz && n.y - i.y
                            < dy)) ==> #[trigger] self.state_at(n) != Some(CellState::Unknown),
                decreases 2 - dy,
            {
                let mut dx: i32 = -1;
                while dx <= 1
                    invariant
                        self.wf(),
                        self.contains(i),
                        -1 <= dz <= 1,
                        -1 <= dy <= 1,
                        -1 <= dx <= 2,
                        forall|n: Index3|
                            neighbours(i, n) && (n.z - i.z < dz || (n.z - i.z == dz && n.y - i.y
                                < dy) || (n.z - i.z == dz && n.y - i.y == dy && n.x - i.x < dx))
                                ==> #[trigger] self.state_at(n) != Some(CellState::Unknown),
                    decreases 2 - dx,
                {
                    if dx != 0 || dy != 0 || dz != 0 {
                        let n = Index3::new(i.x + dx, i.y + dy, i.z + dz);
                        match self.state(n) {
                            Some(CellState::Unknown) => {
                                assert(neighbours(i, n));
                                return true;
                            },
                            _ => {},
                        }
                    }
                    dx = dx + 1;
                }
                dy = dy + 1;
            }
            dz = dz + 1;
        }
        false
    }

    /// Frontier voxels (free, with an unknown neighbour), in storage order.
    pub fn frontiers(&self) -> (v: Vec<Index3>)
        ensures
            v@ == self.scan(|i: Index3| self.is_frontier(i)),
    {
        proof {
            use_type_invariant(self);
        }
        let ghost f = |i: Index3| self.is_frontier(i);
        let nx = self.sx as i32;
        let ny = self.sy as i32;
        let nz = self.sz as i32;
        let mut v: Vec<Index3> = Vec::new();
        let mut z: i32 = 0;
        while z < nz
            invariant
                self.wf(),
                f == (|i: Index3| self.is_frontier(i)),
                nx == self.sx,
                ny == self.sy,
                nz == self.sz,
                0 <= z <= nz,
                v@ == volume_scan(f, nx as int, ny as int, z as int),
            decreases nz - z,
        {
            let mut y: i32 = 0;
            while y < ny
                invariant
                    self.wf(),
                    f == (|i: Index3| self.is_frontier(i)),
                    nx == self.sx,
                    ny == self.sy,
                    nz == self.sz,
                    0 <= z < nz,
                    0 <= y <= ny,
                    v@ == volume_scan(f, nx as int, ny as int, z as int) + plane_scan(
                        f,
                        nx as int,
                        z as int,
                        y as int,
                    ),
                decreases ny - y,
            {
                let mut x: i32 = 0;
                while x < nx
                    invariant
                        self.wf(),
                        f == (|i: Index3| self.is_frontier(i)),
                        nx == self.sx,
                        ny == self.sy,
                        nz == self.sz,
                        0 <= z < nz,
                        0 <= y < ny,
                        0 <= x <= nx,
                        v@ == volume_scan(f, nx as int, ny as int, z as int) + plane_scan(
                            f,
                            nx as int,
                            z as int,
                            y as int,
                        ) + row_scan(f, y as int, z as int, x as int),
                    decreases nx - x,
                {
                    let idx = Index3::new(x, y, z);
                    let ghost a = volume_scan(f, nx as int, ny as int, z as int) + plane_scan(
                        f,
                        nx as int,
                        z as int,
                        y as int,
                    );
                    let ghost r = row_scan(f, y as int, z as int, x as int);
                    assert(cell(x as int, y as int, z as int) == idx);
                    let free = match self.state(idx) {
                        Some(CellState::Free) => true,
                        _ => false,
                    };
                    if free && self.unknown_neighbour(idx) {
                        v.push(idx);
                        assert((a + r).push(idx) =~= a + r.push(idx));
                    }
                    x = x + 1;
                }
                proof {
                    let a = volume_scan(f, nx as int, ny as int, z as int);
                    let p = plane_scan(f, nx as int, z as int, y as int);
                    let r = row_scan(f, y as int, z as int, nx as int);
                    assert(a + p + r =~= a + (p + r));
                }
                y = y + 1;
            }
            proof {
                let a = volume_scan(f, nx as int, ny as int, z as int);
                let p = plane_scan(f, nx as int, z as int, ny as int);
                assert(a + p =~= volume_scan(f, nx as int, ny as int, z + 1));
            }
            z = z + 1;
        }
        v
    }

    /// A copy of this grid.
    fn copy(&self) -> (c: Self)
        requires
            self.wf(),
        ensures
            c.wf(),
            c.spec_size_x() == self.spec_size_x(),
            c.spec_size_y() == self.spec_size_y(),
            c.spec_size_z() == self.spec_size_z(),
            c.states() == self.states(),
    {
        let mut cells: Vec<CellState> = Vec::new();
        let mut k: usize = 0;
        while k < self.cells.len()
            invariant
                k <= self.cells@.len(),
                cells@ == self.cells@.subrange(0, k as int),
            decreases self.cells@.len() - k,
        {
            cells.push(self.cells[k]);
            k = k + 1;
        }
        assert(cells@ == self.cells@);
        StateGrid { sx: self.sx, sy: self.sy, sz: self.sz, cells }
    }

    /// Whether an occupied voxel lies within distance `r` of `j` in its plane
    /// (scanning the disk).
    fn occupied_within(&self, j: Index3, r: i32) -> (b: bool)
        requires
            self.wf(),
            self.contains(j),
            0 <= r <= 32767,
        ensures
            b == self.covered(j, r as int),
    {
        proof {
            assert forall|c: Index3|
                within_disk(c, j, r as int) implies -r <= c.x - j.x <= r && -r <= c.y - j.y
                <= r by {
                lemma_disk_bounds(c.x - j.x, c.y - j.y, r as int);
            }
        }
        let mut dx: i32 = -r;
        while dx <= r
            invariant
                self.wf(),
                self.contains(j),
                0 <= r <= 32767,
                -r <= dx <= r + 1,
                forall|c: Index3|
                    within_disk(c, j, r as int) ==> -r <= c.x - j.x <= r && -r <= c.y - j.y <= r,
                forall|c: Index3|
                    within_disk(c, j, r as int) && c.x - j.x < dx ==> #[trigger] self.state_at(c)
                        != Some(CellState::Occupied),
            decreases r + 1 - dx,
        {
            let mut dy: i32 = -r;
            while dy <= r
                invariant
                    self.wf(),
                    self.contains(j),
                    0 <= r <= 32767,
                    -r <= dx <= r,
                    -r <= dy <= r + 1,
                    forall|c: Index3|
                        within_disk(c, j, r as int) ==> -r <= c.x - j.x <= r && -r <= c.y - j.y
                            <= r,
                    forall|c: Index3|
                        within_disk(c, j, r as int) && (c.x - j.x < dx || (c.x - j.x == dx && c.y
                            - j.y < dy)) ==> #[trigger] self.state_at(c) != Some(
                            CellState::Occupied,
                        ),
                decreases r + 1 - dy,
            {
                assert(0 <= dx * dx <= 1073676289 && 0 <= dy * dy <= 1073676289 && 0 <= r * r
                    <= 1073676289) by (nonlinear_arith)
                    requires
                        -32767 <= dx <= 32767,
                        -32767 <= dy <= 32767,
                        0 <= r <= 32767,
                ;
                if dx * dx + dy * dy <= r * r {
                    let cx: i64 = j.x as i64 + dx as i64;
                    let cy: i64 = j.y as i64 + dy as i64;
                    if 0 <= cx && cx < self.sx as i64 && 0 <= cy && cy < self.sy as i64 {
                        let c = Index3::new(cx as i32, cy as i32, j.z);
                        match self.state(c) {
                            Some(CellState::Occupied) => {
                                assert(within_disk(c, j, r as int));
                                return true;
                            },
                            _ => {},
                        }
                    }
                }
                dy = dy + 1;
            }
            dx = dx + 1;
        }
        false
    }

    /// Obstacle inflation: every voxel within `radius_cells` (in its plane) of
    /// an occupied voxel becomes occupied; a negative radius counts as zero.
    /// Reserves a safety margin for planning and avoidance.
    pub fn inflate(&self, radius_cells: i32) -> (out: Self)
        requires
            radius_cells <= 32767 || forall|c: Index3| #[trigger] self.state_at(c) != Some(
                CellState::Occupied,
            ),
        ensures
            out.wf(),
            out.spec_size_x() == self.spec_size_x(),
            out.spec_size_y() == self.spec_size_y(),
            out.spec_size_z() == self.spec_size_z(),
            forall|j: Index3| #[trigger]
                out.state_at(j) == if self.contains(j) && self.covered(
                    j,
                    if radius_cells < 0 {
                        0
                    } else {
                        radius_cells as int
                    },
                ) {
                    Some(CellState::Occupied)
                } else {
                    self.state_at(j)
                },
    {
        proof {
            use_type_invariant(self);
        }
        if radius_cells > 32767 {
            // no voxel is occupied, so none is covered
            let out = self.copy();
            assert forall|j: Index3| #[trigger] out.state_at(j) == self.state_at(j) && !self.covered(
                j,
                radius_cells as int,
            ) by {}
            return out;
        }
        let r: i32 = if radius_cells < 0 {
            0
        } else {
            radius_cells
        };
        let mut out = self.copy();
        let nx = self.sx as i32;
        let ny = self.sy as i32;
        let nz = self.sz as i32;
        let mut z: i32 = 0;
        while z < nz
            invariant
                self.wf(),
                out.wf(),
                0 <= r <= 32767,
                nx == self.sx,
                ny == self.sy,
                nz == self.sz,
                out.spec_size_x() == self.spec_size_x(),
                out.spec_size_y() == self.spec_size_y(),
                out.spec_size_z() == self.spec_size_z(),
                0 <= z <= nz,
                forall|j: Index3| #[trigger]
                    out.state_at(j) == if self.contains(j) && j.z < z && self.covered(j, r as int) {
                        Some(CellState::Occupied)
                    } else {
                        self.state_at(j)
                    },
            decreases nz - z,
        {
            let mut y: i32 = 0;
            while y < ny
                invariant
                    self.wf(),
                    out.wf(),
                    0 <= r <= 32767,
                    nx == self.sx,
                    ny == self.sy,
                    nz == self.sz,
                    out.spec_size_x() == self.spec_size_x(),
                    out.spec_size_y() == self.spec_size_y(),
                    out.spec_size_z() == self.spec_size_z(),
                    0 <= z < nz,
                    0 <= y <= ny,
                    forall|j: Index3| #[trigger]
                        out.state_at(j) == if self.contains(j) && (j.z < z || (j.z == z && j.y
                            < y)) && self.covered(j, r as int) {
                            Some(CellState::Occupied)
                        } else {
                            self.state_at(j)
                        },
                decreases ny - y,
            {
                let mut x: i32 = 0;
                while x < nx
                    invariant
                        self.wf(),
                        out.wf(),
                        0 <= r <= 32767,
                        nx == self.sx,
                        ny == self.sy,
                        nz == self.sz,
                        out.spec_size_x() == self.spec_size_x(),
                        out.spec_size_y() == self.spec_size_y(),
                        out.spec_size_z() == self.spec_size_z(),
                        0 <= z < nz,
                        0 <= y < ny,
                        0 <= x <= nx,
                        forall|j: Index3| #[trigger]
                            out.state_at(j) == if self.contains(j) && (j.z < z || (j.z == z && j.y
                                < y) || (j.z == z && j.y == y && j.x < x)) && self.covered(
                                j,
                                r as int,
                            ) {
                                Some(CellState::Occupied)
                            } else {
                                self.state_at(j)
                            },
                    decreases nx - x,
                {
                    let j = Index3::new(x, y, z);
                    if self.occupied_within(j, r) {
                        out.set_state(j, CellState::Occupied);
                    }
                    x = x + 1;
                }
                y = y + 1;
            }
            z = z + 1;
        }
        out
    }

    /// Numbers of free, occupied and unknown voxels.
    pub fn counts(&self) -> (r: (usize, usize, usize))
        ensures
            r.0 == count_state(self.states(), CellState::Free),
            r.1 == count_state(self.states(), CellState::Occupied),
            r.2 == count_state(self.states(), CellState::Unknown),
    {
        proof {
            use_type_invariant(self);
        }
        let mut free: usize = 0;
        let mut occ: usize = 0;
        let mut unk: usize = 0;
        let mut k: usize = 0;
        while k < self.cells.len()
            invariant
                k <= self.cells@.len(),
                free == count_state(self.cells@.subrange(0, k as int), CellState::Free),
                occ == count_state(self.cells@.subrange(0, k as int), CellState::Occupied),
                unk == count_state(self.cells@.subrange(0, k as int), CellState::Unknown),
                free + occ + unk == k,
            decreases self.cells@.len() - k,
        {
            proof {
                assert(self.cells@.subrange(0, k + 1).drop_last() == self.cells@.subrange(
                    0,
                    k as int,
                ));
            }
            match self.cells[k] {
                CellState::Free => free = free + 1,
                CellState::Occupied => occ = occ + 1,
                CellState::Unknown => unk = unk + 1,
            }
            k = k + 1;
        }
        assert(self.cells@.subrange(0, self.cells@.len() as int) == self.cells@);
        (free, occ, unk)
    }
}


/// Inflation never frees an obstacle: an occupied voxel is covered at every
/// radius.
pub proof fn law_obstacles_stay_covered(g: StateGrid, j: Index3, r: int)
    requires
        g.wf(),
        r >= 0,
        g.state_at(j) == Some(CellState::Occupied),
    ensures
        g.covered(j, r),
{
    assert(within_disk(j, j, r)) by (nonlinear_arith)
        requires
            r >= 0,
    ;
}

/// At radius zero a voxel is covered exactly when it is itself occupied, so
/// inflating by zero (or a negative radius) changes nothing.
pub proof fn law_radius_zero_covers_only_obstacles(g: StateGrid, j: Index3)
    requires
        g.wf(),
        g.contains(j),
    ensures
        g.covered(j, 0) <==> g.state_at(j) == Some(CellState::Occupied),
{
    if g.covered(j, 0) {
        let c = choose|c: Index3| within_disk(c, j, 0) && #[trigger] g.state_at(c) == Some(
            CellState::Occupied,
        );
        let dx = c.x - j.x;
        let dy = c.y - j.y;
        assert(dx == 0 && dy == 0) by (nonlinear_arith)
            requires
                dx * dx + dy * dy <= 0,
        ;
        assert(c == j);
    }
    if g.state_at(j) == Some(CellState::Occupied) {
        law_obstacles_stay_covered(g, j, 0);
    }
}

/// Coverage grows with the radius.
pub proof fn law_coverage_monotone(g: StateGrid, j: Index3, r1: int, r2: int)
    requires
        g.wf(),
        0 <= r1 <= r2,
        g.covered(j, r1),
    ensures
        g.covered(j, r2),
{
    let c = choose|c: Index3| within_disk(c, j, r1) && #[trigger] g.state_at(c) == Some(
        CellState::Occupied,
    );
    assert(r1 * r1 <= r2 * r2) by (nonlinear_arith)
        requires
            0 <= r1 <= r2,
    ;
    assert(within_disk(c, j, r2));
}

/// The cells of a row scan: each lies in the row, before `x`, and passes `f`;
/// each cell of the row before `x` that passes `f` is in it.
proof fn lemma_row_scan(f: spec_fn(Index3) -> bool, y: int, z: int, x: int)
    requires
        0 <= x <= i32::MAX,
    ensures
        forall|k: int|
            0 <= k < row_scan(f, y, z, x).len() ==> {
                let c = #[trigger] row_scan(f, y, z, x)[k];
                &&& f(c)
                &&& 0 <= c.x < x
                &&& c.y == y as i32
                &&& c.z == z as i32
            },
        forall|a: int| 0 <= a < x && f(#[trigger] cell(a, y, z)) ==> row_scan(f, y, z, x).contains(cell(a, y, z)),
    decreases x,
{
    if x > 0 {
        lemma_row_scan(f, y, z, x - 1);
        let prev = row_scan(f, y, z, x - 1);
        let c = cell(x - 1, y, z);
        if f(c) {
            assert(row_scan(f, y, z, x) == prev.push(c));
            assert(prev.push(c)[prev.len() as int] == c);
            assert forall|a: int| 0 <= a < x && f(#[trigger] cell(a, y, z)) implies prev.push(c).contains(cell(a, y, z)) by {
                if a < x - 1 {
                    let i = choose|i: int| 0 <= i < prev.len() && prev[i] == cell(a, y, z);
                    assert(prev.push(c)[i] == cell(a, y, z));
                }
            }
            assert forall|k: int| 0 <= k < prev.push(c).len() implies ({
                let d = #[trigger] prev.push(c)[k];
                &&& f(d)
                &&& 0 <= d.x < x
                &&& d.y == y as i32
                &&& d.z == z as i32
            }) by {
                if k < prev.len() {
                    assert(prev.push(c)[k] == prev[k]);
                }
            }
        }
    }
}

/// Scanning a plane or the whole grid: each cell found passes `f` and lies in
/// range; each cell in range that passes `f` is found.
proof fn lemma_plane_scan(f: spec_fn(Index3) -> bool, sx: int, z: int, y: int)
    requires
        0 <= sx <= i32::MAX,
        0 <= y <= i32::MAX,
    ensures
        forall|k: int|
            0 <= k < plane_scan(f, sx, z, y).len() ==> {
                let c = #[trigger] plane_scan(f, sx, z, y)[k];
                &&& f(c)
                &&& 0 <= c.x < sx
                &&& 0 <= c.y < y
                &&& c.z == z as i32
            },
        forall|a: int, b: int|
            0 <= a < sx && 0 <= b < y && f(#[trigger] cell(a, b, z)) ==> plane_scan(f, sx, z, y).contains(
                cell(a, b, z),
            ),
    decreases y,
{
    if y > 0 {
        lemma_plane_scan(f, sx, z, y - 1);
        lemma_row_scan(f, y - 1, z, sx);
        let p = plane_scan(f, sx, z, y - 1);
        let r = row_scan(f, y - 1, z, sx);
        assert(plane_scan(f, sx, z, y) == p + r);
        assert forall|k: int| 0 <= k < (p + r).len() implies ({
            let c = #[trigger] (p + r)[k];
            &&& f(c)
            &&& 0 <= c.x < sx
            &&& 0 <= c.y < y
            &&& c.z == z as i32
        }) by {
            if k < p.len() {
                assert((p + r)[k] == p[k]);
            } else {
                assert((p + r)[k] == r[k - p.len()]);
            }
        }
        assert forall|a: int, b: int|
            0 <= a < sx && 0 <= b < y && f(#[trigger] cell(a, b, z)) implies (p + r).contains(cell(a, b, z)) by {
            if b < y - 1 {
                let i = choose|i: int| 0 <= i < p.len() && p[i] == cell(a, b, z);
                assert((p + r)[i] == cell(a, b, z));
            } else {
                assert(r.contains(cell(a, b, z)));
                let i = choose|i: int| 0 <= i < r.len() && r[i] == cell(a, b, z);
                assert((p + r)[p.len() + i] == cell(a, b, z));
            }
        }
    }
}

proof fn lemma_volume_scan(f: spec_fn(Index3) -> bool, sx: int, sy: int, z: int)
    requires
        0 <= sx <= i32::MAX,
        0 <= sy <= i32::MAX,
        0 <= z <= i32::MAX,
    ensures
        forall|k: int|
            0 <= k < volume_scan(f, sx, sy, z).len() ==> {
                let c = #[trigger] volume_scan(f, sx, sy, z)[k];
                &&& f(c)
                &&& 0 <= c.x < sx
                &&& 0 <= c.y < sy
                &&& 0 <= c.z < z
            },
        forall|a: int, b: int, d: int|
            0 <= a < sx && 0 <= b < sy && 0 <= d < z && f(#[trigger] cell(a, b, d))
                ==> volume_scan(f, sx, sy, z).contains(cell(a, b, d)),
    decreases z,
{
    if z > 0 {
        lemma_volume_scan(f, sx, sy, z - 1);
        lemma_plane_scan(f, sx, z - 1, sy);
        let v = volume_scan(f, sx, sy, z - 1);
        let p = plane_scan(f, sx, z - 1, sy);
        assert(volume_scan(f, sx, sy, z) == v + p);
        assert forall|k: int| 0 <= k < (v + p).len() implies ({
            let c = #[trigger] (v + p)[k];
            &&& f(c)
            &&& 0 <= c.x < sx
            &&& 0 <= c.y < sy
            &&& 0 <= c.z < z
        }) by {
            if k < v.len() {
                assert((v + p)[k] == v[k]);
            } else {
                assert((v + p)[k] == p[k - v.len()]);
            }
        }
        assert forall|a: int, b: int, d: int|
            0 <= a < sx && 0 <= b < sy && 0 <= d < z && f(#[trigger] cell(a, b, d)) implies (v
            + p).contains(cell(a, b, d)) by {
            if d < z - 1 {
                let i = choose|i: int| 0 <= i < v.len() && v[i] == cell(a, b, d);
                assert((v + p)[i] == cell(a, b, d));
            } else {
                assert(p.contains(cell(a, b, d)));
                let i = choose|i: int| 0 <= i < p.len() && p[i] == cell(a, b, d);
                assert((v + p)[v.len() + i] == cell(a, b, d));
            }
        }
    }
}

/// A scan of the grid finds exactly the voxels of the grid that pass the test:
/// every voxel it lists is in the grid and passes, and every voxel of the grid
/// that passes is listed (so the frontier list holds exactly the frontier
/// voxels).
pub proof fn law_scan_finds_exactly(g: StateGrid, f: spec_fn(Index3) -> bool)
    requires
        g.wf(),
    ensures
        forall|k: int| 0 <= k < g.scan(f).len() ==> f(#[trigger] g.scan(f)[k]) && g.contains(g.scan(f)[k]),
        forall|i: Index3| g.contains(i) && f(i) ==> #[trigger] g.scan(f).contains(i),
{
    lemma_volume_scan(f, g.spec_size_x(), g.spec_size_y(), g.spec_size_z());
    assert forall|i: Index3| g.contains(i) && f(i) implies #[trigger] g.scan(f).contains(i) by {
        assert(cell(i.x as int, i.y as int, i.z as int) == i);
    }
}

} // verus!
