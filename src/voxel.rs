use vstd::prelude::*;

verus! {

/// A grid coordinate `(x, y, z)`.
pub type Pos = (usize, usize, usize);

/// A dense grid of solid/empty cells, indexed `cells[x][y][z]`.
pub struct VoxelField {
    pub width: usize,
    pub height: usize,
    pub depth: usize,
    pub cells: Vec<Vec<Vec<bool>>>,
}

/// Strict lexicographic order on coordinates.
pub open spec fn pos_lt(a: Pos, b: Pos) -> bool {
    a.0 < b.0 || (a.0 == b.0 && a.1 < b.1) || (a.0 == b.0 && a.1 == b.1 && a.2 < b.2)
}

/// Strict lexicographic order on the `(x, z)` column of two coordinates.
pub open spec fn column_lt(a: Pos, b: Pos) -> bool {
    a.0 < b.0 || (a.0 == b.0 && a.2 < b.2)
}

impl VoxelField {
    /// The nested vectors have exactly `width × height × depth` cells.
    pub open spec fn wf(&self) -> bool {
        &&& self.cells@.len() == self.width
        &&& forall|x: int| 0 <= x < self.width ==> #[trigger] self.cells@[x]@.len() == self.height
        &&& forall|x: int, y: int|
            0 <= x < self.width && 0 <= y < self.height ==> #[trigger] self.cells@[x]@[y]@.len()
                == self.depth
    }

    pub open spec fn in_bounds(&self, x: int, y: int, z: int) -> bool {
        0 <= x < self.width && 0 <= y < self.height && 0 <= z < self.depth
    }

    /// The cell is inside the grid and solid.
    pub open spec fn solid(&self, x: int, y: int, z: int) -> bool {
        self.in_bounds(x, y, z) && self.cells@[x]@[y]@[z]
    }

    /// All six axis neighbours are inside the grid and solid.
    pub open spec fn enclosed(&self, x: int, y: int, z: int) -> bool {
        &&& self.solid(x - 1, y, z)
        &&& self.solid(x + 1, y, z)
        &&& self.solid(x, y - 1, z)
        &&& self.solid(x, y + 1, z)
        &&& self.solid(x, y, z - 1)
        &&& self.solid(x, y, z + 1)
    }

    /// A solid cell with at least one face that is empty or on the boundary.
    pub open spec fn surface(&self, x: int, y: int, z: int) -> bool {
        self.solid(x, y, z) && !self.enclosed(x, y, z)
    }

    /// Some cell strictly below `y` in column `(x, z)` is solid.
    pub open spec fn solid_below(&self, x: int, y: int, z: int) -> bool {
        exists|y0: int| 0 <= y0 < y && #[trigger] self.solid(x, y0, z)
    }

    /// An empty in-bounds cell with a solid cell somewhere below it.
    pub open spec fn opening(&self, x: int, y: int, z: int) -> bool {
        self.in_bounds(x, y, z) && !self.cells@[x]@[y]@[z] && self.solid_below(x, y, z)
    }

    /// The first empty cell above solid ground in column `(x, z)`.
    pub open spec fn column_surface(&self, x: int, y: int, z: int) -> bool {
        self.opening(x, y, z) && forall|y1: int| 0 <= y1 < y ==> !#[trigger] self.opening(x, y1, z)
    }

    /// Builds a field of the given dimensions; `None` unless `cells` has exactly that shape.
    pub fn from_cells(width: usize, height: usize, depth: usize, cells: Vec<Vec<Vec<bool>>>) -> (r:
        Option<VoxelField>)
        ensures
            r is Some <==> ({
                &&& cells@.len() == width
                &&& forall|x: int| 0 <= x < width ==> #[trigger] cells@[x]@.len() == height
                &&& forall|x: int, y: int|
                    0 <= x < width && 0 <= y < height ==> #[trigger] cells@[x]@[y]@.len() == depth
            }),
            r matches Some(f) ==> f.wf() && f.cells@ == cells@ && f.width == width && f.height
                == height && f.depth == depth,
    {
        if cells.len() != width {
            return None;
        }
        let mut x: usize = 0;
        while x < width
            invariant
                cells@.len() == width,
                x <= width,
                forall|i: int| 0 <= i < x ==> #[trigger] cells@[i]@.len() == height,
                forall|i: int, j: int|
                    0 <= i < x && 0 <= j < height ==> #[trigger] cells@[i]@[j]@.len() == depth,
            decreases width - x,
        {
            if cells[x].len() != height {
                return None;
            }
            let mut y: usize = 0;
            while y < height
                invariant
                    cells@.len() == width,
                    x < width,
                    y <= height,
                    cells@[x as int]@.len() == height,
                    forall|i: int| 0 <= i < x ==> #[trigger] cells@[i]@.len() == height,
                    forall|i: int, j: int|
                        0 <= i < x && 0 <= j < height ==> #[trigger] cells@[i]@[j]@.len() == depth,
                    forall|j: int| 0 <= j < y ==> #[trigger] cells@[x as int]@[j]@.len() == depth,
                decreases height - y,
            {
                if cells[x][y].len() != depth {
                    return None;
                }
                y = y + 1;
            }
            x = x + 1;
        }
        Some(VoxelField { width, height, depth, cells })
    }

    /// Whether cell `(x, y, z)` is solid.
    pub fn is_solid(&self, x: usize, y: usize, z: usize) -> (r: bool)
        requires
            self.wf(),
            self.in_bounds(x as int, y as int, z as int),
        ensures
            r == self.solid(x as int, y as int, z as int),
    {
        self.cells[x][y][z]
    }

    /// Whether cell `(x, y, z)` is solid and exposes at least one face.
    pub fn is_surface(&self, x: usize, y: usize, z: usize) -> (r: bool)
        requires
            self.wf(),
            self.in_bounds(x as int, y as int, z as int),
        ensures
            r == self.surface(x as int, y as int, z as int),
    {
        if !self.cells[x][y][z] {
            return false;
        }
        let enclosed = (x > 0 && self.cells[x - 1][y][z]) && (x + 1 < self.width && self.cells[x
            + 1][y][z]) && (y > 0 && self.cells[x][y - 1][z]) && (y + 1 < self.height
            && self.cells[x][y + 1][z]) && (z > 0 && self.cells[x][y][z - 1]) && (z + 1
            < self.depth && self.cells[x][y][z + 1]);
        !enclosed
    }

    /// The positions of all surface cells, in ascending `(x, y, z)` order: one cube each.
    pub fn spawn_cubes(&self) -> (r: Vec<Pos>)
        requires
            self.wf(),
        ensures
            forall|p: Pos| #[trigger]
                r@.contains(p) <==> self.surface(p.0 as int, p.1 as int, p.2 as int),
            forall|i: int, j: int| 0 <= i < j < r@.len() ==> pos_lt(#[trigger] r@[i], #[trigger] r@[j]),
    {
        let mut out: Vec<Pos> = Vec::new();
        let mut x: usize = 0;
        while x < self.width
            invariant
                self.wf(),
                x <= self.width,
                forall|p: Pos| #[trigger]
                    out@.contains(p) <==> self.surface(p.0 as int, p.1 as int, p.2 as int) && p.0 < x,
                forall|i: int, j: int| 0 <= i < j < out@.len() ==> pos_lt(#[trigger] out@[i], #[trigger] out@[j]),
                forall|i: int| 0 <= i < out@.len() ==> (#[trigger] out@[i]).0 < x,
            decreases self.width - x,
        {
            let mut y: usize = 0;
            while y < self.height
                invariant
                    self.wf(),
                    x < self.width,
                    y <= self.height,
                    forall|p: Pos| #[trigger]
                        out@.contains(p) <==> self.surface(p.0 as int, p.1 as int, p.2 as int) && (p.0 < x
                            || (p.0 == x && p.1 < y)),
                    forall|i: int, j: int| 0 <= i < j < out@.len() ==> pos_lt(#[trigger] out@[i], #[trigger] out@[j]),
                    forall|i: int| 0 <= i < out@.len() ==> pos_lt(#[trigger] out@[i], (x, y, 0)),
                decreases self.height - y,
            {
                let mut z: usize = 0;
                while z < self.depth
                    invariant
                        self.wf(),
                        x < self.width,
                        y < self.height,
                        z <= self.depth,
                        forall|p: Pos| #[trigger]
                            out@.contains(p) <==> self.surface(p.0 as int, p.1 as int, p.2 as int) && (p.0 < x
                                || (p.0 == x && p.1 < y) || (p.0 == x && p.1 == y && p.2 < z)),
                        forall|i: int, j: int| 0 <= i < j < out@.len() ==> pos_lt(#[trigger] out@[i], #[trigger] out@[j]),
                        forall|i: int| 0 <= i < out@.len() ==> pos_lt(#[trigger] out@[i], (x, y, z)),
                    decreases self.depth - z,
                {
                    if self.is_surface(x, y, z) {
                        let ghost prev = out@;
                        out.push((x, y, z));
                        assert forall|p: Pos| #[trigger] out@.contains(p) <==> (prev.contains(p) || p == (x, y, z)) by {
                            if out@.contains(p) {
                                let k = choose|k: int| 0 <= k < out@.len() && out@[k] == p;
                                if k < prev.len() {
                                    assert(prev[k] == p);
                                }
                            }
                            if prev.contains(p) {
                                let k = choose|k: int| 0 <= k < prev.len() && prev[k] == p;
                                assert(out@[k] == p);
                            }
                            if p == (x, y, z) {
                                assert(out@[prev.len() as int] == p);
                            }
                        }
                    }
                    z = z + 1;
                }
                y = y + 1;
            }
            x = x + 1;
        }
        out
    }

    /// For each `(x, z)` column in ascending order, the first empty cell above a solid cell.
    pub fn sample_columns(&self) -> (r: Vec<Pos>)
        requires
            self.wf(),
        ensures
            forall|p: Pos| #[trigger]
                r@.contains(p) <==> self.column_surface(p.0 as int, p.1 as int, p.2 as int),
            forall|i: int, j: int| 0 <= i < j < r@.len() ==> column_lt(#[trigger] r@[i], #[trigger] r@[j]),
    {
        let mut out: Vec<Pos> = Vec::new();
        let mut x: usize = 0;
        while x < self.width
            invariant
                self.wf(),
                x <= self.width,
                forall|p: Pos| #[trigger]
                    out@.contains(p) <==> self.column_surface(p.0 as int, p.1 as int, p.2 as int) && p.0 < x,
                forall|i: int, j: int| 0 <= i < j < out@.len() ==> column_lt(#[trigger] out@[i], #[trigger] out@[j]),
                forall|i: int| 0 <= i < out@.len() ==> (#[trigger] out@[i]).0 < x,
            decreases self.width - x,
        {
            let mut z: usize = 0;
            while z < self.depth
                invariant
                    self.wf(),
                    x < self.width,
                    z <= self.depth,
                    forall|p: Pos| #[trigger]
                        out@.contains(p) <==> self.column_surface(p.0 as int, p.1 as int, p.2 as int) && (p.0 < x
                            || (p.0 == x && p.2 < z)),
                    forall|i: int, j: int| 0 <= i < j < out@.len() ==> column_lt(#[trigger] out@[i], #[trigger] out@[j]),
                    forall|i: int| 0 <= i < out@.len() ==> column_lt(#[trigger] out@[i], (x, 0, z)),
                decreases self.depth - z,
            {
                let found = self.column_opening(x, z);
                let ghost prev = out@;
                if let Some(y) = found {
                    out.push((x, y, z));
                    assert forall|p: Pos| #[trigger] out@.contains(p) <==> (prev.contains(p) || p == (x, y, z)) by {
                        if out@.contains(p) {
                            let k = choose|k: int| 0 <= k < out@.len() && out@[k] == p;
                            if k < prev.len() {
                                assert(prev[k] == p);
                            }
                        }
                        if prev.contains(p) {
                            let k = choose|k: int| 0 <= k < prev.len() && prev[k] == p;
                            assert(out@[k] == p);
                        }
                        if p == (x, y, z) {
                            assert(out@[prev.len() as int] == p);
                        }
                    }
                }
                assert forall|p: Pos| #[trigger] out@.contains(p) <==> self.column_surface(p.0 as int, p.1 as int, p.2 as int) && (p.0 < x
                    || (p.0 == x && p.2 < z + 1)) by {
                    if p.0 == x && p.2 == z && self.column_surface(p.0 as int, p.1 as int, p.2 as int) {
                        self.lemma_column_surface_unique(x as int, p.1 as int, found.unwrap() as int, z as int);
                    }
                }
                z = z + 1;
            }
            x = x + 1;
        }
        out
    }

    /// Scans column `(x, z)` upwards for the first empty cell above a solid cell.
    pub fn column_opening(&self, x: usize, z: usize) -> (r: Option<usize>)
        requires
            self.wf(),
            x < self.width,
            z < self.depth,
        ensures
            r matches Some(y) ==> self.column_surface(x as int, y as int, z as int),
            r is None ==> forall|y: int| !#[trigger] self.column_surface(x as int, y, z as int),
    {
        let mut has_block_below = false;
        let mut y: usize = 0;
        while y < self.height
            invariant
                self.wf(),
                x < self.width,
                z < self.depth,
                y <= self.height,
                has_block_below == self.solid_below(x as int, y as int, z as int),
                forall|y1: int| 0 <= y1 < y ==> !#[trigger] self.opening(x as int, y1, z as int),
            decreases self.height - y,
        {
            if self.cells[x][y][z] {
                has_block_below = true;
                assert(self.solid(x as int, y as int, z as int));
                assert(self.solid_below(x as int, y + 1, z as int));
            } else if has_block_below {
                return Some(y);
            } else {
                assert(!self.solid_below(x as int, y + 1, z as int)) by {
                    if self.solid_below(x as int, y + 1, z as int) {
                        let y0 = choose|y0: int| 0 <= y0 < y + 1 && #[trigger] self.solid(x as int, y0, z as int);
                        if y0 < y {
                            assert(self.solid_below(x as int, y as int, z as int));
                        }
                    }
                }
            }
            if has_block_below {
                assert(self.solid_below(x as int, y + 1, z as int));
            }
            y = y + 1;
        }
        None
    }

    /// A column has at most one surface position.
    pub proof fn lemma_column_surface_unique(&self, x: int, y1: int, y2: int, z: int)
        requires
            self.column_surface(x, y1, z),
            self.column_surface(x, y2, z),
        ensures
            y1 == y2,
    {
        if y1 < y2 {
            assert(!self.opening(x, y1, z));
        } else if y2 < y1 {
            assert(!self.opening(x, y2, z));
        }
    }
}

/// A cell counts as surface exactly when it is solid and one of its six neighbours is
/// outside the grid or empty.
pub proof fn lemma_surface_exposure(f: &VoxelField, x: int, y: int, z: int)
    requires
        f.wf(),
    ensures
        f.surface(x, y, z) <==> f.solid(x, y, z) && ({
            ||| !f.in_bounds(x - 1, y, z) || !f.cells@[x - 1]@[y]@[z]
            ||| !f.in_bounds(x + 1, y, z) || !f.cells@[x + 1]@[y]@[z]
            ||| !f.in_bounds(x, y - 1, z) || !f.cells@[x]@[y - 1]@[z]
            ||| !f.in_bounds(x, y + 1, z) || !f.cells@[x]@[y + 1]@[z]
            ||| !f.in_bounds(x, y, z - 1) || !f.cells@[x]@[y]@[z - 1]
            ||| !f.in_bounds(x, y, z + 1) || !f.cells@[x]@[y]@[z + 1]
        }),
{
}

/// Each column yields at most one sampled position, and that position is an empty cell
/// resting directly on a solid one.
pub proof fn lemma_column_sampling(f: &VoxelField, x: int, y: int, z: int)
    requires
        f.wf(),
        f.column_surface(x, y, z),
    ensures
        forall|y2: int| #[trigger] f.column_surface(x, y2, z) ==> y2 == y,
        y >= 1,
        f.solid(x, y - 1, z),
        !f.solid(x, y, z),
{
    assert forall|y2: int| #[trigger] f.column_surface(x, y2, z) implies y2 == y by {
        f.lemma_column_surface_unique(x, y, y2, z);
    }
    let y0 = choose|y0: int| 0 <= y0 < y && #[trigger] f.solid(x, y0, z);
    if !f.solid(x, y - 1, z) {
        assert(y0 < y - 1);
        assert(f.solid_below(x, y - 1, z));
        assert(f.opening(x, y - 1, z));
    }
}

} // verus!
