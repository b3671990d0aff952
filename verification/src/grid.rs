//! Dense 3-D grids over a rectangular room, stored row-major over
//! (width, height, depth). Every field of the simulation — pressure,
//! particle velocity, the obstacle mask and the open-neighbour counts —
//! is one of these grids; they all share one shape.

use vstd::prelude::*;

use vstd::arithmetic::div_mod::lemma_div_pos_is_pos;
use vstd::arithmetic::div_mod::lemma_fundamental_div_mod;
use vstd::arithmetic::div_mod::lemma_mod_pos_bound;

verus! {

/// Bit set in a geometry cell to mark it solid; a cell with value 0 is air.
pub const WALL_FLAG: i8 = 1;

/// A geometry cell is air exactly when no flag bit is set on it.
pub open spec fn is_air(flag: i8) -> bool {
    flag == 0
}

/// A dense 3-D array of cells with extents `w × h × d`, laid out row-major
/// over (w, h, d): cell (wi, hi, di) lives at linear index
/// `(wi·h + hi)·d + di`.
pub struct Grid3<T> {
    pub w: usize,
    pub h: usize,
    pub d: usize,
    pub cells: Vec<T>,
}

impl<T> Grid3<T> {
    /// Total number of cells the extents call for.
    pub open spec fn size(self) -> int {
        self.w * self.h * self.d
    }

    /// Well-formed: positive extents, a cell count that fits the machine,
    /// and storage of exactly that length.
    pub open spec fn wf(self) -> bool {
        &&& self.w >= 1
        &&& self.h >= 1
        &&& self.d >= 1
        &&& self.w * self.h * self.d <= usize::MAX
        &&& self.cells@.len() == self.w * self.h * self.d
    }

    /// The linear index of cell (wi, hi, di) in the row-major layout.
    pub open spec fn idx(self, wi: int, hi: int, di: int) -> int {
        (wi * self.h + hi) * self.d + di
    }

    /// Whether (wi, hi, di) names a cell of this grid.
    pub open spec fn in_bounds(self, wi: int, hi: int, di: int) -> bool {
        &&& 0 <= wi < self.w
        &&& 0 <= hi < self.h
        &&& 0 <= di < self.d
    }

    /// The value stored at cell (wi, hi, di).
    pub open spec fn cell(self, wi: int, hi: int, di: int) -> T {
        self.cells@[self.idx(wi, hi, di)]
    }

    /// Two grids have the same shape, whatever they hold.
    pub open spec fn same_shape<U>(self, other: Grid3<U>) -> bool {
        self.w == other.w && self.h == other.h && self.d == other.d
    }
}

/// The linear index of an in-bounds cell is itself in bounds, and the
/// partial products used to compute it stay below the total size.
pub proof fn lemma_idx_bounds(w: int, h: int, d: int, wi: int, hi: int, di: int)
    by (nonlinear_arith)
    requires
        0 <= wi < w,
        0 <= hi < h,
        0 <= di < d,
    ensures
        0 <= wi * h + hi < w * h,
        w * h <= w * h * d,
        0 <= (wi * h + hi) * d + di < w * h * d,
{
}

/// Two grids of one element type with the same shape and the same stored
/// sequence: equal in every way a contract can observe.
pub open spec fn same_contents<T>(a: Grid3<T>, b: Grid3<T>) -> bool {
    &&& a.w == b.w
    &&& a.h == b.h
    &&& a.d == b.d
    &&& a.cells@ == b.cells@
}

/// Every linear index below the size is the index of some cell: the
/// coordinates recovered by the row-major quotients.
pub proof fn lemma_idx_covers(w: int, h: int, d: int, j: int) -> (r: (int, int, int))
    requires
        1 <= w,
        1 <= h,
        1 <= d,
        0 <= j < w * h * d,
    ensures
        0 <= r.0 < w,
        0 <= r.1 < h,
        0 <= r.2 < d,
        (r.0 * h + r.1) * d + r.2 == j,
{
    let hd: int = h * d;
    assert(hd >= 1 && w * h * d == w * hd) by (nonlinear_arith)
        requires
            h >= 1,
            d >= 1,
            hd == h * d,
    ;
    lemma_fundamental_div_mod(j, hd);
    lemma_mod_pos_bound(j, hd);
    lemma_div_pos_is_pos(j, hd);
    let x: int = j / hd;
    let rem: int = j % hd;
    assert(x < w) by (nonlinear_arith)
        requires
            j == hd * x + rem,
            0 <= rem,
            hd >= 1,
            x >= 0,
            j < w * hd,
    ;
    lemma_fundamental_div_mod(rem, d);
    lemma_mod_pos_bound(rem, d);
    lemma_div_pos_is_pos(rem, d);
    let y: int = rem / d;
    let z: int = rem % d;
    assert(y < h) by (nonlinear_arith)
        requires
            rem == d * y + z,
            0 <= z,
            d >= 1,
            y >= 0,
            rem < h * d,
    ;
    assert((x * h + y) * d + z == j) by (nonlinear_arith)
        requires
            j == hd * x + rem,
            rem == d * y + z,
            hd == h * d,
    ;
    (x, y, z)
}

/// Two well-formed grids of one shape whose cells agree everywhere hold
/// the same sequence.
pub proof fn lemma_contents_from_cells<T>(g1: Grid3<T>, g2: Grid3<T>)
    requires
        g1.wf(),
        g2.wf(),
        g1.same_shape(g2),
        forall|x: int, y: int, z: int|
            g1.in_bounds(x, y, z) ==> #[trigger] g1.cell(x, y, z) == g2.cell(x, y, z),
    ensures
        same_contents(g1, g2),
{
    assert forall|j: int| 0 <= j < g1.cells@.len() implies g1.cells@[j] == g2.cells@[j] by {
        let r = lemma_idx_covers(g1.w as int, g1.h as int, g1.d as int, j);
        let x: int = r.0;
        let y: int = r.1;
        let z: int = r.2;
        assert(g1.in_bounds(x, y, z));
        assert(g1.idx(x, y, z) == j);
        assert(g1.cell(x, y, z) == g2.cell(x, y, z));
    }
    assert(g1.cells@ =~= g2.cells@);
}

/// Distinct in-bounds cells have distinct linear indices.
pub proof fn lemma_idx_injective(w: int, h: int, d: int, a0: int, a1: int, a2: int, b0: int, b1: int, b2: int)
    by (nonlinear_arith)
    requires
        0 <= a0 < w,
        0 <= a1 < h,
        0 <= a2 < d,
        0 <= b0 < w,
        0 <= b1 < h,
        0 <= b2 < d,
        (a0 * h + a1) * d + a2 == (b0 * h + b1) * d + b2,
    ensures
        a0 == b0 && a1 == b1 && a2 == b2,
{
}

impl<T: Copy> Grid3<T> {
    /// Allocate a grid of the given extents with every cell set to `fill`.
    /// Returns `None` exactly when an extent is zero or the cell count
    /// overflows the machine word.
    pub fn new(w: usize, h: usize, d: usize, fill: T) -> (r: Option<Grid3<T>>)
        ensures
            r is Some <==> (w >= 1 && h >= 1 && d >= 1 && w * h * d <= usize::MAX),
            r is Some ==> {
                let g = r->Some_0;
                &&& g.wf()
                &&& g.w == w
                &&& g.h == h
                &&& g.d == d
                &&& forall|i: int| 0 <= i < g.cells@.len() ==> g.cells@[i] == fill
            },
    {
        if w == 0 || h == 0 || d == 0 {
            return None;
        }
        let wh: usize = match w.checked_mul(h) {
            Some(x) => x,
            None => {
                proof {
                    lemma_size_monotone(w as int, h as int, d as int);
                }
                return None;
            },
        };
        let n: usize = match wh.checked_mul(d) {
            Some(x) => x,
            None => {
                return None;
            },
        };
        let mut cells: Vec<T> = Vec::new();
        let mut i: usize = 0;
        while i < n
            invariant
                i <= n,
                cells@.len() == i,
                forall|j: int| 0 <= j < i ==> cells@[j] == fill,
            decreases n - i,
        {
            cells.push(fill);
            i = i + 1;
        }
        Some(Grid3 { w, h, d, cells })
    }

    /// Read the cell at (wi, hi, di).
    pub fn get(&self, wi: usize, hi: usize, di: usize) -> (v: T)
        requires
            self.wf(),
            self.in_bounds(wi as int, hi as int, di as int),
        ensures
            v == self.cell(wi as int, hi as int, di as int),
    {
        proof {
            lemma_idx_bounds(self.w as int, self.h as int, self.d as int, wi as int, hi as int, di as int);
        }
        let i: usize = (wi * self.h + hi) * self.d + di;
        self.cells[i]
    }

    /// Overwrite the cell at (wi, hi, di), leaving every other cell as it was.
    pub fn set(&mut self, wi: usize, hi: usize, di: usize, v: T)
        requires
            old(self).wf(),
            old(self).in_bounds(wi as int, hi as int, di as int),
        ensures
            final(self).wf(),
            final(self).same_shape(*old(self)),
            final(self).cells@ == old(self).cells@.update(old(self).idx(wi as int, hi as int, di as int), v),
            final(self).cell(wi as int, hi as int, di as int) == v,
            forall|x: int, y: int, z: int|
                old(self).in_bounds(x, y, z) && !(x == wi && y == hi && z == di)
                    ==> final(self).cell(x, y, z) == old(self).cell(x, y, z),
    {
        proof {
            lemma_idx_bounds(self.w as int, self.h as int, self.d as int, wi as int, hi as int, di as int);
        }
        let i: usize = (wi * self.h + hi) * self.d + di;
        self.cells.set(i, v);
        proof {
            assert forall|x: int, y: int, z: int|
                old(self).in_bounds(x, y, z) && !(x == wi && y == hi && z == di)
                    implies self.cell(x, y, z) == old(self).cell(x, y, z) by {
                lemma_idx_bounds(self.w as int, self.h as int, self.d as int, x, y, z);
                if self.idx(x, y, z) == self.idx(wi as int, hi as int, di as int) {
                    lemma_idx_injective(
                        self.w as int, self.h as int, self.d as int,
                        x, y, z,
                        wi as int, hi as int, di as int,
                    );
                }
            }
        }
    }
}

/// When an extent product already overflows a prefix, the whole size does too.
proof fn lemma_size_monotone(w: int, h: int, d: int)
    by (nonlinear_arith)
    requires
        w >= 1,
        h >= 1,
        d >= 1,
    ensures
        w * h <= w * h * d,
{
}

/// Allocate a zeroed obstacle-mask-shaped grid of signed bytes.
pub fn create_grid_i8(w: usize, h: usize, d: usize) -> (r: Option<Grid3<i8>>)
    ensures
        r is Some <==> (w >= 1 && h >= 1 && d >= 1 && w * h * d <= usize::MAX),
        r is Some ==> {
            let g = r->Some_0;
            &&& g.wf()
            &&& g.w == w
            &&& g.h == h
            &&& g.d == d
            &&& forall|i: int| 0 <= i < g.cells@.len() ==> g.cells@[i] == 0i8
        },
{
    Grid3::<i8>::new(w, h, d, 0i8)
}

/// Allocate a zeroed sample grid for a field such as pressure.
pub fn create_grid_i64(w: usize, h: usize, d: usize) -> (r: Option<Grid3<i64>>)
    ensures
        r is Some <==> (w >= 1 && h >= 1 && d >= 1 && w * h * d <= usize::MAX),
        r is Some ==> {
            let g = r->Some_0;
            &&& g.wf()
            &&& g.w == w
            &&& g.h == h
            &&& g.d == d
            &&& forall|i: int| 0 <= i < g.cells@.len() ==> g.cells@[i] == 0i64
        },
{
    Grid3::<i64>::new(w, h, d, 0i64)
}

} // verus!
