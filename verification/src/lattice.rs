//! A dense 3D grid and its row-major indexing.

use vstd::prelude::*;
use vstd::arithmetic::div_mod::{
    lemma_div_denominator, lemma_fundamental_div_mod, lemma_fundamental_div_mod_converse,
    lemma_mod_bound,
};

verus! {

/// The dimensions of a 3D grid. The lattice owns no cell data: state arrays
/// are supplied by the caller, one byte per cell, laid out by `index`.
#[derive(Debug, Clone, Copy)]
pub struct Lattice3D {
    pub width: usize,
    pub height: usize,
    pub depth: usize,
}

impl Lattice3D {
    /// The number of cells, as a mathematical integer.
    pub open spec fn cell_count(&self) -> nat {
        (self.width * self.height * self.depth) as nat
    }

    /// Every cell has a linear index that a `usize` can hold.
    pub open spec fn addressable(&self) -> bool {
        self.cell_count() <= usize::MAX
    }

    /// The coordinate lies inside the grid on all three axes.
    pub open spec fn in_bounds(&self, x: int, y: int, z: int) -> bool {
        &&& 0 <= x < self.width
        &&& 0 <= y < self.height
        &&& 0 <= z < self.depth
    }

    /// The row-major, z-major linear index of a coordinate.
    pub open spec fn index_spec(&self, x: int, y: int, z: int) -> int {
        z * (self.width * self.height) + y * self.width + x
    }

    /// The coordinate that a linear index stands for.
    pub open spec fn coords_spec(&self, i: int) -> (int, int, int) {
        (
            i % (self.width as int),
            (i / (self.width as int)) % (self.height as int),
            i / (self.width * self.height),
        )
    }

    /// An in-bounds coordinate has an index below the cell count, and a
    /// lattice that has a cell has at least one full layer of cells.
    pub proof fn lemma_index_in_range(&self, x: int, y: int, z: int)
        requires
            self.in_bounds(x, y, z),
        ensures
            0 <= self.index_spec(x, y, z) < self.cell_count(),
            self.width * self.height <= self.cell_count(),
    {
        let w = self.width as int;
        let h = self.height as int;
        let d = self.depth as int;
        assert(0 <= z * (w * h) + y * w + x < w * h * d && w * h <= w * h * d)
            by (nonlinear_arith)
            requires
                0 <= x < w,
                0 <= y < h,
                0 <= z < d,
        ;
    }

    /// Every index below the cell count stands for exactly one in-bounds
    /// coordinate, the one `coords_spec` gives.
    pub proof fn lemma_coords_of_index(&self, i: int)
        requires
            0 <= i < self.cell_count(),
        ensures
            ({
                let (x, y, z) = self.coords_spec(i);
                self.in_bounds(x, y, z) && self.index_spec(x, y, z) == i
            }),
    {
        let w = self.width as int;
        let h = self.height as int;
        let d = self.depth as int;
        assert(w > 0 && h > 0 && d > 0 && w * h > 0) by (nonlinear_arith)
            requires
                0 <= w,
                0 <= h,
                0 <= d,
                0 <= i < w * h * d,
        ;
        let q = i / w;
        lemma_fundamental_div_mod(i, w);
        lemma_mod_bound(i, w);
        lemma_fundamental_div_mod(q, h);
        lemma_mod_bound(q, h);
        lemma_div_denominator(i, w, h);
        let x = i % w;
        let y = q % h;
        let z = q / h;
        assert(z == i / (w * h));
        assert(0 <= z < d && z * (w * h) + y * w + x == i) by (nonlinear_arith)
            requires
                0 <= i < w * h * d,
                i == w * q + x,
                q == h * z + y,
                0 <= x < w,
                0 <= y < h,
                w > 0,
                h > 0,
        ;
    }

    /// The coordinate of an in-bounds cell is recovered from its index.
    pub proof fn lemma_index_of_coords(&self, x: int, y: int, z: int)
        requires
            self.in_bounds(x, y, z),
        ensures
            self.coords_spec(self.index_spec(x, y, z)) == (x, y, z),
    {
        let w = self.width as int;
        let h = self.height as int;
        let i = self.index_spec(x, y, z);
        let q = z * h + y;
        assert(i == q * w + x && w * h > 0 && q >= 0) by (nonlinear_arith)
            requires
                i == z * (w * h) + y * w + x,
                q == z * h + y,
                0 <= x < w,
                0 <= y < h,
                0 <= z,
        ;
        lemma_fundamental_div_mod_converse(i, w, q, x);
        lemma_fundamental_div_mod_converse(q, h, z, y);
        lemma_div_denominator(i, w, h);
    }

    /// Two in-bounds coordinates with the same index are the same
    /// coordinate.
    pub proof fn lemma_index_injective(&self, x1: int, y1: int, z1: int, x2: int, y2: int, z2: int)
        requires
            self.in_bounds(x1, y1, z1),
            self.in_bounds(x2, y2, z2),
            self.index_spec(x1, y1, z1) == self.index_spec(x2, y2, z2),
        ensures
            x1 == x2,
            y1 == y2,
            z1 == z2,
    {
        self.lemma_index_of_coords(x1, y1, z1);
        self.lemma_index_of_coords(x2, y2, z2);
    }

    /// A lattice of the given dimensions. A zero dimension gives an empty
    /// lattice.
    pub fn new(width: usize, height: usize, depth: usize) -> (lattice: Self)
        ensures
            lattice.width == width,
            lattice.height == height,
            lattice.depth == depth,
    {
        Self { width, height, depth }
    }

    /// The number of cells.
    pub fn size(&self) -> (n: usize)
        requires
            self.addressable(),
        ensures
            n == self.cell_count(),
    {
        if self.depth == 0 {
            assert(self.width * self.height * self.depth == 0) by (nonlinear_arith)
                requires
                    self.depth == 0,
            ;
            0
        } else {
            assert(self.width * self.height <= self.width * self.height * self.depth)
                by (nonlinear_arith)
                requires
                    self.depth >= 1,
            ;
            self.width * self.height * self.depth
        }
    }

    /// The number of cells, or `None` when it does not fit a `usize`.
    pub fn checked_size(&self) -> (n: Option<usize>)
        ensures
            self.addressable() <==> n is Some,
            n matches Some(count) ==> count == self.cell_count(),
    {
        if self.depth == 0 {
            assert(self.width * self.height * self.depth == 0) by (nonlinear_arith)
                requires
                    self.depth == 0,
            ;
            return Some(0);
        }
        assert(self.width * self.height <= self.width * self.height * self.depth)
            by (nonlinear_arith)
            requires
                self.depth >= 1,
        ;
        match self.width.checked_mul(self.height) {
            Some(layer) => layer.checked_mul(self.depth),
            None => None,
        }
    }

    /// The linear index of the cell at `(x, y, z)`.
    pub fn index(&self, x: usize, y: usize, z: usize) -> (i: usize)
        requires
            self.addressable(),
            self.in_bounds(x as int, y as int, z as int),
        ensures
            i == self.index_spec(x as int, y as int, z as int),
            i < self.cell_count(),
    {
        proof {
            self.lemma_index_in_range(x as int, y as int, z as int);
            let w = self.width as int;
            let h = self.height as int;
            assert(0 <= z * (w * h) <= z * (w * h) + y * w && 0 <= y * w) by (nonlinear_arith)
                requires
                    0 <= w,
                    0 <= h,
                    0 <= y,
                    0 <= z,
            ;
        }
        z * (self.width * self.height) + y * self.width + x
    }
}

} // verus!
