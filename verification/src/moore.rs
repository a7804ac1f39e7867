//! Moore neighbourhoods on a 3D lattice: which cells surround a cell, in
//! which order they are listed, and how many there are.

use vstd::prelude::*;
use crate::lattice::Lattice3D;

verus! {

/// The 27 offset vectors of a Moore neighbourhood are numbered 0 to 26 in
/// row-major order, z outermost and x innermost; number 13 is the zero
/// vector. This is the x component of vector `k`.
pub open spec fn offset_x(k: int) -> int {
    k % 3 - 1
}

/// The y component of offset vector `k`.
pub open spec fn offset_y(k: int) -> int {
    (k / 3) % 3 - 1
}

/// The z component of offset vector `k`.
pub open spec fn offset_z(k: int) -> int {
    k / 9 - 1
}

/// The offset numbers in the order in which neighbours are listed.
pub open spec fn offset_numbers() -> Seq<int> {
    Seq::new(27, |k: int| k)
}

/// How many of `c - 1`, `c` and `c + 1` lie in `[0, limit)`.
pub open spec fn span(c: int, limit: int) -> int {
    (if 0 <= c - 1 < limit {
        1int
    } else {
        0int
    }) + (if 0 <= c < limit {
        1int
    } else {
        0int
    }) + (if 0 <= c + 1 < limit {
        1int
    } else {
        0int
    })
}

/// Multiplying by a span adds the factor once for each position counted.
proof fn lemma_mul_by_span(a: int, c: int, limit: int)
    ensures
        a * span(c, limit) == (if 0 <= c - 1 < limit {
            a
        } else {
            0int
        }) + (if 0 <= c < limit {
            a
        } else {
            0int
        }) + (if 0 <= c + 1 < limit {
            a
        } else {
            0int
        }),
{
    let n = span(c, limit);
    assert(n == 0 ==> a * n == 0) by (nonlinear_arith);
    assert(n == 1 ==> a * n == a) by (nonlinear_arith);
    assert(n == 2 ==> a * n == a + a) by (nonlinear_arith);
    assert(n == 3 ==> a * n == a + a + a) by (nonlinear_arith);
}

impl Lattice3D {
    /// Offset `k` leads from `(x, y, z)` to a cell of the lattice other than
    /// `(x, y, z)` itself.
    pub open spec fn has_neighbor(&self, x: int, y: int, z: int, k: int) -> bool {
        &&& k != 13
        &&& self.in_bounds(x + offset_x(k), y + offset_y(k), z + offset_z(k))
    }

    /// The index of the cell that offset `k` leads to from `(x, y, z)`.
    pub open spec fn neighbor_index(&self, x: int, y: int, z: int, k: int) -> usize {
        self.index_spec(x + offset_x(k), y + offset_y(k), z + offset_z(k)) as usize
    }

    /// `has_neighbor` as a predicate on offset numbers.
    pub open spec fn neighbor_filter(&self, x: int, y: int, z: int) -> spec_fn(int) -> bool {
        |k: int| self.has_neighbor(x, y, z, k)
    }

    /// `neighbor_index` as a function of the offset number.
    pub open spec fn neighbor_map(&self, x: int, y: int, z: int) -> spec_fn(int) -> usize {
        |k: int| self.neighbor_index(x, y, z, k)
    }

    /// The Moore neighbourhood of `(x, y, z)`: the indices of the cells that
    /// the 26 non-zero offsets lead to, in offset order, leaving out every
    /// offset that leads outside the lattice. Nothing wraps around.
    pub open spec fn moore_neighbors_spec(&self, x: int, y: int, z: int) -> Seq<usize> {
        offset_numbers().filter(self.neighbor_filter(x, y, z)).map_values(
            self.neighbor_map(x, y, z),
        )
    }

    /// The offsets among the first `k` that lead to a neighbour.
    spec fn offsets_upto(&self, x: int, y: int, z: int, k: int) -> Seq<int> {
        offset_numbers().take(k).filter(self.neighbor_filter(x, y, z))
    }

    /// The neighbours found among the first `k` offsets.
    spec fn neighbors_upto(&self, x: int, y: int, z: int, k: int) -> Seq<usize> {
        self.offsets_upto(x, y, z, k).map_values(self.neighbor_map(x, y, z))
    }

    /// How many of the first `k` offsets lead to a neighbour.
    spec fn count_upto(&self, x: int, y: int, z: int, k: int) -> int
        decreases k,
    {
        if k <= 0 {
            0
        } else {
            self.count_upto(x, y, z, k - 1) + if self.has_neighbor(x, y, z, k - 1) {
                1int
            } else {
                0int
            }
        }
    }

    proof fn lemma_upto_ends(&self, x: int, y: int, z: int)
        ensures
            self.offsets_upto(x, y, z, 0) == Seq::<int>::empty(),
            self.neighbors_upto(x, y, z, 0) == Seq::<usize>::empty(),
            self.offsets_upto(x, y, z, 27) == offset_numbers().filter(
                self.neighbor_filter(x, y, z),
            ),
            self.neighbors_upto(x, y, z, 27) == self.moore_neighbors_spec(x, y, z),
    {
        reveal(Seq::filter);
        assert(offset_numbers().take(0) =~= Seq::<int>::empty());
        assert(self.offsets_upto(x, y, z, 0) =~= Seq::<int>::empty());
        assert(self.neighbors_upto(x, y, z, 0) =~= Seq::<usize>::empty());
        assert(offset_numbers().take(27) =~= offset_numbers());
    }

    proof fn lemma_upto_step(&self, x: int, y: int, z: int, k: int)
        requires
            0 <= k < 27,
        ensures
            self.has_neighbor(x, y, z, k) ==> {
                &&& self.offsets_upto(x, y, z, k + 1) == self.offsets_upto(x, y, z, k).push(k)
                &&& self.neighbors_upto(x, y, z, k + 1) == self.neighbors_upto(x, y, z, k).push(
                    self.neighbor_index(x, y, z, k),
                )
            },
            !self.has_neighbor(x, y, z, k) ==> {
                &&& self.offsets_upto(x, y, z, k + 1) == self.offsets_upto(x, y, z, k)
                &&& self.neighbors_upto(x, y, z, k + 1) == self.neighbors_upto(x, y, z, k)
            },
    {
        let keep = self.neighbor_filter(x, y, z);
        let to_index = self.neighbor_map(x, y, z);
        let before = offset_numbers().take(k);
        assert(offset_numbers().take(k + 1) =~= before.push(k));
        before.lemma_filter_push(k, keep);
        if self.has_neighbor(x, y, z, k) {
            assert(before.filter(keep).push(k).map_values(to_index) =~= before.filter(
                keep,
            ).map_values(to_index).push(to_index(k)));
        }
    }

    /// The offsets kept among the first `k` are in ascending order, each
    /// below `k` and each leading to a neighbour, and `count_upto` counts
    /// them.
    proof fn lemma_offsets_upto(&self, x: int, y: int, z: int, k: int)
        requires
            0 <= k <= 27,
        ensures
            self.offsets_upto(x, y, z, k).len() == self.count_upto(x, y, z, k),
            forall|j: int|
                0 <= j < self.offsets_upto(x, y, z, k).len() ==> {
                    &&& 0 <= (#[trigger] self.offsets_upto(x, y, z, k)[j]) < k
                    &&& self.has_neighbor(x, y, z, self.offsets_upto(x, y, z, k)[j])
                },
            forall|i: int, j: int|
                0 <= i < j < self.offsets_upto(x, y, z, k).len() ==> self.offsets_upto(
                    x,
                    y,
                    z,
                    k,
                )[i] < self.offsets_upto(x, y, z, k)[j],
        decreases k,
    {
        if k == 0 {
            self.lemma_upto_ends(x, y, z);
        } else {
            self.lemma_offsets_upto(x, y, z, k - 1);
            self.lemma_upto_step(x, y, z, k - 1);
        }
    }

    /// Every listed neighbour is the index of a cell of the lattice that
    /// differs from `(x, y, z)` by at most one step on each axis and is not
    /// `(x, y, z)` itself. There are never more than 26.
    pub proof fn lemma_moore_neighbors_sound(&self, x: int, y: int, z: int)
        requires
            self.addressable(),
        ensures
            self.moore_neighbors_spec(x, y, z).len() <= 26,
            forall|j: int|
                0 <= j < self.moore_neighbors_spec(x, y, z).len() ==> {
                    let i = #[trigger] self.moore_neighbors_spec(x, y, z)[j];
                    let (nx, ny, nz) = self.coords_spec(i as int);
                    &&& i < self.cell_count()
                    &&& self.in_bounds(nx, ny, nz)
                    &&& x - 1 <= nx <= x + 1
                    &&& y - 1 <= ny <= y + 1
                    &&& z - 1 <= nz <= z + 1
                    &&& (nx, ny, nz) != (x, y, z)
                },
    {
        self.lemma_upto_ends(x, y, z);
        self.lemma_offsets_upto(x, y, z, 27);
        self.lemma_moore_neighbors_len(x, y, z);
        let offsets = self.offsets_upto(x, y, z, 27);
        let listed = self.moore_neighbors_spec(x, y, z);
        assert forall|j: int| 0 <= j < listed.len() implies {
            let i = #[trigger] listed[j];
            let (nx, ny, nz) = self.coords_spec(i as int);
            &&& i < self.cell_count()
            &&& self.in_bounds(nx, ny, nz)
            &&& x - 1 <= nx <= x + 1
            &&& y - 1 <= ny <= y + 1
            &&& z - 1 <= nz <= z + 1
            &&& (nx, ny, nz) != (x, y, z)
        } by {
            let k = offsets[j];
            assert(listed[j] == self.neighbor_index(x, y, z, k));
            let cx = x + offset_x(k);
            let cy = y + offset_y(k);
            let cz = z + offset_z(k);
            self.lemma_index_in_range(cx, cy, cz);
            self.lemma_index_of_coords(cx, cy, cz);
        }
    }

    /// Every cell of the lattice that differs from `(x, y, z)` by at most
    /// one step on each axis, other than `(x, y, z)` itself, is listed.
    pub proof fn lemma_moore_neighbors_complete(
        &self,
        x: int,
        y: int,
        z: int,
        nx: int,
        ny: int,
        nz: int,
    )
        requires
            self.addressable(),
            self.in_bounds(nx, ny, nz),
            x - 1 <= nx <= x + 1,
            y - 1 <= ny <= y + 1,
            z - 1 <= nz <= z + 1,
            (nx, ny, nz) != (x, y, z),
        ensures
            self.moore_neighbors_spec(x, y, z).contains(self.index_spec(nx, ny, nz) as usize),
    {
        let k = 9 * (nz - z + 1) + 3 * (ny - y + 1) + (nx - x + 1);
        assert(offset_x(k) == nx - x && offset_y(k) == ny - y && offset_z(k) == nz - z);
        assert(self.has_neighbor(x, y, z, k));
        let keep = self.neighbor_filter(x, y, z);
        assert(offset_numbers()[k] == k);
        offset_numbers().lemma_filter_contains(keep, k);
        let kept = offset_numbers().filter(keep);
        let j = choose|j: int| 0 <= j < kept.len() && kept[j] == k;
        assert(self.moore_neighbors_spec(x, y, z)[j] == self.neighbor_index(x, y, z, k));
    }

    /// No cell is listed twice.
    pub proof fn lemma_moore_neighbors_distinct(&self, x: int, y: int, z: int)
        requires
            self.addressable(),
        ensures
            self.moore_neighbors_spec(x, y, z).no_duplicates(),
    {
        self.lemma_upto_ends(x, y, z);
        self.lemma_offsets_upto(x, y, z, 27);
        let offsets = self.offsets_upto(x, y, z, 27);
        let listed = self.moore_neighbors_spec(x, y, z);
        assert forall|i: int, j: int|
            0 <= i < listed.len() && 0 <= j < listed.len() && i != j implies listed[i]
            != listed[j] by {
            let a = offsets[i];
            let b = offsets[j];
            assert(a != b);
            assert(listed[i] == self.neighbor_index(x, y, z, a));
            assert(listed[j] == self.neighbor_index(x, y, z, b));
            self.lemma_index_in_range(x + offset_x(a), y + offset_y(a), z + offset_z(a));
            self.lemma_index_in_range(x + offset_x(b), y + offset_y(b), z + offset_z(b));
            if listed[i] == listed[j] {
                self.lemma_index_injective(
                    x + offset_x(a),
                    y + offset_y(a),
                    z + offset_z(a),
                    x + offset_x(b),
                    y + offset_y(b),
                    z + offset_z(b),
                );
                assert(a == 9 * (offset_z(a) + 1) + 3 * (offset_y(a) + 1) + (offset_x(a) + 1));
                assert(b == 9 * (offset_z(b) + 1) + 3 * (offset_y(b) + 1) + (offset_x(b) + 1));
            }
        }
    }

    /// The three offsets of row `r` (0 to 8, z outermost) contribute one
    /// neighbour for each x position in the lattice if the row itself lies in
    /// the lattice, less the cell `(x, y, z)` in the middle row.
    proof fn lemma_row_count(&self, x: int, y: int, z: int, r: int)
        requires
            0 <= r < 9,
        ensures
            self.count_upto(x, y, z, 3 * r + 3) - self.count_upto(x, y, z, 3 * r) == (if 0 <= y
                + (r % 3 - 1) < self.height && 0 <= z + (r / 3 - 1) < self.depth {
                span(x, self.width as int)
            } else {
                0int
            }) - if r == 4 && self.in_bounds(x, y, z) {
                1int
            } else {
                0int
            },
    {
        reveal_with_fuel(Lattice3D::count_upto, 4);
        let k = 3 * r;
        assert(offset_x(k) == -1 && offset_x(k + 1) == 0 && offset_x(k + 2) == 1);
        assert(offset_y(k) == r % 3 - 1 && offset_y(k + 1) == r % 3 - 1 && offset_y(k + 2) == r
            % 3 - 1);
        assert(offset_z(k) == r / 3 - 1 && offset_z(k + 1) == r / 3 - 1 && offset_z(k + 2) == r
            / 3 - 1);
    }

    /// The number of neighbours: on each axis the cell itself and its two
    /// adjacent positions are counted as far as they lie in the lattice, the
    /// three counts are multiplied, and the cell itself is taken off. That
    /// gives 26 in the interior, 17 on a face, 11 on an edge and 7 in a
    /// corner of a lattice that is at least two cells wide each way.
    pub proof fn lemma_moore_neighbors_len(&self, x: int, y: int, z: int)
        ensures
            self.moore_neighbors_spec(x, y, z).len() == span(x, self.width as int) * span(
                y,
                self.height as int,
            ) * span(z, self.depth as int) - if self.in_bounds(x, y, z) {
                1int
            } else {
                0int
            },
            self.moore_neighbors_spec(x, y, z).len() <= 26,
    {
        self.lemma_upto_ends(x, y, z);
        self.lemma_offsets_upto(x, y, z, 27);
        self.lemma_row_count(x, y, z, 0);
        self.lemma_row_count(x, y, z, 1);
        self.lemma_row_count(x, y, z, 2);
        self.lemma_row_count(x, y, z, 3);
        self.lemma_row_count(x, y, z, 4);
        self.lemma_row_count(x, y, z, 5);
        self.lemma_row_count(x, y, z, 6);
        self.lemma_row_count(x, y, z, 7);
        self.lemma_row_count(x, y, z, 8);
        assert(self.count_upto(x, y, z, 0) == 0);
        let sx = span(x, self.width as int);
        let sy = span(y, self.height as int);
        let sz = span(z, self.depth as int);
        let centre = if self.in_bounds(x, y, z) {
            1int
        } else {
            0int
        };
        lemma_mul_by_span(sx, y, self.height as int);
        lemma_mul_by_span(sx * sy, z, self.depth as int);
        assert(self.count_upto(x, y, z, 27) == sx * sy * sz - centre);
        assert(sx * sy * sz <= 27) by (nonlinear_arith)
            requires
                0 <= sx <= 3,
                0 <= sy <= 3,
                0 <= sz <= 3,
        ;
        if self.in_bounds(x, y, z) {
        } else {
            assert(sx == 0 || sy == 0 || sz == 0 || sx * sy * sz <= 26) by {
                assert(sx < 3 || sy < 3 || sz < 3);
                assert(sx * sy * sz <= 18) by (nonlinear_arith)
                    requires
                        0 <= sx <= 3,
                        0 <= sy <= 3,
                        0 <= sz <= 3,
                        sx < 3 || sy < 3 || sz < 3,
                ;
            }
            assert(sx * sy * sz <= 26) by (nonlinear_arith)
                requires
                    0 <= sx <= 3,
                    0 <= sy <= 3,
                    0 <= sz <= 3,
                    sx == 0 || sy == 0 || sz == 0 || sx * sy * sz <= 26,
            ;
        }
    }

    /// A cell strictly inside the lattice has exactly 26 neighbours, all
    /// different and none of them the cell itself.
    pub proof fn lemma_interior_neighbors(&self, x: int, y: int, z: int)
        requires
            self.addressable(),
            1 <= x < self.width - 1,
            1 <= y < self.height - 1,
            1 <= z < self.depth - 1,
        ensures
            self.moore_neighbors_spec(x, y, z).len() == 26,
            self.moore_neighbors_spec(x, y, z).no_duplicates(),
            !self.moore_neighbors_spec(x, y, z).contains(self.index_spec(x, y, z) as usize),
    {
        self.lemma_moore_neighbors_len(x, y, z);
        self.lemma_moore_neighbors_distinct(x, y, z);
        self.lemma_moore_neighbors_sound(x, y, z);
        self.lemma_index_in_range(x, y, z);
        self.lemma_index_of_coords(x, y, z);
        let sx = span(x, self.width as int);
        let sy = span(y, self.height as int);
        let sz = span(z, self.depth as int);
        assert(sx * sy * sz == 27) by (nonlinear_arith)
            requires
                sx == 3,
                sy == 3,
                sz == 3,
        ;
    }

    /// Each of the 8 corners of a lattice that is at least two cells wide
    /// each way has exactly 7 neighbours.
    pub proof fn lemma_corner_neighbors(&self, x: int, y: int, z: int)
        requires
            self.width >= 2,
            self.height >= 2,
            self.depth >= 2,
            x == 0 || x == self.width - 1,
            y == 0 || y == self.height - 1,
            z == 0 || z == self.depth - 1,
        ensures
            self.moore_neighbors_spec(x, y, z).len() == 7,
    {
        self.lemma_moore_neighbors_len(x, y, z);
        let sx = span(x, self.width as int);
        let sy = span(y, self.height as int);
        let sz = span(z, self.depth as int);
        assert(sx * sy * sz == 8) by (nonlinear_arith)
            requires
                sx == 2,
                sy == 2,
                sz == 2,
        ;
    }

    /// The Moore neighbourhood of `(x, y, z)` as linear indices: up to 26 of
    /// them, fewer at the boundary, none for a coordinate far outside. The
    /// list depends on the dimensions and the coordinate alone, so every call
    /// with the same arguments returns the same list.
    pub fn moore_neighbors(&self, x: usize, y: usize, z: usize) -> (neighbors: Vec<usize>)
        requires
            self.addressable(),
        ensures
            neighbors@ == self.moore_neighbors_spec(x as int, y as int, z as int),
    {
        let mut neighbors: Vec<usize> = Vec::with_capacity(26);
        proof {
            self.lemma_upto_ends(x as int, y as int, z as int);
        }
        for sz in 0..3usize
            invariant
                self.addressable(),
                neighbors@ == self.neighbors_upto(x as int, y as int, z as int, 9 * sz),
        {
            for sy in 0..3usize
                invariant
                    self.addressable(),
                    sz < 3,
                    neighbors@ == self.neighbors_upto(
                        x as int,
                        y as int,
                        z as int,
                        9 * sz + 3 * sy,
                    ),
            {
                for sx in 0..3usize
                    invariant
                        self.addressable(),
                        sz < 3,
                        sy < 3,
                        neighbors@ == self.neighbors_upto(
                            x as int,
                            y as int,
                            z as int,
                            9 * sz + 3 * sy + sx,
                        ),
                {
                    proof {
                        let k = 9 * sz + 3 * sy + sx;
                        self.lemma_upto_step(x as int, y as int, z as int, k);
                        assert(offset_x(k) == sx - 1 && offset_y(k) == sy - 1 && offset_z(k) == sz
                            - 1);
                    }
                    if !(sx == 1 && sy == 1 && sz == 1) {
                        let nx = shifted(x, sx, self.width);
                        let ny = shifted(y, sy, self.height);
                        let nz = shifted(z, sz, self.depth);
                        match (nx, ny, nz) {
                            (Some(nx), Some(ny), Some(nz)) => {
                                neighbors.push(self.index(nx, ny, nz));
                            },
                            _ => {},
                        }
                    }
                }
            }
        }
        neighbors
    }
}

/// The coordinate one `step` (0, 1 or 2 for -1, 0 or +1) away from `c`, if
/// it lies below `limit`.
fn shifted(c: usize, step: usize, limit: usize) -> (moved: Option<usize>)
    requires
        step <= 2,
    ensures
        moved is Some <==> 0 <= c + step - 1 < limit,
        moved matches Some(m) ==> m == c + step - 1,
{
    if step == 0 {
        if 1 <= c && c - 1 < limit {
            Some(c - 1)
        } else {
            None
        }
    } else if step == 1 {
        if c < limit {
            Some(c)
        } else {
            None
        }
    } else {
        if c < limit && c + 1 < limit {
            Some(c + 1)
        } else {
            None
        }
    }
}

} // verus!
